//! How the dashboard keeps its list: the order carried from sample to
//! sample, the order applied at each reorder, the rows shown, and the
//! selection, which stays on its PID while rows move.

use vstd::prelude::*;

use std::collections::HashSet;

use crate::app::{EnrichedProcess, SortMode, UiState};
use crate::provenance::{find_by_pid, index_of_pid, ProcessProvenance};
use crate::split::{trim, trim_exec};
use crate::task::resolver::{derived_for, find_derived};
use crate::text::{chars_of, lower, lowercase, string_of};
use crate::ui::model::{matches_query, matches_query_model};

verus! {

broadcast use vstd::std_specs::hash::group_hash_axioms;

// ---------------------------------------------------------------------------
// The order carried over a new sample
// ---------------------------------------------------------------------------

/// The first `n` PIDs of the order that are still alive.
pub open spec fn retained(ordered: Seq<i32>, live: Set<i32>, n: nat) -> Seq<i32>
    decreases n,
{
    if n == 0 {
        Seq::empty()
    } else {
        let before = retained(ordered, live, (n - 1) as nat);
        if live.contains(ordered[n - 1]) {
            before.push(ordered[n - 1])
        } else {
            before
        }
    }
}

/// `known` followed by the first `n` sampled PIDs that it does not hold yet,
/// each once, in sample order.
pub open spec fn with_new(known: Seq<i32>, sample: Seq<i32>, n: nat) -> Seq<i32>
    decreases n,
{
    if n == 0 {
        known
    } else {
        let before = with_new(known, sample, (n - 1) as nat);
        if before.contains(sample[n - 1]) {
            before
        } else {
            before.push(sample[n - 1])
        }
    }
}

/// The order after a new sample: the PIDs of the previous order that are
/// still alive, in their order, then the new PIDs in sample order.
pub open spec fn carried_order(ordered: Seq<i32>, sample: Seq<i32>) -> Seq<i32> {
    with_new(retained(ordered, sample.to_set(), ordered.len()), sample, sample.len())
}

/// The order carried over a new sample whose processes have the PIDs
/// `sample`.
pub fn carry_order(ordered: &Vec<i32>, sample: &Vec<i32>) -> (r: Vec<i32>)
    ensures
        r@ == carried_order(ordered@, sample@),
{
    let mut live: HashSet<i32> = HashSet::new();
    let mut i: usize = 0;
    while i < sample.len()
        invariant
            i <= sample@.len(),
            live@ == sample@.take(i as int).to_set(),
        decreases sample.len() - i,
    {
        proof {
            assert(sample@.take(i + 1) =~= sample@.take(i as int).push(sample@[i as int]));
            sample@.take(i as int).lemma_push_to_set_commute(sample@[i as int]);
        }
        live.insert(sample[i]);
        i = i + 1;
    }
    proof {
        assert(sample@.take(i as int) =~= sample@);
    }
    let mut r: Vec<i32> = Vec::new();
    let mut known: HashSet<i32> = HashSet::new();
    let mut k: usize = 0;
    while k < ordered.len()
        invariant
            k <= ordered@.len(),
            live@ == sample@.to_set(),
            r@ == retained(ordered@, sample@.to_set(), k as nat),
            known@ == r@.to_set(),
        decreases ordered.len() - k,
    {
        let p = ordered[k];
        if live.contains(&p) {
            proof {
                r@.lemma_push_to_set_commute(p);
            }
            r.push(p);
            known.insert(p);
        }
        k = k + 1;
    }
    let ghost base = r@;
    let mut j: usize = 0;
    while j < sample.len()
        invariant
            j <= sample@.len(),
            r@ == with_new(base, sample@, j as nat),
            known@ == r@.to_set(),
        decreases sample.len() - j,
    {
        let p = sample[j];
        if !known.contains(&p) {
            proof {
                r@.lemma_push_to_set_commute(p);
            }
            r.push(p);
            known.insert(p);
        }
        j = j + 1;
    }
    r
}

// ---------------------------------------------------------------------------
// Selection
// ---------------------------------------------------------------------------

/// The first position of `pid` among the shown PIDs.
pub open spec fn position_of(visible: Seq<i32>, pid: i32) -> Option<int> {
    if exists|i: int| 0 <= i < visible.len() && visible[i] == pid {
        Some(
            choose|i: int|
                0 <= i < visible.len() && visible[i] == pid && forall|j: int| 0 <= j < i ==> visible[j] != pid,
        )
    } else {
        None
    }
}

proof fn lemma_position_of(visible: Seq<i32>, pid: i32, i: int)
    requires
        0 <= i < visible.len(),
        visible[i] == pid,
        forall|j: int| 0 <= j < i ==> visible[j] != pid,
    ensures
        position_of(visible, pid) == Some(i),
{
    let k = choose|k: int|
        0 <= k < visible.len() && visible[k] == pid && forall|j: int| 0 <= j < k ==> visible[j] != pid;
    if k < i {
    } else if i < k {
    }
}

fn position_in(visible: &Vec<i32>, pid: i32) -> (r: Option<usize>)
    ensures
        match r {
            Some(i) => position_of(visible@, pid) == Some(i as int) && i < visible@.len() && visible@[i as int]
                == pid,
            None => position_of(visible@, pid) is None && !visible@.contains(pid),
        },
{
    let mut i: usize = 0;
    while i < visible.len()
        invariant
            i <= visible@.len(),
            forall|j: int| 0 <= j < i ==> visible@[j] != pid,
        decreases visible.len() - i,
    {
        if visible[i] == pid {
            proof {
                lemma_position_of(visible@, pid, i as int);
            }
            return Some(i);
        }
        i = i + 1;
    }
    None
}

/// The row of the selected PID among the shown PIDs.
pub open spec fn selected_position(visible: Seq<i32>, selected: Option<i32>) -> Option<int> {
    match selected {
        Some(pid) => position_of(visible, pid),
        None => None,
    }
}

/// The row of the selected process among the shown PIDs, if it is shown.
pub fn selected_index(visible: &Vec<i32>, state: &UiState) -> (r: Option<usize>)
    ensures
        match r {
            Some(i) => selected_position(visible@, state.selected_pid) == Some(i as int),
            None => selected_position(visible@, state.selected_pid) is None,
        },
{
    match state.selected_pid {
        Some(pid) => position_in(visible, pid),
        None => None,
    }
}

/// The row `delta` rows away from the selected one (from the first row when
/// the selection is not shown), kept within the rows.
pub open spec fn moved_target(visible: Seq<i32>, selected: Option<i32>, delta: int) -> int {
    let current = match selected_position(visible, selected) {
        Some(i) => i,
        None => 0,
    };
    if current + delta <= 0 {
        0
    } else if current + delta >= visible.len() - 1 {
        visible.len() - 1
    } else {
        current + delta
    }
}

/// The selection after moving `delta` rows: none when no row is shown.
pub open spec fn moved_selection(visible: Seq<i32>, selected: Option<i32>, delta: int) -> Option<i32> {
    if visible.len() == 0 {
        None
    } else {
        Some(visible[moved_target(visible, selected, delta)])
    }
}

/// Moves the selection `delta` rows, within the shown rows.
pub fn move_selection(visible: &Vec<i32>, state: &mut UiState, delta: isize)
    ensures
        *final(state) == (UiState {
            selected_pid: moved_selection(visible@, old(state).selected_pid, delta as int),
            ..*old(state)
        }),
{
    if visible.len() == 0 {
        state.selected_pid = None;
        return;
    }
    let current: usize = match selected_index(visible, state) {
        Some(i) => i,
        None => 0,
    };
    let last: usize = visible.len() - 1;
    let t: i128 = current as i128 + delta as i128;
    let target: usize = if t <= 0 {
        0
    } else if t >= last as i128 {
        last
    } else {
        t as usize
    };
    state.selected_pid = Some(visible[target]);
}

/// Moves the selection one page of `page_size` rows (at least one) in the
/// given direction.
pub fn move_page(visible: &Vec<i32>, state: &mut UiState, page_size: usize, direction: isize)
    requires
        page_size <= isize::MAX,
        isize::MIN <= (if page_size == 0 { 1 } else { page_size as int }) * direction <= isize::MAX,
    ensures
        *final(state) == (UiState {
            selected_pid: moved_selection(
                visible@,
                old(state).selected_pid,
                (if page_size == 0 { 1 } else { page_size as int }) * direction,
            ),
            ..*old(state)
        }),
{
    let size: isize = if page_size == 0 {
        1
    } else {
        page_size as isize
    };
    let distance = size * direction;
    move_selection(visible, state, distance);
}

/// Selects the first shown row, or nothing when none is shown.
pub fn select_first(visible: &Vec<i32>, state: &mut UiState)
    ensures
        *final(state) == (UiState {
            selected_pid: if visible@.len() == 0 {
                None
            } else {
                Some(visible@[0])
            },
            ..*old(state)
        }),
{
    state.selected_pid = if visible.len() == 0 {
        None
    } else {
        Some(visible[0])
    };
}

/// Selects the last shown row, or nothing when none is shown.
pub fn select_last(visible: &Vec<i32>, state: &mut UiState)
    ensures
        *final(state) == (UiState {
            selected_pid: if visible@.len() == 0 {
                None
            } else {
                Some(visible@.last())
            },
            ..*old(state)
        }),
{
    state.selected_pid = if visible.len() == 0 {
        None
    } else {
        Some(visible[visible.len() - 1])
    };
}

/// The selection after the rows changed: kept while its PID is shown; else
/// the row at the selection's former position (or the last row, or the
/// first when it had none); none when no row is shown.
pub open spec fn reconciled(visible: Seq<i32>, selected: Option<i32>, previous_index: Option<usize>) -> Option<i32> {
    if visible.len() == 0 {
        None
    } else if selected matches Some(p) && visible.contains(p) {
        selected
    } else {
        let i: int = match previous_index {
            Some(i) => i as int,
            None => 0,
        };
        Some(visible[if i < visible.len() - 1 { i } else { visible.len() - 1 }])
    }
}

/// Keeps the selection on its PID, or moves it to the row where it was.
pub fn reconcile_selection(visible: &Vec<i32>, state: &mut UiState, previous_index: Option<usize>)
    ensures
        *final(state) == (UiState {
            selected_pid: reconciled(visible@, old(state).selected_pid, previous_index),
            ..*old(state)
        }),
{
    if visible.len() == 0 {
        state.selected_pid = None;
        return;
    }
    let shown = match state.selected_pid {
        Some(p) => {
            let at = position_in(visible, p);
            proof {
                if visible@.contains(p) {
                    let w = choose|w: int| 0 <= w < visible@.len() && visible@[w] == p;
                    assert(visible@[w] == p);
                }
            }
            at.is_some()
        },
        None => false,
    };
    if shown {
        return;
    }
    let i: usize = match previous_index {
        Some(i) => i,
        None => 0,
    };
    let last = visible.len() - 1;
    let at = if i < last {
        i
    } else {
        last
    };
    state.selected_pid = Some(visible[at]);
}

// ---------------------------------------------------------------------------
// Reordering
// ---------------------------------------------------------------------------

/// Each PID of an order mapped to its place; a PID listed twice keeps its
/// last place.
pub open spec fn rank_map(order: Seq<i32>) -> Map<i32, usize>
    decreases order.len(),
{
    if order.len() == 0 {
        Map::empty()
    } else {
        rank_map(order.drop_last()).insert(order.last(), (order.len() - 1) as usize)
    }
}

/// The place a PID had in the previous order, or `usize::MAX`.
pub open spec fn rank_in(previous: Seq<i32>, pid: i32) -> int {
    if rank_map(previous).contains_key(pid) {
        rank_map(previous)[pid] as int
    } else {
        usize::MAX as int
    }
}

/// The GPU utilization a row sorts by: whole percent, or -1 when unknown.
pub open spec fn gpu_sort_key(p: EnrichedProcess) -> int {
    match p.snapshot.gpu {
        Some(g) => match g.utilization_percent {
            Some(u) => u as int,
            None => -1,
        },
        None => -1,
    }
}

/// The VRAM a row sorts by, 0 when unknown.
pub open spec fn vram_sort_key(p: EnrichedProcess) -> int {
    match p.snapshot.gpu {
        Some(g) => match g.vram_bytes {
            Some(v) => v as int,
            None => 0,
        },
        None => 0,
    }
}

/// What a row sorts by, smallest first: in tree mode its place in the tree
/// then its PID; else, by CPU, its CPU band (highest first), its previous
/// place, its PID; by memory, the most memory first, then the PID; by GPU,
/// the highest utilization, the most VRAM, then the PID; by PID, the PID.
pub open spec fn sort_key(p: EnrichedProcess, band: i32, rank: int, tree_mode: bool, sort: SortMode) -> (
    int,
    int,
    int,
) {
    if tree_mode {
        (p.tree_order as int, p.snapshot.pid as int, 0)
    } else {
        match sort {
            SortMode::Cpu => (-(band as int), rank, p.snapshot.pid as int),
            SortMode::Memory => (-(p.snapshot.memory_bytes as int), p.snapshot.pid as int, 0),
            SortMode::Gpu => (-gpu_sort_key(p), -vram_sort_key(p), p.snapshot.pid as int),
            SortMode::Pid => (p.snapshot.pid as int, 0, 0),
        }
    }
}

pub open spec fn key_lt(a: (int, int, int), b: (int, int, int)) -> bool {
    a.0 < b.0 || (a.0 == b.0 && (a.1 < b.1 || (a.1 == b.1 && a.2 < b.2)))
}

/// The key of the PID at position `i` of the order: that of the first
/// process with the PID, with its CPU band.
#[verifier::opaque]
pub open spec fn position_key(
    ordered: Seq<i32>,
    ps: Seq<EnrichedProcess>,
    bands: Seq<i32>,
    previous: Seq<i32>,
    tree_mode: bool,
    sort: SortMode,
    i: int,
) -> (int, int, int) {
    let k = index_of_pid(ps, ordered[i])->0;
    sort_key(ps[k], bands[k], rank_in(previous, ordered[i]), tree_mode, sort)
}

/// The reordered positions: each position of the order once, by key, and
/// among equal keys in their former order.
pub open spec fn positions_sorted(
    ordered: Seq<i32>,
    ps: Seq<EnrichedProcess>,
    bands: Seq<i32>,
    previous: Seq<i32>,
    tree_mode: bool,
    sort: SortMode,
    pos: Seq<usize>,
) -> bool {
    &&& pos.len() == ordered.len()
    &&& forall|x: int| 0 <= x < pos.len() ==> #[trigger] pos[x] < ordered.len()
    &&& pos.to_set() == Set::new(|v: usize| v < ordered.len())
    &&& forall|x: int, y: int|
        0 <= x < y < pos.len() ==> {
            let a = position_key(ordered, ps, bands, previous, tree_mode, sort, #[trigger] pos[x] as int);
            let b = position_key(ordered, ps, bands, previous, tree_mode, sort, #[trigger] pos[y] as int);
            key_lt(a, b) || (a == b && pos[x] < pos[y])
        }
}

/// The order after a reorder: the PIDs of the order sorted by their keys,
/// equal keys keeping their former order.
#[verifier::opaque]
pub open spec fn reordered(
    ordered: Seq<i32>,
    ps: Seq<EnrichedProcess>,
    bands: Seq<i32>,
    previous: Seq<i32>,
    tree_mode: bool,
    sort: SortMode,
    r: Seq<i32>,
) -> bool {
    exists|pos: Seq<usize>|
        #[trigger] positions_sorted(ordered, ps, bands, previous, tree_mode, sort, pos) && r == pos.map_values(
            |i: usize| ordered[i as int],
        )
}

fn rank_table(previous: &Vec<i32>) -> (r: std::collections::HashMap<i32, usize>)
    ensures
        r@ == rank_map(previous@),
{
    let mut r: std::collections::HashMap<i32, usize> = std::collections::HashMap::new();
    let mut i: usize = 0;
    proof {
        assert(previous@.take(0) =~= Seq::<i32>::empty());
        assert(rank_map(Seq::<i32>::empty()) =~= Map::<i32, usize>::empty());
    }
    while i < previous.len()
        invariant
            i <= previous@.len(),
            r@ == rank_map(previous@.take(i as int)),
        decreases previous.len() - i,
    {
        proof {
            assert(previous@.take(i + 1).drop_last() =~= previous@.take(i as int));
            assert(previous@.take(i + 1).last() == previous@[i as int]);
        }
        r.insert(previous[i], i);
        i = i + 1;
    }
    proof {
        assert(previous@.take(i as int) =~= previous@);
    }
    r
}

fn key_lt_exec(a: (i128, i128, i128), b: (i128, i128, i128)) -> (r: bool)
    ensures
        r == key_lt((a.0 as int, a.1 as int, a.2 as int), (b.0 as int, b.1 as int, b.2 as int)),
{
    a.0 < b.0 || (a.0 == b.0 && (a.1 < b.1 || (a.1 == b.1 && a.2 < b.2)))
}

/// The order of the PIDs at the next reorder: sorted by the key of each
/// PID's first process (`cpu_bands[k]` is the CPU band of `processes[k]`,
/// `previous` the order at the last reorder), stable among equal keys.
/// Every PID of the order is that of a process.
pub fn sort_order(
    ordered: &Vec<i32>,
    processes: &[EnrichedProcess],
    cpu_bands: &[i32],
    previous: &Vec<i32>,
    state: &UiState,
) -> (r: Vec<i32>)
    requires
        cpu_bands@.len() == processes@.len(),
        forall|i: int| 0 <= i < ordered@.len() ==> index_of_pid(processes@, #[trigger] ordered@[i]) is Some,
    ensures
        reordered(ordered@, processes@, cpu_bands@, previous@, state.tree_mode, state.sort, r@),
{
    let ranks = rank_table(previous);
    let mut keys: Vec<(i128, i128, i128)> = Vec::new();
    let mut i: usize = 0;
    while i < ordered.len()
        invariant
            i <= ordered@.len(),
            cpu_bands@.len() == processes@.len(),
            ranks@ == rank_map(previous@),
            forall|q: int| 0 <= q < ordered@.len() ==> index_of_pid(processes@, #[trigger] ordered@[q]) is Some,
            keys@.len() == i,
            forall|q: int|
                0 <= q < i ==> {
                    let k = #[trigger] keys@[q];
                    (k.0 as int, k.1 as int, k.2 as int) == position_key(
                        ordered@,
                        processes@,
                        cpu_bands@,
                        previous@,
                        state.tree_mode,
                        state.sort,
                        q,
                    )
                },
        decreases ordered.len() - i,
    {
        let pid = ordered[i];
        let k = find_by_pid(processes, pid).unwrap();
        let rank: usize = match ranks.get(&pid) {
            Some(v) => *v,
            None => usize::MAX,
        };
        let key = key_of(&processes[k], cpu_bands[k], rank, state.tree_mode, state.sort);
        proof {
            assert(index_of_pid(processes@, ordered@[i as int]) == Some(k as int));
            assert(rank as int == rank_in(previous@, pid));
            reveal(position_key);
        }
        keys.push(key);
        i = i + 1;
    }

    let pos = sort_positions(&keys);
    let mut r: Vec<i32> = Vec::new();
    let mut j: usize = 0;
    while j < pos.len()
        invariant
            j <= pos@.len(),
            pos@.len() == ordered@.len(),
            forall|x: int| 0 <= x < pos@.len() ==> #[trigger] pos@[x] < ordered@.len(),
            pos@.to_set() == Set::new(|v: usize| v < ordered@.len()),
            r@ == pos@.take(j as int).map_values(|v: usize| ordered@[v as int]),
        decreases pos.len() - j,
    {
        r.push(ordered[pos[j]]);
        proof {
            assert(pos@.take(j + 1).map_values(|v: usize| ordered@[v as int]) =~= pos@.take(j as int).map_values(
                |v: usize| ordered@[v as int],
            ).push(ordered@[pos@[j as int] as int]));
        }
        j = j + 1;
    }
    proof {
        assert(pos@.take(j as int) =~= pos@);
        assert(pos@.to_set() == Set::new(|v: usize| v < ordered@.len()));
        assert(positions_sorted(ordered@, processes@, cpu_bands@, previous@, state.tree_mode, state.sort, pos@)) by {
            assert forall|x: int, y: int| 0 <= x < y < pos@.len() implies {
                let a = position_key(ordered@, processes@, cpu_bands@, previous@, state.tree_mode, state.sort, #[trigger] pos@[x] as int);
                let b = position_key(ordered@, processes@, cpu_bands@, previous@, state.tree_mode, state.sort, #[trigger] pos@[y] as int);
                key_lt(a, b) || (a == b && pos@[x] < pos@[y])
            } by {
                let ka = keys@[pos@[x] as int];
                let kb = keys@[pos@[y] as int];
                assert(key_lt_spec_i(ka, kb) || (ka == kb && pos@[x] < pos@[y]));
            }
        }
        reveal(reordered);
    }
    r
}

fn key_of(p: &EnrichedProcess, band: i32, rank: usize, tree_mode: bool, sort: SortMode) -> (r: (i128, i128, i128))
    ensures
        (r.0 as int, r.1 as int, r.2 as int) == sort_key(*p, band, rank as int, tree_mode, sort),
{
    if tree_mode {
        (p.tree_order as i128, p.snapshot.pid as i128, 0)
    } else {
        match sort {
            SortMode::Cpu => (-(band as i128), rank as i128, p.snapshot.pid as i128),
            SortMode::Memory => (-(p.snapshot.memory_bytes as i128), p.snapshot.pid as i128, 0),
            SortMode::Gpu => {
                let g: i128 = match p.snapshot.gpu {
                    Some(usage) => match usage.utilization_percent {
                        Some(u) => u as i128,
                        None => -1,
                    },
                    None => -1,
                };
                let v: i128 = match p.snapshot.gpu {
                    Some(usage) => match usage.vram_bytes {
                        Some(b) => b as i128,
                        None => 0,
                    },
                    None => 0,
                };
                (-g, -v, p.snapshot.pid as i128)
            },
            SortMode::Pid => (p.snapshot.pid as i128, 0, 0),
        }
    }
}

/// The positions `0..keys.len()` ordered by their keys, smallest first,
/// equal keys in position order.
pub(crate) fn sort_positions(keys: &Vec<(i128, i128, i128)>) -> (pos: Vec<usize>)
    ensures
        pos@.len() == keys@.len(),
        forall|x: int| 0 <= x < pos@.len() ==> #[trigger] pos@[x] < keys@.len(),
        pos@.to_set() == Set::new(|v: usize| v < keys@.len()),
        forall|x: int, y: int|
            0 <= x < y < pos@.len() ==> {
                let a = keys@[#[trigger] pos@[x] as int];
                let b = keys@[#[trigger] pos@[y] as int];
                key_lt_spec_i(a, b) || (a == b && pos@[x] < pos@[y])
            },
{
    let mut pos: Vec<usize> = Vec::new();
    let mut n: usize = 0;
    while n < keys.len()
        invariant
            n <= keys@.len(),
            pos@.len() == n,
            forall|x: int| 0 <= x < pos@.len() ==> #[trigger] pos@[x] < n,
            pos@.to_set() == Set::new(|v: usize| v < n),
            forall|x: int, y: int|
                0 <= x < y < pos@.len() ==> {
                    let a = keys@[#[trigger] pos@[x] as int];
                    let b = keys@[#[trigger] pos@[y] as int];
                    key_lt_spec_i(a, b) || (a == b && pos@[x] < pos@[y])
                },
        decreases keys.len() - n,
    {
        let kn = keys[n];
        let mut at: usize = 0;
        while at < pos.len() && !key_lt_exec(kn, keys[pos[at]])
            invariant
                at <= pos@.len(),
                n < keys@.len(),
                kn == keys@[n as int],
                forall|x: int| 0 <= x < pos@.len() ==> #[trigger] pos@[x] < n,
                forall|q: int| 0 <= q < at ==> !key_lt_spec_i(kn, keys@[#[trigger] pos@[q] as int]),
            decreases pos.len() - at,
        {
            at = at + 1;
        }
        let ghost old_pos = pos@;
        proof {
            assert forall|q: int| 0 <= q < at implies {
                let a = keys@[#[trigger] old_pos[q] as int];
                key_lt_spec_i(a, kn) || (a == kn && old_pos[q] < n)
            } by {
                assert(!key_lt_spec_i(kn, keys@[old_pos[q] as int]));
                assert(old_pos[q] < n);
            }
        }
        pos.insert(at, n);
        proof {
            assert(pos@ == old_pos.insert(at as int, n));
            assert forall|x: int, y: int| 0 <= x < y < pos@.len() implies {
                let a = keys@[#[trigger] pos@[x] as int];
                let b = keys@[#[trigger] pos@[y] as int];
                key_lt_spec_i(a, b) || (a == b && pos@[x] < pos@[y])
            } by {
                if y < at {
                    assert(pos@[x] == old_pos[x] && pos@[y] == old_pos[y]);
                } else if y == at {
                    assert(pos@[x] == old_pos[x]);
                } else if x < at {
                    assert(pos@[x] == old_pos[x] && pos@[y] == old_pos[y - 1]);
                } else if x == at {
                    assert(pos@[y] == old_pos[y - 1]);
                    assert(old_pos[y - 1] < n);
                    if at < old_pos.len() {
                        assert(key_lt_spec_i(kn, keys@[old_pos[at as int] as int]));
                        if y - 1 > at {
                            let m = keys@[old_pos[at as int] as int];
                            let b = keys@[old_pos[y - 1] as int];
                            assert(key_lt_spec_i(m, b) || (m == b && old_pos[at as int] < old_pos[y - 1]));
                        }
                    }
                } else {
                    assert(pos@[x] == old_pos[x - 1] && pos@[y] == old_pos[y - 1]);
                }
            }
            assert forall|x: int| 0 <= x < pos@.len() implies #[trigger] pos@[x] < n + 1 by {
                if x < at {
                    assert(pos@[x] == old_pos[x]);
                } else if x > at {
                    assert(pos@[x] == old_pos[x - 1]);
                }
            }
            assert(pos@.to_set() =~= Set::new(|v: usize| v < n + 1)) by {
                assert forall|v: usize| pos@.to_set().contains(v) implies v < n + 1 by {
                    let w = choose|w: int| 0 <= w < pos@.len() && pos@[w] == v;
                    assert(pos@[w] < n + 1);
                }
                assert forall|v: usize| v < n + 1 implies pos@.to_set().contains(v) by {
                    if v == n {
                        assert(pos@[at as int] == n);
                    } else {
                        assert(old_pos.to_set().contains(v));
                        let w = choose|w: int| 0 <= w < old_pos.len() && old_pos[w] == v;
                        if w < at {
                            assert(pos@[w] == v);
                        } else {
                            assert(pos@[w + 1] == v);
                        }
                    }
                }
            }
        }
        n = n + 1;
    }

    pos
}

/// `key_lt` on keys held as machine integers.
pub open spec fn key_lt_spec_i(a: (i128, i128, i128), b: (i128, i128, i128)) -> bool {
    key_lt((a.0 as int, a.1 as int, a.2 as int), (b.0 as int, b.1 as int, b.2 as int))
}

// ---------------------------------------------------------------------------
// Shown rows
// ---------------------------------------------------------------------------

/// A PID of the order is shown: it has a process with a derived provenance,
/// whose category passes the filter and which matches the search query
/// (trimmed, in ASCII lower case; an empty query matches everything).
#[verifier::opaque]
pub open spec fn shown(
    ps: Seq<EnrichedProcess>,
    provs: Seq<ProcessProvenance>,
    state: UiState,
    pid: i32,
) -> bool {
    let query = lower(trim(state.query@));
    match index_of_pid(ps, pid) {
        Some(k) => match derived_for(ps, provs, ps[k].snapshot.identity) {
            Some(d) => (match state.process_type_filter {
                Some(wanted) => d.process_type == wanted,
                None => true,
            }) && (query.len() == 0 || matches_query_model(ps[k], d, query)),
            None => false,
        },
        None => false,
    }
}

/// The shown PIDs among the first `n` of the order, in order.
pub open spec fn shown_pids(
    ordered: Seq<i32>,
    ps: Seq<EnrichedProcess>,
    provs: Seq<ProcessProvenance>,
    state: UiState,
    n: nat,
) -> Seq<i32>
    decreases n,
{
    if n == 0 {
        Seq::empty()
    } else {
        let before = shown_pids(ordered, ps, provs, state, (n - 1) as nat);
        if shown(ps, provs, state, ordered[n - 1]) {
            before.push(ordered[n - 1])
        } else {
            before
        }
    }
}

fn is_shown(
    processes: &[EnrichedProcess],
    provenance: &[ProcessProvenance],
    state: &UiState,
    query_chars: &Vec<char>,
    query: &str,
    pid: i32,
) -> (r: bool)
    requires
        provenance@.len() == processes@.len(),
        query@ == lower(trim(state.query@)),
        query_chars@ == query@,
    ensures
        r == shown(processes@, provenance@, *state, pid),
{
    proof {
        reveal(shown);
    }
    match find_by_pid(processes, pid) {
        Some(k) => match find_derived(processes, provenance, processes[k].snapshot.identity) {
            Some(d) => {
                let passes = match state.process_type_filter {
                    Some(wanted) => d.process_type == wanted,
                    None => true,
                };
                passes && (query_chars.len() == 0 || matches_query(&processes[k], d, query))
            },
            None => false,
        },
        None => false,
    }
}

/// The PIDs of the rows shown, in the order kept (`provenance[i]` is what
/// was derived for `processes[i]`).
pub fn visible_pids(
    ordered: &Vec<i32>,
    processes: &[EnrichedProcess],
    provenance: &[ProcessProvenance],
    state: &UiState,
) -> (r: Vec<i32>)
    requires
        provenance@.len() == processes@.len(),
    ensures
        r@ == shown_pids(ordered@, processes@, provenance@, *state, ordered@.len() as nat),
{
    let query_chars = lowercase(&trim_exec(&chars_of(state.query.as_str())));
    let query = string_of(&query_chars);
    let mut r: Vec<i32> = Vec::new();
    let mut i: usize = 0;
    while i < ordered.len()
        invariant
            i <= ordered@.len(),
            provenance@.len() == processes@.len(),
            query@ == lower(trim(state.query@)),
            query_chars@ == query@,
            r@ == shown_pids(ordered@, processes@, provenance@, *state, i as nat),
        decreases ordered.len() - i,
    {
        let pid = ordered[i];
        let keep = is_shown(processes, provenance, state, &query_chars, query.as_str(), pid);
        if keep {
            r.push(pid);
        }
        i = i + 1;
    }
    r
}

} // verus!
