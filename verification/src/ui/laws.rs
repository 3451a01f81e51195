//! What the dashboard's list keeps from sample to sample and reorder to
//! reorder.

use vstd::prelude::*;

use crate::app::{EnrichedProcess, EntityMode, SortMode, UiState};
use crate::ui::{key_model, query_after, InputAction, ModelEffect, UiKey};
use crate::provenance::{index_of_pid, ProcessProvenance};
use crate::ui::presentation::{
    carried_order, moved_selection, moved_target, positions_sorted, reconciled, reordered, retained,
    shown_pids, with_new, key_lt, position_key,
};

verus! {

/// The selection is anchored to its PID: while that PID is shown, rows
/// moving around it do not move the selection.
pub proof fn selection_stays_on_its_pid(visible: Seq<i32>, pid: i32, previous_index: Option<usize>)
    requires
        visible.contains(pid),
    ensures
        reconciled(visible, Some(pid), previous_index) == Some(pid),
{
}

/// After rows change, and after any move, the selection is one of the rows
/// shown, and there is a selection exactly when some row is shown.
pub proof fn selection_is_a_shown_row(
    visible: Seq<i32>,
    selected: Option<i32>,
    previous_index: Option<usize>,
    delta: int,
)
    ensures
        reconciled(visible, selected, previous_index) is None <==> visible.len() == 0,
        reconciled(visible, selected, previous_index) matches Some(p) ==> visible.contains(p),
        moved_selection(visible, selected, delta) is None <==> visible.len() == 0,
        moved_selection(visible, selected, delta) matches Some(p) ==> visible.contains(p),
{
    if visible.len() > 0 {
        if let Some(pid) = selected {
            lemma_position_bounds(visible, pid);
        }
        let t = moved_target(visible, selected, delta);
        assert(0 <= t < visible.len());
        assert(visible.contains(visible[t]));
        let i: int = match previous_index {
            Some(i) => i as int,
            None => 0,
        };
        let at = if i < visible.len() - 1 {
            i
        } else {
            visible.len() - 1
        };
        assert(visible.contains(visible[at]));
    }
}

proof fn lemma_first_exists(v: Seq<i32>, pid: i32, i: int)
    requires
        0 <= i < v.len(),
        v[i] == pid,
    ensures
        exists|k: int| 0 <= k < v.len() && v[k] == pid && forall|j: int| 0 <= j < k ==> v[j] != pid,
    decreases i,
{
    if exists|j: int| 0 <= j < i && v[j] == pid {
        let j = choose|j: int| 0 <= j < i && v[j] == pid;
        lemma_first_exists(v, pid, j);
    } else {
        assert(forall|j: int| 0 <= j < i ==> v[j] != pid);
    }
}

proof fn lemma_position_bounds(v: Seq<i32>, pid: i32)
    ensures
        crate::ui::presentation::position_of(v, pid) matches Some(i) ==> 0 <= i < v.len() && v[i] == pid,
{
    if exists|i: int| 0 <= i < v.len() && v[i] == pid {
        let w = choose|i: int| 0 <= i < v.len() && v[i] == pid;
        lemma_first_exists(v, pid, w);
    }
}

proof fn lemma_retained(ordered: Seq<i32>, live: Set<i32>, n: nat)
    requires
        n <= ordered.len(),
        ordered.no_duplicates(),
    ensures
        retained(ordered, live, n).no_duplicates(),
        forall|p: i32| #[trigger] retained(ordered, live, n).contains(p) <==> (live.contains(p) && ordered.take(
            n as int,
        ).contains(p)),
    decreases n,
{
    if n > 0 {
        lemma_retained(ordered, live, (n - 1) as nat);
        let before = retained(ordered, live, (n - 1) as nat);
        let x = ordered[n - 1];
        assert(ordered.take(n as int) =~= ordered.take(n - 1).push(x));
        let prev = ordered.take(n - 1);
        let cur = ordered.take(n as int);
        assert forall|p: i32| cur.contains(p) <==> (prev.contains(p) || p == x) by {
            if cur.contains(p) {
                let w = choose|w: int| 0 <= w < cur.len() && cur[w] == p;
                if w < prev.len() {
                    assert(prev[w] == p);
                }
            }
            if prev.contains(p) {
                let w = choose|w: int| 0 <= w < prev.len() && prev[w] == p;
                assert(cur[w] == p);
            }
            if p == x {
                assert(cur[n - 1] == p);
            }
        }
        if live.contains(x) {
            assert(!before.contains(x)) by {
                if before.contains(x) {
                    assert(prev.contains(x));
                    let w = choose|w: int| 0 <= w < prev.len() && prev[w] == x;
                    assert(ordered[w] == ordered[n - 1]);
                }
            }
            let now = before.push(x);
            assert forall|p: i32| #[trigger] now.contains(p) <==> (before.contains(p) || p == x) by {
                if now.contains(p) {
                    let w = choose|w: int| 0 <= w < now.len() && now[w] == p;
                    if w < before.len() {
                        assert(before[w] == p);
                    }
                }
                if before.contains(p) {
                    let w = choose|w: int| 0 <= w < before.len() && before[w] == p;
                    assert(now[w] == p);
                }
                if p == x {
                    assert(now[before.len() as int] == p);
                }
            }
            assert forall|a: int, b: int| 0 <= a < now.len() && 0 <= b < now.len() && a != b implies now[a]
                != now[b] by {
                if a < before.len() && b < before.len() {
                } else if a < before.len() {
                    assert(before.contains(now[a]));
                } else if b < before.len() {
                    assert(before.contains(now[b]));
                }
            }
        }
    } else {
        assert(ordered.take(0) =~= Seq::<i32>::empty());
    }
}

proof fn lemma_with_new(known: Seq<i32>, sample: Seq<i32>, n: nat)
    requires
        n <= sample.len(),
        known.no_duplicates(),
    ensures
        with_new(known, sample, n).no_duplicates(),
        forall|p: i32| #[trigger] with_new(known, sample, n).contains(p) <==> (known.contains(p) || sample.take(
            n as int,
        ).contains(p)),
    decreases n,
{
    if n > 0 {
        lemma_with_new(known, sample, (n - 1) as nat);
        let before = with_new(known, sample, (n - 1) as nat);
        let x = sample[n - 1];
        let prev = sample.take(n - 1);
        let cur = sample.take(n as int);
        assert forall|p: i32| cur.contains(p) <==> (prev.contains(p) || p == x) by {
            if cur.contains(p) {
                let w = choose|w: int| 0 <= w < cur.len() && cur[w] == p;
                if w < prev.len() {
                    assert(prev[w] == p);
                }
            }
            if prev.contains(p) {
                let w = choose|w: int| 0 <= w < prev.len() && prev[w] == p;
                assert(cur[w] == p);
            }
            if p == x {
                assert(cur[n - 1] == p);
            }
        }
        if !before.contains(x) {
            let now = before.push(x);
            assert forall|p: i32| #[trigger] now.contains(p) <==> (before.contains(p) || p == x) by {
                if now.contains(p) {
                    let w = choose|w: int| 0 <= w < now.len() && now[w] == p;
                    if w < before.len() {
                        assert(before[w] == p);
                    }
                }
                if before.contains(p) {
                    let w = choose|w: int| 0 <= w < before.len() && before[w] == p;
                    assert(now[w] == p);
                }
                if p == x {
                    assert(now[before.len() as int] == p);
                }
            }
            assert forall|a: int, b: int| 0 <= a < now.len() && 0 <= b < now.len() && a != b implies now[a]
                != now[b] by {
                if a < before.len() && b < before.len() {
                } else if a < before.len() {
                    assert(before.contains(now[a]));
                } else if b < before.len() {
                    assert(before.contains(now[b]));
                }
            }
        }
    } else {
        assert(sample.take(0) =~= Seq::<i32>::empty());
    }
}

/// From sample to sample, the list holds each live PID once: exactly the
/// PIDs of the new sample, none twice, when the previous list held none
/// twice.
pub proof fn carried_order_lists_each_live_pid_once(ordered: Seq<i32>, sample: Seq<i32>)
    requires
        ordered.no_duplicates(),
    ensures
        carried_order(ordered, sample).no_duplicates(),
        carried_order(ordered, sample).to_set() == sample.to_set(),
{
    let live = sample.to_set();
    lemma_retained(ordered, live, ordered.len());
    let kept = retained(ordered, live, ordered.len());
    lemma_with_new(kept, sample, sample.len());
    assert(ordered.take(ordered.len() as int) =~= ordered);
    assert(sample.take(sample.len() as int) =~= sample);
    let c = carried_order(ordered, sample);
    assert forall|p: i32| c.to_set().contains(p) <==> sample.to_set().contains(p) by {
        assert(c.to_set().contains(p) <==> c.contains(p));
        assert(sample.to_set().contains(p) <==> sample.contains(p));
    }
    assert(c.to_set() =~= sample.to_set());
}

/// Reordering only reorders: the list keeps its length and its PIDs, and
/// holds none twice when it held none twice.
pub proof fn reorder_keeps_the_pids(
    ordered: Seq<i32>,
    ps: Seq<EnrichedProcess>,
    bands: Seq<i32>,
    previous: Seq<i32>,
    tree_mode: bool,
    sort: SortMode,
    r: Seq<i32>,
)
    requires
        reordered(ordered, ps, bands, previous, tree_mode, sort, r),
        ordered.len() <= usize::MAX,
    ensures
        r.len() == ordered.len(),
        forall|p: i32| r.contains(p) <==> ordered.contains(p),
        ordered.no_duplicates() ==> r.no_duplicates(),
{
    reveal(reordered);
    let pos = choose|pos: Seq<usize>|
        #[trigger] positions_sorted(ordered, ps, bands, previous, tree_mode, sort, pos) && r == pos.map_values(
            |i: usize| ordered[i as int],
        );
    assert forall|p: i32| r.contains(p) <==> ordered.contains(p) by {
        if r.contains(p) {
            let x = choose|x: int| 0 <= x < r.len() && r[x] == p;
            assert(pos[x] < ordered.len());
            assert(ordered[pos[x] as int] == p);
        }
        if ordered.contains(p) {
            let i = choose|i: int| 0 <= i < ordered.len() && ordered[i] == p;
            assert(Set::new(|v: usize| v < ordered.len()).contains(i as usize));
            assert(pos.to_set().contains(i as usize));
            let x = choose|x: int| 0 <= x < pos.len() && pos[x] == i as usize;
            assert(r[x] == p);
        }
    }
    if ordered.no_duplicates() {
        assert forall|x: int, y: int| 0 <= x < r.len() && 0 <= y < r.len() && x != y implies r[x] != r[y] by {
            let (lo, hi) = if x < y {
                (x, y)
            } else {
                (y, x)
            };
            let a = position_key(ordered, ps, bands, previous, tree_mode, sort, pos[lo] as int);
            let b = position_key(ordered, ps, bands, previous, tree_mode, sort, pos[hi] as int);
            assert(key_lt(a, b) || (a == b && pos[lo] < pos[hi]));
            assert(pos[lo] != pos[hi]);
        }
    }
}

/// The rows shown are PIDs of the list, in its order.
pub proof fn shown_rows_come_from_the_list(
    ordered: Seq<i32>,
    ps: Seq<EnrichedProcess>,
    provs: Seq<ProcessProvenance>,
    state: crate::app::UiState,
    n: nat,
)
    requires
        n <= ordered.len(),
    ensures
        forall|p: i32| #[trigger] shown_pids(ordered, ps, provs, state, n).contains(p) ==> ordered.contains(p),
    decreases n,
{
    if n > 0 {
        shown_rows_come_from_the_list(ordered, ps, provs, state, (n - 1) as nat);
        let before = shown_pids(ordered, ps, provs, state, (n - 1) as nat);
        let now = shown_pids(ordered, ps, provs, state, n);
        assert forall|p: i32| #[trigger] now.contains(p) implies ordered.contains(p) by {
            let w = choose|w: int| 0 <= w < now.len() && now[w] == p;
            if w < before.len() {
                assert(before[w] == now[w]);
                assert(before.contains(p));
            } else {
                assert(ordered[n - 1] == p);
            }
        }
    }
}

/// Pausing and resuming leaves the dashboard as it was: the state that
/// `toggle_pause` leaves, toggled again, is the state it started from.
pub proof fn pausing_twice_restores_the_state(s: crate::app::UiState)
    ensures
        ({
            let once = crate::app::UiState { paused: !s.paused, ..s };
            crate::app::UiState { paused: !once.paused, ..once }
        }) == s,
{
}


/// Tree mode belongs to the process view: outside a search, `t` in the task
/// view changes nothing and asks nothing of the model or the loop.
pub proof fn tree_key_is_inert_in_task_view(s: UiState)
    requires
        s.entity_mode == EntityMode::Task,
        !s.search_active,
    ensures
        key_model(s, UiKey::Char('t')) == (s, InputAction::Nothing, ModelEffect::Nothing),
        query_after(s, UiKey::Char('t')) == s.query@,
{
}


/// The GPU utilization a process reports, if it reports one.
pub open spec fn reported_utilization(p: EnrichedProcess) -> Option<u32> {
    match p.snapshot.gpu {
        Some(g) => g.utilization_percent,
        None => None,
    }
}

/// The GPU memory a process reports, 0 when it reports none.
pub open spec fn reported_vram_or_zero(p: EnrichedProcess) -> u64 {
    match p.snapshot.gpu {
        Some(g) => match g.vram_bytes {
            Some(v) => v,
            None => 0,
        },
        None => 0,
    }
}

/// The process a PID of the list stands for: the first with that PID.
pub open spec fn process_of(ps: Seq<EnrichedProcess>, pid: i32) -> EnrichedProcess {
    ps[index_of_pid(ps, pid)->0]
}

/// Utilization as a number, -1 when none is reported.
spec fn utilization_or_below(p: EnrichedProcess) -> int {
    match reported_utilization(p) {
        Some(u) => u as int,
        None => -1,
    }
}

proof fn lemma_gpu_position_key(ordered: Seq<i32>, ps: Seq<EnrichedProcess>, bands: Seq<i32>, previous: Seq<i32>, i: int)
    ensures
        position_key(ordered, ps, bands, previous, false, SortMode::Gpu, i).0 == -utilization_or_below(
            process_of(ps, ordered[i]),
        ),
        position_key(ordered, ps, bands, previous, false, SortMode::Gpu, i).1 == -(reported_vram_or_zero(
            process_of(ps, ordered[i]),
        ) as int),
{
    reveal(position_key);
}

/// Sorting by GPU (outside tree mode) lists the processes by reported GPU
/// utilization, highest first, whatever their VRAM: a process listed after
/// another that reports a utilization never reports a higher one, and one
/// that reports none comes after every one that does. Among equal
/// utilizations, the most VRAM comes first.
pub proof fn gpu_sort_lists_highest_utilization_first(
    ordered: Seq<i32>,
    ps: Seq<EnrichedProcess>,
    bands: Seq<i32>,
    previous: Seq<i32>,
    r: Seq<i32>,
)
    requires
        reordered(ordered, ps, bands, previous, false, SortMode::Gpu, r),
        forall|i: int| 0 <= i < ordered.len() ==> index_of_pid(ps, #[trigger] ordered[i]) is Some,
    ensures
        forall|x: int, y: int|
            0 <= x < y < r.len() ==> {
                let a = process_of(ps, #[trigger] r[x]);
                let b = process_of(ps, #[trigger] r[y]);
                &&& reported_utilization(b) is Some ==> reported_utilization(a) is Some
                    && reported_utilization(a)->0 >= reported_utilization(b)->0
                &&& reported_utilization(a) == reported_utilization(b) ==> reported_vram_or_zero(a)
                    >= reported_vram_or_zero(b)
            },
{
    reveal(reordered);
    let pos = choose|pos: Seq<usize>|
        #[trigger] positions_sorted(ordered, ps, bands, previous, false, SortMode::Gpu, pos) && r == pos.map_values(
            |i: usize| ordered[i as int],
        );
    assert forall|x: int, y: int| 0 <= x < y < r.len() implies {
        let a = process_of(ps, #[trigger] r[x]);
        let b = process_of(ps, #[trigger] r[y]);
        &&& reported_utilization(b) is Some ==> reported_utilization(a) is Some
            && reported_utilization(a)->0 >= reported_utilization(b)->0
        &&& reported_utilization(a) == reported_utilization(b) ==> reported_vram_or_zero(a)
            >= reported_vram_or_zero(b)
    } by {
        let ka = position_key(ordered, ps, bands, previous, false, SortMode::Gpu, pos[x] as int);
        let kb = position_key(ordered, ps, bands, previous, false, SortMode::Gpu, pos[y] as int);
        assert(key_lt(ka, kb) || (ka == kb && pos[x] < pos[y]));
        assert(r[x] == ordered[pos[x] as int]);
        assert(r[y] == ordered[pos[y] as int]);
        lemma_gpu_position_key(ordered, ps, bands, previous, pos[x] as int);
        lemma_gpu_position_key(ordered, ps, bands, previous, pos[y] as int);
    }
}


proof fn lemma_first_with_pid(ps: Seq<EnrichedProcess>, pid: i32, i: int)
    requires
        0 <= i < ps.len(),
        ps[i].snapshot.pid == pid,
    ensures
        index_of_pid(ps, pid) is Some,
        ps[index_of_pid(ps, pid)->0].snapshot.pid == pid,
    decreases i,
{
    if exists|j: int| 0 <= j < i && ps[j].snapshot.pid == pid {
        let j = choose|j: int| 0 <= j < i && ps[j].snapshot.pid == pid;
        lemma_first_with_pid(ps, pid, j);
    } else {
        crate::provenance::lemma_index_of_pid(ps, pid, i);
    }
}

proof fn lemma_position_key_other(
    ordered: Seq<i32>,
    ps: Seq<EnrichedProcess>,
    bands: Seq<i32>,
    previous: Seq<i32>,
    tree_mode: bool,
    sort: SortMode,
    i: int,
)
    requires
        0 <= i < ordered.len(),
        index_of_pid(ps, ordered[i]) is Some,
    ensures
        tree_mode ==> position_key(ordered, ps, bands, previous, tree_mode, sort, i).0
            == process_of(ps, ordered[i]).tree_order as int,
        !tree_mode && sort == SortMode::Memory ==> position_key(ordered, ps, bands, previous, tree_mode, sort, i).0
            == -(process_of(ps, ordered[i]).snapshot.memory_bytes as int),
        !tree_mode && sort == SortMode::Pid ==> position_key(ordered, ps, bands, previous, tree_mode, sort, i).0
            == ordered[i] as int,
        !tree_mode && sort == SortMode::Cpu ==> position_key(ordered, ps, bands, previous, tree_mode, sort, i).0
            == -(bands[index_of_pid(ps, ordered[i])->0] as int),
{
    reveal(position_key);
    let pid = ordered[i];
    let w = choose|w: int| 0 <= w < ps.len() && ps[w].snapshot.pid == pid;
    lemma_first_with_pid(ps, pid, w);
}

/// Outside tree mode, sorting by memory lists the most resident memory
/// first, sorting by PID lists ascending PIDs, and sorting by CPU lists the
/// highest CPU band first; in tree mode the rows follow the tree.
pub proof fn sort_modes_order_the_rows(
    ordered: Seq<i32>,
    ps: Seq<EnrichedProcess>,
    bands: Seq<i32>,
    previous: Seq<i32>,
    tree_mode: bool,
    sort: SortMode,
    r: Seq<i32>,
)
    requires
        reordered(ordered, ps, bands, previous, tree_mode, sort, r),
        forall|i: int| 0 <= i < ordered.len() ==> index_of_pid(ps, #[trigger] ordered[i]) is Some,
    ensures
        forall|x: int, y: int|
            0 <= x < y < r.len() ==> {
                let a = process_of(ps, #[trigger] r[x]);
                let b = process_of(ps, #[trigger] r[y]);
                &&& tree_mode ==> a.tree_order <= b.tree_order
                &&& !tree_mode && sort == SortMode::Memory ==> a.snapshot.memory_bytes >= b.snapshot.memory_bytes
                &&& !tree_mode && sort == SortMode::Pid ==> r[x] <= r[y]
                &&& !tree_mode && sort == SortMode::Cpu ==> bands[index_of_pid(ps, r[x])->0] >= bands[index_of_pid(ps, r[y])->0]
            },
{
    reveal(reordered);
    let pos = choose|pos: Seq<usize>|
        #[trigger] positions_sorted(ordered, ps, bands, previous, tree_mode, sort, pos) && r == pos.map_values(
            |i: usize| ordered[i as int],
        );
    assert forall|x: int, y: int| 0 <= x < y < r.len() implies {
        let a = process_of(ps, #[trigger] r[x]);
        let b = process_of(ps, #[trigger] r[y]);
        &&& tree_mode ==> a.tree_order <= b.tree_order
        &&& !tree_mode && sort == SortMode::Memory ==> a.snapshot.memory_bytes >= b.snapshot.memory_bytes
        &&& !tree_mode && sort == SortMode::Pid ==> r[x] <= r[y]
        &&& !tree_mode && sort == SortMode::Cpu ==> bands[index_of_pid(ps, r[x])->0] >= bands[index_of_pid(ps, r[y])->0]
    } by {
        let ka = position_key(ordered, ps, bands, previous, tree_mode, sort, pos[x] as int);
        let kb = position_key(ordered, ps, bands, previous, tree_mode, sort, pos[y] as int);
        assert(key_lt(ka, kb) || (ka == kb && pos[x] < pos[y]));
        assert(r[x] == ordered[pos[x] as int]);
        assert(r[y] == ordered[pos[y] as int]);
        lemma_position_key_other(ordered, ps, bands, previous, tree_mode, sort, pos[x] as int);
        lemma_position_key_other(ordered, ps, bands, previous, tree_mode, sort, pos[y] as int);
    }
}

} // verus!
