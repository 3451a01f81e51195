//! The dashboard's task view: which tasks a search shows, in which order,
//! and the selection, which stays on its task ID while rows move.

use vstd::prelude::*;

use crate::app::{EnrichedProcess, SortMode, UiState};
use crate::listing::{total_order_key, total_order_key_exec};
use crate::process::model::{command_line_model, string_views};
use crate::provenance::ProcessProvenance;
use crate::task::group::{members_rss, members_vram, saturating_total, sum_rss, sum_vram, vram_total, TaskGroup};
use crate::task::model::{task_kind_label, TaskId};
use crate::text::{chars_eq, chars_of, contains, contains_exec, lower, lowercase};

verus! {

// ---------------------------------------------------------------------------
// Search
// ---------------------------------------------------------------------------

/// A member matches a search: its name, command line or project label, in
/// ASCII lower case, contains the query.
pub open spec fn member_matches(p: EnrichedProcess, prov: ProcessProvenance, query: Seq<char>) -> bool {
    contains(lower(p.snapshot.name@), query) || contains(
        lower(command_line_model(p.snapshot.name@, string_views(p.snapshot.command@))),
        query,
    ) || contains(lower(prov.project_label@), query)
}

/// A task matches a search: its label, ID or kind, in ASCII lower case,
/// contains the query, or one of its members matches it.
pub open spec fn task_matches_model(
    g: TaskGroup,
    ps: Seq<EnrichedProcess>,
    provs: Seq<ProcessProvenance>,
    query: Seq<char>,
) -> bool {
    ||| contains(lower(g.task.label@), query)
    ||| contains(lower(g.task.id.view_text()), query)
    ||| contains(lower(task_kind_label(g.task.kind)), query)
    ||| exists|k: int|
        0 <= k < g.members@.len() && member_matches(
            ps[#[trigger] g.members@[k] as int],
            provs[g.members@[k] as int],
            query,
        )
}

/// Whether the members of a group lie among the processes.
pub open spec fn members_in(g: TaskGroup, n: int) -> bool {
    forall|k: int| 0 <= k < g.members@.len() ==> (#[trigger] g.members@[k] as int) < n
}

fn member_matches_exec(process: &EnrichedProcess, provenance: &ProcessProvenance, query: &Vec<char>) -> (r: bool)
    ensures
        r == member_matches(*process, *provenance, query@),
{
    let line = process.snapshot.command_line();
    contains_exec(&lowercase(&chars_of(process.snapshot.name.as_str())), query) || contains_exec(
        &lowercase(&chars_of(line.as_str())),
        query,
    ) || contains_exec(&lowercase(&chars_of(provenance.project_label.as_str())), query)
}

/// Whether a task matches a search.
pub fn task_matches(
    group: &TaskGroup,
    processes: &[EnrichedProcess],
    provenance: &[ProcessProvenance],
    query: &str,
) -> (r: bool)
    requires
        provenance@.len() == processes@.len(),
        members_in(*group, processes@.len() as int),
    ensures
        r == task_matches_model(*group, processes@, provenance@, query@),
{
    let q = chars_of(query);
    let kind = group.task.kind.to_string();
    if contains_exec(&lowercase(&chars_of(group.task.label.as_str())), &q) || contains_exec(
        &lowercase(&chars_of(group.task.id.as_str())),
        &q,
    ) || contains_exec(&lowercase(&chars_of(kind.as_str())), &q) {
        return true;
    }
    let mut k: usize = 0;
    while k < group.members.len()
        invariant
            k <= group.members@.len(),
            q@ == query@,
            provenance@.len() == processes@.len(),
            members_in(*group, processes@.len() as int),
            forall|j: int|
                0 <= j < k ==> !member_matches(
                    processes@[#[trigger] group.members@[j] as int],
                    provenance@[group.members@[j] as int],
                    query@,
                ),
        decreases group.members.len() - k,
    {
        let m = group.members[k];
        assert((group.members@[k as int] as int) < processes@.len());
        if member_matches_exec(&processes[m], &provenance[m], &q) {
            return true;
        }
        k = k + 1;
    }
    false
}

// ---------------------------------------------------------------------------
// Order
// ---------------------------------------------------------------------------

/// What a task sorts by, highest first: its CPU (as `f32::total_cmp`
/// orders the given bits), its summed RSS, or its summed VRAM (unknown
/// lowest). Sorting "by PID" lists tasks by ID, which is the order the
/// groups come in, so every task has the same key.
pub open spec fn task_sort_key(sort: SortMode, g: TaskGroup, ps: Seq<EnrichedProcess>, cpu_bits: u32) -> int {
    match sort {
        SortMode::Cpu => total_order_key(cpu_bits),
        SortMode::Memory => saturating_total(members_rss(ps, g.members@)) as int,
        SortMode::Gpu => match vram_total(members_vram(ps, g.members@)) {
            Some(v) => v + 1,
            None => 0,
        },
        SortMode::Pid => 0,
    }
}

/// Task `a` comes before task `b`: a higher key, or the same key and an
/// earlier group (a lower task ID).
pub open spec fn task_before(keys: Seq<int>, a: usize, b: usize) -> bool {
    keys[a as int] > keys[b as int] || (keys[a as int] == keys[b as int] && a < b)
}

pub open spec fn tasks_ordered(keys: Seq<int>, r: Seq<usize>) -> bool {
    forall|x: int, y: int| 0 <= x < y < r.len() ==> task_before(keys, #[trigger] r[x], #[trigger] r[y])
}

/// The sort keys of all groups.
pub open spec fn task_keys_of(
    sort: SortMode,
    groups: Seq<TaskGroup>,
    ps: Seq<EnrichedProcess>,
    cpu_bits: Seq<u32>,
) -> Seq<int> {
    Seq::new(groups.len(), |i: int| task_sort_key(sort, groups[i], ps, cpu_bits[i]))
}

fn task_key(sort: SortMode, group: &TaskGroup, processes: &[EnrichedProcess], cpu_bits: u32) -> (r: i128)
    requires
        members_in(*group, processes@.len() as int),
    ensures
        r == task_sort_key(sort, *group, processes@, cpu_bits),
{
    match sort {
        SortMode::Cpu => total_order_key_exec(cpu_bits) as i128,
        SortMode::Memory => sum_rss(&group.members, processes) as i128,
        SortMode::Gpu => match sum_vram(&group.members, processes) {
            Some(v) => v as i128 + 1,
            None => 0,
        },
        SortMode::Pid => 0,
    }
}

/// The tasks the task view shows: those that match the search, by the sort
/// key highest first and, among equal keys, by task ID (the order of the
/// groups). `cpu_bits[i]` is the CPU figure of `groups[i]`.
pub fn visible_tasks(
    groups: &[TaskGroup],
    processes: &[EnrichedProcess],
    provenance: &[ProcessProvenance],
    cpu_bits: &[u32],
    state: &UiState,
) -> (r: Vec<usize>)
    requires
        provenance@.len() == processes@.len(),
        cpu_bits@.len() == groups@.len(),
        forall|i: int| 0 <= i < groups@.len() ==> members_in(#[trigger] groups@[i], processes@.len() as int),
    ensures
        r@.no_duplicates(),
        forall|x: usize|
            r@.contains(x) <==> (x < groups@.len() && task_matches_model(
                groups@[x as int],
                processes@,
                provenance@,
                state.query@,
            )),
        tasks_ordered(task_keys_of(state.sort, groups@, processes@, cpu_bits@), r@),
{
    let ghost keys = task_keys_of(state.sort, groups@, processes@, cpu_bits@);
    let mut exec_keys: Vec<i128> = Vec::new();
    let mut i: usize = 0;
    while i < groups.len()
        invariant
            i <= groups@.len(),
            cpu_bits@.len() == groups@.len(),
            forall|j: int| 0 <= j < groups@.len() ==> members_in(#[trigger] groups@[j], processes@.len() as int),
            keys == task_keys_of(state.sort, groups@, processes@, cpu_bits@),
            exec_keys@.len() == i,
            forall|j: int| 0 <= j < i ==> exec_keys@[j] as int == #[trigger] keys[j],
        decreases groups.len() - i,
    {
        let k = task_key(state.sort, &groups[i], processes, cpu_bits[i]);
        exec_keys.push(k);
        i = i + 1;
    }
    let mut r: Vec<usize> = Vec::new();
    let mut g: usize = 0;
    while g < groups.len()
        invariant
            g <= groups@.len(),
            provenance@.len() == processes@.len(),
            forall|j: int| 0 <= j < groups@.len() ==> members_in(#[trigger] groups@[j], processes@.len() as int),
            keys.len() == groups@.len(),
            exec_keys@.len() == groups@.len(),
            forall|j: int| 0 <= j < groups@.len() ==> exec_keys@[j] as int == #[trigger] keys[j],
            r@.no_duplicates(),
            forall|x: usize|
                r@.contains(x) <==> (x < g && task_matches_model(groups@[x as int], processes@, provenance@, state.query@)),
            tasks_ordered(keys, r@),
        decreases groups.len() - g,
    {
        if task_matches(&groups[g], processes, provenance, state.query.as_str()) {
            let mut pos: usize = 0;
            let mut stop = false;
            while pos < r.len() && !stop
                invariant
                    pos <= r@.len(),
                    g < groups@.len(),
                    exec_keys@.len() == groups@.len(),
                    forall|j: int| 0 <= j < groups@.len() ==> exec_keys@[j] as int == #[trigger] keys[j],
                    forall|x: usize| r@.contains(x) ==> x < g,
                    forall|q: int| 0 <= q < pos ==> !task_before(keys, g, #[trigger] r@[q]),
                    stop ==> pos < r@.len() && task_before(keys, g, r@[pos as int]),
                decreases (r@.len() - pos) * 2 + (if stop { 0int } else { 1int }),
            {
                let q = r[pos];
                assert(r@.contains(q));
                if exec_keys[g] > exec_keys[q] || (exec_keys[g] == exec_keys[q] && g < q) {
                    stop = true;
                } else {
                    pos = pos + 1;
                }
            }
            let ghost old_r = r@;
            r.insert(pos, g);
            proof {
                assert(r@ =~= old_r.insert(pos as int, g));
                assert forall|a: int, b: int| 0 <= a < b < r@.len() implies task_before(keys, r@[a], r@[b]) by {
                    if pos < old_r.len() {
                        assert(old_r.contains(old_r[pos as int]));
                        assert(task_before(keys, g, old_r[pos as int]));
                    }
                    if b == pos {
                        assert(old_r.contains(old_r[a]));
                        assert(!task_before(keys, g, old_r[a]));
                    } else if a == pos {
                        assert(r@[b] == old_r[b - 1]);
                        if b - 1 > pos {
                            assert(task_before(keys, old_r[pos as int], old_r[b - 1]));
                        }
                    } else if a < pos {
                        if b < pos {
                            assert(r@[b] == old_r[b]);
                        } else {
                            assert(r@[b] == old_r[b - 1]);
                            assert(task_before(keys, old_r[a], old_r[b - 1]));
                        }
                    } else {
                        assert(r@[a] == old_r[a - 1]);
                        assert(r@[b] == old_r[b - 1]);
                        assert(task_before(keys, old_r[a - 1], old_r[b - 1]));
                    }
                }
                assert forall|x: usize| r@.contains(x) <==> (x < g + 1 && task_matches_model(
                    groups@[x as int],
                    processes@,
                    provenance@,
                    state.query@,
                )) by {
                    if r@.contains(x) {
                        let w = choose|w: int| 0 <= w < r@.len() && r@[w] == x;
                        if w < pos {
                            assert(old_r.contains(old_r[w]));
                        } else if w > pos {
                            assert(old_r[w - 1] == x);
                            assert(old_r.contains(old_r[w - 1]));
                        }
                    }
                    if x < g && old_r.contains(x) {
                        let w = choose|w: int| 0 <= w < old_r.len() && old_r[w] == x;
                        if w < pos {
                            assert(r@[w] == x);
                        } else {
                            assert(r@[w + 1] == x);
                        }
                    }
                    if x == g {
                        assert(r@[pos as int] == g);
                    }
                }
                assert forall|a: int, b: int| 0 <= a < r@.len() && 0 <= b < r@.len() && a != b implies r@[a]
                    != r@[b] by {
                    if a == pos || b == pos {
                        let o = if a == pos {
                            b
                        } else {
                            a
                        };
                        let w = if o < pos {
                            o
                        } else {
                            o - 1
                        };
                        assert(r@[o] == old_r[w]);
                        assert(old_r.contains(old_r[w]));
                    } else {
                        let wa = if a < pos {
                            a
                        } else {
                            a - 1
                        };
                        let wb = if b < pos {
                            b
                        } else {
                            b - 1
                        };
                        assert(r@[a] == old_r[wa]);
                        assert(r@[b] == old_r[wb]);
                    }
                }
            }
        } else {
            proof {
                assert forall|x: usize| r@.contains(x) <==> (x < g + 1 && task_matches_model(
                    groups@[x as int],
                    processes@,
                    provenance@,
                    state.query@,
                )) by {
                    if x == g && r@.contains(x) {
                        assert(x < g);
                    }
                }
            }
        }
        g = g + 1;
    }
    r
}

// ---------------------------------------------------------------------------
// Selection
// ---------------------------------------------------------------------------

/// The texts of some task IDs.
pub open spec fn id_texts(ids: Seq<TaskId>) -> Seq<Seq<char>> {
    ids.map_values(|t: TaskId| t.view_text())
}

/// The text of the selected task ID, if any.
pub open spec fn selected_text(s: UiState) -> Option<Seq<char>> {
    match s.selected_task_id {
        Some(t) => Some(t.view_text()),
        None => None,
    }
}

/// The first position of a task ID among the shown ones.
pub open spec fn text_position(texts: Seq<Seq<char>>, t: Seq<char>) -> Option<int> {
    if exists|i: int| 0 <= i < texts.len() && texts[i] == t {
        Some(choose|i: int| 0 <= i < texts.len() && texts[i] == t && forall|j: int| 0 <= j < i ==> texts[j] != t)
    } else {
        None
    }
}

proof fn lemma_text_position(texts: Seq<Seq<char>>, t: Seq<char>, i: int)
    requires
        0 <= i < texts.len(),
        texts[i] == t,
        forall|j: int| 0 <= j < i ==> texts[j] != t,
    ensures
        text_position(texts, t) == Some(i),
{
    let k = choose|k: int| 0 <= k < texts.len() && texts[k] == t && forall|j: int| 0 <= j < k ==> texts[j] != t;
    if k < i {
    } else if i < k {
    }
}

/// The row of the selected task among the shown tasks.
pub open spec fn selected_task_position(texts: Seq<Seq<char>>, selected: Option<Seq<char>>) -> Option<int> {
    match selected {
        Some(t) => text_position(texts, t),
        None => None,
    }
}

/// The row of the selected task among the shown task IDs, if it is shown.
pub fn selected_task_index(ids: &Vec<TaskId>, state: &UiState) -> (r: Option<usize>)
    ensures
        match r {
            Some(i) => selected_task_position(id_texts(ids@), selected_text(*state)) == Some(i as int),
            None => selected_task_position(id_texts(ids@), selected_text(*state)) is None,
        },
{
    match &state.selected_task_id {
        Some(id) => {
            let want = chars_of(id.as_str());
            assert(selected_text(*state) == Some(want@));
            let mut i: usize = 0;
            while i < ids.len()
                invariant
                    i <= ids@.len(),
                    want@ == id.view_text(),
                    selected_text(*state) == Some(want@),
                    forall|j: int| 0 <= j < i ==> id_texts(ids@)[j] != want@,
                decreases ids.len() - i,
            {
                let here = chars_of(ids[i].as_str());
                assert(id_texts(ids@)[i as int] == here@);
                if chars_eq(&here, &want) {
                    proof {
                        lemma_text_position(id_texts(ids@), want@, i as int);
                    }
                    return Some(i);
                }
                i = i + 1;
            }
            proof {
                if exists|j: int| 0 <= j < id_texts(ids@).len() && id_texts(ids@)[j] == want@ {
                    let j = choose|j: int| 0 <= j < id_texts(ids@).len() && id_texts(ids@)[j] == want@;
                    assert(id_texts(ids@)[j] != want@);
                }
            }
            None
        },
        None => None,
    }
}

/// The row `delta` rows away from the selected one (from the first row when
/// the selection is not shown), kept within `n` rows.
pub open spec fn moved_row(n: int, current: Option<int>, delta: int) -> int {
    let c = match current {
        Some(i) => i,
        None => 0,
    };
    if c + delta <= 0 {
        0
    } else if c + delta >= n - 1 {
        n - 1
    } else {
        c + delta
    }
}

/// The selected task ID after moving `delta` rows: none when no task is
/// shown.
pub open spec fn moved_task(texts: Seq<Seq<char>>, selected: Option<Seq<char>>, delta: int) -> Option<Seq<char>> {
    if texts.len() == 0 {
        None
    } else {
        Some(texts[moved_row(texts.len() as int, selected_task_position(texts, selected), delta)])
    }
}

/// Moves the task selection `delta` rows, within the shown tasks.
pub fn move_task_selection(ids: &Vec<TaskId>, state: &mut UiState, delta: isize)
    ensures
        *final(state) == (UiState { selected_task_id: final(state).selected_task_id, ..*old(state) }),
        selected_text(*final(state)) == moved_task(id_texts(ids@), selected_text(*old(state)), delta as int),
{
    if ids.len() == 0 {
        state.selected_task_id = None;
        return;
    }
    let current: usize = match selected_task_index(ids, state) {
        Some(i) => i,
        None => 0,
    };
    let last: usize = ids.len() - 1;
    let t: i128 = current as i128 + delta as i128;
    let target: usize = if t <= 0 {
        0
    } else if t >= last as i128 {
        last
    } else {
        t as usize
    };
    state.selected_task_id = Some(TaskId::new(ids[target].as_str()));
}

/// Selects the first (or, with `last`, the last) shown task, or nothing
/// when none is shown.
pub fn select_end_task(ids: &Vec<TaskId>, state: &mut UiState, last: bool)
    ensures
        *final(state) == (UiState { selected_task_id: final(state).selected_task_id, ..*old(state) }),
        selected_text(*final(state)) == if ids@.len() == 0 {
            None
        } else if last {
            Some(id_texts(ids@).last())
        } else {
            Some(id_texts(ids@)[0])
        },
{
    state.selected_task_id = if ids.len() == 0 {
        None
    } else if last {
        Some(TaskId::new(ids[ids.len() - 1].as_str()))
    } else {
        Some(TaskId::new(ids[0].as_str()))
    };
}

/// The selected task after the rows changed: kept while its ID is shown;
/// else the row at the selection's former position (or the last row, or the
/// first when it had none); none when no task is shown.
pub open spec fn reconciled_task(
    texts: Seq<Seq<char>>,
    selected: Option<Seq<char>>,
    previous_index: Option<usize>,
) -> Option<Seq<char>> {
    if texts.len() == 0 {
        None
    } else if selected matches Some(t) && texts.contains(t) {
        selected
    } else {
        let i: int = match previous_index {
            Some(i) => i as int,
            None => 0,
        };
        Some(texts[if i < texts.len() - 1 { i } else { texts.len() - 1 }])
    }
}

/// Keeps the task selection on its ID, or moves it to the row where it was.
pub fn reconcile_task_selection(ids: &Vec<TaskId>, state: &mut UiState, previous_index: Option<usize>)
    ensures
        *final(state) == (UiState { selected_task_id: final(state).selected_task_id, ..*old(state) }),
        selected_text(*final(state)) == reconciled_task(id_texts(ids@), selected_text(*old(state)), previous_index),
{
    if ids.len() == 0 {
        state.selected_task_id = None;
        return;
    }
    let at = selected_task_index(ids, state);
    proof {
        if selected_text(*state) is Some {
            let t = selected_text(*state)->0;
            if id_texts(ids@).contains(t) {
                let w = choose|w: int| 0 <= w < id_texts(ids@).len() && id_texts(ids@)[w] == t;
                assert(id_texts(ids@)[w] == t);
            }
        }
    }
    if at.is_some() {
        return;
    }
    let i: usize = match previous_index {
        Some(i) => i,
        None => 0,
    };
    let last = ids.len() - 1;
    let k = if i < last {
        i
    } else {
        last
    };
    state.selected_task_id = Some(TaskId::new(ids[k].as_str()));
}

} // verus!
