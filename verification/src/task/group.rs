use vstd::prelude::*;

use crate::app::EnrichedProcess;
use crate::order::{ascending_texts, insert_text, text_lt};
use crate::process::model::{string_views, ProcessIdentity};
use crate::provenance::ProcessProvenance;
use crate::task::model::TaskId;
use crate::task::resolver::{resolve_task, resolved_view, task_model, ResolvedTask};
use crate::collector::cpu::sat_add;
use crate::text::{chars_eq, chars_of};

verus! {

/// The processes of one task: the task, as its first process resolved it,
/// and the positions of its processes in the process list.
#[derive(Debug, Clone)]
pub struct TaskGroup {
    pub task: ResolvedTask,
    pub members: Vec<usize>,
}

/// The task each process resolves to.
#[verifier::opaque]
pub open spec fn task_of(ps: Seq<EnrichedProcess>, provs: Seq<ProcessProvenance>, i: int) -> (Seq<char>, crate::task::model::TaskKind, Seq<char>, Option<i32>) {
    task_model(ps[i], ps, provs)
}

/// The keys of all tasks.
pub open spec fn task_keys(ps: Seq<EnrichedProcess>, provs: Seq<ProcessProvenance>) -> Set<Seq<char>> {
    Set::new(|k: Seq<char>| exists|i: int| 0 <= i < ps.len() && (#[trigger] task_of(ps, provs, i)).0 == k)
}

/// The order of a task's members: its owner first, then by PID, then by
/// position in the list.
pub open spec fn member_before(ps: Seq<EnrichedProcess>, owner: Option<i32>, a: int, b: int) -> bool {
    let oa = owner != Some(ps[a].snapshot.pid);
    let ob = owner != Some(ps[b].snapshot.pid);
    (!oa && ob) || (oa == ob && (ps[a].snapshot.pid < ps[b].snapshot.pid || (ps[a].snapshot.pid
        == ps[b].snapshot.pid && a < b)))
}

/// The first position of a process whose task has key `k`.
pub open spec fn first_of_task(ps: Seq<EnrichedProcess>, provs: Seq<ProcessProvenance>, k: Seq<char>, f: int) -> bool {
    0 <= f < ps.len() && task_of(ps, provs, f).0 == k && forall|j: int|
        0 <= j < f ==> (#[trigger] task_of(ps, provs, j)).0 != k
}

/// A group is the task of key `k`: resolved as its first process resolved
/// it, with exactly the processes of that key, owner first, then by PID.
pub open spec fn group_matches(g: TaskGroup, ps: Seq<EnrichedProcess>, provs: Seq<ProcessProvenance>) -> bool {
    let k = g.task.id.view_text();
    &&& exists|f: int| first_of_task(ps, provs, k, f) && resolved_view(g.task) == task_of(ps, provs, f)
    &&& forall|a: int, b: int|
        0 <= a < b < g.members@.len() ==> member_before(ps, g.task.owner_pid, g.members@[a] as int, g.members@[b] as int)
    &&& forall|i: int| 0 <= i < g.members@.len() ==> (g.members@[i] as int) < ps.len()
    &&& forall|i: int|
        0 <= i < ps.len() ==> (task_of(ps, provs, i).0 == k <==> g.members@.contains(i as usize))
}

proof fn lemma_task_of(ps: Seq<EnrichedProcess>, provs: Seq<ProcessProvenance>, i: int)
    ensures
        task_of(ps, provs, i) == task_model(ps[i], ps, provs),
{
    reveal(task_of);
}

fn copy_task(t: &ResolvedTask) -> (r: ResolvedTask)
    ensures
        resolved_view(r) == resolved_view(*t),
        r.owner_pid == t.owner_pid,
{
    ResolvedTask { id: TaskId::new(t.id.as_str()), kind: t.kind, label: t.label.clone(), owner_pid: t.owner_pid }
}

fn before_exec(processes: &[EnrichedProcess], owner: Option<i32>, a: usize, b: usize) -> (r: bool)
    requires
        a < processes@.len(),
        b < processes@.len(),
    ensures
        r == member_before(processes@, owner, a as int, b as int),
{
    let pa = processes[a].snapshot.pid;
    let pb = processes[b].snapshot.pid;
    let oa = match owner {
        Some(o) => o != pa,
        None => true,
    };
    let ob = match owner {
        Some(o) => o != pb,
        None => true,
    };
    (!oa && ob) || (oa == ob && (pa < pb || (pa == pb && a < b)))
}

/// Adds a process, later in the list than every member so far, to the
/// members of a task in member order.
fn insert_member(members: &mut Vec<usize>, i: usize, processes: &[EnrichedProcess], owner: Option<i32>)
    requires
        i < processes@.len(),
        forall|q: int| 0 <= q < old(members)@.len() ==> old(members)@[q] < i,
        forall|a: int, b: int|
            0 <= a < b < old(members)@.len() ==> member_before(processes@, owner, old(members)@[a] as int, old(members)@[b] as int),
    ensures
        forall|a: int, b: int|
            0 <= a < b < final(members)@.len() ==> member_before(processes@, owner, final(members)@[a] as int, final(members)@[b] as int),
        forall|x: usize| final(members)@.contains(x) <==> (old(members)@.contains(x) || x == i),
        forall|q: int| 0 <= q < final(members)@.len() ==> final(members)@[q] <= i,
{
    let ghost before = members@;
    let mut p: usize = 0;
    while p < members.len() && !before_exec(processes, owner, i, members[p])
        invariant
            p <= members.len(),
            before == members@,
            i < processes@.len(),
            forall|q: int| 0 <= q < before.len() ==> before[q] < i,
            forall|q: int| 0 <= q < p ==> !member_before(processes@, owner, i as int, before[q] as int),
        decreases members.len() - p,
    {
        p = p + 1;
    }
    members.insert(p, i);
    proof {
        let after = members@;
        assert(after =~= before.insert(p as int, i));
        assert forall|a: int, b: int| 0 <= a < b < after.len() implies member_before(
            processes@,
            owner,
            after[a] as int,
            after[b] as int,
        ) by {
            if b < p {
                assert(after[a] == before[a] && after[b] == before[b]);
            } else if b == p {
                assert(after[a] == before[a]);
                assert(!member_before(processes@, owner, i as int, before[a] as int));
            } else if a == p {
                assert(after[b] == before[b - 1]);
                assert(member_before(processes@, owner, i as int, before[p as int] as int));
                if b - 1 > p {
                    assert(member_before(processes@, owner, before[p as int] as int, before[b - 1] as int));
                }
            } else if a < p {
                assert(after[a] == before[a] && after[b] == before[b - 1]);
            } else {
                assert(after[a] == before[a - 1] && after[b] == before[b - 1]);
            }
        }
        assert forall|x: usize| after.contains(x) <==> (before.contains(x) || x == i) by {
            if after.contains(x) {
                let k = choose|k: int| 0 <= k < after.len() && after[k] == x;
                if k < p {
                    assert(before[k] == x);
                } else if k > p {
                    assert(before[k - 1] == x);
                }
            }
            if before.contains(x) {
                let k = choose|k: int| 0 <= k < before.len() && before[k] == x;
                if k < p {
                    assert(after[k] == x);
                } else {
                    assert(after[k + 1] == x);
                }
            }
            if x == i {
                assert(after[p as int] == x);
            }
        }
        assert forall|q: int| 0 <= q < after.len() implies after[q] <= i by {
            if q < p {
                assert(after[q] == before[q]);
            } else if q > p {
                assert(after[q] == before[q - 1]);
            }
        }
    }
}

/// The group of the tasks with key `key`, which some process has.
fn collect_group(
    resolved: &Vec<ResolvedTask>,
    key: &Vec<char>,
    processes: &[EnrichedProcess],
    Ghost(provs): Ghost<Seq<ProcessProvenance>>,
) -> (group: TaskGroup)
    requires
        resolved@.len() == processes@.len(),
        forall|j: int| 0 <= j < resolved@.len() ==> resolved_view(#[trigger] resolved@[j]) == task_of(processes@, provs, j),
        exists|w: int| 0 <= w < processes@.len() && (#[trigger] task_of(processes@, provs, w)).0 == key@,
    ensures
        group.task.id.view_text() == key@,
        group_matches(group, processes@, provs),
{
    let ghost ps = processes@;
    let mut first: Option<usize> = None;
    let mut owner: Option<i32> = None;
    let mut members: Vec<usize> = Vec::new();
    let mut i: usize = 0;
    while i < resolved.len()
        invariant
            i <= resolved@.len(),
            ps == processes@,
            resolved@.len() == processes@.len(),
            forall|j: int| 0 <= j < resolved@.len() ==> resolved_view(#[trigger] resolved@[j]) == task_of(ps, provs, j),
            match first {
                Some(f) => first_of_task(ps, provs, key@, f as int) && owner == task_of(ps, provs, f as int).3,
                None => forall|j: int| 0 <= j < i ==> (#[trigger] task_of(ps, provs, j)).0 != key@,
            },
            first is None ==> members@.len() == 0,
            forall|q: int| 0 <= q < members@.len() ==> members@[q] < i,
            forall|a: int, b: int|
                0 <= a < b < members@.len() ==> member_before(ps, owner, members@[a] as int, members@[b] as int),
            forall|j: int| 0 <= j < i ==> (task_of(ps, provs, j).0 == key@ <==> members@.contains(j as usize)),
            forall|x: usize| members@.contains(x) ==> x < i,
        decreases resolved.len() - i,
    {
        if chars_eq(&chars_of(resolved[i].id.as_str()), &key) {
            if first.is_none() {
                first = Some(i);
                owner = resolved[i].owner_pid;
            }
            let ghost old_members = members@;
            insert_member(&mut members, i, processes, owner);
            proof {
                assert forall|j: int| 0 <= j < i + 1 implies (task_of(ps, provs, j).0 == key@
                    <==> members@.contains(j as usize)) by {
                    if j < i {
                        if old_members.contains(j as usize) {
                        }
                    }
                }
            }
        } else {
            proof {
                assert(task_of(ps, provs, i as int).0 != key@);
            }
        }
        i = i + 1;
    }
    proof {
        let w = choose|w: int| 0 <= w < ps.len() && (#[trigger] task_of(ps, provs, w)).0 == key@;
        assert(first is Some);
    }
    let f = match first {
        Some(f) => f,
        None => 0,
    };
    let group = TaskGroup { task: copy_task(&resolved[f]), members };
    proof {
        assert(first_of_task(ps, provs, key@, f as int));
        assert(group_matches(group, ps, provs));
    }
    group
}

/// The keys of the tasks of the first `n` processes.
pub open spec fn keys_upto(ps: Seq<EnrichedProcess>, provs: Seq<ProcessProvenance>, n: int) -> Set<Seq<char>> {
    Set::new(|k: Seq<char>| exists|i: int| 0 <= i < n && (#[trigger] task_of(ps, provs, i)).0 == k)
}

/// Groups processes by task: the tasks in ascending order of their keys,
/// each resolved as its first process resolved it and with its processes,
/// owner first, then by PID (then by position). `provenance` holds the
/// provenance of each process, in the same order.
pub fn group_tasks(processes: &[EnrichedProcess], provenance: &[ProcessProvenance]) -> (r: Vec<TaskGroup>)
    requires
        provenance@.len() == processes@.len(),
    ensures
        ascending_texts(r@.map_values(|g: TaskGroup| g.task.id.view_text())),
        r@.map_values(|g: TaskGroup| g.task.id.view_text()).to_set() == task_keys(processes@, provenance@),
        forall|j: int| 0 <= j < r@.len() ==> group_matches(#[trigger] r@[j], processes@, provenance@),
{
    let ghost ps = processes@;
    let ghost provs = provenance@;
    let mut resolved: Vec<ResolvedTask> = Vec::new();
    let mut keys: Vec<String> = Vec::new();
    let mut i: usize = 0;
    while i < processes.len()
        invariant
            i <= processes@.len(),
            ps == processes@,
            provs == provenance@,
            provenance@.len() == processes@.len(),
            resolved@.len() == i,
            forall|j: int| 0 <= j < i ==> resolved_view(#[trigger] resolved@[j]) == task_of(ps, provs, j),
            ascending_texts(string_views(keys@)),
            string_views(keys@).to_set() == keys_upto(ps, provs, i as int),
        decreases processes.len() - i,
    {
        let t = resolve_task(&processes[i], processes, provenance);
        proof {
            lemma_task_of(ps, provs, i as int);
        }
        insert_text(&mut keys, t.id.as_str());
        proof {
            assert forall|k: Seq<char>| keys_upto(ps, provs, i + 1).contains(k) == keys_upto(ps, provs, i as int).insert(
                resolved_view(t).0,
            ).contains(k) by {
                if keys_upto(ps, provs, i + 1).contains(k) {
                    let w = choose|w: int| 0 <= w < i + 1 && (#[trigger] task_of(ps, provs, w)).0 == k;
                    if w < i {
                        assert(keys_upto(ps, provs, i as int).contains(k));
                    }
                }
                if keys_upto(ps, provs, i as int).contains(k) {
                    let w = choose|w: int| 0 <= w < i && (#[trigger] task_of(ps, provs, w)).0 == k;
                    assert(0 <= w < i + 1);
                }
                if k == resolved_view(t).0 {
                    assert(task_of(ps, provs, i as int).0 == k);
                }
            }
            assert(keys_upto(ps, provs, i + 1) =~= keys_upto(ps, provs, i as int).insert(resolved_view(t).0));
        }
        resolved.push(t);
        i = i + 1;
    }
    proof {
        assert(keys_upto(ps, provs, ps.len() as int) =~= task_keys(ps, provs));
    }
    let mut groups: Vec<TaskGroup> = Vec::new();
    let mut g: usize = 0;
    while g < keys.len()
        invariant
            g <= keys.len(),
            ps == processes@,
            provs == provenance@,
            resolved@.len() == processes@.len(),
            forall|j: int| 0 <= j < resolved@.len() ==> resolved_view(#[trigger] resolved@[j]) == task_of(ps, provs, j),
            groups@.len() == g,
            forall|j: int| 0 <= j < g ==> (#[trigger] groups@[j]).task.id.view_text() == keys@[j]@,
            forall|j: int| 0 <= j < g ==> group_matches(#[trigger] groups@[j], ps, provs),
            string_views(keys@).to_set() == task_keys(ps, provs),
        decreases keys.len() - g,
    {
        let key = chars_of(keys[g].as_str());
        proof {
            assert(string_views(keys@)[g as int] == key@);
            assert(string_views(keys@).to_set().contains(key@));
        }
        let group = collect_group(&resolved, &key, processes, Ghost(provs));
        proof {
            let w = choose|w: int| 0 <= w < ps.len() && (#[trigger] task_of(ps, provs, w)).0 == key@;
        }
        groups.push(group);
        g = g + 1;
    }
    proof {
        assert(groups@.map_values(|t: TaskGroup| t.task.id.view_text()) =~= string_views(keys@));
    }
    groups
}

/// Counts added up, stopping at `u64::MAX`.
pub open spec fn saturating_total(values: Seq<u64>) -> u64
    decreases values.len(),
{
    if values.len() == 0 {
        0
    } else {
        sat_add(saturating_total(values.drop_last()), values.last())
    }
}

/// The resident memory of some processes, added up without overflow.
pub open spec fn members_rss(ps: Seq<EnrichedProcess>, members: Seq<usize>) -> Seq<u64> {
    members.map_values(|m: usize| ps[m as int].snapshot.memory_bytes)
}

pub fn sum_rss(members: &Vec<usize>, processes: &[EnrichedProcess]) -> (r: u64)
    requires
        forall|i: int| 0 <= i < members@.len() ==> (members@[i] as int) < processes@.len(),
    ensures
        r == saturating_total(members_rss(processes@, members@)),
{
    let mut total: u64 = 0;
    let mut i: usize = 0;
    while i < members.len()
        invariant
            i <= members.len(),
            forall|j: int| 0 <= j < members@.len() ==> (members@[j] as int) < processes@.len(),
            total == saturating_total(members_rss(processes@, members@.take(i as int))),
        decreases members.len() - i,
    {
        proof {
            let t = members_rss(processes@, members@.take(i + 1));
            assert(t.drop_last() =~= members_rss(processes@, members@.take(i as int)));
        }
        total = total.saturating_add(processes[members[i]].snapshot.memory_bytes);
        i = i + 1;
    }
    assert(members@.take(members@.len() as int) =~= members@);
    total
}

/// The GPU memory of some processes: the total of the values known, or none
/// when no process has one.
pub open spec fn vram_total(values: Seq<Option<u64>>) -> Option<u64>
    decreases values.len(),
{
    if values.len() == 0 {
        None
    } else {
        let before = vram_total(values.drop_last());
        match values.last() {
            Some(v) => Some(
                sat_add(
                    match before {
                        Some(t) => t,
                        None => 0,
                    },
                    v,
                ),
            ),
            None => before,
        }
    }
}

pub open spec fn members_vram(ps: Seq<EnrichedProcess>, members: Seq<usize>) -> Seq<Option<u64>> {
    members.map_values(
        |m: usize|
            match ps[m as int].snapshot.gpu {
                Some(g) => g.vram_bytes,
                None => None,
            },
    )
}

pub fn sum_vram(members: &Vec<usize>, processes: &[EnrichedProcess]) -> (r: Option<u64>)
    requires
        forall|i: int| 0 <= i < members@.len() ==> (members@[i] as int) < processes@.len(),
    ensures
        r == vram_total(members_vram(processes@, members@)),
{
    let mut total: u64 = 0;
    let mut seen = false;
    let mut i: usize = 0;
    while i < members.len()
        invariant
            i <= members.len(),
            forall|j: int| 0 <= j < members@.len() ==> (members@[j] as int) < processes@.len(),
            vram_total(members_vram(processes@, members@.take(i as int))) == if seen {
                Some(total)
            } else {
                None
            },
            !seen ==> total == 0,
        decreases members.len() - i,
    {
        proof {
            let t = members_vram(processes@, members@.take(i + 1));
            assert(t.drop_last() =~= members_vram(processes@, members@.take(i as int)));
        }
        let value = match &processes[members[i]].snapshot.gpu {
            Some(g) => g.vram_bytes,
            None => None,
        };
        match value {
            Some(v) => {
                seen = true;
                total = total.saturating_add(v);
            },
            None => {},
        }
        i = i + 1;
    }
    assert(members@.take(members@.len() as int) =~= members@);
    if seen {
        Some(total)
    } else {
        None
    }
}

/// A counter added up over some processes: none when one of them lacks it.
pub open spec fn io_total(values: Seq<Option<u64>>) -> Option<u64>
    decreases values.len(),
{
    if values.len() == 0 {
        Some(0)
    } else {
        match (io_total(values.drop_last()), values.last()) {
            (Some(t), Some(v)) => Some(sat_add(t, v)),
            _ => None,
        }
    }
}

pub fn sum_io(values: &[Option<u64>]) -> (r: Option<u64>)
    ensures
        r == io_total(values@),
{
    let mut total: u64 = 0;
    let mut i: usize = 0;
    while i < values.len()
        invariant
            i <= values.len(),
            io_total(values@.take(i as int)) == Some(total),
        decreases values.len() - i,
    {
        assert(values@.take(i + 1).drop_last() =~= values@.take(i as int));
        match values[i] {
            Some(v) => {
                total = total.saturating_add(v);
            },
            None => {
                proof {
                    lemma_io_total_none(values@, i as int + 1);
                }
                return None;
            },
        }
        i = i + 1;
    }
    assert(values@.take(values@.len() as int) =~= values@);
    Some(total)
}

proof fn lemma_io_total_none(values: Seq<Option<u64>>, k: int)
    requires
        0 < k <= values.len(),
        io_total(values.take(k)) is None,
    ensures
        io_total(values) is None,
    decreases values.len() - k,
{
    if k < values.len() {
        assert(values.take(k + 1).drop_last() =~= values.take(k));
        lemma_io_total_none(values, k + 1);
    } else {
        assert(values.take(k) =~= values);
    }
}

/// The position of the last process with an identity.
pub open spec fn last_with_identity(ps: Seq<EnrichedProcess>, id: ProcessIdentity) -> Option<int>
    decreases ps.len(),
{
    if ps.len() == 0 {
        None
    } else if ps.last().snapshot.identity == id {
        Some(ps.len() - 1)
    } else {
        last_with_identity(ps.drop_last(), id)
    }
}

pub open spec fn member_positions(ids: Seq<ProcessIdentity>, ps: Seq<EnrichedProcess>) -> Seq<usize>
    decreases ids.len(),
{
    if ids.len() == 0 {
        Seq::empty()
    } else {
        let before = member_positions(ids.drop_last(), ps);
        match last_with_identity(ps, ids.last()) {
            Some(k) => before.push(k as usize),
            None => before,
        }
    }
}

/// The position of the last process with an identity.
pub fn find_identity(processes: &[EnrichedProcess], id: ProcessIdentity) -> (r: Option<usize>)
    ensures
        match r {
            Some(k) => last_with_identity(processes@, id) == Some(k as int),
            None => last_with_identity(processes@, id) is None,
        },
{
    let mut i: usize = processes.len();
    assert(processes@.take(i as int) =~= processes@);
    while i > 0
        invariant
            i <= processes@.len(),
            last_with_identity(processes@, id) == last_with_identity(processes@.take(i as int), id),
        decreases i,
    {
        assert(processes@.take(i as int).drop_last() =~= processes@.take(i - 1));
        if processes[i - 1].snapshot.identity == id {
            return Some(i - 1);
        }
        i = i - 1;
    }
    None
}

/// The positions of the processes of a task that are still in the list, in
/// the task's member order; a reused identity names the last such process.
pub fn members_for_task(member_ids: &[ProcessIdentity], processes: &[EnrichedProcess]) -> (r: Vec<usize>)
    ensures
        r@ == member_positions(member_ids@, processes@),
{
    let mut r: Vec<usize> = Vec::new();
    let mut i: usize = 0;
    while i < member_ids.len()
        invariant
            i <= member_ids.len(),
            r@ == member_positions(member_ids@.take(i as int), processes@),
        decreases member_ids.len() - i,
    {
        assert(member_ids@.take(i + 1).drop_last() =~= member_ids@.take(i as int));
        match find_identity(processes, member_ids[i]) {
            Some(k) => r.push(k),
            None => {},
        }
        i = i + 1;
    }
    assert(member_ids@.take(member_ids@.len() as int) =~= member_ids@);
    r
}

} // verus!
