use vstd::prelude::*;

use crate::app::EnrichedProcess;
use crate::order::{ascending_texts, lemma_ascending_ordered, text_lt};
use crate::provenance::ProcessProvenance;
use crate::collector::cpu::sat_add;
use crate::collector::process::ProcessIoSnapshot;
use crate::task::format::{io_values, totals_of};
use crate::app::SortMode;
use crate::task::view::{reconciled_task, task_keys_of, tasks_ordered};
use crate::task::group::{
    group_matches, io_total, members_rss, members_vram, saturating_total, task_keys, task_of, vram_total, TaskGroup,
};

verus! {

/// Exactly one group holds the process at position `i`.
pub open spec fn held_by_one_group(groups: Seq<TaskGroup>, i: int) -> bool {
    exists|j: int|
        0 <= j < groups.len() && (#[trigger] groups[j]).members@.contains(i as usize) && forall|k: int|
            0 <= k < groups.len() && k != j ==> !(#[trigger] groups[k]).members@.contains(i as usize)
}

/// Grouping by task puts every process in exactly one task: the groups that
/// `group_tasks` returns (ascending keys, covering every key, each matching
/// its key) hold each process of the list once.
pub proof fn every_process_in_exactly_one_task(
    groups: Seq<TaskGroup>,
    ps: Seq<EnrichedProcess>,
    provs: Seq<ProcessProvenance>,
)
    requires
        ascending_texts(groups.map_values(|g: TaskGroup| g.task.id.view_text())),
        groups.map_values(|g: TaskGroup| g.task.id.view_text()).to_set() == task_keys(ps, provs),
        forall|j: int| 0 <= j < groups.len() ==> group_matches(#[trigger] groups[j], ps, provs),
    ensures
        forall|i: int| 0 <= i < ps.len() ==> #[trigger] held_by_one_group(groups, i),
{
    let keys = groups.map_values(|g: TaskGroup| g.task.id.view_text());
    assert forall|i: int| 0 <= i < ps.len() implies #[trigger] held_by_one_group(groups, i) by {
        let key = task_of(ps, provs, i).0;
        assert(task_keys(ps, provs).contains(key));
        assert(keys.to_set().contains(key));
        let j = choose|j: int| 0 <= j < keys.len() && keys[j] == key;
        assert(group_matches(groups[j], ps, provs));
        assert(groups[j].members@.contains(i as usize));
        assert forall|k: int| 0 <= k < groups.len() && k != j implies !(#[trigger] groups[k]).members@.contains(
            i as usize,
        ) by {
            assert(group_matches(groups[k], ps, provs));
            if groups[k].members@.contains(i as usize) {
                assert(keys[k] == key);
                if k < j {
                    lemma_ascending_ordered(keys, k, j);
                } else {
                    lemma_ascending_ordered(keys, j, k);
                }
            }
        }
    }
}


/// The values that are known, in order.
pub open spec fn known_values(values: Seq<Option<u64>>) -> Seq<u64>
    decreases values.len(),
{
    if values.len() == 0 {
        Seq::empty()
    } else {
        match values.last() {
            Some(v) => known_values(values.drop_last()).push(v),
            None => known_values(values.drop_last()),
        }
    }
}

/// A sum over values that may be unknown is unknown as soon as one of them
/// is, and otherwise the saturating sum of all of them.
pub proof fn unknown_value_makes_sum_unknown(values: Seq<Option<u64>>)
    ensures
        io_total(values) is None <==> exists|i: int| 0 <= i < values.len() && (#[trigger] values[i]) is None,
        io_total(values) is Some ==> io_total(values) == Some(saturating_total(known_values(values))),
    decreases values.len(),
{
    if values.len() > 0 {
        let d = values.drop_last();
        unknown_value_makes_sum_unknown(d);
        if exists|i: int| 0 <= i < d.len() && (#[trigger] d[i]) is None {
            let i = choose|i: int| 0 <= i < d.len() && (#[trigger] d[i]) is None;
            assert(values[i] == d[i]);
        }
        if exists|i: int| 0 <= i < values.len() && (#[trigger] values[i]) is None {
            let i = choose|i: int| 0 <= i < values.len() && (#[trigger] values[i]) is None;
            if i < d.len() {
                assert(d[i] == values[i]);
            }
        }
        if io_total(values) is Some {
            assert(known_values(values).drop_last() =~= known_values(d));
        }
    }
}

/// A sum over the known values only: unknown when no value is known (never
/// zero), else the saturating sum of the known ones.
pub proof fn sum_of_known_values(values: Seq<Option<u64>>)
    ensures
        vram_total(values) is None <==> forall|i: int| 0 <= i < values.len() ==> (#[trigger] values[i]) is None,
        vram_total(values) is Some ==> vram_total(values) == Some(saturating_total(known_values(values))),
    decreases values.len(),
{
    if values.len() > 0 {
        let d = values.drop_last();
        sum_of_known_values(d);
        if forall|i: int| 0 <= i < values.len() ==> (#[trigger] values[i]) is None {
            assert forall|i: int| 0 <= i < d.len() implies (#[trigger] d[i]) is None by {
                assert(d[i] == values[i]);
            }
        }
        if vram_total(d) is None && values.last() is None {
            assert forall|i: int| 0 <= i < values.len() implies (#[trigger] values[i]) is None by {
                if i < d.len() {
                    assert(d[i] == values[i]);
                }
            }
        }
        if vram_total(d) is Some {
            let i = choose|i: int| 0 <= i < d.len() && !((#[trigger] d[i]) is None);
            assert(values[i] == d[i]);
        }
        if vram_total(values) is Some {
            match values.last() {
                Some(v) => {
                    assert(known_values(values).drop_last() =~= known_values(d));
                    if vram_total(d) is None {
                        lemma_none_known(d);
                        assert(known_values(d) =~= Seq::<u64>::empty());
                        assert(known_values(values).drop_last() =~= Seq::<u64>::empty());
                        assert(saturating_total(known_values(values)) == sat_add(saturating_total(Seq::<u64>::empty()), v));
                    }
                },
                None => {
                    assert(known_values(values) == known_values(d));
                },
            }
        }
    }
}

proof fn lemma_none_known(values: Seq<Option<u64>>)
    requires
        forall|i: int| 0 <= i < values.len() ==> (#[trigger] values[i]) is None,
    ensures
        known_values(values).len() == 0,
    decreases values.len(),
{
    if values.len() > 0 {
        let d = values.drop_last();
        assert forall|i: int| 0 <= i < d.len() implies (#[trigger] d[i]) is None by {
            assert(d[i] == values[i]);
        }
        lemma_none_known(d);
        assert(values[values.len() - 1] is None);
    }
}

/// A task's disk counters are unknown unless every member has an I/O
/// sample, and then they are the saturating sums; a rate is unknown unless
/// every member's is known. Missing data is never counted as zero.
pub proof fn task_io_is_unknown_unless_every_member_reports(
    members: Seq<usize>,
    ps: Seq<EnrichedProcess>,
    io: Seq<Option<ProcessIoSnapshot>>,
)
    requires
        forall|i: int| 0 <= i < members.len() ==> (#[trigger] members[i] as int) < io.len(),
    ensures
        totals_of(members, ps, io).disk_read_bytes is None <==> exists|i: int|
            0 <= i < members.len() && (#[trigger] io[members[i] as int]) is None,
        totals_of(members, ps, io).disk_write_bytes is None <==> exists|i: int|
            0 <= i < members.len() && (#[trigger] io[members[i] as int]) is None,
        totals_of(members, ps, io).disk_read_bytes is Some ==> totals_of(members, ps, io).disk_read_bytes
            == Some(saturating_total(known_values(io_values(members, io, |x: ProcessIoSnapshot| Some(x.read_bytes))))),
        totals_of(members, ps, io).disk_write_bytes is Some ==> totals_of(members, ps, io).disk_write_bytes
            == Some(saturating_total(known_values(io_values(members, io, |x: ProcessIoSnapshot| Some(x.write_bytes))))),
        totals_of(members, ps, io).read_bytes_per_second is None <==> exists|i: int|
            0 <= i < members.len() && match #[trigger] io[members[i] as int] {
                Some(x) => x.read_bytes_per_second is None,
                None => true,
            },
        totals_of(members, ps, io).write_bytes_per_second is None <==> exists|i: int|
            0 <= i < members.len() && match #[trigger] io[members[i] as int] {
                Some(x) => x.write_bytes_per_second is None,
                None => true,
            },
{
    let reads = io_values(members, io, |x: ProcessIoSnapshot| Some(x.read_bytes));
    let writes = io_values(members, io, |x: ProcessIoSnapshot| Some(x.write_bytes));
    let rr = io_values(members, io, |x: ProcessIoSnapshot| x.read_bytes_per_second);
    let wr = io_values(members, io, |x: ProcessIoSnapshot| x.write_bytes_per_second);
    unknown_value_makes_sum_unknown(reads);
    unknown_value_makes_sum_unknown(writes);
    unknown_value_makes_sum_unknown(rr);
    unknown_value_makes_sum_unknown(wr);
    assert forall|i: int| 0 <= i < members.len() implies (#[trigger] reads[i]) is None == (io[members[i] as int] is None)
        && (#[trigger] writes[i]) is None == (io[members[i] as int] is None)
        && (#[trigger] rr[i]) == match io[members[i] as int] {
            Some(x) => x.read_bytes_per_second,
            None => None,
        } && (#[trigger] wr[i]) == match io[members[i] as int] {
            Some(x) => x.write_bytes_per_second,
            None => None,
        } by {}
    if exists|i: int| 0 <= i < members.len() && (#[trigger] io[members[i] as int]) is None {
        let i = choose|i: int| 0 <= i < members.len() && (#[trigger] io[members[i] as int]) is None;
        assert(reads[i] is None);
        assert(writes[i] is None);
    }
    if exists|i: int| 0 <= i < reads.len() && (#[trigger] reads[i]) is None {
        let i = choose|i: int| 0 <= i < reads.len() && (#[trigger] reads[i]) is None;
        assert(io[members[i] as int] is None);
    }
    if exists|i: int| 0 <= i < writes.len() && (#[trigger] writes[i]) is None {
        let i = choose|i: int| 0 <= i < writes.len() && (#[trigger] writes[i]) is None;
        assert(io[members[i] as int] is None);
    }
    if exists|i: int| 0 <= i < members.len() && match #[trigger] io[members[i] as int] {
        Some(x) => x.read_bytes_per_second is None,
        None => true,
    } {
        let i = choose|i: int| 0 <= i < members.len() && match #[trigger] io[members[i] as int] {
            Some(x) => x.read_bytes_per_second is None,
            None => true,
        };
        assert(rr[i] is None);
    }
    if exists|i: int| 0 <= i < rr.len() && (#[trigger] rr[i]) is None {
        let i = choose|i: int| 0 <= i < rr.len() && (#[trigger] rr[i]) is None;
        assert(match io[members[i] as int] {
            Some(x) => x.read_bytes_per_second is None,
            None => true,
        });
    }
    if exists|i: int| 0 <= i < members.len() && match #[trigger] io[members[i] as int] {
        Some(x) => x.write_bytes_per_second is None,
        None => true,
    } {
        let i = choose|i: int| 0 <= i < members.len() && match #[trigger] io[members[i] as int] {
            Some(x) => x.write_bytes_per_second is None,
            None => true,
        };
        assert(wr[i] is None);
    }
    if exists|i: int| 0 <= i < wr.len() && (#[trigger] wr[i]) is None {
        let i = choose|i: int| 0 <= i < wr.len() && (#[trigger] wr[i]) is None;
        assert(match io[members[i] as int] {
            Some(x) => x.write_bytes_per_second is None,
            None => true,
        });
    }
}

/// A task's GPU memory is unknown when no member reports any (never 0), and
/// otherwise the saturating sum of what the members report; members without
/// a figure add nothing.
pub proof fn task_vram_is_unknown_only_without_any_report(
    members: Seq<usize>,
    ps: Seq<EnrichedProcess>,
    io: Seq<Option<ProcessIoSnapshot>>,
)
    ensures
        totals_of(members, ps, io).vram_bytes is None <==> forall|i: int|
            0 <= i < members.len() ==> (#[trigger] members_vram(ps, members)[i]) is None,
        totals_of(members, ps, io).vram_bytes is Some ==> totals_of(members, ps, io).vram_bytes == Some(
            saturating_total(known_values(members_vram(ps, members))),
        ),
{
    sum_of_known_values(members_vram(ps, members));
}


/// The tasks that grouping returns have distinct IDs in ascending order, and
/// each lists its owner first, then its other members by ascending PID.
pub proof fn tasks_are_sorted_and_owner_led(
    groups: Seq<TaskGroup>,
    ps: Seq<EnrichedProcess>,
    provs: Seq<ProcessProvenance>,
)
    requires
        ascending_texts(groups.map_values(|g: TaskGroup| g.task.id.view_text())),
        forall|j: int| 0 <= j < groups.len() ==> group_matches(#[trigger] groups[j], ps, provs),
    ensures
        forall|j: int, k: int|
            0 <= j < k < groups.len() ==> text_lt(groups[j].task.id.view_text(), groups[k].task.id.view_text())
                && groups[j].task.id.view_text() != groups[k].task.id.view_text(),
        forall|j: int, a: int, b: int|
            #![trigger groups[j].members@[a], groups[j].members@[b]]
            0 <= j < groups.len() && 0 <= a < b < groups[j].members@.len() ==> {
                let g = groups[j];
                let pa = ps[g.members@[a] as int].snapshot.pid;
                let pb = ps[g.members@[b] as int].snapshot.pid;
                &&& (g.task.owner_pid == Some(pb) ==> g.task.owner_pid == Some(pa))
                &&& (g.task.owner_pid != Some(pa) && g.task.owner_pid != Some(pb) ==> pa <= pb)
            },
{
    let keys = groups.map_values(|g: TaskGroup| g.task.id.view_text());
    assert forall|j: int, k: int| 0 <= j < k < groups.len() implies text_lt(
        groups[j].task.id.view_text(),
        groups[k].task.id.view_text(),
    ) && groups[j].task.id.view_text() != groups[k].task.id.view_text() by {
        lemma_ascending_ordered(keys, j, k);
    }
    assert forall|j: int, a: int, b: int|
        #![trigger groups[j].members@[a], groups[j].members@[b]]
        0 <= j < groups.len() && 0 <= a < b < groups[j].members@.len() implies {
            let g = groups[j];
            let pa = ps[g.members@[a] as int].snapshot.pid;
            let pb = ps[g.members@[b] as int].snapshot.pid;
            &&& (g.task.owner_pid == Some(pb) ==> g.task.owner_pid == Some(pa))
            &&& (g.task.owner_pid != Some(pa) && g.task.owner_pid != Some(pb) ==> pa <= pb)
        } by {
        assert(group_matches(groups[j], ps, provs));
        let g = groups[j];
        assert(crate::task::group::member_before(ps, g.task.owner_pid, g.members@[a] as int, g.members@[b] as int));
    }
}

/// The members of the groups, group after group.
pub open spec fn all_members(groups: Seq<TaskGroup>) -> Seq<usize>
    decreases groups.len(),
{
    if groups.len() == 0 {
        Seq::empty()
    } else {
        all_members(groups.drop_last()) + groups.last().members@
    }
}

/// How many processes the groups count in all.
pub open spec fn member_total(groups: Seq<TaskGroup>) -> nat
    decreases groups.len(),
{
    if groups.len() == 0 {
        0
    } else {
        member_total(groups.drop_last()) + groups.last().members@.len()
    }
}

proof fn lemma_members_distinct(g: TaskGroup, ps: Seq<EnrichedProcess>, provs: Seq<ProcessProvenance>)
    requires
        group_matches(g, ps, provs),
    ensures
        g.members@.no_duplicates(),
{
    assert forall|a: int, b: int| 0 <= a < g.members@.len() && 0 <= b < g.members@.len() && a != b implies g.members@[a]
        != g.members@[b] by {
        if a < b {
            assert(crate::task::group::member_before(ps, g.task.owner_pid, g.members@[a] as int, g.members@[b] as int));
        } else {
            assert(crate::task::group::member_before(ps, g.task.owner_pid, g.members@[b] as int, g.members@[a] as int));
        }
    }
}

proof fn lemma_all_members_prefix(groups: Seq<TaskGroup>, ps: Seq<EnrichedProcess>, provs: Seq<ProcessProvenance>, k: int)
    requires
        0 <= k <= groups.len(),
        forall|j: int| 0 <= j < groups.len() ==> group_matches(#[trigger] groups[j], ps, provs),
        forall|i: int| 0 <= i < ps.len() ==> #[trigger] held_by_one_group(groups, i),
    ensures
        all_members(groups.take(k)).no_duplicates(),
        all_members(groups.take(k)).len() == member_total(groups.take(k)),
        forall|x: usize| all_members(groups.take(k)).contains(x) <==> exists|j: int|
            0 <= j < k && (#[trigger] groups[j]).members@.contains(x),
    decreases k,
{
    let t = groups.take(k);
    if k == 0 {
        assert(t.len() == 0);
    } else {
        lemma_all_members_prefix(groups, ps, provs, k - 1);
        let p = groups.take(k - 1);
        assert(t.drop_last() =~= p);
        assert(t.last() == groups[k - 1]);
        let a = all_members(p);
        let b = groups[k - 1].members@;
        assert(all_members(t) == a + b);
        lemma_members_distinct(groups[k - 1], ps, provs);
        assert forall|i: int, j: int| 0 <= i < a.len() && 0 <= j < b.len() implies a[i] != b[j] by {
            if a[i] == b[j] {
                let x = b[j];
                assert(a.contains(x));
                let g = choose|g: int| 0 <= g < k - 1 && (#[trigger] groups[g]).members@.contains(x);
                assert(group_matches(groups[k - 1], ps, provs));
                assert((x as int) < ps.len());
                assert(groups[k - 1].members@.contains(x));
                assert(held_by_one_group(groups, x as int));
                let h = choose|h: int|
                    0 <= h < groups.len() && (#[trigger] groups[h]).members@.contains(x as int as usize) && forall|q: int|
                        0 <= q < groups.len() && q != h ==> !(#[trigger] groups[q]).members@.contains(x as int as usize);
                assert(false);
            }
        }
        vstd::seq_lib::lemma_no_dup_in_concat(a, b);
        assert forall|x: usize| all_members(t).contains(x) <==> exists|j: int|
            0 <= j < k && (#[trigger] groups[j]).members@.contains(x) by {
            if (a + b).contains(x) {
                let i = choose|i: int| 0 <= i < (a + b).len() && (a + b)[i] == x;
                if i < a.len() {
                    assert(a[i] == x);
                    assert(a.contains(x));
                    let g = choose|g: int| 0 <= g < k - 1 && (#[trigger] groups[g]).members@.contains(x);
                    assert(groups[g].members@.contains(x));
                } else {
                    assert(b[i - a.len()] == x);
                    assert(groups[k - 1].members@.contains(x));
                }
            }
            if exists|j: int| 0 <= j < k && (#[trigger] groups[j]).members@.contains(x) {
                let j = choose|j: int| 0 <= j < k && (#[trigger] groups[j]).members@.contains(x);
                if j < k - 1 {
                    assert(groups[j].members@.contains(x));
                    assert(a.contains(x));
                    let i = choose|i: int| 0 <= i < a.len() && a[i] == x;
                    assert((a + b)[i] == x);
                } else {
                    let i = choose|i: int| 0 <= i < b.len() && b[i] == x;
                    assert((a + b)[a.len() + i] == x);
                }
            }
        }
    }
}

/// The tasks count every process once: their member counts add up to the
/// number of processes.
pub proof fn task_member_counts_add_up(
    groups: Seq<TaskGroup>,
    ps: Seq<EnrichedProcess>,
    provs: Seq<ProcessProvenance>,
)
    requires
        ps.len() <= usize::MAX,
        ascending_texts(groups.map_values(|g: TaskGroup| g.task.id.view_text())),
        groups.map_values(|g: TaskGroup| g.task.id.view_text()).to_set() == task_keys(ps, provs),
        forall|j: int| 0 <= j < groups.len() ==> group_matches(#[trigger] groups[j], ps, provs),
    ensures
        member_total(groups) == ps.len(),
{
    every_process_in_exactly_one_task(groups, ps, provs);
    lemma_all_members_prefix(groups, ps, provs, groups.len() as int);
    assert(groups.take(groups.len() as int) =~= groups);
    let all = all_members(groups);
    let range = Seq::new(ps.len(), |i: int| i as usize);
    assert forall|x: usize| all.contains(x) <==> range.contains(x) by {
        if all.contains(x) {
            let j = choose|j: int| 0 <= j < groups.len() && (#[trigger] groups[j]).members@.contains(x);
            assert(group_matches(groups[j], ps, provs));
            let q = choose|q: int| 0 <= q < groups[j].members@.len() && groups[j].members@[q] == x;
            assert((x as int) < ps.len());
            assert(range[x as int] == x);
        }
        if range.contains(x) {
            let i = choose|i: int| 0 <= i < range.len() && range[i] == x;
            assert(held_by_one_group(groups, i));
            let j = choose|j: int|
                0 <= j < groups.len() && (#[trigger] groups[j]).members@.contains(i as usize) && forall|k: int|
                    0 <= k < groups.len() && k != j ==> !(#[trigger] groups[k]).members@.contains(i as usize);
            assert(i as usize == x);
        }
    }
    assert(all.to_set() =~= range.to_set());
    all.unique_seq_to_set();
    assert forall|a: int, b: int| 0 <= a < range.len() && 0 <= b < range.len() && a != b implies range[a] != range[b] by {}
    range.unique_seq_to_set();
}

/// The task view's selection is anchored to its task ID: while that task is
/// shown, rows moving around it do not move the selection; when it is gone,
/// some shown task is selected, and none only when no task is shown.
pub proof fn task_selection_stays_on_its_id(texts: Seq<Seq<char>>, selected: Option<Seq<char>>, previous_index: Option<usize>)
    ensures
        (selected matches Some(t) && texts.contains(t)) ==> reconciled_task(texts, selected, previous_index) == selected,
        reconciled_task(texts, selected, previous_index) is None <==> texts.len() == 0,
        reconciled_task(texts, selected, previous_index) matches Some(t) ==> texts.contains(t),
{
    if texts.len() > 0 {
        if !(selected matches Some(t) && texts.contains(t)) {
            let i: int = match previous_index {
                Some(i) => i as int,
                None => 0,
            };
            let k = if i < texts.len() - 1 { i } else { texts.len() - 1 };
            assert(texts.contains(texts[k]));
        }
    }
}


/// The summed GPU memory of a task, if any member reports some.
pub open spec fn task_vram(g: TaskGroup, ps: Seq<EnrichedProcess>) -> Option<u64> {
    vram_total(members_vram(ps, g.members@))
}

/// Sorting the task view by GPU lists the tasks by summed VRAM, most first:
/// a task listed after another that has a known VRAM never has more, and a
/// task with unknown VRAM comes after every task with a known one.
pub proof fn task_gpu_sort_lists_most_vram_first(
    groups: Seq<TaskGroup>,
    ps: Seq<EnrichedProcess>,
    cpu_bits: Seq<u32>,
    r: Seq<usize>,
)
    requires
        tasks_ordered(task_keys_of(SortMode::Gpu, groups, ps, cpu_bits), r),
        forall|x: int| 0 <= x < r.len() ==> (#[trigger] r[x] as int) < groups.len(),
    ensures
        forall|x: int, y: int|
            0 <= x < y < r.len() ==> {
                let a = task_vram(groups[#[trigger] r[x] as int], ps);
                let b = task_vram(groups[#[trigger] r[y] as int], ps);
                b is Some ==> a is Some && a->0 >= b->0
            },
{
    let keys = task_keys_of(SortMode::Gpu, groups, ps, cpu_bits);
    assert forall|x: int, y: int| 0 <= x < y < r.len() implies {
        let a = task_vram(groups[#[trigger] r[x] as int], ps);
        let b = task_vram(groups[#[trigger] r[y] as int], ps);
        b is Some ==> a is Some && a->0 >= b->0
    } by {
        assert(crate::task::view::task_before(keys, r[x], r[y]));
        assert(keys[r[x] as int] == crate::task::view::task_sort_key(SortMode::Gpu, groups[r[x] as int], ps, cpu_bits[r[x] as int]));
        assert(keys[r[y] as int] == crate::task::view::task_sort_key(SortMode::Gpu, groups[r[y] as int], ps, cpu_bits[r[y] as int]));
    }
}

/// Sorting the task view by memory lists the tasks by summed RSS, most
/// first.
pub proof fn task_memory_sort_lists_most_rss_first(
    groups: Seq<TaskGroup>,
    ps: Seq<EnrichedProcess>,
    cpu_bits: Seq<u32>,
    r: Seq<usize>,
)
    requires
        tasks_ordered(task_keys_of(SortMode::Memory, groups, ps, cpu_bits), r),
        forall|x: int| 0 <= x < r.len() ==> (#[trigger] r[x] as int) < groups.len(),
    ensures
        forall|x: int, y: int|
            0 <= x < y < r.len() ==> saturating_total(members_rss(ps, groups[#[trigger] r[x] as int].members@))
                >= saturating_total(members_rss(ps, groups[#[trigger] r[y] as int].members@)),
{
    let keys = task_keys_of(SortMode::Memory, groups, ps, cpu_bits);
    assert forall|x: int, y: int| 0 <= x < y < r.len() implies saturating_total(
        members_rss(ps, groups[#[trigger] r[x] as int].members@),
    ) >= saturating_total(members_rss(ps, groups[#[trigger] r[y] as int].members@)) by {
        assert(crate::task::view::task_before(keys, r[x], r[y]));
        assert(keys[r[x] as int] == crate::task::view::task_sort_key(SortMode::Memory, groups[r[x] as int], ps, cpu_bits[r[x] as int]));
        assert(keys[r[y] as int] == crate::task::view::task_sort_key(SortMode::Memory, groups[r[y] as int], ps, cpu_bits[r[y] as int]));
    }
}

} // verus!
