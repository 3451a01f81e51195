//! The text views of tasks: the table of all tasks, busiest first, and the
//! report on one task with its members.

use vstd::prelude::*;

use crate::app::EnrichedProcess;
use crate::classifier::process_type_label;
use crate::collector::process::ProcessIoSnapshot;
use crate::decimal::{dec, dec_i64, dec_int, dec_u64};
use crate::inspect::{
    bytes_or_dash, bytes_or_dash_exec, line, push_line, push_text, rate_or_dash, rate_or_dash_exec, string_chars,
};
use crate::listing::{pad_left, pad_left_exec, pad_right, pad_right_exec, total_order_key};
use crate::process::model::{command_line_model, string_views};
use crate::provenance::ProcessProvenance;
use crate::task::group::{
    find_identity, io_total, last_with_identity, members_rss, members_vram, saturating_total, sum_io, sum_rss,
    sum_vram, vram_total, TaskGroup,
};
use crate::task::model::task_kind_label;
use crate::task::resolver::{derived_for, find_derived};
use crate::text::{chars_eq, chars_of, push_all, string_of};
use crate::ui::model::{truncate_label, truncate_label_model};
use crate::units::{format_bytes, format_bytes_model};

verus! {

/// What a task adds up over its members.
#[derive(Debug, Clone, Copy, PartialEq, Eq)]
pub struct TaskTotals {
    pub rss_bytes: u64,
    pub disk_read_bytes: Option<u64>,
    pub disk_write_bytes: Option<u64>,
    pub read_bytes_per_second: Option<u64>,
    pub write_bytes_per_second: Option<u64>,
    pub vram_bytes: Option<u64>,
}

/// The disk I/O values of some processes: `pick` of each one's I/O, none
/// where a process has no I/O sample.
pub open spec fn io_values(
    members: Seq<usize>,
    io: Seq<Option<ProcessIoSnapshot>>,
    pick: spec_fn(ProcessIoSnapshot) -> Option<u64>,
) -> Seq<Option<u64>> {
    members.map_values(
        |m: usize|
            match io[m as int] {
                Some(x) => pick(x),
                None => None,
            },
    )
}

/// A task's totals: memory added up (stopping at `u64::MAX`); each disk
/// counter and rate added up, unknown when a member lacks it; GPU memory
/// added up over the members that report it, unknown when none does.
pub open spec fn totals_of(members: Seq<usize>, ps: Seq<EnrichedProcess>, io: Seq<Option<ProcessIoSnapshot>>) -> TaskTotals {
    TaskTotals {
        rss_bytes: saturating_total(members_rss(ps, members)),
        disk_read_bytes: io_total(io_values(members, io, |x: ProcessIoSnapshot| Some(x.read_bytes))),
        disk_write_bytes: io_total(io_values(members, io, |x: ProcessIoSnapshot| Some(x.write_bytes))),
        read_bytes_per_second: io_total(io_values(members, io, |x: ProcessIoSnapshot| x.read_bytes_per_second)),
        write_bytes_per_second: io_total(io_values(members, io, |x: ProcessIoSnapshot| x.write_bytes_per_second)),
        vram_bytes: vram_total(members_vram(ps, members)),
    }
}

/// The totals of a task, given each process's disk I/O when sampled
/// (`io[k]` for `processes[k]`).
pub fn task_totals(group: &TaskGroup, processes: &[EnrichedProcess], io: &[Option<ProcessIoSnapshot>]) -> (r: TaskTotals)
    requires
        io@.len() == processes@.len(),
        forall|i: int| 0 <= i < group.members@.len() ==> (group.members@[i] as int) < processes@.len(),
    ensures
        r == totals_of(group.members@, processes@, io@),
{
    let members = &group.members;
    let mut reads: Vec<Option<u64>> = Vec::new();
    let mut writes: Vec<Option<u64>> = Vec::new();
    let mut read_rates: Vec<Option<u64>> = Vec::new();
    let mut write_rates: Vec<Option<u64>> = Vec::new();
    let mut i: usize = 0;
    while i < members.len()
        invariant
            i <= members@.len(),
            io@.len() == processes@.len(),
            forall|j: int| 0 <= j < members@.len() ==> (members@[j] as int) < processes@.len(),
            reads@ == io_values(members@.take(i as int), io@, |x: ProcessIoSnapshot| Some(x.read_bytes)),
            writes@ == io_values(members@.take(i as int), io@, |x: ProcessIoSnapshot| Some(x.write_bytes)),
            read_rates@ == io_values(members@.take(i as int), io@, |x: ProcessIoSnapshot| x.read_bytes_per_second),
            write_rates@ == io_values(members@.take(i as int), io@, |x: ProcessIoSnapshot| x.write_bytes_per_second),
        decreases members.len() - i,
    {
        let m = members[i];
        let (r0, w0, rr, wr) = match io[m] {
            Some(x) => (Some(x.read_bytes), Some(x.write_bytes), x.read_bytes_per_second, x.write_bytes_per_second),
            None => (None, None, None, None),
        };
        reads.push(r0);
        writes.push(w0);
        read_rates.push(rr);
        write_rates.push(wr);
        proof {
            let t = members@.take(i + 1);
            assert(t =~= members@.take(i as int).push(m));
            assert(io_values(t, io@, |x: ProcessIoSnapshot| Some(x.read_bytes)) =~= reads@);
            assert(io_values(t, io@, |x: ProcessIoSnapshot| Some(x.write_bytes)) =~= writes@);
            assert(io_values(t, io@, |x: ProcessIoSnapshot| x.read_bytes_per_second) =~= read_rates@);
            assert(io_values(t, io@, |x: ProcessIoSnapshot| x.write_bytes_per_second) =~= write_rates@);
        }
        i = i + 1;
    }
    proof {
        assert(members@.take(i as int) =~= members@);
    }
    TaskTotals {
        rss_bytes: sum_rss(members, processes),
        disk_read_bytes: sum_io(reads.as_slice()),
        disk_write_bytes: sum_io(writes.as_slice()),
        read_bytes_per_second: sum_io(read_rates.as_slice()),
        write_bytes_per_second: sum_io(write_rates.as_slice()),
        vram_bytes: sum_vram(members, processes),
    }
}

// ---------------------------------------------------------------------------
// The report on one task
// ---------------------------------------------------------------------------

/// The owner's PID, or `-`.
pub open spec fn owner_text(o: Option<i32>) -> Seq<char> {
    match o {
        Some(p) => dec_int(p as int),
        None => "-"@,
    }
}

/// The titles of the member table.
pub open spec fn member_titles() -> Seq<char> {
    "PID     TYPE       PROJECT                     CPU%        RAM  COMMAND\n"@
}

/// The head of a task report: identity, owner, size and totals.
pub open spec fn task_head(g: TaskGroup, t: TaskTotals, cpu: Seq<char>) -> Seq<char> {
    "Task Analysis\n"@ + "────────────────────────────────────────────────────────\n"@ + line(
        "Task ID    : "@,
        g.task.id.view_text(),
    ) + line("Kind       : "@, task_kind_label(g.task.kind)) + line("Label      : "@, g.task.label@) + line(
        "Owner PID  : "@,
        owner_text(g.task.owner_pid),
    ) + line("Processes  : "@, dec(g.members@.len())) + line("CPU        : "@, cpu + "%"@) + line(
        "RAM RSS Σ  : "@,
        format_bytes_model(t.rss_bytes as nat),
    ) + line("Disk read  : "@, bytes_or_dash(t.disk_read_bytes)) + line(
        "Disk write : "@,
        bytes_or_dash(t.disk_write_bytes),
    ) + line("Read rate  : "@, rate_or_dash(t.read_bytes_per_second)) + line(
        "Write rate : "@,
        rate_or_dash(t.write_bytes_per_second),
    ) + line("VRAM       : "@, bytes_or_dash(t.vram_bytes)) + "\nMembers\n"@ + member_titles()
}

/// The row of a member: the last process with its identity, its derived
/// category and project (its own category and `-` when none was derived),
/// its CPU use as given, its memory and command line.
pub open spec fn member_row(
    ps: Seq<EnrichedProcess>,
    provs: Seq<ProcessProvenance>,
    cpu: Seq<String>,
    m: usize,
) -> Seq<char> {
    let id = ps[m as int].snapshot.identity;
    match last_with_identity(ps, id) {
        None => Seq::empty(),
        Some(q) => {
            let p = ps[q];
            let d = derived_for(ps, provs, id);
            let project = match d {
                Some(x) => x.project_label@,
                None => "-"@,
            };
            let kind = match d {
                Some(x) => process_type_label(x.process_type),
                None => process_type_label(p.classification.process_type),
            };
            pad_right(dec_int(p.snapshot.pid as int), 7) + " "@ + pad_right(kind, 10) + " "@ + pad_right(
                truncate_label_model(project, 24),
                24,
            ) + " "@ + pad_left(cpu[q]@, 7) + " "@ + pad_left(format_bytes_model(p.snapshot.memory_bytes as nat), 10)
                + "  "@ + truncate_label_model(
                command_line_model(p.snapshot.name@, string_views(p.snapshot.command@)),
                72,
            ) + "\n"@
        },
    }
}

/// The member rows, in member order.
pub open spec fn member_rows(
    ps: Seq<EnrichedProcess>,
    provs: Seq<ProcessProvenance>,
    cpu: Seq<String>,
    members: Seq<usize>,
) -> Seq<char>
    decreases members.len(),
{
    if members.len() == 0 {
        Seq::empty()
    } else {
        member_rows(ps, provs, cpu, members.drop_last()) + member_row(ps, provs, cpu, members.last())
    }
}

/// The whole report on a task.
pub open spec fn task_text(
    g: TaskGroup,
    ps: Seq<EnrichedProcess>,
    provs: Seq<ProcessProvenance>,
    io: Seq<Option<ProcessIoSnapshot>>,
    cpu: Seq<char>,
    cpus: Seq<String>,
) -> Seq<char> {
    task_head(g, totals_of(g.members@, ps, io), cpu) + member_rows(ps, provs, cpus, g.members@)
}

fn task_head_exec(group: &TaskGroup, t: &TaskTotals, cpu: &str) -> (r: Vec<char>)
    ensures
        r@ == task_head(*group, *t, cpu@),
{
    let mut out = chars_of("Task Analysis\n");
    push_text(&mut out, "────────────────────────────────────────────────────────\n");
    push_line(&mut out, "Task ID    : ", &chars_of(group.task.id.as_str()));
    push_line(&mut out, "Kind       : ", &string_chars(&group.task.kind.to_string()));
    push_line(&mut out, "Label      : ", &string_chars(&group.task.label));
    let owner = match group.task.owner_pid {
        Some(p) => dec_i64(p as i64),
        None => chars_of("-"),
    };
    push_line(&mut out, "Owner PID  : ", &owner);
    push_line(&mut out, "Processes  : ", &dec_u64(group.members.len() as u64));
    let mut c = chars_of(cpu);
    push_text(&mut c, "%");
    push_line(&mut out, "CPU        : ", &c);
    push_line(&mut out, "RAM RSS Σ  : ", &string_chars(&format_bytes(t.rss_bytes)));
    push_line(&mut out, "Disk read  : ", &bytes_or_dash_exec(t.disk_read_bytes));
    push_line(&mut out, "Disk write : ", &bytes_or_dash_exec(t.disk_write_bytes));
    push_line(&mut out, "Read rate  : ", &rate_or_dash_exec(t.read_bytes_per_second));
    push_line(&mut out, "Write rate : ", &rate_or_dash_exec(t.write_bytes_per_second));
    push_line(&mut out, "VRAM       : ", &bytes_or_dash_exec(t.vram_bytes));
    push_text(&mut out, "\nMembers\n");
    push_text(&mut out, "PID     TYPE       PROJECT                     CPU%        RAM  COMMAND\n");
    out
}

fn member_row_exec(
    processes: &[EnrichedProcess],
    provenance: &[ProcessProvenance],
    cpu_texts: &[String],
    m: usize,
) -> (r: Vec<char>)
    requires
        m < processes@.len(),
        provenance@.len() == processes@.len(),
        cpu_texts@.len() == processes@.len(),
    ensures
        r@ == member_row(processes@, provenance@, cpu_texts@, m),
{
    let id = processes[m].snapshot.identity;
    match find_identity(processes, id) {
        None => Vec::new(),
        Some(q) => {
            proof {
                lemma_last_with_identity_bounds(processes@, id);
            }
            let p = &processes[q];
            let d = find_derived(processes, provenance, id);
            let project = match d {
                Some(x) => string_chars(&x.project_label),
                None => chars_of("-"),
            };
            let kind = match d {
                Some(x) => string_chars(&x.process_type.to_string()),
                None => string_chars(&p.classification.process_type.to_string()),
            };
            let mut out = pad_right_exec(&dec_i64(p.snapshot.pid as i64), 7);
            push_text(&mut out, " ");
            push_all(&mut out, &pad_right_exec(&kind, 10));
            push_text(&mut out, " ");
            let project_text = string_of(&project);
            push_all(&mut out, &pad_right_exec(&string_chars(&truncate_label(project_text.as_str(), 24)), 24));
            push_text(&mut out, " ");
            push_all(&mut out, &pad_left_exec(&string_chars(&cpu_texts[q]), 7));
            push_text(&mut out, " ");
            push_all(&mut out, &pad_left_exec(&string_chars(&format_bytes(p.snapshot.memory_bytes)), 10));
            push_text(&mut out, "  ");
            let line = p.snapshot.command_line();
            push_all(&mut out, &string_chars(&truncate_label(line.as_str(), 72)));
            push_text(&mut out, "\n");
            out
        },
    }
}

proof fn lemma_last_with_identity_bounds(ps: Seq<EnrichedProcess>, id: crate::process::model::ProcessIdentity)
    ensures
        last_with_identity(ps, id) matches Some(q) ==> 0 <= q < ps.len(),
    decreases ps.len(),
{
    if ps.len() > 0 {
        lemma_last_with_identity_bounds(ps.drop_last(), id);
    }
}

/// The report on a task: its head, then a row per member, given the
/// provenance derived for each process (`provenance[k]` for
/// `processes[k]`), each process's disk I/O when sampled, the task's CPU use
/// as text and each process's CPU use as text.
pub fn format_task_detail(
    group: &TaskGroup,
    processes: &[EnrichedProcess],
    provenance: &[ProcessProvenance],
    io: &[Option<ProcessIoSnapshot>],
    task_cpu_text: &str,
    cpu_texts: &[String],
) -> (r: String)
    requires
        provenance@.len() == processes@.len(),
        io@.len() == processes@.len(),
        cpu_texts@.len() == processes@.len(),
        forall|i: int| 0 <= i < group.members@.len() ==> (group.members@[i] as int) < processes@.len(),
    ensures
        r@ == task_text(*group, processes@, provenance@, io@, task_cpu_text@, cpu_texts@),
{
    let totals = task_totals(group, processes, io);
    let mut out = task_head_exec(group, &totals, task_cpu_text);
    let mut rows: Vec<char> = Vec::new();
    let mut i: usize = 0;
    while i < group.members.len()
        invariant
            i <= group.members@.len(),
            provenance@.len() == processes@.len(),
            cpu_texts@.len() == processes@.len(),
            forall|j: int| 0 <= j < group.members@.len() ==> (group.members@[j] as int) < processes@.len(),
            rows@ == member_rows(processes@, provenance@, cpu_texts@, group.members@.take(i as int)),
        decreases group.members.len() - i,
    {
        proof {
            assert(group.members@.take(i + 1).drop_last() =~= group.members@.take(i as int));
            assert(group.members@.take(i + 1).last() == group.members@[i as int]);
        }
        push_all(&mut rows, &member_row_exec(processes, provenance, cpu_texts, group.members[i]));
        i = i + 1;
    }
    proof {
        assert(group.members@.take(i as int) =~= group.members@);
    }
    push_all(&mut out, &rows);
    string_of(&out)
}

/// The position of the first task with ID `id`.
pub open spec fn group_with_id(groups: Seq<TaskGroup>, id: Seq<char>) -> Option<int> {
    if exists|i: int| 0 <= i < groups.len() && groups[i].task.id.view_text() == id {
        Some(
            choose|i: int|
                0 <= i < groups.len() && groups[i].task.id.view_text() == id && forall|j: int|
                    0 <= j < i ==> groups[j].task.id.view_text() != id,
        )
    } else {
        None
    }
}

proof fn lemma_group_with_id(groups: Seq<TaskGroup>, id: Seq<char>, i: int)
    requires
        0 <= i < groups.len(),
        groups[i].task.id.view_text() == id,
        forall|j: int| 0 <= j < i ==> groups[j].task.id.view_text() != id,
    ensures
        group_with_id(groups, id) == Some(i),
{
    let k = choose|k: int|
        0 <= k < groups.len() && groups[k].task.id.view_text() == id && forall|j: int|
            0 <= j < k ==> groups[j].task.id.view_text() != id;
    if k < i {
    } else if i < k {
    }
}

/// The report on the first task with the given ID, or `None` when no task
/// has it; `task_cpu_texts[g]` is the CPU use of `groups[g]` as text.
pub fn format_task(
    groups: &[TaskGroup],
    processes: &[EnrichedProcess],
    provenance: &[ProcessProvenance],
    io: &[Option<ProcessIoSnapshot>],
    task_id: &str,
    task_cpu_texts: &[String],
    cpu_texts: &[String],
) -> (r: Option<String>)
    requires
        provenance@.len() == processes@.len(),
        io@.len() == processes@.len(),
        cpu_texts@.len() == processes@.len(),
        task_cpu_texts@.len() == groups@.len(),
        forall|g: int, i: int|
            0 <= g < groups@.len() && 0 <= i < groups@[g].members@.len() ==> (#[trigger] groups@[g].members@[i] as int)
                < processes@.len(),
    ensures
        match group_with_id(groups@, task_id@) {
            None => r is None,
            Some(g) => r matches Some(text) && text@ == task_text(
                groups@[g],
                processes@,
                provenance@,
                io@,
                task_cpu_texts@[g]@,
                cpu_texts@,
            ),
        },
{
    let wanted = chars_of(task_id);
    let mut g: usize = 0;
    while g < groups.len()
        invariant
            g <= groups@.len(),
            wanted@ == task_id@,
            provenance@.len() == processes@.len(),
            io@.len() == processes@.len(),
            cpu_texts@.len() == processes@.len(),
            task_cpu_texts@.len() == groups@.len(),
            forall|a: int, i: int|
                0 <= a < groups@.len() && 0 <= i < groups@[a].members@.len() ==> (#[trigger] groups@[a].members@[i] as int)
                    < processes@.len(),
            forall|j: int| 0 <= j < g ==> groups@[j].task.id.view_text() != task_id@,
        decreases groups.len() - g,
    {
        let id = chars_of(groups[g].task.id.as_str());
        if chars_eq(&id, &wanted) {
            proof {
                lemma_group_with_id(groups@, task_id@, g as int);
                assert forall|i: int| 0 <= i < groups@[g as int].members@.len() implies (groups@[g as int].members@[i] as int)
                    < processes@.len() by {
                    assert(groups@[g as int].members@[i] == groups@[g as int].members@[i]);
                }
            }
            let text = format_task_detail(&groups[g], processes, provenance, io, task_cpu_texts[g].as_str(), cpu_texts);
            return Some(text);
        }
        g = g + 1;
    }
    None
}

// ---------------------------------------------------------------------------
// The table of tasks
// ---------------------------------------------------------------------------

/// The titles of the task table.
pub open spec fn task_titles() -> Seq<char> {
    "TASK ID                        KIND        PROC     CPU%      RSS Σ     READ/s    WRITE/s       VRAM  TASK\n"@
}

/// One task's row: ID, kind, number of processes, CPU (as given), memory,
/// disk rates, GPU memory and label.
pub open spec fn task_row(g: TaskGroup, t: TaskTotals, cpu: Seq<char>) -> Seq<char> {
    pad_right(truncate_label_model(g.task.id.view_text(), 30), 30) + " "@ + pad_right(task_kind_label(g.task.kind), 10)
        + " "@ + pad_left(dec(g.members@.len()), 5) + " "@ + pad_left(cpu, 8) + " "@ + pad_left(
        format_bytes_model(t.rss_bytes as nat),
        10,
    ) + " "@ + pad_left(rate_or_dash(t.read_bytes_per_second), 10) + " "@ + pad_left(
        rate_or_dash(t.write_bytes_per_second),
        10,
    ) + " "@ + pad_left(bytes_or_dash(t.vram_bytes), 10) + "  "@ + truncate_label_model(g.task.label@, 48) + "\n"@
}

/// Task `g` comes before task `h`: more CPU, then more memory, then the
/// earlier in the list (the list of `group_tasks` is in ID order).
pub open spec fn task_before(
    groups: Seq<TaskGroup>,
    ps: Seq<EnrichedProcess>,
    io: Seq<Option<ProcessIoSnapshot>>,
    cpu_bits: Seq<u32>,
    g: usize,
    h: usize,
) -> bool {
    let kg = total_order_key(cpu_bits[g as int]);
    let kh = total_order_key(cpu_bits[h as int]);
    let rg = totals_of(groups[g as int].members@, ps, io).rss_bytes;
    let rh = totals_of(groups[h as int].members@, ps, io).rss_bytes;
    kg > kh || (kg == kh && (rg > rh || (rg == rh && g < h)))
}

/// The rows of the tasks at the given positions, in that order.
pub open spec fn task_rows(
    groups: Seq<TaskGroup>,
    ps: Seq<EnrichedProcess>,
    io: Seq<Option<ProcessIoSnapshot>>,
    cpu_texts: Seq<String>,
    order: Seq<usize>,
) -> Seq<char>
    decreases order.len(),
{
    if order.len() == 0 {
        Seq::empty()
    } else {
        let g = order.last() as int;
        task_rows(groups, ps, io, cpu_texts, order.drop_last()) + task_row(
            groups[g],
            totals_of(groups[g].members@, ps, io),
            cpu_texts[g]@,
        )
    }
}

/// The task table: titles, then every task once, busiest first.
#[verifier::opaque]
pub open spec fn tasks_table(
    groups: Seq<TaskGroup>,
    ps: Seq<EnrichedProcess>,
    io: Seq<Option<ProcessIoSnapshot>>,
    cpu_bits: Seq<u32>,
    cpu_texts: Seq<String>,
    text: Seq<char>,
) -> bool {
    exists|order: Seq<usize>|
        #![trigger task_rows(groups, ps, io, cpu_texts, order)]
        {
            &&& order.len() == groups.len()
            &&& order.to_set() == Set::new(|v: usize| v < groups.len())
            &&& forall|x: int, y: int|
                0 <= x < y < order.len() ==> task_before(groups, ps, io, cpu_bits, #[trigger] order[x], #[trigger] order[y])
            &&& text == task_titles() + task_rows(groups, ps, io, cpu_texts, order)
        }
}

fn task_row_exec(group: &TaskGroup, t: &TaskTotals, cpu: &String) -> (r: Vec<char>)
    ensures
        r@ == task_row(*group, *t, cpu@),
{
    let mut out = pad_right_exec(&string_chars(&truncate_label(group.task.id.as_str(), 30)), 30);
    push_text(&mut out, " ");
    push_all(&mut out, &pad_right_exec(&string_chars(&group.task.kind.to_string()), 10));
    push_text(&mut out, " ");
    push_all(&mut out, &pad_left_exec(&dec_u64(group.members.len() as u64), 5));
    push_text(&mut out, " ");
    push_all(&mut out, &pad_left_exec(&string_chars(cpu), 8));
    push_text(&mut out, " ");
    push_all(&mut out, &pad_left_exec(&string_chars(&format_bytes(t.rss_bytes)), 10));
    push_text(&mut out, " ");
    push_all(&mut out, &pad_left_exec(&rate_or_dash_exec(t.read_bytes_per_second), 10));
    push_text(&mut out, " ");
    push_all(&mut out, &pad_left_exec(&rate_or_dash_exec(t.write_bytes_per_second), 10));
    push_text(&mut out, " ");
    push_all(&mut out, &pad_left_exec(&bytes_or_dash_exec(t.vram_bytes), 10));
    push_text(&mut out, "  ");
    push_all(&mut out, &string_chars(&truncate_label(group.task.label.as_str(), 48)));
    push_text(&mut out, "\n");
    out
}

/// The table of the tasks, busiest first: by CPU use (`task_cpu_bits[g]`,
/// the bits of `groups[g]`'s CPU percentage, compared as `f32::total_cmp`
/// does), then memory, then list order; `task_cpu_texts[g]` is the CPU use
/// as text and `io[k]` the disk I/O of `processes[k]` when sampled.
pub fn format_tasks(
    groups: &[TaskGroup],
    processes: &[EnrichedProcess],
    io: &[Option<ProcessIoSnapshot>],
    task_cpu_bits: &[u32],
    task_cpu_texts: &[String],
) -> (r: String)
    requires
        io@.len() == processes@.len(),
        task_cpu_bits@.len() == groups@.len(),
        task_cpu_texts@.len() == groups@.len(),
        forall|g: int, i: int|
            0 <= g < groups@.len() && 0 <= i < groups@[g].members@.len() ==> (#[trigger] groups@[g].members@[i] as int)
                < processes@.len(),
    ensures
        tasks_table(groups@, processes@, io@, task_cpu_bits@, task_cpu_texts@, r@),
{
    let (totals, keys) = totals_and_keys(groups, processes, io, task_cpu_bits);
    let order = crate::ui::presentation::sort_positions(&keys);
    let rows = task_rows_exec(groups, processes, io, &totals, task_cpu_texts, &order);
    let mut out = chars_of("TASK ID                        KIND        PROC     CPU%      RSS Σ     READ/s    WRITE/s       VRAM  TASK\n");
    push_all(&mut out, &rows);
    proof {
        assert forall|x: int, y: int| 0 <= x < y < order@.len() implies task_before(
            groups@,
            processes@,
            io@,
            task_cpu_bits@,
            #[trigger] order@[x],
            #[trigger] order@[y],
        ) by {
            let a = keys@[order@[x] as int];
            let b = keys@[order@[y] as int];
            assert(crate::ui::presentation::key_lt_spec_i(a, b) || (a == b && order@[x] < order@[y]));
        }
        reveal(tasks_table);
        assert(out@ == task_titles() + task_rows(groups@, processes@, io@, task_cpu_texts@, order@));
    }
    string_of(&out)
}

fn totals_and_keys(
    groups: &[TaskGroup],
    processes: &[EnrichedProcess],
    io: &[Option<ProcessIoSnapshot>],
    task_cpu_bits: &[u32],
) -> (r: (Vec<TaskTotals>, Vec<(i128, i128, i128)>))
    requires
        io@.len() == processes@.len(),
        task_cpu_bits@.len() == groups@.len(),
        forall|g: int, i: int|
            0 <= g < groups@.len() && 0 <= i < groups@[g].members@.len() ==> (#[trigger] groups@[g].members@[i] as int)
                < processes@.len(),
    ensures
        r.0@.len() == groups@.len(),
        r.1@.len() == groups@.len(),
        forall|q: int| 0 <= q < groups@.len() ==> #[trigger] r.0@[q] == totals_of(groups@[q].members@, processes@, io@),
        forall|q: int|
            0 <= q < groups@.len() ==> (#[trigger] r.1@[q]).0 == -total_order_key(task_cpu_bits@[q])
                && r.1@[q].1 == -(r.0@[q].rss_bytes as int) && r.1@[q].2 == 0,
{
    let mut totals: Vec<TaskTotals> = Vec::new();
    let mut keys: Vec<(i128, i128, i128)> = Vec::new();
    let mut g: usize = 0;
    while g < groups.len()
        invariant
            g <= groups@.len(),
            io@.len() == processes@.len(),
            task_cpu_bits@.len() == groups@.len(),
            forall|a: int, i: int|
                0 <= a < groups@.len() && 0 <= i < groups@[a].members@.len() ==> (#[trigger] groups@[a].members@[i] as int)
                    < processes@.len(),
            totals@.len() == g,
            keys@.len() == g,
            forall|q: int| 0 <= q < g ==> #[trigger] totals@[q] == totals_of(groups@[q].members@, processes@, io@),
            forall|q: int|
                0 <= q < g ==> (#[trigger] keys@[q]).0 == -total_order_key(task_cpu_bits@[q]) && keys@[q].1 == -(
                totals@[q].rss_bytes as int) && keys@[q].2 == 0,
        decreases groups.len() - g,
    {
        proof {
            assert forall|i: int| 0 <= i < groups@[g as int].members@.len() implies (groups@[g as int].members@[i] as int)
                < processes@.len() by {
                assert(groups@[g as int].members@[i] == groups@[g as int].members@[i]);
            }
        }
        let t = task_totals(&groups[g], processes, io);
        let key = crate::listing::total_order_key_exec(task_cpu_bits[g]);
        totals.push(t);
        keys.push((-(key as i128), -(t.rss_bytes as i128), 0));
        g = g + 1;
    }
    (totals, keys)
}

fn task_rows_exec(
    groups: &[TaskGroup],
    processes: &[EnrichedProcess],
    io: &[Option<ProcessIoSnapshot>],
    totals: &Vec<TaskTotals>,
    task_cpu_texts: &[String],
    order: &Vec<usize>,
) -> (r: Vec<char>)
    requires
        totals@.len() == groups@.len(),
        task_cpu_texts@.len() == groups@.len(),
        forall|x: int| 0 <= x < order@.len() ==> #[trigger] order@[x] < groups@.len(),
        forall|q: int| 0 <= q < groups@.len() ==> #[trigger] totals@[q] == totals_of(groups@[q].members@, processes@, io@),
    ensures
        r@ == task_rows(groups@, processes@, io@, task_cpu_texts@, order@),
{
    let mut rows: Vec<char> = Vec::new();
    let mut k: usize = 0;
    while k < order.len()
        invariant
            k <= order@.len(),
            totals@.len() == groups@.len(),
            task_cpu_texts@.len() == groups@.len(),
            forall|x: int| 0 <= x < order@.len() ==> #[trigger] order@[x] < groups@.len(),
            forall|q: int| 0 <= q < groups@.len() ==> #[trigger] totals@[q] == totals_of(groups@[q].members@, processes@, io@),
            rows@ == task_rows(groups@, processes@, io@, task_cpu_texts@, order@.take(k as int)),
        decreases order.len() - k,
    {
        let g = order[k];
        proof {
            assert(order@.take(k + 1).drop_last() =~= order@.take(k as int));
            assert(order@.take(k + 1).last() == g);
        }
        push_all(&mut rows, &task_row_exec(&groups[g], &totals[g], &task_cpu_texts[g]));
        k = k + 1;
    }
    proof {
        assert(order@.take(k as int) =~= order@);
    }
    rows
}

} // verus!
