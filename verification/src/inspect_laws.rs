//! What the report on one process always holds.

use vstd::prelude::*;

use crate::app::EnrichedProcess;
use crate::collector::process::ProcessIoSnapshot;
use crate::decimal::dec_int;
use crate::inspect::{inspect_possible, inspect_text, line};
use crate::provenance::{index_of_pid, lemma_index_of_pid, ProcessProvenance};

verus! {

/// The PID of the process at a position of the list.
pub open spec fn pid_of(ps: Seq<EnrichedProcess>, i: int) -> i32 {
    ps[i].snapshot.pid
}

/// `k` is the position of the first process with this PID.
pub open spec fn first_with_pid(ps: Seq<EnrichedProcess>, pid: i32, k: int) -> bool {
    0 <= k < ps.len() && pid_of(ps, k) == pid && forall|j: int| 0 <= j < k ==> #[trigger] pid_of(ps, j) != pid
}

/// The head of every report: its title, a rule, and the PID line.
pub open spec fn report_head(pid: i32) -> Seq<char> {
    "Process Analysis\n"@ + "────────────────────────────────────────────────────────\n"@ + line(
        "PID        : "@,
        dec_int(pid as int),
    )
}

/// A report on a process starts with the title and that process's PID line.
pub proof fn report_starts_with_title_and_pid(
    ps: Seq<EnrichedProcess>,
    k: int,
    d: ProcessProvenance,
    cpu: Seq<char>,
    io: Option<ProcessIoSnapshot>,
)
    requires
        0 <= k < ps.len(),
    ensures
        inspect_text(ps, k, d, cpu, io).len() >= report_head(ps[k].snapshot.pid).len(),
        inspect_text(ps, k, d, cpu, io).take(report_head(ps[k].snapshot.pid).len() as int) == report_head(
            ps[k].snapshot.pid,
        ),
{
    reveal(inspect_text);
    let t = inspect_text(ps, k, d, cpu, io);
    let h = report_head(ps[k].snapshot.pid);
    assert(t.take(h.len() as int) =~= h);
}

proof fn lemma_possible_report_head(
    ps: Seq<EnrichedProcess>,
    k: int,
    cpu: Seq<char>,
    io: Option<ProcessIoSnapshot>,
    text: Seq<char>,
)
    requires
        0 <= k < ps.len(),
        inspect_possible(ps, k, cpu, io, text),
    ensures
        text.take(report_head(ps[k].snapshot.pid).len() as int) == report_head(ps[k].snapshot.pid),
{
    reveal(inspect_possible);
    let d = choose|d: ProcessProvenance|
        #![trigger inspect_text(ps, k, d, cpu, io)]
        text == inspect_text(ps, k, d, cpu, io) && crate::inspect::provenance_fits(d, ps, k);
    report_starts_with_title_and_pid(ps, k, d, cpu, io);
}

proof fn lemma_first_with_pid(ps: Seq<EnrichedProcess>, pid: i32, i: int) -> (k: int)
    requires
        0 <= i < ps.len(),
        ps[i].snapshot.pid == pid,
    ensures
        k <= i,
        first_with_pid(ps, pid, k),
    decreases i,
{
    if exists|j: int| 0 <= j < i && #[trigger] pid_of(ps, j) == pid {
        let j = choose|j: int| 0 <= j < i && #[trigger] pid_of(ps, j) == pid;
        lemma_first_with_pid(ps, pid, j)
    } else {
        i
    }
}

proof fn lemma_index_of_pid_cases(ps: Seq<EnrichedProcess>, pid: i32)
    ensures
        index_of_pid(ps, pid) is None <==> forall|i: int| 0 <= i < ps.len() ==> #[trigger] pid_of(ps, i) != pid,
        index_of_pid(ps, pid) is Some ==> first_with_pid(ps, pid, index_of_pid(ps, pid)->0),
{
    if exists|i: int| 0 <= i < ps.len() && #[trigger] pid_of(ps, i) == pid {
        let i = choose|i: int| 0 <= i < ps.len() && #[trigger] pid_of(ps, i) == pid;
        let k = lemma_first_with_pid(ps, pid, i);
        assert forall|j: int| 0 <= j < k implies ps[j].snapshot.pid != pid by {
            assert(pid_of(ps, j) != pid);
        }
        lemma_index_of_pid(ps, pid, k);
    } else {
        assert forall|i: int| 0 <= i < ps.len() implies ps[i].snapshot.pid != pid by {
            assert(pid_of(ps, i) != pid);
        }
        assert(index_of_pid(ps, pid) is None);
    }
}

/// What inspecting a PID gives: nothing exactly when no process has that
/// PID; otherwise a report on the first process with it, which starts with
/// the title and the PID line.
pub proof fn inspect_reports_the_first_process_with_the_pid(
    ps: Seq<EnrichedProcess>,
    pid: i32,
    cpu: Seq<char>,
    io: Option<ProcessIoSnapshot>,
    r: Option<Seq<char>>,
)
    requires
        match index_of_pid(ps, pid) {
            None => r is None,
            Some(k) => r matches Some(text) && inspect_possible(ps, k, cpu, io, text),
        },
    ensures
        r is None <==> forall|i: int| 0 <= i < ps.len() ==> #[trigger] pid_of(ps, i) != pid,
        r is Some ==> first_with_pid(ps, pid, index_of_pid(ps, pid)->0),
        r is Some ==> inspect_possible(ps, index_of_pid(ps, pid)->0, cpu, io, r->0),
        r is Some ==> (r->0).take(report_head(pid).len() as int) == report_head(pid),
{
    lemma_index_of_pid_cases(ps, pid);
    if r is Some {
        lemma_possible_report_head(ps, index_of_pid(ps, pid)->0, cpu, io, r->0);
    }
}

} // verus!
