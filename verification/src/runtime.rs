//! The records of a runtime report, as plain values.

use vstd::prelude::*;

use crate::app::EnrichedProcess;
use crate::classifier::ProcessType;
use crate::collector::thread::ThreadIdentity;
use crate::process::model::{string_views, ProcessIdentity};
use crate::provenance::ProcessProvenance;
use crate::task::resolver::{derived_for, find_derived};
use crate::process::resolver::opt_view;
use crate::ros2_probe::process_mapper::{mapping_confidence_label, mapping_source_label, RosNodeMapping};
use crate::ros2_probe::topic_stats::{edge_view, RosTopicEdge};

verus! {

/// The version of the runtime report's layout.
pub const RUNTIME_SCHEMA_VERSION: u32 = 1;

/// The machine a report was taken on.
#[derive(Debug, Clone, PartialEq, Eq)]
pub struct HostRecord {
    pub arch: String,
    pub logical_cpus: usize,
}

/// A node of the report, with the process it was mapped to.
#[derive(Debug, Clone, PartialEq)]
pub struct RosNodeRecord {
    pub name: String,
    pub namespace: String,
    pub full_name: String,
    pub process_identity: Option<ProcessIdentity>,
    pub mapping_confidence: String,
    pub mapping_source: String,
    pub executable: Option<String>,
    pub package: Option<String>,
}

impl RosNodeRecord {
    /// The record of a mapped node: the node's names and package, the mapped
    /// process and the labels of the mapping's confidence and source; no
    /// executable.
    pub fn from_mapping(mapping: RosNodeMapping) -> (r: Self)
        ensures
            r.name@ == mapping.node.name@,
            r.namespace@ == mapping.node.namespace@,
            r.full_name@ == mapping.node.full_name@,
            r.process_identity == mapping.process_identity,
            r.mapping_confidence@ == mapping_confidence_label(mapping.confidence),
            r.mapping_source@ == mapping_source_label(mapping.source),
            r.executable is None,
            opt_view(r.package) == opt_view(mapping.node.package),
    {
        let mapping_confidence = mapping.confidence.to_string();
        let mapping_source = mapping.source.to_string();
        RosNodeRecord {
            name: mapping.node.name,
            namespace: mapping.node.namespace,
            full_name: mapping.node.full_name,
            process_identity: mapping.process_identity,
            mapping_confidence,
            mapping_source,
            executable: None,
            package: mapping.node.package,
        }
    }
}

/// An edge of the report.
#[derive(Debug, Clone, PartialEq, Eq)]
pub struct RosEdgeRecord {
    pub topic: String,
    pub publisher_node: String,
    pub subscriber_node: String,
    pub message_types: Vec<String>,
}

impl RosEdgeRecord {
    /// The record of an edge: the same topic, nodes and message types.
    pub fn from_edge(edge: &RosTopicEdge) -> (r: Self)
        ensures
            (r.topic@, r.publisher_node@, r.subscriber_node@, string_views(r.message_types@)) == edge_view(*edge),
    {
        let mut message_types: Vec<String> = Vec::new();
        let mut i: usize = 0;
        while i < edge.message_types.len()
            invariant
                i <= edge.message_types.len(),
                message_types@ == edge.message_types@.take(i as int),
            decreases edge.message_types.len() - i,
        {
            message_types.push(edge.message_types[i].clone());
            assert(edge.message_types@.take(i + 1) =~= edge.message_types@.take(i as int).push(edge.message_types@[i as int]));
            i = i + 1;
        }
        assert(edge.message_types@.take(edge.message_types@.len() as int) =~= edge.message_types@);
        RosEdgeRecord {
            topic: edge.topic.clone(),
            publisher_node: edge.publisher_node.clone(),
            subscriber_node: edge.subscriber_node.clone(),
            message_types,
        }
    }
}

// ---------------------------------------------------------------------------
// Which processes and threads a report lists
// ---------------------------------------------------------------------------

/// A derived provenance passes the type filter.
pub open spec fn passes_filter(d: Option<ProcessProvenance>, filter: Option<ProcessType>) -> bool {
    match d {
        Some(p) => match filter {
            Some(wanted) => p.process_type == wanted,
            None => true,
        },
        None => false,
    }
}

/// The indices, in order, among the first `n` processes, of those whose
/// provenance passes the filter.
pub open spec fn report_indices(
    ps: Seq<EnrichedProcess>,
    provs: Seq<ProcessProvenance>,
    filter: Option<ProcessType>,
    n: nat,
) -> Seq<usize>
    decreases n,
{
    if n == 0 {
        Seq::empty()
    } else {
        let before = report_indices(ps, provs, filter, (n - 1) as nat);
        if passes_filter(derived_for(ps, provs, ps[n - 1].snapshot.identity), filter) {
            before.push((n - 1) as usize)
        } else {
            before
        }
    }
}

/// The processes a runtime report lists: the indices, in order, of those
/// whose derived provenance is of the wanted type (every one without a
/// filter). `provenance[i]` is what was derived for `processes[i]`; a
/// process takes the provenance of the last process with its identity.
pub fn report_process_indices(
    processes: &[EnrichedProcess],
    provenance: &[ProcessProvenance],
    filter: Option<ProcessType>,
) -> (r: Vec<usize>)
    requires
        provenance@.len() == processes@.len(),
    ensures
        r@ == report_indices(processes@, provenance@, filter, processes@.len() as nat),
{
    let mut r: Vec<usize> = Vec::new();
    let mut i: usize = 0;
    while i < processes.len()
        invariant
            i <= processes@.len(),
            provenance@.len() == processes@.len(),
            r@ == report_indices(processes@, provenance@, filter, i as nat),
        decreases processes.len() - i,
    {
        let keep = match find_derived(processes, provenance, processes[i].snapshot.identity) {
            Some(d) => match filter {
                Some(wanted) => d.process_type == wanted,
                None => true,
            },
            None => false,
        };
        if keep {
            r.push(i);
        }
        i = i + 1;
    }
    r
}

/// How many of the threads belong to the process: same PID and same process
/// start time.
pub open spec fn threads_of(identity: ProcessIdentity, threads: Seq<ThreadIdentity>) -> nat
    decreases threads.len(),
{
    if threads.len() == 0 {
        0
    } else {
        let t = threads.last();
        threads_of(identity, threads.drop_last()) + (if t.pid == identity.pid && t.process_start_time_ticks
            == identity.start_time_ticks {
            1nat
        } else {
            0nat
        })
    }
}

/// The number of sampled threads that belong to a process.
pub fn thread_count(identity: ProcessIdentity, threads: &[ThreadIdentity]) -> (r: usize)
    ensures
        r == threads_of(identity, threads@),
{
    let mut r: usize = 0;
    let mut i: usize = 0;
    while i < threads.len()
        invariant
            i <= threads@.len(),
            r == threads_of(identity, threads@.take(i as int)),
            r <= i,
        decreases threads.len() - i,
    {
        proof {
            assert(threads@.take(i + 1).drop_last() =~= threads@.take(i as int));
        }
        let t = threads[i];
        if t.pid == identity.pid && t.process_start_time_ticks == identity.start_time_ticks {
            r = r + 1;
        }
        i = i + 1;
    }
    proof {
        assert(threads@.take(i as int) =~= threads@);
    }
    r
}

/// The thread belongs to one of the processes.
pub open spec fn owned_by_any(t: ThreadIdentity, selected: Seq<ProcessIdentity>) -> bool {
    selected.contains(ProcessIdentity { pid: t.pid, start_time_ticks: t.process_start_time_ticks })
}

/// The indices, in order, among the first `n` threads, of those owned by a
/// selected process.
pub open spec fn owned_thread_indices(selected: Seq<ProcessIdentity>, threads: Seq<ThreadIdentity>, n: nat) -> Seq<
    usize,
>
    decreases n,
{
    if n == 0 {
        Seq::empty()
    } else {
        let before = owned_thread_indices(selected, threads, (n - 1) as nat);
        if owned_by_any(threads[n - 1], selected) {
            before.push((n - 1) as usize)
        } else {
            before
        }
    }
}

/// The threads a runtime report lists: the indices, in order, of those whose
/// process (PID and start time) is one of the selected processes.
pub fn report_thread_indices(selected: &[ProcessIdentity], threads: &[ThreadIdentity]) -> (r: Vec<usize>)
    ensures
        r@ == owned_thread_indices(selected@, threads@, threads@.len() as nat),
{
    let mut r: Vec<usize> = Vec::new();
    let mut i: usize = 0;
    while i < threads.len()
        invariant
            i <= threads@.len(),
            r@ == owned_thread_indices(selected@, threads@, i as nat),
        decreases threads.len() - i,
    {
        let t = threads[i];
        let owner = ProcessIdentity { pid: t.pid, start_time_ticks: t.process_start_time_ticks };
        let mut found = false;
        let mut j: usize = 0;
        while j < selected.len()
            invariant
                j <= selected@.len(),
                found == (exists|k: int| 0 <= k < j && selected@[k] == owner),
            decreases selected.len() - j,
        {
            if selected[j] == owner {
                found = true;
            }
            j = j + 1;
        }
        proof {
            if found {
                let k = choose|k: int| 0 <= k < j && selected@[k] == owner;
                assert(selected@.contains(owner));
            } else {
                if selected@.contains(owner) {
                    let k = choose|k: int| 0 <= k < selected@.len() && selected@[k] == owner;
                    assert(selected@[k] == owner);
                }
            }
        }
        if found {
            r.push(i);
        }
        i = i + 1;
    }
    r
}

/// The project a report gives a process: its label, unless the label is the
/// placeholder `-`.
pub fn report_project(label: &str) -> (r: Option<String>)
    ensures
        match r {
            Some(p) => label@ != "-"@ && p@ == label@,
            None => label@ == "-"@,
        },
{
    let l = crate::text::chars_of(label);
    if crate::text::eq_str(&l, "-") {
        None
    } else {
        Some(crate::text::owned(label))
    }
}

/// The last index at which `name` occurs among the first `n` names.
pub open spec fn last_named(names: Seq<String>, name: Seq<char>, n: nat) -> Option<usize>
    decreases n,
{
    if n == 0 {
        None
    } else if names[n - 1]@ == name {
        Some((n - 1) as usize)
    } else {
        last_named(names, name, (n - 1) as nat)
    }
}

/// The measurements a report attaches to a topic: those of the last metric
/// taken for that topic, given the topics of the metrics in order.
pub fn metric_for_topic(metric_topics: &[String], topic: &str) -> (r: Option<usize>)
    ensures
        r == last_named(metric_topics@, topic@, metric_topics@.len() as nat),
{
    let wanted = crate::text::chars_of(topic);
    let mut i: usize = metric_topics.len();
    while i > 0
        invariant
            i <= metric_topics@.len(),
            wanted@ == topic@,
            last_named(metric_topics@, topic@, metric_topics@.len() as nat) == last_named(
                metric_topics@,
                topic@,
                i as nat,
            ),
        decreases i,
    {
        let name = crate::text::chars_of(metric_topics[i - 1].as_str());
        if crate::text::chars_eq(&name, &wanted) {
            return Some(i - 1);
        }
        i = i - 1;
    }
    None
}

/// One process of a runtime report: where it is in the sample, who it is,
/// the category and project derived for it, and how many of the sampled
/// threads are its own.
#[derive(Debug, Clone, PartialEq, Eq)]
pub struct ReportProcess {
    pub index: usize,
    pub identity: ProcessIdentity,
    pub process_type: ProcessType,
    pub project: Option<String>,
    pub thread_count: usize,
}

/// What a runtime report lists of a sample: its processes, and the indices
/// of the sampled threads that belong to them.
#[derive(Debug, Clone, PartialEq, Eq)]
pub struct ReportSelection {
    pub processes: Vec<ReportProcess>,
    pub threads: Vec<usize>,
}

/// The report's row for the process at `idx`.
pub open spec fn report_row_matches(
    row: ReportProcess,
    ps: Seq<EnrichedProcess>,
    provs: Seq<ProcessProvenance>,
    threads: Seq<ThreadIdentity>,
    idx: usize,
) -> bool {
    let identity = ps[idx as int].snapshot.identity;
    &&& row.index == idx
    &&& row.identity == identity
    &&& derived_for(ps, provs, identity) is Some
    &&& row.process_type == derived_for(ps, provs, identity)->0.process_type
    &&& match row.project {
        Some(p) => derived_for(ps, provs, identity)->0.project_label@ != "-"@ && p@ == derived_for(
            ps,
            provs,
            identity,
        )->0.project_label@,
        None => derived_for(ps, provs, identity)->0.project_label@ == "-"@,
    }
    &&& row.thread_count == threads_of(identity, threads)
}

/// The identities of the processes at the given positions.
pub open spec fn identities_at(ps: Seq<EnrichedProcess>, idxs: Seq<usize>) -> Seq<ProcessIdentity> {
    idxs.map_values(|i: usize| ps[i as int].snapshot.identity)
}

/// Selects what a runtime report lists: the processes whose derived category
/// passes the filter (every one without a filter), in sample order, each
/// with its category, its project (none for the placeholder `-`) and its
/// thread count; and the threads whose process (PID and start time) is one
/// of those, in sample order.
pub fn select_report(
    processes: &[EnrichedProcess],
    provenance: &[ProcessProvenance],
    threads: &[ThreadIdentity],
    filter: Option<ProcessType>,
) -> (r: ReportSelection)
    requires
        provenance@.len() == processes@.len(),
    ensures
        r.processes@.len() == report_indices(processes@, provenance@, filter, processes@.len() as nat).len(),
        forall|k: int|
            0 <= k < r.processes@.len() ==> report_row_matches(
                #[trigger] r.processes@[k],
                processes@,
                provenance@,
                threads@,
                report_indices(processes@, provenance@, filter, processes@.len() as nat)[k],
            ),
        r.threads@ == owned_thread_indices(
            identities_at(processes@, report_indices(processes@, provenance@, filter, processes@.len() as nat)),
            threads@,
            threads@.len() as nat,
        ),
{
    let mut rows: Vec<ReportProcess> = Vec::new();
    let mut identities: Vec<ProcessIdentity> = Vec::new();
    let mut i: usize = 0;
    while i < processes.len()
        invariant
            i <= processes@.len(),
            provenance@.len() == processes@.len(),
            rows@.len() == report_indices(processes@, provenance@, filter, i as nat).len(),
            forall|k: int|
                0 <= k < rows@.len() ==> report_row_matches(
                    #[trigger] rows@[k],
                    processes@,
                    provenance@,
                    threads@,
                    report_indices(processes@, provenance@, filter, i as nat)[k],
                ),
            identities@ == identities_at(processes@, report_indices(processes@, provenance@, filter, i as nat)),
        decreases processes.len() - i,
    {
        let identity = processes[i].snapshot.identity;
        match find_derived(processes, provenance, identity) {
            Some(d) => {
                let keep = match filter {
                    Some(wanted) => d.process_type == wanted,
                    None => true,
                };
                if keep {
                    let project = report_project(d.project_label.as_str());
                    let count = thread_count(identity, threads);
                    let ghost before = report_indices(processes@, provenance@, filter, i as nat);
                    rows.push(ReportProcess { index: i, identity, process_type: d.process_type, project, thread_count: count });
                    identities.push(identity);
                    proof {
                        let after = report_indices(processes@, provenance@, filter, (i + 1) as nat);
                        assert(after == before.push(i));
                        assert(identities@ =~= identities_at(processes@, after));
                        assert forall|k: int| 0 <= k < rows@.len() implies report_row_matches(
                            #[trigger] rows@[k],
                            processes@,
                            provenance@,
                            threads@,
                            after[k],
                        ) by {
                            if k < before.len() {
                                assert(after[k] == before[k]);
                            }
                        }
                    }
                }
            },
            None => {},
        }
        i = i + 1;
    }
    let owned = report_thread_indices(identities.as_slice(), threads);
    ReportSelection { processes: rows, threads: owned }
}

} // verus!
