//! Turning what was read under `/proc` into a sample: which entries are
//! processes, what each one is, and how far its CPU counter moved since the
//! collector's last sample. Reading the files, and the floating-point
//! percentages, are left to the caller.

use vstd::prelude::*;
use vstd::assert_seqs_equal;

use crate::collector::cpu::{cpu_deltas, cpu_deltas_model, sat_add, SystemCpuTicks};
use crate::collector::history::{recorded, ProcCollector, ThreadCollector};
use crate::collector::thread::{
    parse_thread_stat, scheduler_name, scheduler_name_model, status_u64, status_value, status_value_model,
    thread_stat_model, ThreadIdentity,
};
use crate::decimal::parse_u64_spec;
use crate::collector::memory::{parse_status_rss_bytes, status_rss_model};
use crate::collector::process::{
    cgroup_paths_model, nul_separated_model, parse_cgroup_paths, parse_null_separated, parse_process_stat,
    parse_selected_environment, process_stat_model, selected_environment_model, should_read_environment,
    should_read_environment_model,
};
use crate::decimal::{parse_i32, parse_i32_spec};
use crate::process::model::{string_views, LimitedEnvironment, ProcessIdentity, ProcessSnapshot};
use crate::process::resolver::opt_view;
use crate::split::lines;
use crate::text::chars_of;

verus! {

broadcast use vstd::seq_lib::group_to_multiset_ensures;

/// What was read for one entry of the `/proc` directory: its name and the
/// texts of its files, `None` where a file could not be read.
#[derive(Debug, Clone, PartialEq, Eq)]
pub struct ProcessReads {
    pub name: String,
    pub stat: Option<String>,
    pub status: Option<String>,
    pub exe: Option<String>,
    pub cwd: Option<String>,
    pub cmdline: Option<Vec<u8>>,
    pub cgroup: Option<String>,
    pub environ: Option<Vec<u8>>,
}

/// A sampled process with the movement of its CPU counter and of the
/// machine's (process ticks, machine ticks, CPUs), when both are known.
pub type ProcessSample = (ProcessSnapshot, Option<(u64, u64, usize)>);

/// The fields of the entry's `stat`, when it was read and parses.
pub open spec fn entry_stat(e: ProcessReads) -> Option<(i32, Seq<char>, char, i32, u64, u64, u64, u64, i64)> {
    match e.stat {
        Some(t) => match process_stat_model(t@) {
            Ok(m) => Some(m),
            Err(_) => None,
        },
        None => None,
    }
}

/// An entry is a process when its name is a PID and its `stat` parses.
pub open spec fn entry_kept(e: ProcessReads) -> bool {
    parse_i32_spec(e.name@) is Some && entry_stat(e) is Some
}

/// The entries that are processes, in the order read.
pub open spec fn kept_entries(es: Seq<ProcessReads>) -> Seq<ProcessReads>
    decreases es.len(),
{
    if es.len() == 0 {
        Seq::empty()
    } else if entry_kept(es.last()) {
        kept_entries(es.drop_last()).push(es.last())
    } else {
        kept_entries(es.drop_last())
    }
}

/// The parsed `stat` fields of a kept entry.
pub open spec fn stat_of(e: ProcessReads) -> (i32, Seq<char>, char, i32, u64, u64, u64, u64, i64) {
    entry_stat(e)->0
}

/// A process is told apart by the PID of its directory and its start time.
pub open spec fn entry_identity(e: ProcessReads) -> ProcessIdentity {
    ProcessIdentity { pid: parse_i32_spec(e.name@)->0, start_time_ticks: stat_of(e).6 }
}

/// User plus system time, saturating.
pub open spec fn entry_ticks(e: ProcessReads) -> u64 {
    sat_add(stat_of(e).4, stat_of(e).5)
}

/// The counter this sample leaves for the next one.
pub open spec fn entry_tick_pair(e: ProcessReads) -> (ProcessIdentity, u64) {
    (entry_identity(e), entry_ticks(e))
}

/// The counters of every process of the sample, in the order read.
pub open spec fn sample_ticks(es: Seq<ProcessReads>) -> Seq<(ProcessIdentity, u64)> {
    kept_entries(es).map_values(|e: ProcessReads| entry_tick_pair(e))
}

/// The movement of a counter since the previous sample: unknown without a
/// previous machine counter or a previous counter for this process.
pub open spec fn entry_deltas(
    previous_system: Option<SystemCpuTicks>,
    previous_ticks: Seq<(ProcessIdentity, u64)>,
    system: SystemCpuTicks,
    e: ProcessReads,
) -> Option<(u64, u64, usize)> {
    match (previous_system, recorded(previous_ticks, entry_identity(e))) {
        (Some(ps), Some(pt)) => cpu_deltas_model(
            ps.total_ticks,
            system.total_ticks,
            pt,
            entry_ticks(e),
            system.cpu_count,
        ),
        _ => None,
    }
}

/// Resident memory from `status`, 0 when it is unreadable or says nothing.
pub open spec fn entry_memory(e: ProcessReads) -> u64 {
    match e.status {
        Some(t) => match status_rss_model(lines(t@)) {
            Ok(Some(b)) => b,
            _ => 0,
        },
        None => 0,
    }
}

/// The arguments from `cmdline`, none when it is unreadable.
pub open spec fn entry_command(e: ProcessReads) -> Seq<Seq<char>> {
    match e.cmdline {
        Some(b) => nul_separated_model(b@),
        None => Seq::empty(),
    }
}

/// The cgroup paths, none when the file is unreadable.
pub open spec fn entry_cgroup(e: ProcessReads) -> Seq<Seq<char>> {
    match e.cgroup {
        Some(t) => cgroup_paths_model(lines(t@)),
        None => Seq::empty(),
    }
}

/// The kept environment variables, read only for processes that look like
/// ROS; empty otherwise or when `environ` is unreadable.
pub open spec fn entry_environment(e: ProcessReads) -> Map<Seq<char>, Seq<char>> {
    if should_read_environment_model(stat_of(e).1, opt_view(e.exe), entry_command(e)) {
        match e.environ {
            Some(b) => selected_environment_model(nul_separated_model(b@)),
            None => Map::empty(),
        }
    } else {
        Map::empty()
    }
}

/// A sample is the one this entry gives. The CPU percentage is left at 0.0
/// (bits 0) for the caller to fill in from the movement, and no GPU use is
/// known yet.
pub open spec fn sample_matches(
    x: ProcessSample,
    e: ProcessReads,
    previous_system: Option<SystemCpuTicks>,
    previous_ticks: Seq<(ProcessIdentity, u64)>,
    system: SystemCpuTicks,
) -> bool {
    let p = x.0;
    let st = stat_of(e);
    &&& p.identity == entry_identity(e)
    &&& p.pid == entry_identity(e).pid
    &&& p.ppid == st.3
    &&& p.name@ == st.1
    &&& opt_view(p.executable) == opt_view(e.exe)
    &&& opt_view(p.cwd) == opt_view(e.cwd)
    &&& string_views(p.command@) == entry_command(e)
    &&& string_views(p.cgroup@) == entry_cgroup(e)
    &&& p.environment@ == entry_environment(e)
    &&& p.cpu_percent_bits == 0
    &&& p.memory_bytes == entry_memory(e)
    &&& p.gpu is None
    &&& x.1 == entry_deltas(previous_system, previous_ticks, system, e)
}

/// The samples of the entries that are processes, one each, in the order read.
pub open spec fn samples_of(
    k: Seq<ProcessSample>,
    es: Seq<ProcessReads>,
    previous_system: Option<SystemCpuTicks>,
    previous_ticks: Seq<(ProcessIdentity, u64)>,
    system: SystemCpuTicks,
) -> bool {
    &&& k.len() == kept_entries(es).len()
    &&& forall|i: int|
        0 <= i < k.len() ==> sample_matches(#[trigger] k[i], kept_entries(es)[i], previous_system, previous_ticks, system)
}

/// Ordered by PID.
pub open spec fn by_pid(s: Seq<ProcessSample>) -> bool {
    forall|a: int, b: int| 0 <= a < b < s.len() ==> s[a].0.pid <= s[b].0.pid
}

proof fn lemma_insert_multiset<A>(s: Seq<A>, i: int, x: A)
    requires
        0 <= i <= s.len(),
    ensures
        s.insert(i, x).to_multiset() =~= s.to_multiset().insert(x),
{
    vstd::seq_lib::lemma_multiset_commutative(s.take(i).push(x), s.skip(i));
    vstd::seq_lib::lemma_multiset_commutative(s.take(i), s.skip(i));
    assert(s.insert(i, x) =~= s.take(i).push(x) + s.skip(i));
    assert(s =~= s.take(i) + s.skip(i));
}

proof fn lemma_kept_step(es: Seq<ProcessReads>, j: int)
    requires
        0 <= j < es.len(),
    ensures
        kept_entries(es.take(j + 1)) == if entry_kept(es[j]) {
            kept_entries(es.take(j)).push(es[j])
        } else {
            kept_entries(es.take(j))
        },
{
    assert(es.take(j + 1).drop_last() =~= es.take(j));
}

fn text_copy(o: &Option<String>) -> (r: Option<String>)
    ensures
        opt_view(r) == opt_view(*o),
{
    match o {
        Some(s) => Some(s.clone()),
        None => None,
    }
}

/// Sorts samples by PID; samples with one PID come in no promised order.
fn sort_by_pid(v: Vec<ProcessSample>) -> (r: Vec<ProcessSample>)
    ensures
        r@.to_multiset() == v@.to_multiset(),
        by_pid(r@),
{
    let mut rest = v;
    let mut r: Vec<ProcessSample> = Vec::new();
    while rest.len() > 0
        invariant
            r@.to_multiset().add(rest@.to_multiset()) == v@.to_multiset(),
            by_pid(r@),
        decreases rest.len(),
    {
        let ghost before = rest@;
        let x = rest.pop().unwrap();
        proof {
            assert(before =~= rest@.push(x));
        }
        let mut pos: usize = 0;
        while pos < r.len() && r[pos].0.pid <= x.0.pid
            invariant
                pos <= r.len(),
                forall|k: int| 0 <= k < pos ==> r@[k].0.pid <= x.0.pid,
            decreases r.len() - pos,
        {
            pos = pos + 1;
        }
        let ghost old_r = r@;
        proof {
            lemma_insert_multiset(old_r, pos as int, x);
        }
        r.insert(pos, x);
        proof {
            assert(r@ =~= old_r.insert(pos as int, x));
            assert forall|a: int, b: int| 0 <= a < b < r@.len() implies r@[a].0.pid <= r@[b].0.pid by {
                if pos < old_r.len() {
                    assert(old_r[pos as int].0.pid > x.0.pid);
                }
                if a < pos && b > pos {
                    assert(r@[b] == old_r[b - 1]);
                } else if a == pos && b > pos {
                    assert(r@[b] == old_r[b - 1]);
                    assert(old_r[pos as int].0.pid <= old_r[b - 1].0.pid);
                } else if a > pos {
                    assert(r@[a] == old_r[a - 1]);
                    assert(r@[b] == old_r[b - 1]);
                }
            }
        }
    }
    proof {
        assert(rest@.to_multiset() =~= vstd::multiset::Multiset::empty());
    }
    r
}

/// Builds one process sample from what was read under `/proc`, pairing each
/// process with the collector's previous counters, and leaves this sample's
/// counters in the collector for the next one.
pub fn assemble_process_sample(
    collector: &mut ProcCollector,
    system: SystemCpuTicks,
    entries: Vec<ProcessReads>,
) -> (r: Vec<ProcessSample>)
    ensures
        by_pid(r@),
        exists|k: Seq<ProcessSample>|
            #[trigger] samples_of(k, entries@, old(collector).system_view(), old(collector).ticks_view(), system)
                && r@.to_multiset() == k.to_multiset(),
        final(collector).root_view() == old(collector).root_view(),
        final(collector).system_view() == Some(system),
        final(collector).ticks_view() == sample_ticks(entries@),
{
    let previous_system = collector.previous_system();
    let ghost old_ticks = collector.ticks_view();
    let ghost es = entries@;
    let mut kept: Vec<ProcessSample> = Vec::new();
    let mut ticks: Vec<(ProcessIdentity, u64)> = Vec::new();
    let mut j: usize = 0;
    while j < entries.len()
        invariant
            j <= entries.len(),
            es == entries@,
            previous_system == old(collector).system_view(),
            old_ticks == old(collector).ticks_view(),
            collector.ticks_view() == old_ticks,
            collector.system_view() == previous_system,
            collector.root_view() == old(collector).root_view(),
            kept@.len() == kept_entries(es.take(j as int)).len(),
            forall|i: int|
                0 <= i < kept@.len() ==> sample_matches(
                    #[trigger] kept@[i],
                    kept_entries(es.take(j as int))[i],
                    previous_system,
                    old_ticks,
                    system,
                ),
            ticks@ == kept_entries(es.take(j as int)).map_values(|e: ProcessReads| entry_tick_pair(e)),
        decreases entries.len() - j,
    {
        proof {
            lemma_kept_step(es, j as int);
        }
        let e = &entries[j];
        let name = chars_of(e.name.as_str());
        let pid = parse_i32(&name);
        let raw = match &e.stat {
            Some(t) => match parse_process_stat(t.as_str()) {
                Ok(s) => Some(s),
                Err(_) => None,
            },
            None => None,
        };
        match (pid, raw) {
            (Some(pid), Some(raw)) => {
                let identity = ProcessIdentity { pid, start_time_ticks: raw.start_time_ticks };
                let process_ticks = raw.process_ticks();
                let deltas = match previous_system {
                    Some(ps) => match collector.previous_ticks(identity) {
                        Some(pt) => cpu_deltas(ps.total_ticks, system.total_ticks, pt, process_ticks, system.cpu_count),
                        None => None,
                    },
                    None => None,
                };
                let memory_bytes = match &e.status {
                    Some(t) => match parse_status_rss_bytes(t.as_str()) {
                        Ok(Some(b)) => b,
                        _ => 0,
                    },
                    None => 0,
                };
                let executable = text_copy(&e.exe);
                let cwd = text_copy(&e.cwd);
                let command = match &e.cmdline {
                    Some(b) => parse_null_separated(b.as_slice()),
                    None => Vec::new(),
                };
                let cgroup = match &e.cgroup {
                    Some(t) => parse_cgroup_paths(t.as_str()),
                    None => Vec::new(),
                };
                let read_environment = match &executable {
                    Some(x) => should_read_environment(raw.name.as_str(), Some(x.as_str()), &command),
                    None => should_read_environment(raw.name.as_str(), None, &command),
                };
                let environment = if read_environment {
                    match &e.environ {
                        Some(b) => parse_selected_environment(b.as_slice()),
                        None => LimitedEnvironment::new(),
                    }
                } else {
                    LimitedEnvironment::new()
                };
                proof {
                    assert(string_views(command@) == entry_command(*e));
                    assert(string_views(Seq::<String>::empty()) =~= Seq::<Seq<char>>::empty());
                }
                let snapshot = ProcessSnapshot {
                    identity,
                    pid,
                    ppid: raw.ppid,
                    name: raw.name,
                    executable,
                    cwd,
                    command,
                    cgroup,
                    environment,
                    cpu_percent_bits: 0,
                    memory_bytes,
                    gpu: None,
                };
                let ghost before_ticks = ticks@;
                kept.push((snapshot, deltas));
                ticks.push((identity, process_ticks));
                proof {
                    let ke = kept_entries(es.take(j as int));
                    assert(ticks@ =~= ke.push(es[j as int]).map_values(|e: ProcessReads| entry_tick_pair(e)));
                }
            },
            _ => {},
        }
        j = j + 1;
    }
    proof {
        assert(es.take(es.len() as int) =~= es);
    }
    let ghost k = kept@;
    proof {
        assert(samples_of(k, es, previous_system, old_ticks, system));
    }
    let r = sort_by_pid(kept);
    collector.remember(system, ticks);
    r
}


/// One sampled thread, with the movement of its CPU counter and of the
/// machine's, when both are known.
#[derive(Debug, Clone, PartialEq, Eq)]
pub struct ThreadSample {
    pub identity: ThreadIdentity,
    pub pid: i32,
    pub tid: i32,
    pub name: String,
    pub state: char,
    pub last_cpu: Option<u32>,
    pub priority: Option<i64>,
    pub scheduler: Option<String>,
    pub cpu_affinity: Option<String>,
    pub voluntary_context_switches: Option<u64>,
    pub involuntary_context_switches: Option<u64>,
    pub cpu_deltas: Option<(u64, u64, usize)>,
}

/// What was read for one thread: its process, the name of its directory
/// under `task`, its `stat` and, when readable, its `status`.
pub type ThreadReads = (ProcessIdentity, String, String, Option<String>);

/// The fields of the thread's `stat`, when it parses.
pub open spec fn thread_entry_stat(e: ThreadReads) -> Option<(i32, Seq<char>, char, u64, u64, u64, i64, u32, i32)> {
    match thread_stat_model(e.2@) {
        Ok(m) => Some(m),
        Err(_) => None,
    }
}

pub open spec fn thread_stat_of(e: ThreadReads) -> (i32, Seq<char>, char, u64, u64, u64, i64, u32, i32) {
    thread_entry_stat(e)->0
}

/// A thread entry is kept when its name is a TID and its `stat` parses.
pub open spec fn thread_kept(e: ThreadReads) -> bool {
    parse_i32_spec(e.1@) is Some && thread_entry_stat(e) is Some
}

/// The entries that are threads, in the order read.
pub open spec fn kept_threads(es: Seq<ThreadReads>) -> Seq<ThreadReads>
    decreases es.len(),
{
    if es.len() == 0 {
        Seq::empty()
    } else if thread_kept(es.last()) {
        kept_threads(es.drop_last()).push(es.last())
    } else {
        kept_threads(es.drop_last())
    }
}

/// A thread is told apart by its process, the TID of its directory and its
/// start time.
pub open spec fn thread_identity_of(e: ThreadReads) -> ThreadIdentity {
    ThreadIdentity {
        pid: e.0.pid,
        process_start_time_ticks: e.0.start_time_ticks,
        tid: parse_i32_spec(e.1@)->0,
        start_time_ticks: thread_stat_of(e).5,
    }
}

pub open spec fn thread_ticks_of(e: ThreadReads) -> u64 {
    sat_add(thread_stat_of(e).3, thread_stat_of(e).4)
}

pub open spec fn thread_tick_pair(e: ThreadReads) -> (ThreadIdentity, u64) {
    (thread_identity_of(e), thread_ticks_of(e))
}

/// The counters of every thread of the sample, in the order read.
pub open spec fn thread_sample_ticks(es: Seq<ThreadReads>) -> Seq<(ThreadIdentity, u64)> {
    kept_threads(es).map_values(|e: ThreadReads| thread_tick_pair(e))
}

/// The movement of a thread's counter: unknown without a previous machine
/// counter or a previous counter for this thread.
pub open spec fn thread_deltas(
    previous_system: Option<SystemCpuTicks>,
    previous_ticks: Seq<(ThreadIdentity, u64)>,
    system: SystemCpuTicks,
    e: ThreadReads,
) -> Option<(u64, u64, usize)> {
    match (previous_system, recorded(previous_ticks, thread_identity_of(e))) {
        (Some(ps), Some(pt)) => cpu_deltas_model(
            ps.total_ticks,
            system.total_ticks,
            pt,
            thread_ticks_of(e),
            system.cpu_count,
        ),
        _ => None,
    }
}

/// A value of the thread's `status`, unknown when it is unreadable.
pub open spec fn thread_status_value(e: ThreadReads, key: Seq<char>) -> Option<Seq<char>> {
    match e.3 {
        Some(t) => status_value_model(lines(t@), key),
        None => None,
    }
}

pub open spec fn thread_status_u64(e: ThreadReads, key: Seq<char>) -> Option<u64> {
    match thread_status_value(e, key) {
        Some(v) => parse_u64_spec(v),
        None => None,
    }
}

/// A thread sample is the one this entry gives.
pub open spec fn thread_matches(
    t: ThreadSample,
    e: ThreadReads,
    previous_system: Option<SystemCpuTicks>,
    previous_ticks: Seq<(ThreadIdentity, u64)>,
    system: SystemCpuTicks,
) -> bool {
    let st = thread_stat_of(e);
    &&& t.identity == thread_identity_of(e)
    &&& t.pid == e.0.pid
    &&& t.tid == thread_identity_of(e).tid
    &&& t.name@ == st.1
    &&& t.state == st.2
    &&& t.last_cpu == Some(st.7)
    &&& t.priority == Some(st.6)
    &&& opt_view(t.scheduler) == Some(scheduler_name_model(st.8))
    &&& opt_view(t.cpu_affinity) == thread_status_value(e, "Cpus_allowed_list"@)
    &&& t.voluntary_context_switches == thread_status_u64(e, "voluntary_ctxt_switches"@)
    &&& t.involuntary_context_switches == thread_status_u64(e, "nonvoluntary_ctxt_switches"@)
    &&& t.cpu_deltas == thread_deltas(previous_system, previous_ticks, system, e)
}

/// The samples of the entries that are threads, one each, in the order read.
pub open spec fn thread_samples_of(
    k: Seq<ThreadSample>,
    es: Seq<ThreadReads>,
    previous_system: Option<SystemCpuTicks>,
    previous_ticks: Seq<(ThreadIdentity, u64)>,
    system: SystemCpuTicks,
) -> bool {
    &&& k.len() == kept_threads(es).len()
    &&& forall|i: int|
        0 <= i < k.len() ==> thread_matches(#[trigger] k[i], kept_threads(es)[i], previous_system, previous_ticks, system)
}

/// Ordered by PID, then TID.
pub open spec fn thread_before(a: ThreadSample, b: ThreadSample) -> bool {
    a.pid < b.pid || (a.pid == b.pid && a.tid <= b.tid)
}

pub open spec fn by_pid_tid(s: Seq<ThreadSample>) -> bool {
    forall|a: int, b: int| 0 <= a < b < s.len() ==> thread_before(s[a], s[b])
}

proof fn lemma_thread_kept_step(es: Seq<ThreadReads>, j: int)
    requires
        0 <= j < es.len(),
    ensures
        kept_threads(es.take(j + 1)) == if thread_kept(es[j]) {
            kept_threads(es.take(j)).push(es[j])
        } else {
            kept_threads(es.take(j))
        },
{
    assert(es.take(j + 1).drop_last() =~= es.take(j));
}

/// Sorts thread samples by (PID, TID); samples with one such pair come in
/// no promised order.
fn sort_by_pid_tid(v: Vec<ThreadSample>) -> (r: Vec<ThreadSample>)
    ensures
        r@.to_multiset() == v@.to_multiset(),
        by_pid_tid(r@),
{
    let mut rest = v;
    let mut r: Vec<ThreadSample> = Vec::new();
    while rest.len() > 0
        invariant
            r@.to_multiset().add(rest@.to_multiset()) == v@.to_multiset(),
            by_pid_tid(r@),
        decreases rest.len(),
    {
        let ghost before = rest@;
        let x = rest.pop().unwrap();
        proof {
            assert(before =~= rest@.push(x));
        }
        let mut pos: usize = 0;
        while pos < r.len() && (r[pos].pid < x.pid || (r[pos].pid == x.pid && r[pos].tid <= x.tid))
            invariant
                pos <= r.len(),
                forall|k: int| 0 <= k < pos ==> thread_before(#[trigger] r@[k], x),
            decreases r.len() - pos,
        {
            pos = pos + 1;
        }
        let ghost old_r = r@;
        proof {
            lemma_insert_multiset(old_r, pos as int, x);
        }
        r.insert(pos, x);
        proof {
            assert(r@ =~= old_r.insert(pos as int, x));
            assert forall|a: int, b: int| 0 <= a < b < r@.len() implies thread_before(r@[a], r@[b]) by {
                if pos < old_r.len() {
                    assert(!thread_before(old_r[pos as int], x));
                }
                if a < pos && b > pos {
                    assert(r@[b] == old_r[b - 1]);
                    assert(thread_before(old_r[a], old_r[b - 1]));
                } else if a < pos && b == pos {
                    assert(thread_before(old_r[a], x));
                } else if a == pos && b > pos {
                    assert(r@[b] == old_r[b - 1]);
                    assert(thread_before(old_r[pos as int], old_r[b - 1]));
                } else if a > pos {
                    assert(r@[a] == old_r[a - 1]);
                    assert(r@[b] == old_r[b - 1]);
                    assert(thread_before(old_r[a - 1], old_r[b - 1]));
                } else {
                    assert(thread_before(old_r[a], old_r[b]));
                }
            }
        }
    }
    proof {
        assert(rest@.to_multiset() =~= vstd::multiset::Multiset::empty());
    }
    r
}

/// Builds one thread sample from what was read under each process's `task`
/// directory, pairing each thread with the collector's previous counters,
/// and leaves this sample's counters in the collector for the next one.
pub fn assemble_thread_sample(
    collector: &mut ThreadCollector,
    system: SystemCpuTicks,
    entries: Vec<ThreadReads>,
) -> (r: Vec<ThreadSample>)
    ensures
        by_pid_tid(r@),
        exists|k: Seq<ThreadSample>|
            #[trigger] thread_samples_of(k, entries@, old(collector).system_view(), old(collector).ticks_view(), system)
                && r@.to_multiset() == k.to_multiset(),
        final(collector).root_view() == old(collector).root_view(),
        final(collector).system_view() == Some(system),
        final(collector).ticks_view() == thread_sample_ticks(entries@),
{
    let previous_system = collector.previous_system();
    let ghost old_ticks = collector.ticks_view();
    let ghost es = entries@;
    let mut kept: Vec<ThreadSample> = Vec::new();
    let mut ticks: Vec<(ThreadIdentity, u64)> = Vec::new();
    let mut j: usize = 0;
    while j < entries.len()
        invariant
            j <= entries.len(),
            es == entries@,
            previous_system == old(collector).system_view(),
            old_ticks == old(collector).ticks_view(),
            collector.ticks_view() == old_ticks,
            collector.system_view() == previous_system,
            collector.root_view() == old(collector).root_view(),
            kept@.len() == kept_threads(es.take(j as int)).len(),
            forall|i: int|
                0 <= i < kept@.len() ==> thread_matches(
                    #[trigger] kept@[i],
                    kept_threads(es.take(j as int))[i],
                    previous_system,
                    old_ticks,
                    system,
                ),
            ticks@ == kept_threads(es.take(j as int)).map_values(|e: ThreadReads| thread_tick_pair(e)),
        decreases entries.len() - j,
    {
        proof {
            lemma_thread_kept_step(es, j as int);
        }
        let e = &entries[j];
        let name = chars_of(e.1.as_str());
        let tid = parse_i32(&name);
        let raw = match parse_thread_stat(e.2.as_str()) {
            Ok(s) => Some(s),
            Err(_) => None,
        };
        match (tid, raw) {
            (Some(tid), Some(raw)) => {
                let identity = ThreadIdentity {
                    pid: e.0.pid,
                    process_start_time_ticks: e.0.start_time_ticks,
                    tid,
                    start_time_ticks: raw.start_time_ticks,
                };
                let thread_ticks = raw.cpu_ticks();
                let deltas = match previous_system {
                    Some(ps) => match collector.previous_ticks(identity) {
                        Some(pt) => cpu_deltas(ps.total_ticks, system.total_ticks, pt, thread_ticks, system.cpu_count),
                        None => None,
                    },
                    None => None,
                };
                let (cpu_affinity, voluntary, involuntary) = match &e.3 {
                    Some(t) => (
                        status_value(t.as_str(), "Cpus_allowed_list"),
                        status_u64(t.as_str(), "voluntary_ctxt_switches"),
                        status_u64(t.as_str(), "nonvoluntary_ctxt_switches"),
                    ),
                    None => (None, None, None),
                };
                let sample = ThreadSample {
                    identity,
                    pid: e.0.pid,
                    tid,
                    name: raw.name,
                    state: raw.state,
                    last_cpu: Some(raw.last_cpu),
                    priority: Some(raw.priority),
                    scheduler: Some(scheduler_name(raw.policy)),
                    cpu_affinity,
                    voluntary_context_switches: voluntary,
                    involuntary_context_switches: involuntary,
                    cpu_deltas: deltas,
                };
                kept.push(sample);
                ticks.push((identity, thread_ticks));
                proof {
                    let ke = kept_threads(es.take(j as int));
                    assert(ticks@ =~= ke.push(es[j as int]).map_values(|e: ThreadReads| thread_tick_pair(e)));
                }
            },
            _ => {},
        }
        j = j + 1;
    }
    proof {
        assert(es.take(es.len() as int) =~= es);
    }
    let ghost k = kept@;
    proof {
        assert(thread_samples_of(k, es, previous_system, old_ticks, system));
    }
    let r = sort_by_pid_tid(kept);
    collector.remember(system, ticks);
    r
}

} // verus!
