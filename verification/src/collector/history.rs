//! What the samplers keep between two samples: the CPU counters of the
//! machine and of each process or thread, to turn counters into rates.

use vstd::prelude::*;

use crate::collector::cpu::SystemCpuTicks;
use crate::collector::thread::ThreadIdentity;
use crate::process::model::ProcessIdentity;
use crate::text::owned;

verus! {

/// The counter recorded last for a key: a later entry replaces an earlier one.
pub open spec fn recorded<K>(entries: Seq<(K, u64)>, key: K) -> Option<u64>
    decreases entries.len(),
{
    if entries.len() == 0 {
        None
    } else if entries.last().0 == key {
        Some(entries.last().1)
    } else {
        recorded(entries.drop_last(), key)
    }
}

/// Samples processes from a `/proc` tree and remembers their CPU counters.
///
/// The counters are kept as (identity, ticks) pairs in a `Vec`: vstd gives a
/// hash table no key model for a struct key, so a `HashMap` keyed by the
/// identity would leave every lookup unproved; `recorded` is the table's
/// meaning.
#[derive(Debug)]
pub struct ProcCollector {
    proc_root: String,
    previous_system: Option<SystemCpuTicks>,
    previous_process_ticks: Vec<(ProcessIdentity, u64)>,
}

impl ProcCollector {
    pub closed spec fn root_view(&self) -> Seq<char> {
        self.proc_root@
    }

    pub closed spec fn system_view(&self) -> Option<SystemCpuTicks> {
        self.previous_system
    }

    pub closed spec fn ticks_view(&self) -> Seq<(ProcessIdentity, u64)> {
        self.previous_process_ticks@
    }

    /// A collector of the tree at `proc_root`, with nothing sampled yet.
    pub fn new(proc_root: &str) -> (r: Self)
        ensures
            r.root_view() == proc_root@,
            r.system_view() is None,
            r.ticks_view().len() == 0,
    {
        ProcCollector { proc_root: owned(proc_root), previous_system: None, previous_process_ticks: Vec::new() }
    }

    /// Where the `/proc` tree is.
    pub fn proc_root(&self) -> (r: &str)
        ensures
            r@ == self.root_view(),
    {
        self.proc_root.as_str()
    }

    /// The machine's counters at the last sample.
    pub fn previous_system(&self) -> (r: Option<SystemCpuTicks>)
        ensures
            r == self.system_view(),
    {
        self.previous_system
    }

    /// A process's counter at the last sample.
    pub fn previous_ticks(&self, identity: ProcessIdentity) -> (r: Option<u64>)
        ensures
            r == recorded(self.ticks_view(), identity),
    {
        let mut i: usize = self.previous_process_ticks.len();
        assert(self.previous_process_ticks@.take(i as int) =~= self.previous_process_ticks@);
        while i > 0
            invariant
                i <= self.previous_process_ticks@.len(),
                recorded(self.ticks_view(), identity) == recorded(self.previous_process_ticks@.take(i as int), identity),
            decreases i,
        {
            assert(self.previous_process_ticks@.take(i as int).drop_last() =~= self.previous_process_ticks@.take(i - 1));
            if self.previous_process_ticks[i - 1].0 == identity {
                return Some(self.previous_process_ticks[i - 1].1);
            }
            i = i - 1;
        }
        None
    }

    /// Keeps the counters of this sample for the next one.
    pub fn remember(&mut self, system: SystemCpuTicks, ticks: Vec<(ProcessIdentity, u64)>)
        ensures
            final(self).root_view() == old(self).root_view(),
            final(self).system_view() == Some(system),
            final(self).ticks_view() == ticks@,
    {
        self.previous_system = Some(system);
        self.previous_process_ticks = ticks;
    }
}

impl Default for ProcCollector {
    fn default() -> (r: Self)
        ensures
            r.root_view() == "/proc"@,
            r.system_view() is None,
            r.ticks_view().len() == 0,
    {
        ProcCollector::new("/proc")
    }
}

/// Samples threads from a `/proc` tree and remembers their CPU counters,
/// kept as (identity, ticks) pairs for the same reason as above.
#[derive(Debug)]
pub struct ThreadCollector {
    proc_root: String,
    previous_system: Option<SystemCpuTicks>,
    previous_thread_ticks: Vec<(ThreadIdentity, u64)>,
}

impl ThreadCollector {
    pub closed spec fn root_view(&self) -> Seq<char> {
        self.proc_root@
    }

    pub closed spec fn system_view(&self) -> Option<SystemCpuTicks> {
        self.previous_system
    }

    pub closed spec fn ticks_view(&self) -> Seq<(ThreadIdentity, u64)> {
        self.previous_thread_ticks@
    }

    /// A collector of the tree at `proc_root`, with nothing sampled yet.
    pub fn new(proc_root: &str) -> (r: Self)
        ensures
            r.root_view() == proc_root@,
            r.system_view() is None,
            r.ticks_view().len() == 0,
    {
        ThreadCollector { proc_root: owned(proc_root), previous_system: None, previous_thread_ticks: Vec::new() }
    }

    /// Where the `/proc` tree is.
    pub fn proc_root(&self) -> (r: &str)
        ensures
            r@ == self.root_view(),
    {
        self.proc_root.as_str()
    }

    /// The machine's counters at the last sample.
    pub fn previous_system(&self) -> (r: Option<SystemCpuTicks>)
        ensures
            r == self.system_view(),
    {
        self.previous_system
    }

    /// A thread's counter at the last sample.
    pub fn previous_ticks(&self, identity: ThreadIdentity) -> (r: Option<u64>)
        ensures
            r == recorded(self.ticks_view(), identity),
    {
        let mut i: usize = self.previous_thread_ticks.len();
        assert(self.previous_thread_ticks@.take(i as int) =~= self.previous_thread_ticks@);
        while i > 0
            invariant
                i <= self.previous_thread_ticks@.len(),
                recorded(self.ticks_view(), identity) == recorded(self.previous_thread_ticks@.take(i as int), identity),
            decreases i,
        {
            assert(self.previous_thread_ticks@.take(i as int).drop_last() =~= self.previous_thread_ticks@.take(i - 1));
            if self.previous_thread_ticks[i - 1].0 == identity {
                return Some(self.previous_thread_ticks[i - 1].1);
            }
            i = i - 1;
        }
        None
    }

    /// Keeps the counters of this sample for the next one.
    pub fn remember(&mut self, system: SystemCpuTicks, ticks: Vec<(ThreadIdentity, u64)>)
        ensures
            final(self).root_view() == old(self).root_view(),
            final(self).system_view() == Some(system),
            final(self).ticks_view() == ticks@,
    {
        self.previous_system = Some(system);
        self.previous_thread_ticks = ticks;
    }
}

impl Default for ThreadCollector {
    fn default() -> (r: Self)
        ensures
            r.root_view() == "/proc"@,
            r.system_view() is None,
            r.ticks_view().len() == 0,
    {
        ThreadCollector::new("/proc")
    }
}

} // verus!
