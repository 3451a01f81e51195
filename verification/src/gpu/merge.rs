//! Folding the per-device process lists of a GPU sample into one usage
//! record per process.
//!
//! A device reports the processes that hold a context on it, with their
//! memory, and, separately, utilization samples. A process may appear in
//! several lists of one device and on several devices: memory is summed once
//! per (process, device), and a process seen on more than one device keeps
//! neither a device index nor a utilization, since a single figure would
//! misattribute it.

use vstd::prelude::*;

use std::collections::HashMap;

use crate::app::EnrichedProcess;
use crate::process::model::ProcessGpuUsage;

verus! {

broadcast use vstd::std_specs::hash::group_hash_axioms;

/// The record a process starts with when first seen on a device.
pub open spec fn fresh_usage(gpu_index: u32) -> ProcessGpuUsage {
    ProcessGpuUsage { gpu_index: Some(gpu_index), vram_bytes: None, utilization_percent: None }
}

/// The record of `pid` in the table, or a fresh one for the device.
pub open spec fn usage_or_fresh(m: Map<i32, ProcessGpuUsage>, pid: i32, gpu_index: u32) -> ProcessGpuUsage {
    if m.contains_key(pid) {
        m[pid]
    } else {
        fresh_usage(gpu_index)
    }
}

/// `a + b`, or `u64::MAX` where that overflows.
pub open spec fn saturating_sum(a: u64, b: u64) -> u64 {
    if a + b > u64::MAX {
        u64::MAX
    } else {
        (a + b) as u64
    }
}

/// A record after the device `gpu_index` reported memory for it: the device
/// index is dropped when it differs, and reported bytes are added (an
/// unknown amount adds nothing).
pub open spec fn with_memory(u: ProcessGpuUsage, gpu_index: u32, used: Option<u64>) -> ProcessGpuUsage {
    ProcessGpuUsage {
        gpu_index: if u.gpu_index == Some(gpu_index) {
            u.gpu_index
        } else {
            None
        },
        vram_bytes: match used {
            Some(b) => Some(
                saturating_sum(
                    match u.vram_bytes {
                        Some(v) => v,
                        None => 0,
                    },
                    b,
                ),
            ),
            None => u.vram_bytes,
        },
        utilization_percent: u.utilization_percent,
    }
}

/// A record after the device `gpu_index` reported a utilization for it: on
/// another device than the one recorded, the record loses its device and
/// its utilization; otherwise it keeps the highest utilization reported.
pub open spec fn with_utilization(u: ProcessGpuUsage, gpu_index: u32, percent: u32) -> ProcessGpuUsage {
    if u.gpu_index != Some(gpu_index) {
        ProcessGpuUsage { gpu_index: None, vram_bytes: u.vram_bytes, utilization_percent: None }
    } else {
        let before: u32 = match u.utilization_percent {
            Some(p) => p,
            None => 0,
        };
        ProcessGpuUsage {
            gpu_index: u.gpu_index,
            vram_bytes: u.vram_bytes,
            utilization_percent: Some(if before >= percent { before } else { percent }),
        }
    }
}

/// The (process, device) pairs already counted are a `Vec` kept free of
/// repeats: vstd gives a hash set no key model for a tuple key, so a
/// `HashSet<(i32, u32)>` would leave membership unproved.
///
/// The table and the list of recorded (process, device) pairs after a
/// device reports memory for `pid`.
pub open spec fn memory_step(
    m: Map<i32, ProcessGpuUsage>,
    seen: Seq<(i32, u32)>,
    pid: u32,
    gpu_index: u32,
    used: Option<u64>,
) -> (Map<i32, ProcessGpuUsage>, Seq<(i32, u32)>) {
    if pid > i32::MAX || seen.contains((pid as i32, gpu_index)) {
        (m, seen)
    } else {
        (
            m.insert(pid as i32, with_memory(usage_or_fresh(m, pid as i32, gpu_index), gpu_index, used)),
            seen.push((pid as i32, gpu_index)),
        )
    }
}

/// The table after a device reports a utilization for `pid`.
pub open spec fn utilization_step(m: Map<i32, ProcessGpuUsage>, pid: u32, gpu_index: u32, percent: u32) -> Map<
    i32,
    ProcessGpuUsage,
> {
    if pid > i32::MAX {
        m
    } else {
        m.insert(pid as i32, with_utilization(usage_or_fresh(m, pid as i32, gpu_index), gpu_index, percent))
    }
}

/// Records the memory a device reports for a process. A PID that does not
/// fit an `i32` is ignored, and so is a (process, device) pair already
/// recorded, so that a process listed both as a compute and as a graphics
/// context is counted once.
pub fn merge_process_memory(
    processes: &mut HashMap<i32, ProcessGpuUsage>,
    seen: &mut Vec<(i32, u32)>,
    pid: u32,
    gpu_index: u32,
    used_bytes: Option<u64>,
)
    ensures
        (final(processes)@, final(seen)@) == memory_step(old(processes)@, old(seen)@, pid, gpu_index, used_bytes),
{
    if pid > 2147483647u32 {
        return;
    }
    let p: i32 = pid as i32;
    let mut i: usize = 0;
    while i < seen.len()
        invariant
            i <= seen.len(),
            seen@ == old(seen)@,
            processes@ == old(processes)@,
            p == pid as i32,
            forall|j: int| 0 <= j < i ==> seen@[j] != (p, gpu_index),
        decreases seen.len() - i,
    {
        if seen[i].0 == p && seen[i].1 == gpu_index {
            proof {
                assert(seen@[i as int] == (p, gpu_index));
                assert(seen@.contains((p, gpu_index)));
            }
            return;
        }
        i = i + 1;
    }
    seen.push((p, gpu_index));
    let current = match processes.get(&p) {
        Some(u) => *u,
        None => ProcessGpuUsage { gpu_index: Some(gpu_index), vram_bytes: None, utilization_percent: None },
    };
    let index = if current.gpu_index == Some(gpu_index) {
        current.gpu_index
    } else {
        None
    };
    let vram = match used_bytes {
        Some(b) => {
            let before: u64 = match current.vram_bytes {
                Some(v) => v,
                None => 0,
            };
            Some(before.saturating_add(b))
        },
        None => current.vram_bytes,
    };
    let updated = ProcessGpuUsage { gpu_index: index, vram_bytes: vram, utilization_percent: current.utilization_percent };
    processes.insert(p, updated);
}

/// Records the utilization, in whole percent, that a device reports for a
/// process. A PID that does not fit an `i32` is ignored.
pub fn merge_process_utilization(
    processes: &mut HashMap<i32, ProcessGpuUsage>,
    pid: u32,
    gpu_index: u32,
    utilization_percent: u32,
)
    ensures
        final(processes)@ == utilization_step(old(processes)@, pid, gpu_index, utilization_percent),
{
    if pid > 2147483647u32 {
        return;
    }
    let p: i32 = pid as i32;
    let current = match processes.get(&p) {
        Some(u) => *u,
        None => ProcessGpuUsage { gpu_index: Some(gpu_index), vram_bytes: None, utilization_percent: None },
    };
    let updated = if current.gpu_index != Some(gpu_index) {
        ProcessGpuUsage { gpu_index: None, vram_bytes: current.vram_bytes, utilization_percent: None }
    } else {
        let before: u32 = match current.utilization_percent {
            Some(u) => u,
            None => 0,
        };
        let highest = if before >= utilization_percent {
            before
        } else {
            utilization_percent
        };
        ProcessGpuUsage {
            gpu_index: current.gpu_index,
            vram_bytes: current.vram_bytes,
            utilization_percent: Some(highest),
        }
    };
    processes.insert(p, updated);
}

/// Gives each process the GPU record of its PID, where the sample has one;
/// the others keep what they had.
pub fn attach_gpu_usage(processes: &mut Vec<EnrichedProcess>, usage: &HashMap<i32, ProcessGpuUsage>)
    ensures
        final(processes)@.len() == old(processes)@.len(),
        forall|i: int|
            #![trigger final(processes)@[i]]
            0 <= i < old(processes)@.len() ==> {
                let before = old(processes)@[i];
                let after = final(processes)@[i];
                &&& after.snapshot.gpu == (if usage@.contains_key(before.snapshot.pid) {
                    Some(usage@[before.snapshot.pid])
                } else {
                    before.snapshot.gpu
                })
                &&& after == (EnrichedProcess {
                    snapshot: crate::process::model::ProcessSnapshot { gpu: after.snapshot.gpu, ..before.snapshot },
                    ..before
                })
            },
{
    let mut i: usize = 0;
    while i < processes.len()
        invariant
            i <= processes.len(),
            processes@.len() == old(processes)@.len(),
            forall|j: int|
                #![trigger processes@[j]]
                i <= j < processes@.len() ==> processes@[j] == old(processes)@[j],
            forall|j: int|
                #![trigger processes@[j]]
                0 <= j < i ==> {
                    let before = old(processes)@[j];
                    let after = processes@[j];
                    &&& after.snapshot.gpu == (if usage@.contains_key(before.snapshot.pid) {
                        Some(usage@[before.snapshot.pid])
                    } else {
                        before.snapshot.gpu
                    })
                    &&& after == (EnrichedProcess {
                        snapshot: crate::process::model::ProcessSnapshot { gpu: after.snapshot.gpu, ..before.snapshot },
                        ..before
                    })
                },
        decreases processes.len() - i,
    {
        let pid = processes[i].snapshot.pid;
        match usage.get(&pid) {
            Some(u) => {
                processes[i].snapshot.gpu = Some(*u);
            },
            None => {},
        }
        i = i + 1;
    }
}

// ---------------------------------------------------------------------------
// Utilization samples
// ---------------------------------------------------------------------------

/// The newest of a process's samples among the first `n`, as (timestamp,
/// utilization): a later sample replaces an earlier one unless its
/// timestamp is older.
pub open spec fn newest_of(samples: Seq<(u32, u64, u32)>, pid: u32, n: nat) -> Option<(u64, u32)>
    decreases n,
{
    if n == 0 {
        None
    } else {
        let before = newest_of(samples, pid, (n - 1) as nat);
        let s = samples[n - 1];
        if s.0 != pid {
            before
        } else {
            match before {
                Some(b) => if s.1 >= b.0 {
                    Some((s.1, s.2))
                } else {
                    before
                },
                None => Some((s.1, s.2)),
            }
        }
    }
}

/// The PIDs of the first `n` samples, each once, in order of first
/// appearance.
pub open spec fn sampled_pids(samples: Seq<(u32, u64, u32)>, n: nat) -> Seq<u32>
    decreases n,
{
    if n == 0 {
        Seq::empty()
    } else {
        let before = sampled_pids(samples, (n - 1) as nat);
        if before.contains(samples[n - 1].0) {
            before
        } else {
            before.push(samples[n - 1].0)
        }
    }
}

/// The newest timestamp among the first `n` samples and `start`.
pub open spec fn newest_timestamp(samples: Seq<(u32, u64, u32)>, start: u64, n: nat) -> u64
    decreases n,
{
    if n == 0 {
        start
    } else {
        let before = newest_timestamp(samples, start, (n - 1) as nat);
        if samples[n - 1].1 > before {
            samples[n - 1].1
        } else {
            before
        }
    }
}

/// The table after the utilizations of the listed PIDs are recorded in
/// turn.
pub open spec fn utilization_steps(
    m: Map<i32, ProcessGpuUsage>,
    samples: Seq<(u32, u64, u32)>,
    pids: Seq<u32>,
    gpu_index: u32,
) -> Map<i32, ProcessGpuUsage>
    decreases pids.len(),
{
    if pids.len() == 0 {
        m
    } else {
        let before = utilization_steps(m, samples, pids.drop_last(), gpu_index);
        match newest_of(samples, pids.last(), samples.len()) {
            Some(best) => utilization_step(before, pids.last(), gpu_index, best.1),
            None => before,
        }
    }
}

/// Records a device's utilization samples, given as (PID, timestamp in
/// microseconds, SM utilization in percent): each process's newest sample
/// is recorded, but only when an earlier sample time `last_seen` is known
/// (the device's first answer covers an unknown span and is not trusted).
/// Returns the newest timestamp seen, `last_seen` (or 0) included.
pub fn absorb_utilization_samples(
    processes: &mut HashMap<i32, ProcessGpuUsage>,
    samples: &Vec<(u32, u64, u32)>,
    gpu_index: u32,
    last_seen: Option<u64>,
) -> (r: u64)
    ensures
        r == newest_timestamp(
            samples@,
            match last_seen {
                Some(t) => t,
                None => 0,
            },
            samples@.len() as nat,
        ),
        final(processes)@ == if last_seen is Some {
            utilization_steps(old(processes)@, samples@, sampled_pids(samples@, samples@.len() as nat), gpu_index)
        } else {
            old(processes)@
        },
{
    let start: u64 = match last_seen {
        Some(t) => t,
        None => 0,
    };
    let mut newest: u64 = start;
    let mut pids: Vec<u32> = Vec::new();
    let mut i: usize = 0;
    while i < samples.len()
        invariant
            i <= samples@.len(),
            newest == newest_timestamp(samples@, start, i as nat),
            pids@ == sampled_pids(samples@, i as nat),
        decreases samples.len() - i,
    {
        let s = samples[i];
        if s.1 > newest {
            newest = s.1;
        }
        let mut known = false;
        let mut j: usize = 0;
        while j < pids.len()
            invariant
                j <= pids@.len(),
                known == (exists|k: int| 0 <= k < j && pids@[k] == s.0),
            decreases pids.len() - j,
        {
            if pids[j] == s.0 {
                known = true;
            }
            j = j + 1;
        }
        proof {
            if known {
                let k = choose|k: int| 0 <= k < j && pids@[k] == s.0;
                assert(pids@.contains(s.0));
            } else {
                if pids@.contains(s.0) {
                    let k = choose|k: int| 0 <= k < pids@.len() && pids@[k] == s.0;
                    assert(pids@[k] == s.0);
                }
            }
        }
        if !known {
            pids.push(s.0);
        }
        i = i + 1;
    }
    if last_seen.is_some() {
        let ghost start_map = processes@;
        let mut k: usize = 0;
        while k < pids.len()
            invariant
                k <= pids@.len(),
                pids@ == sampled_pids(samples@, samples@.len() as nat),
                processes@ == utilization_steps(start_map, samples@, pids@.take(k as int), gpu_index),
            decreases pids.len() - k,
        {
            proof {
                assert(pids@.take(k + 1).drop_last() =~= pids@.take(k as int));
                assert(pids@.take(k + 1).last() == pids@[k as int]);
            }
            let pid = pids[k];
            match newest_sample(samples, pid) {
                Some(best) => {
                    merge_process_utilization(processes, pid, gpu_index, best.1);
                },
                None => {},
            }
            k = k + 1;
        }
        proof {
            assert(pids@.take(k as int) =~= pids@);
        }
    }
    newest
}

fn newest_sample(samples: &Vec<(u32, u64, u32)>, pid: u32) -> (r: Option<(u64, u32)>)
    ensures
        r == newest_of(samples@, pid, samples@.len() as nat),
{
    let mut best: Option<(u64, u32)> = None;
    let mut i: usize = 0;
    while i < samples.len()
        invariant
            i <= samples@.len(),
            best == newest_of(samples@, pid, i as nat),
        decreases samples.len() - i,
    {
        let s = samples[i];
        if s.0 == pid {
            best = match best {
                Some(b) => if s.1 >= b.0 {
                    Some((s.1, s.2))
                } else {
                    Some(b)
                },
                None => Some((s.1, s.2)),
            };
        }
        i = i + 1;
    }
    best
}

} // verus!
