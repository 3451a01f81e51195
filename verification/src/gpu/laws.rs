//! What every sequence of device reports keeps.

use vstd::prelude::*;

use crate::gpu::merge::{memory_step, utilization_step};
use crate::process::model::ProcessGpuUsage;

verus! {

/// A device that reports the same process again, in another of its context
/// lists, changes nothing: its memory is not counted twice.
pub proof fn repeated_report_counts_memory_once(
    m: Map<i32, ProcessGpuUsage>,
    seen: Seq<(i32, u32)>,
    pid: u32,
    gpu_index: u32,
    first: Option<u64>,
    again: Option<u64>,
)
    ensures
        ({
            let once = memory_step(m, seen, pid, gpu_index, first);
            memory_step(once.0, once.1, pid, gpu_index, again) == once
        }),
{
    let once = memory_step(m, seen, pid, gpu_index, first);
    if pid <= i32::MAX && !seen.contains((pid as i32, gpu_index)) {
        assert(once.1[seen.len() as int] == (pid as i32, gpu_index));
    }
}

/// Memory reports never give a process a utilization it did not have.
pub proof fn memory_reports_invent_no_utilization(
    m: Map<i32, ProcessGpuUsage>,
    seen: Seq<(i32, u32)>,
    pid: u32,
    gpu_index: u32,
    used: Option<u64>,
)
    requires
        pid <= i32::MAX,
    ensures
        ({
            let after = memory_step(m, seen, pid, gpu_index, used).0;
            after.contains_key(pid as i32) ==> after[pid as i32].utilization_percent == (if m.contains_key(
                pid as i32,
            ) {
                m[pid as i32].utilization_percent
            } else {
                None
            })
        }),
{
}

/// A process that two devices report memory for, in a sample that had no
/// record of it, is tied to neither, and a utilization reported afterwards
/// by any device is not attached to it.
pub proof fn process_on_two_devices_gets_no_utilization(
    m: Map<i32, ProcessGpuUsage>,
    seen: Seq<(i32, u32)>,
    pid: u32,
    first_gpu: u32,
    second_gpu: u32,
    first_used: Option<u64>,
    second_used: Option<u64>,
    gpu_index: u32,
    percent: u32,
)
    requires
        pid <= i32::MAX,
        first_gpu != second_gpu,
        !m.contains_key(pid as i32),
        !seen.contains((pid as i32, first_gpu)),
        !seen.contains((pid as i32, second_gpu)),
    ensures
        ({
            let one = memory_step(m, seen, pid, first_gpu, first_used);
            let two = memory_step(one.0, one.1, pid, second_gpu, second_used);
            let after = utilization_step(two.0, pid, gpu_index, percent);
            &&& two.0[pid as i32].gpu_index is None
            &&& after[pid as i32].gpu_index is None
            &&& after[pid as i32].utilization_percent is None
        }),
{
    let one = memory_step(m, seen, pid, first_gpu, first_used);
    assert(one.1 == seen.push((pid as i32, first_gpu)));
    if one.1.contains((pid as i32, second_gpu)) {
        let k = choose|k: int| 0 <= k < one.1.len() && one.1[k] == (pid as i32, second_gpu);
        if k < seen.len() {
            assert(seen[k] == one.1[k]);
            assert(seen.contains((pid as i32, second_gpu)));
        }
    }
    assert(one.0[pid as i32].gpu_index == Some(first_gpu));
}

} // verus!
