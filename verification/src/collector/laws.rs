//! What readings of `/proc` always hold.

use vstd::prelude::*;

use crate::collector::cpu::{core_lines, system_cpu_ticks_model};
use crate::collector::memory::{meminfo_model, mem_facts, sat_mul};
use crate::split::lines;

verus! {

proof fn lemma_sat_mul_monotone(a: u64, b: u64, k: u64)
    requires
        a <= b,
    ensures
        sat_mul(a, k) <= sat_mul(b, k),
{
    assert(a * k <= b * k) by (nonlinear_arith)
        requires
            a <= b,
    ;
}

/// Memory reads as available never exceeds the total, and a reading without
/// a `MemTotal` line (that otherwise reads) is refused for that reason.
pub proof fn available_memory_never_exceeds_total(input: Seq<char>)
    ensures
        meminfo_model(input) matches Ok(m) ==> m.available_bytes <= m.total_bytes,
        (mem_facts(lines(input)) matches Ok(facts) && facts.0 is None) ==> meminfo_model(input) == Err::<
            crate::process::model::MemorySnapshot,
            Seq<char>,
        >("MemTotal missing from /proc/meminfo"@),
{
    if let Ok(facts) = mem_facts(lines(input)) {
        if let Some(total) = facts.0 {
            let available = match facts.1 {
                Some(a) => a,
                None => crate::collector::memory::sat_add(
                    crate::collector::memory::sat_add(
                        match facts.2 {
                            Some(f) => f,
                            None => 0u64,
                        },
                        facts.3,
                    ),
                    facts.4,
                ),
            };
            let capped = if available <= total {
                available
            } else {
                total
            };
            lemma_sat_mul_monotone(capped, total, 1024);
        }
    }
}

/// A machine reading counts at least one CPU: the number of per-CPU lines,
/// or one when there is none (for any number of lines a `usize` can count).
pub proof fn a_machine_has_at_least_one_cpu(input: Seq<char>)
    requires
        core_lines(lines(input).drop_first()) <= usize::MAX,
    ensures
        system_cpu_ticks_model(input) matches Ok(t) ==> t.cpu_count >= 1 && (core_lines(lines(input).drop_first()) > 0
            ==> t.cpu_count == core_lines(lines(input).drop_first())),
{
}

} // verus!
