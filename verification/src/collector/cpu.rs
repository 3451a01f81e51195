use vstd::prelude::*;

use crate::collector::{agrees, ParseError};
use crate::decimal::{all_digits, parse_u64, parse_u64_spec};
use crate::split::{lines, lines_of, views, ws_fields, ws_fields_of};
use crate::text::{chars_of, slice_range};

verus! {

/// Aggregate CPU time counters from `/proc/stat`.
#[derive(Debug, Clone, Copy, Default, PartialEq, Eq)]
pub struct SystemCpuTicks {
    pub total_ticks: u64,
    pub idle_ticks: u64,
    pub cpu_count: usize,
}

/// The values of the fields when every one of them reads as a `u64`, else the
/// first field that does not.
pub open spec fn parse_u64_fields(fs: Seq<Seq<char>>) -> Result<Seq<u64>, Seq<char>>
    decreases fs.len(),
{
    if fs.len() == 0 {
        Ok(Seq::<u64>::empty())
    } else {
        match parse_u64_fields(fs.drop_last()) {
            Err(bad) => Err(bad),
            Ok(vs) => match parse_u64_spec(fs.last()) {
                Some(v) => Ok(vs.push(v)),
                None => Err(fs.last()),
            },
        }
    }
}

/// The first field that does not read decides the outcome, whatever follows.
pub proof fn lemma_parse_fields_err_prefix(fs: Seq<Seq<char>>, k: int)
    requires
        0 <= k <= fs.len(),
        parse_u64_fields(fs.take(k)) is Err,
    ensures
        parse_u64_fields(fs) == parse_u64_fields(fs.take(k)),
    decreases fs.len() - k,
{
    if k < fs.len() {
        assert(fs.drop_last().take(k) == fs.take(k));
        lemma_parse_fields_err_prefix(fs.drop_last(), k);
    } else {
        assert(fs.take(k) == fs);
    }
}

pub open spec fn seq_sum(vs: Seq<u64>) -> nat
    decreases vs.len(),
{
    if vs.len() == 0 {
        0
    } else {
        seq_sum(vs.drop_last()) + vs.last() as nat
    }
}

/// `cpu` followed by at least one digit: a per-CPU line of `/proc/stat`.
pub open spec fn is_cpu_core_name(name: Seq<char>) -> bool {
    name.len() > 3 && name.take(3) == seq!['c', 'p', 'u'] && all_digits(name.skip(3))
}

pub open spec fn is_core_line(line: Seq<char>) -> bool {
    ws_fields(line).len() > 0 && is_cpu_core_name(ws_fields(line)[0])
}

pub open spec fn core_lines(ls: Seq<Seq<char>>) -> nat
    decreases ls.len(),
{
    if ls.len() == 0 {
        0
    } else {
        core_lines(ls.drop_last()) + if is_core_line(ls.last()) {
            1nat
        } else {
            0nat
        }
    }
}

pub open spec fn sat_add(a: u64, b: u64) -> u64 {
    if a + b > u64::MAX {
        u64::MAX
    } else {
        (a + b) as u64
    }
}

/// What `/proc/stat` says of the whole machine: the sum of the counters of the
/// aggregate `cpu` line (wrapping at 2^64), idle plus iowait, and the number of
/// per-CPU lines (at least one).
pub open spec fn system_cpu_ticks_model(input: Seq<char>) -> Result<SystemCpuTicks, Seq<char>> {
    let ls = lines(input);
    if ls.len() == 0 {
        Err("/proc/stat is empty"@)
    } else {
        let fs = ws_fields(ls[0]);
        if fs.len() == 0 || fs[0] != seq!['c', 'p', 'u'] {
            Err("/proc/stat first line is not aggregate cpu"@)
        } else {
            match parse_u64_fields(fs.drop_first()) {
                Err(bad) => Err("invalid cpu tick value: "@ + bad),
                Ok(vs) => if vs.len() < 4 {
                    Err("aggregate cpu line has too few fields"@)
                } else {
                    let cores = core_lines(ls.drop_first());
                    Ok(
                        SystemCpuTicks {
                            total_ticks: (seq_sum(vs) % 0x1_0000_0000_0000_0000) as u64,
                            idle_ticks: sat_add(
                                vs[3],
                                if vs.len() > 4 {
                                    vs[4]
                                } else {
                                    0
                                },
                            ),
                            cpu_count: if cores == 0 {
                                1
                            } else {
                                cores as usize
                            },
                        },
                    )
                },
            }
        }
    }
}

fn is_core_line_exec(line: &Vec<char>) -> (r: bool)
    ensures
        r == is_core_line(line@),
{
    let fs = ws_fields_of(line);
    if fs.len() == 0 {
        return false;
    }
    let name = &fs[0];
    proof {
        assert(name@ == ws_fields(line@)[0]);
    }
    if name.len() <= 3 || name[0] != 'c' || name[1] != 'p' || name[2] != 'u' {
        proof {
            if name@.len() > 3 {
                assert(name@.take(3)[0] == name@[0]);
                assert(name@.take(3)[1] == name@[1]);
                assert(name@.take(3)[2] == name@[2]);
            }
        }
        return false;
    }
    proof {
        assert(name@.take(3) =~= seq!['c', 'p', 'u']);
    }
    let mut i: usize = 3;
    while i < name.len()
        invariant
            3 <= i <= name.len(),
            ws_fields(line@).len() > 0,
            name@ == ws_fields(line@)[0],
            name@.take(3) == seq!['c', 'p', 'u'],
            forall|j: int| 3 <= j < i ==> crate::text::is_digit(name@[j]),
        decreases name.len() - i,
    {
        if !('0' <= name[i] && name[i] <= '9') {
            proof {
                assert(name@.skip(3)[i - 3] == name@[i as int]);
            }
            return false;
        }
        i = i + 1;
    }
    proof {
        assert forall|j: int| 0 <= j < name@.skip(3).len() implies crate::text::is_digit(
            #[trigger] name@.skip(3)[j],
        ) by {
            assert(name@.skip(3)[j] == name@[j + 3]);
        }
    }
    true
}

/// Parses `/proc/stat`.
pub fn parse_system_cpu_ticks(input: &str) -> (r: Result<SystemCpuTicks, ParseError>)
    ensures
        agrees(r, system_cpu_ticks_model(input@)),
{
    let text = chars_of(input);
    let ls = lines_of(&text);
    if ls.len() == 0 {
        return Err(ParseError::fixed("/proc/stat is empty"));
    }
    let fs = ws_fields_of(&ls[0]);
    proof {
        assert(ls@[0]@ == lines(input@)[0]);
    }
    if fs.len() == 0 || !crate::text::eq_str(&fs[0], "cpu") {
        proof {
            if fs@.len() > 0 {
                assert(fs@[0]@ == ws_fields(lines(input@)[0])[0]);
                reveal_strlit("cpu");
                assert("cpu"@ =~= seq!['c', 'p', 'u']);
            }
        }
        return Err(ParseError::fixed("/proc/stat first line is not aggregate cpu"));
    }
    proof {
        assert(fs@[0]@ == ws_fields(lines(input@)[0])[0]);
        reveal_strlit("cpu");
        assert("cpu"@ =~= seq!['c', 'p', 'u']);
    }
    let ghost fields = ws_fields(lines(input@)[0]).drop_first();
    let mut values: Vec<u64> = Vec::new();
    let mut k: usize = 1;
    while k < fs.len()
        invariant
            1 <= k <= fs.len(),
            lines(input@).len() > 0,
            ws_fields(lines(input@)[0]).len() > 0,
            ws_fields(lines(input@)[0])[0] == seq!['c', 'p', 'u'],
            views(fs@) == ws_fields(lines(input@)[0]),
            fields == ws_fields(lines(input@)[0]).drop_first(),
            parse_u64_fields(fields.take(k - 1)) == Ok::<Seq<u64>, Seq<char>>(values@),
        decreases fs.len() - k,
    {
        proof {
            assert(fields.take(k as int).drop_last() == fields.take(k - 1));
            assert(fields.take(k as int).last() == fs@[k as int]@);
        }
        match parse_u64(&fs[k]) {
            Some(v) => {
                values.push(v);
            },
            None => {
                proof {
                    lemma_parse_fields_err_prefix(fields, k as int);
                }
                return Err(ParseError::with_detail("invalid cpu tick value: ", &fs[k]));
            },
        }
        k = k + 1;
    }
    proof {
        assert(fields.take(k - 1) == fields);
    }
    if values.len() < 4 {
        return Err(ParseError::fixed("aggregate cpu line has too few fields"));
    }
    let mut total: u64 = 0;
    let mut j: usize = 0;
    while j < values.len()
        invariant
            j <= values.len(),
            total == seq_sum(values@.take(j as int)) % 0x1_0000_0000_0000_0000,
        decreases values.len() - j,
    {
        proof {
            assert(values@.take(j + 1).drop_last() == values@.take(j as int));
            assert((seq_sum(values@.take(j as int)) % 0x1_0000_0000_0000_0000 + values@[j as int])
                % 0x1_0000_0000_0000_0000 == (seq_sum(values@.take(j as int)) + values@[j as int])
                % 0x1_0000_0000_0000_0000) by (nonlinear_arith);
        }
        total = total.wrapping_add(values[j]);
        j = j + 1;
    }
    proof {
        assert(values@.take(values.len() as int) == values@);
    }
    let iowait: u64 = if values.len() > 4 {
        values[4]
    } else {
        0
    };
    let idle = values[3].saturating_add(iowait);
    let mut cores: usize = 0;
    let mut i: usize = 1;
    while i < ls.len()
        invariant
            1 <= i <= ls.len(),
            views(ls@) == lines(input@),
            cores == core_lines(lines(input@).drop_first().take(i - 1)),
            cores < i,
        decreases ls.len() - i,
    {
        proof {
            let rest = lines(input@).drop_first();
            assert(rest.take(i as int).drop_last() == rest.take(i - 1));
            assert(rest.take(i as int).last() == ls@[i as int]@);
        }
        if is_core_line_exec(&ls[i]) {
            cores = cores + 1;
        }
        i = i + 1;
    }
    proof {
        assert(lines(input@).drop_first().take(i - 1) == lines(input@).drop_first());
    }
    Ok(SystemCpuTicks { total_ticks: total, idle_ticks: idle, cpu_count: if cores == 0 { 1 } else { cores } })
}

/// The counter movements from which the whole-machine CPU load is computed:
/// busy and total ticks, when the total moved forward.
pub open spec fn global_cpu_deltas_model(previous: SystemCpuTicks, current: SystemCpuTicks) -> Option<(u64, u64)> {
    if current.total_ticks <= previous.total_ticks {
        None
    } else {
        let total = (current.total_ticks - previous.total_ticks) as u64;
        let idle = if current.idle_ticks >= previous.idle_ticks {
            (current.idle_ticks - previous.idle_ticks) as u64
        } else {
            0u64
        };
        let busy = if total >= idle {
            (total - idle) as u64
        } else {
            0u64
        };
        Some((busy, total))
    }
}

/// The busy and total tick movements between two samples; `None` when the
/// total did not move forward (the load is then unknown).
pub fn global_cpu_deltas(previous: SystemCpuTicks, current: SystemCpuTicks) -> (r: Option<(u64, u64)>)
    ensures
        r == global_cpu_deltas_model(previous, current),
{
    if current.total_ticks <= previous.total_ticks {
        return None;
    }
    let total = current.total_ticks - previous.total_ticks;
    let idle = current.idle_ticks.saturating_sub(previous.idle_ticks);
    let busy = total.saturating_sub(idle);
    Some((busy, total))
}

/// The tick movements from which a process's CPU share is computed: process
/// ticks, system ticks and the logical CPU capacity (at least one).
pub open spec fn cpu_deltas_model(
    previous_system_ticks: u64,
    current_system_ticks: u64,
    previous_process_ticks: u64,
    current_process_ticks: u64,
    cpu_count: usize,
) -> Option<(u64, u64, usize)> {
    if current_system_ticks <= previous_system_ticks || current_process_ticks
        < previous_process_ticks {
        None
    } else {
        Some(
            (
                (current_process_ticks - previous_process_ticks) as u64,
                (current_system_ticks - previous_system_ticks) as u64,
                if cpu_count == 0 {
                    1usize
                } else {
                    cpu_count
                },
            ),
        )
    }
}

/// The movements behind a process CPU percentage; `None` when the system
/// counter did not move forward or the process counter moved backwards.
pub fn cpu_deltas(
    previous_system_ticks: u64,
    current_system_ticks: u64,
    previous_process_ticks: u64,
    current_process_ticks: u64,
    cpu_count: usize,
) -> (r: Option<(u64, u64, usize)>)
    ensures
        r == cpu_deltas_model(
            previous_system_ticks,
            current_system_ticks,
            previous_process_ticks,
            current_process_ticks,
            cpu_count,
        ),
{
    if current_system_ticks <= previous_system_ticks {
        return None;
    }
    if current_process_ticks < previous_process_ticks {
        return None;
    }
    let capacity = if cpu_count == 0 {
        1
    } else {
        cpu_count
    };
    Some(
        (
            current_process_ticks - previous_process_ticks,
            current_system_ticks - previous_system_ticks,
            capacity,
        ),
    )
}

} // verus!
