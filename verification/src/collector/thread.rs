use vstd::prelude::*;

use crate::collector::process::{field_error, split_stat_line, stat_name, stat_pid_text, stat_tail};
use crate::collector::ParseError;
use crate::decimal::{
    dec, dec_i64, dec_int, dec_u64, parse_i32, parse_i32_spec, parse_i64, parse_i64_spec, parse_u32,
    parse_u32_spec, parse_u64, parse_u64_spec,
};
use crate::split::{lines, lines_of, split_once_char, split_once_char_exec, trim, trim_exec, views};
use crate::text::{chars_of, eq_str, first_at, has_char, last_at, push_all, string_of};

pub use crate::collector::history::ThreadCollector;

verus! {

/// A thread as the kernel tells it apart, within its process.
#[derive(Debug, Clone, Copy, PartialEq, Eq, Hash, Structural)]
pub struct ThreadIdentity {
    pub pid: i32,
    pub process_start_time_ticks: u64,
    pub tid: i32,
    pub start_time_ticks: u64,
}

/// The fields of `/proc/<pid>/task/<tid>/stat` that the inspector uses.
#[derive(Debug, Clone, PartialEq, Eq)]
pub struct RawThreadStat {
    pub tid: i32,
    pub name: String,
    pub state: char,
    pub utime_ticks: u64,
    pub stime_ticks: u64,
    pub start_time_ticks: u64,
    pub priority: i64,
    pub last_cpu: u32,
    pub policy: i32,
}

impl RawThreadStat {
    /// User plus system time, saturating.
    pub fn cpu_ticks(&self) -> (r: u64)
        ensures
            r == crate::collector::cpu::sat_add(self.utime_ticks, self.stime_ticks),
    {
        self.utime_ticks.saturating_add(self.stime_ticks)
    }
}

pub open spec fn thread_field_error(number: nat, value: Seq<char>) -> Seq<char> {
    "invalid thread stat field "@ + dec(number) + ": "@ + value
}

fn thread_field_error_exec(number: u64, value: &Vec<char>) -> (r: ParseError)
    ensures
        r.message@ == thread_field_error(number as nat, value@),
{
    let mut detail = dec_u64(number);
    let sep = chars_of(": ");
    push_all(&mut detail, &sep);
    push_all(&mut detail, value);
    ParseError::with_detail("invalid thread stat field ", &detail)
}

/// How a thread stat line is read; on success the tid, name, state, utime,
/// stime, start time, priority, last CPU and scheduling policy. Of the
/// fields after the command (at least 40), the state is the first, and
/// utime, stime, priority, start time, last CPU and policy are read at
/// positions 12, 13, 16, 20, 37 and 39, counting from zero.
pub open spec fn thread_stat_model(input: Seq<char>) -> Result<
    (i32, Seq<char>, char, u64, u64, u64, i64, u32, i32),
    Seq<char>,
> {
    if !has_char(input, '(') {
        Err("thread stat missing opening parenthesis"@)
    } else if !has_char(input, ')') {
        Err("thread stat missing closing parenthesis"@)
    } else if (choose|i: int| last_at(input, ')', i)) <= (choose|i: int| first_at(input, '(', i)) {
        Err("thread stat has invalid command field"@)
    } else {
        match parse_i32_spec(stat_pid_text(input)) {
            None => Err("invalid tid field in thread stat"@),
            Some(tid) => {
                let f = stat_tail(input);
                if f.len() < 40 {
                    Err("thread stat has too few fields after comm: "@ + dec(f.len()))
                } else {
                    match (
                        parse_u64_spec(f[12]),
                        parse_u64_spec(f[13]),
                        parse_i64_spec(f[16]),
                        parse_u64_spec(f[20]),
                        parse_u32_spec(f[37]),
                        parse_i32_spec(f[39]),
                    ) {
                        (None, _, _, _, _, _) => Err(thread_field_error(14, f[12])),
                        (_, None, _, _, _, _) => Err(thread_field_error(15, f[13])),
                        (_, _, None, _, _, _) => Err(thread_field_error(18, f[16])),
                        (_, _, _, None, _, _) => Err(thread_field_error(22, f[20])),
                        (_, _, _, _, None, _) => Err(thread_field_error(39, f[37])),
                        (_, _, _, _, _, None) => Err(thread_field_error(41, f[39])),
                        (
                            Some(utime),
                            Some(stime),
                            Some(priority),
                            Some(start),
                            Some(last_cpu),
                            Some(policy),
                        ) => Ok(
                            (
                                tid,
                                stat_name(input),
                                f[0][0],
                                utime,
                                stime,
                                start,
                                priority,
                                last_cpu,
                                policy,
                            ),
                        ),
                    }
                }
            },
        }
    }
}

pub open spec fn thread_stat_agrees(
    r: Result<RawThreadStat, ParseError>,
    m: Result<(i32, Seq<char>, char, u64, u64, u64, i64, u32, i32), Seq<char>>,
) -> bool {
    match (r, m) {
        (Ok(s), Ok(t)) => s.tid == t.0 && s.name@ == t.1 && s.state == t.2 && s.utime_ticks == t.3
            && s.stime_ticks == t.4 && s.start_time_ticks == t.5 && s.priority == t.6
            && s.last_cpu == t.7 && s.policy == t.8,
        (Err(e), Err(msg)) => e.message@ == msg,
        _ => false,
    }
}

/// Parses a thread's `stat` file.
pub fn parse_thread_stat(input: &str) -> (r: Result<RawThreadStat, ParseError>)
    ensures
        thread_stat_agrees(r, thread_stat_model(input@)),
{
    let text = chars_of(input);
    let (tid_text, name, f) = match split_stat_line(&text, "thread") {
        Ok(parts) => parts,
        Err(e) => {
            proof {
                reveal_strlit("thread");
                reveal_strlit(" stat missing opening parenthesis");
                reveal_strlit(" stat missing closing parenthesis");
                reveal_strlit(" stat has invalid command field");
                reveal_strlit("thread stat missing opening parenthesis");
                reveal_strlit("thread stat missing closing parenthesis");
                reveal_strlit("thread stat has invalid command field");
                assert("thread"@ + " stat missing opening parenthesis"@
                    =~= "thread stat missing opening parenthesis"@);
                assert("thread"@ + " stat missing closing parenthesis"@
                    =~= "thread stat missing closing parenthesis"@);
                assert("thread"@ + " stat has invalid command field"@
                    =~= "thread stat has invalid command field"@);
            }
            return Err(e);
        },
    };
    let tid = match parse_i32(&tid_text) {
        Some(p) => p,
        None => {
            return Err(ParseError::fixed("invalid tid field in thread stat"));
        },
    };
    if f.len() < 40 {
        let n = dec_u64(f.len() as u64);
        return Err(ParseError::with_detail("thread stat has too few fields after comm: ", &n));
    }
    proof {
        assert forall|k: int| 0 <= k < f@.len() implies f@[k]@ == stat_tail(input@)[k] by {}
        assert(f@[0]@.len() > 0) by {
            crate::split::lemma_ws_field_nonempty(
                crate::collector::process::stat_tail_source(input@),
                0,
            );
        }
    }
    let state = f[0][0];
    let utime = match parse_u64(&f[12]) {
        Some(v) => v,
        None => {
            return Err(thread_field_error_exec(14, &f[12]));
        },
    };
    let stime = match parse_u64(&f[13]) {
        Some(v) => v,
        None => {
            return Err(thread_field_error_exec(15, &f[13]));
        },
    };
    let priority = match parse_i64(&f[16]) {
        Some(v) => v,
        None => {
            return Err(thread_field_error_exec(18, &f[16]));
        },
    };
    let start = match parse_u64(&f[20]) {
        Some(v) => v,
        None => {
            return Err(thread_field_error_exec(22, &f[20]));
        },
    };
    let last_cpu = match parse_u32(&f[37]) {
        Some(v) => v,
        None => {
            return Err(thread_field_error_exec(39, &f[37]));
        },
    };
    let policy = match parse_i32(&f[39]) {
        Some(v) => v,
        None => {
            return Err(thread_field_error_exec(41, &f[39]));
        },
    };
    Ok(
        RawThreadStat {
            tid,
            name: string_of(&name),
            state,
            utime_ticks: utime,
            stime_ticks: stime,
            start_time_ticks: start,
            priority,
            last_cpu,
            policy,
        },
    )
}

/// The name of a Linux scheduling policy.
pub open spec fn scheduler_name_model(policy: i32) -> Seq<char> {
    if policy == 0 {
        "SCHED_OTHER"@
    } else if policy == 1 {
        "SCHED_FIFO"@
    } else if policy == 2 {
        "SCHED_RR"@
    } else if policy == 3 {
        "SCHED_BATCH"@
    } else if policy == 5 {
        "SCHED_IDLE"@
    } else if policy == 6 {
        "SCHED_DEADLINE"@
    } else {
        "UNKNOWN("@ + dec_int(policy as int) + ")"@
    }
}

pub fn scheduler_name(policy: i32) -> (r: String)
    ensures
        r@ == scheduler_name_model(policy),
{
    match policy {
        0 => crate::text::owned("SCHED_OTHER"),
        1 => crate::text::owned("SCHED_FIFO"),
        2 => crate::text::owned("SCHED_RR"),
        3 => crate::text::owned("SCHED_BATCH"),
        5 => crate::text::owned("SCHED_IDLE"),
        6 => crate::text::owned("SCHED_DEADLINE"),
        other => {
            let mut s = crate::text::owned("UNKNOWN(");
            let d = dec_i64(other as i64);
            crate::text::push_chars(&mut s, &d);
            let close = chars_of(")");
            crate::text::push_chars(&mut s, &close);
            s
        },
    }
}

/// The trimmed value of the first `key:` line of a status file.
pub open spec fn status_value_model(ls: Seq<Seq<char>>, key: Seq<char>) -> Option<Seq<char>>
    decreases ls.len(),
{
    if ls.len() == 0 {
        None
    } else {
        match split_once_char(ls[0], ':') {
            Some((k, v)) => if k == key {
                Some(trim(v))
            } else {
                status_value_model(ls.drop_first(), key)
            },
            None => status_value_model(ls.drop_first(), key),
        }
    }
}

pub fn status_value(input: &str, key: &str) -> (r: Option<String>)
    ensures
        match (r, status_value_model(lines(input@), key@)) {
            (Some(a), Some(b)) => a@ == b,
            (None, None) => true,
            _ => false,
        },
{
    let text = chars_of(input);
    let k = chars_of(key);
    let ls = lines_of(&text);
    let ghost model_lines = lines(input@);
    let mut i: usize = 0;
    proof {
        assert(model_lines.skip(0) == model_lines);
    }
    while i < ls.len()
        invariant
            i <= ls.len(),
            views(ls@) == model_lines,
            model_lines == lines(input@),
            k@ == key@,
            status_value_model(model_lines, key@) == status_value_model(
                model_lines.skip(i as int),
                key@,
            ),
        decreases ls.len() - i,
    {
        proof {
            assert(ls@[i as int]@ == model_lines.skip(i as int)[0]);
            assert(model_lines.skip(i as int).drop_first() == model_lines.skip(i + 1));
        }
        match split_once_char_exec(&ls[i], ':') {
            Some((found, value)) => {
                if crate::text::chars_eq(&found, &k) {
                    let t = trim_exec(&value);
                    return Some(string_of(&t));
                }
            },
            None => {},
        }
        i = i + 1;
    }
    None
}

pub fn status_u64(input: &str, key: &str) -> (r: Option<u64>)
    ensures
        r == match status_value_model(lines(input@), key@) {
            Some(v) => parse_u64_spec(v),
            None => None,
        },
{
    match status_value(input, key) {
        Some(v) => {
            let c = chars_of(v.as_str());
            parse_u64(&c)
        },
        None => None,
    }
}

} // verus!
