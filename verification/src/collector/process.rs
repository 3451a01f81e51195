use vstd::prelude::*;

use std::time::Duration;

use crate::collector::{agrees, ParseError};
use crate::decimal::{
    dec, dec_u64, parse_i32, parse_i32_spec, parse_i64, parse_i64_spec, parse_u64, parse_u64_spec,
};
use crate::split::{
    lines, lines_of, split_once_char, split_once_char_exec, trim, trim_exec, views, ws_fields,
    ws_fields_of,
};
use crate::text::{chars_of, eq_str, first_at, has_char, last_at, push_all, slice_range, string_of};
use crate::time::{duration_nanos, nanos_of};

pub use crate::collector::history::ProcCollector;

verus! {

/// The fields of `/proc/<pid>/stat` that the inspector uses.
#[derive(Debug, Clone, PartialEq, Eq)]
pub struct RawProcessStat {
    pub pid: i32,
    pub name: String,
    pub state: char,
    pub ppid: i32,
    pub utime_ticks: u64,
    pub stime_ticks: u64,
    pub start_time_ticks: u64,
    pub vsize_bytes: u64,
    pub rss_pages: i64,
}

impl RawProcessStat {
    /// User plus system time, saturating.
    pub fn process_ticks(&self) -> (r: u64)
        ensures
            r == crate::collector::cpu::sat_add(self.utime_ticks, self.stime_ticks),
    {
        self.utime_ticks.saturating_add(self.stime_ticks)
    }
}

/// Block I/O counters of `/proc/<pid>/io`.
#[derive(Debug, Clone, Copy, PartialEq, Eq)]
pub struct RawProcessIo {
    pub read_bytes: u64,
    pub write_bytes: u64,
}

/// Disk I/O of one process: cumulative counters and, once two samples exist,
/// rates per second (unknown when a counter moved backwards).
#[derive(Debug, Clone, Copy, PartialEq, Eq)]
pub struct ProcessIoSnapshot {
    pub read_bytes: u64,
    pub write_bytes: u64,
    pub read_bytes_per_second: Option<u64>,
    pub write_bytes_per_second: Option<u64>,
}

/// A numbered stat field read as the wanted integer, or the error naming it.
pub open spec fn field_error(number: nat, value: Seq<char>) -> Seq<char> {
    "invalid process stat field "@ + dec(number) + ": "@ + value
}

pub fn field_error_exec(number: u64, value: &Vec<char>) -> (r: ParseError)
    ensures
        r.message@ == field_error(number as nat, value@),
{
    let mut detail = dec_u64(number);
    let sep = chars_of(": ");
    push_all(&mut detail, &sep);
    push_all(&mut detail, value);
    ParseError::with_detail("invalid process stat field ", &detail)
}

/// The fields after the command name, which ends at the last `)`.
pub open spec fn stat_tail(input: Seq<char>) -> Seq<Seq<char>> {
    let close = choose|i: int| last_at(input, ')', i);
    ws_fields(input.skip(close + 1))
}

/// The command name: between the first `(` and the last `)`.
pub open spec fn stat_name(input: Seq<char>) -> Seq<char> {
    let open = choose|i: int| first_at(input, '(', i);
    let close = choose|i: int| last_at(input, ')', i);
    input.subrange(open + 1, close)
}

pub open spec fn stat_pid_text(input: Seq<char>) -> Seq<char> {
    let open = choose|i: int| first_at(input, '(', i);
    trim(input.take(open))
}

/// How `/proc/<pid>/stat` is read; on success, the pid, name, state, ppid,
/// utime, stime, start time, vsize and rss in that order.
pub open spec fn process_stat_model(input: Seq<char>) -> Result<
    (i32, Seq<char>, char, i32, u64, u64, u64, u64, i64),
    Seq<char>,
> {
    if !has_char(input, '(') {
        Err("process stat missing opening parenthesis"@)
    } else if !has_char(input, ')') {
        Err("process stat missing closing parenthesis"@)
    } else if (choose|i: int| last_at(input, ')', i)) <= (choose|i: int| first_at(input, '(', i)) {
        Err("process stat has invalid command field"@)
    } else {
        match parse_i32_spec(stat_pid_text(input)) {
            None => Err("invalid pid field in process stat"@),
            Some(pid) => {
                let f = stat_tail(input);
                if f.len() < 22 {
                    Err("process stat has too few fields after comm: "@ + dec(f.len()))
                } else {
                    match (
                        parse_i32_spec(f[1]),
                        parse_u64_spec(f[11]),
                        parse_u64_spec(f[12]),
                        parse_u64_spec(f[19]),
                        parse_u64_spec(f[20]),
                        parse_i64_spec(f[21]),
                    ) {
                        (None, _, _, _, _, _) => Err(field_error(4, f[1])),
                        (_, None, _, _, _, _) => Err(field_error(14, f[11])),
                        (_, _, None, _, _, _) => Err(field_error(15, f[12])),
                        (_, _, _, None, _, _) => Err(field_error(22, f[19])),
                        (_, _, _, _, None, _) => Err(field_error(23, f[20])),
                        (_, _, _, _, _, None) => Err(field_error(24, f[21])),
                        (
                            Some(ppid),
                            Some(utime),
                            Some(stime),
                            Some(start),
                            Some(vsize),
                            Some(rss),
                        ) => Ok((pid, stat_name(input), f[0][0], ppid, utime, stime, start, vsize, rss)),
                    }
                }
            },
        }
    }
}

pub open spec fn stat_agrees(
    r: Result<RawProcessStat, ParseError>,
    m: Result<(i32, Seq<char>, char, i32, u64, u64, u64, u64, i64), Seq<char>>,
) -> bool {
    match (r, m) {
        (Ok(s), Ok(t)) => s.pid == t.0 && s.name@ == t.1 && s.state == t.2 && s.ppid == t.3
            && s.utime_ticks == t.4 && s.stime_ticks == t.5 && s.start_time_ticks == t.6
            && s.vsize_bytes == t.7 && s.rss_pages == t.8,
        (Err(e), Err(msg)) => e.message@ == msg,
        _ => false,
    }
}

/// The text before the command name, the name and the fields after it, with
/// the positions of the parentheses, as every stat-like file shares them.
pub fn split_stat_line(input: &Vec<char>, what: &str) -> (r: Result<
    (Vec<char>, Vec<char>, Vec<Vec<char>>),
    ParseError,
>)
    ensures
        match r {
            Ok((pid_text, name, fields)) => {
                &&& has_char(input@, '(')
                &&& has_char(input@, ')')
                &&& (choose|i: int| last_at(input@, ')', i)) > (choose|i: int|
                    first_at(input@, '(', i))
                &&& pid_text@ == stat_pid_text(input@)
                &&& name@ == stat_name(input@)
                &&& views(fields@) == stat_tail(input@)
            },
            Err(e) => {
                ||| !has_char(input@, '(') && e.message@ == what@ + " stat missing opening parenthesis"@
                ||| has_char(input@, '(') && !has_char(input@, ')') && e.message@ == what@
                    + " stat missing closing parenthesis"@
                ||| has_char(input@, '(') && has_char(input@, ')') && (choose|i: int|
                    last_at(input@, ')', i)) <= (choose|i: int| first_at(input@, '(', i))
                    && e.message@ == what@ + " stat has invalid command field"@
            },
        },
{
    let what_chars = chars_of(what);
    let open = match crate::text::find_char(input, '(') {
        Some(i) => i,
        None => {
            let tail = chars_of(" stat missing opening parenthesis");
            return Err(ParseError::new({
                let mut m = string_of(&what_chars);
                crate::text::push_chars(&mut m, &tail);
                m
            }));
        },
    };
    let close = match crate::text::rfind_char(input, ')') {
        Some(i) => i,
        None => {
            let tail = chars_of(" stat missing closing parenthesis");
            return Err(ParseError::new({
                let mut m = string_of(&what_chars);
                crate::text::push_chars(&mut m, &tail);
                m
            }));
        },
    };
    proof {
        let o = choose|i: int| first_at(input@, '(', i);
        let c = choose|i: int| last_at(input@, ')', i);
        assert(first_at(input@, '(', o));
        assert(last_at(input@, ')', c));
        if o < open {
        } else if open < o {
        }
        if c < close {
        } else if close < c {
        }
        assert(o == open && c == close);
    }
    if close <= open {
        let tail = chars_of(" stat has invalid command field");
        return Err(ParseError::new({
            let mut m = string_of(&what_chars);
            crate::text::push_chars(&mut m, &tail);
            m
        }));
    }
    let before = slice_range(input, 0, open);
    let pid_text = trim_exec(&before);
    let name = slice_range(input, open + 1, close);
    let after = slice_range(input, close + 1, input.len());
    proof {
        assert(after@ == input@.skip(close + 1));
    }
    let fields = ws_fields_of(&after);
    Ok((pid_text, name, fields))
}

/// The first character of a field.
fn first_char(v: &Vec<char>) -> (c: char)
    requires
        v.len() > 0,
    ensures
        c == v@[0],
{
    v[0]
}

/// Parses `/proc/<pid>/stat`, whose command name may hold spaces and parentheses.
pub fn parse_process_stat(input: &str) -> (r: Result<RawProcessStat, ParseError>)
    ensures
        stat_agrees(r, process_stat_model(input@)),
{
    let text = chars_of(input);
    let (pid_text, name, f) = match split_stat_line(&text, "process") {
        Ok(parts) => parts,
        Err(e) => {
            proof {
                reveal_strlit("process");
                reveal_strlit(" stat missing opening parenthesis");
                reveal_strlit(" stat missing closing parenthesis");
                reveal_strlit(" stat has invalid command field");
                reveal_strlit("process stat missing opening parenthesis");
                reveal_strlit("process stat missing closing parenthesis");
                reveal_strlit("process stat has invalid command field");
                assert("process"@ + " stat missing opening parenthesis"@
                    =~= "process stat missing opening parenthesis"@);
                assert("process"@ + " stat missing closing parenthesis"@
                    =~= "process stat missing closing parenthesis"@);
                assert("process"@ + " stat has invalid command field"@
                    =~= "process stat has invalid command field"@);
            }
            return Err(e);
        },
    };
    let pid = match parse_i32(&pid_text) {
        Some(p) => p,
        None => {
            return Err(ParseError::fixed("invalid pid field in process stat"));
        },
    };
    if f.len() < 22 {
        let n = dec_u64(f.len() as u64);
        return Err(ParseError::with_detail("process stat has too few fields after comm: ", &n));
    }
    proof {
        assert forall|k: int| 0 <= k < f@.len() implies f@[k]@ == stat_tail(input@)[k] by {}
        assert(f@[0]@.len() > 0) by {
            crate::split::lemma_ws_field_nonempty(stat_tail_source(input@), 0);
        }
    }
    let state = first_char(&f[0]);
    let ppid = match parse_i32(&f[1]) {
        Some(v) => v,
        None => {
            return Err(field_error_exec(4, &f[1]));
        },
    };
    let utime = match parse_u64(&f[11]) {
        Some(v) => v,
        None => {
            return Err(field_error_exec(14, &f[11]));
        },
    };
    let stime = match parse_u64(&f[12]) {
        Some(v) => v,
        None => {
            return Err(field_error_exec(15, &f[12]));
        },
    };
    let start = match parse_u64(&f[19]) {
        Some(v) => v,
        None => {
            return Err(field_error_exec(22, &f[19]));
        },
    };
    let vsize = match parse_u64(&f[20]) {
        Some(v) => v,
        None => {
            return Err(field_error_exec(23, &f[20]));
        },
    };
    let rss = match parse_i64(&f[21]) {
        Some(v) => v,
        None => {
            return Err(field_error_exec(24, &f[21]));
        },
    };
    Ok(
        RawProcessStat {
            pid,
            name: string_of(&name),
            state,
            ppid,
            utime_ticks: utime,
            stime_ticks: stime,
            start_time_ticks: start,
            vsize_bytes: vsize,
            rss_pages: rss,
        },
    )
}

pub open spec fn stat_tail_source(input: Seq<char>) -> Seq<char> {
    let close = choose|i: int| last_at(input, ')', i);
    input.skip(close + 1)
}

} // verus!

verus! {

/// What has been read of `/proc/<pid>/io`: the read and write byte counters.
pub open spec fn io_facts(ls: Seq<Seq<char>>) -> Result<(Option<u64>, Option<u64>), Seq<char>>
    decreases ls.len(),
{
    if ls.len() == 0 {
        Ok((None, None))
    } else {
        match io_facts(ls.drop_last()) {
            Err(e) => Err(e),
            Ok(facts) => match split_once_char(ls.last(), ':') {
                None => Ok(facts),
                Some((key, value)) => match parse_u64_spec(trim(value)) {
                    None => Err("invalid process io field "@ + key),
                    Some(v) => if trim(key) == "read_bytes"@ {
                        Ok((Some(v), facts.1))
                    } else if trim(key) == "write_bytes"@ {
                        Ok((facts.0, Some(v)))
                    } else {
                        Ok(facts)
                    },
                },
            },
        }
    }
}

pub proof fn lemma_io_facts_err_prefix(ls: Seq<Seq<char>>, k: int)
    requires
        0 <= k <= ls.len(),
        io_facts(ls.take(k)) is Err,
    ensures
        io_facts(ls) == io_facts(ls.take(k)),
    decreases ls.len() - k,
{
    if k < ls.len() {
        assert(ls.drop_last().take(k) == ls.take(k));
        lemma_io_facts_err_prefix(ls.drop_last(), k);
    } else {
        assert(ls.take(k) == ls);
    }
}

/// `/proc/<pid>/io`: every `key: value` line must hold a number; `read_bytes`
/// and `write_bytes` are required.
pub open spec fn process_io_model(input: Seq<char>) -> Result<RawProcessIo, Seq<char>> {
    match io_facts(lines(input)) {
        Err(e) => Err(e),
        Ok((None, _)) => Err("process io missing read_bytes"@),
        Ok((Some(_), None)) => Err("process io missing write_bytes"@),
        Ok((Some(r), Some(w))) => Ok(RawProcessIo { read_bytes: r, write_bytes: w }),
    }
}

/// Parses `/proc/<pid>/io`.
pub fn parse_process_io(input: &str) -> (r: Result<RawProcessIo, ParseError>)
    ensures
        agrees(r, process_io_model(input@)),
{
    let text = chars_of(input);
    let ls = lines_of(&text);
    let ghost model_lines = lines(input@);
    let mut read: Option<u64> = None;
    let mut write: Option<u64> = None;
    let mut i: usize = 0;
    while i < ls.len()
        invariant
            i <= ls.len(),
            views(ls@) == model_lines,
            model_lines == lines(input@),
            io_facts(model_lines.take(i as int)) == Ok::<(Option<u64>, Option<u64>), Seq<char>>(
                (read, write),
            ),
        decreases ls.len() - i,
    {
        proof {
            assert(model_lines.take(i + 1).drop_last() == model_lines.take(i as int));
            assert(model_lines.take(i + 1).last() == ls@[i as int]@);
        }
        match split_once_char_exec(&ls[i], ':') {
            None => {},
            Some((key, value)) => {
                let trimmed = trim_exec(&value);
                match parse_u64(&trimmed) {
                    None => {
                        let e = ParseError::with_detail("invalid process io field ", &key);
                        proof {
                            assert(io_facts(model_lines.take(i + 1)) == Err::<
                                (Option<u64>, Option<u64>),
                                Seq<char>,
                            >(e.message@));
                            lemma_io_facts_err_prefix(model_lines, i + 1);
                        }
                        return Err(e);
                    },
                    Some(v) => {
                        let k = trim_exec(&key);
                        if eq_str(&k, "read_bytes") {
                            read = Some(v);
                        } else if eq_str(&k, "write_bytes") {
                            write = Some(v);
                        }
                    },
                }
            },
        }
        i = i + 1;
    }
    proof {
        assert(model_lines.take(i as int) == model_lines);
    }
    match (read, write) {
        (None, _) => Err(ParseError::fixed("process io missing read_bytes")),
        (Some(_), None) => Err(ParseError::fixed("process io missing write_bytes")),
        (Some(r), Some(w)) => Ok(RawProcessIo { read_bytes: r, write_bytes: w }),
    }
}

/// The rate of a cumulative counter over an elapsed time, rounded to the
/// nearest byte per second (halves away from zero) and capped at `u64::MAX`;
/// unknown when the counter moved backwards or no time passed.
pub open spec fn io_rate_model(previous: u64, current: u64, elapsed_nanos: nat) -> Option<u64> {
    if current < previous || elapsed_nanos == 0 {
        None
    } else {
        let q: int = ((current - previous) * 2_000_000_000 + elapsed_nanos) / (2 * elapsed_nanos as int);
        Some(
            if q > u64::MAX {
                u64::MAX
            } else {
                q as u64
            },
        )
    }
}

pub fn io_rate_bytes_per_second(previous: u64, current: u64, elapsed: Duration) -> (r: Option<u64>)
    ensures
        r == io_rate_model(previous, current, duration_nanos(elapsed)),
{
    let nanos = nanos_of(elapsed);
    if current < previous || nanos == 0 {
        return None;
    }
    let delta: u128 = (current - previous) as u128;
    if nanos > 0x1_0000_0000_0000_0000_0000_0000 {
        // The rate rounds to zero well before this point.
        proof {
            assert(delta * 2_000_000_000 + nanos < 2 * nanos) by (nonlinear_arith)
                requires
                    delta <= u64::MAX,
                    nanos > 0x1_0000_0000_0000_0000_0000_0000,
            ;
            assert((delta * 2_000_000_000 + nanos) / (2 * nanos) == 0) by (nonlinear_arith)
                requires
                    delta * 2_000_000_000 + nanos < 2 * nanos,
                    nanos > 0,
            ;
        }
        return Some(0);
    }
    proof {
        assert(delta * 2_000_000_000 <= u64::MAX * 2_000_000_000) by (nonlinear_arith)
            requires
                delta <= u64::MAX,
        ;
    }
    let q = (delta * 2_000_000_000 + nanos) / (2 * nanos);
    if q > u64::MAX as u128 {
        Some(u64::MAX)
    } else {
        Some(q as u64)
    }
}

} // verus!

verus! {

/// The maximal runs of non-zero bytes (what is left of a NUL-separated list
/// after dropping empty entries).
pub open spec fn nul_runs(b: Seq<u8>) -> Seq<Seq<u8>>
    decreases b.len(),
{
    if b.len() == 0 {
        Seq::<Seq<u8>>::empty()
    } else {
        let p = nul_runs(b.drop_last());
        let c = b.last();
        if c == 0 {
            p
        } else if b.len() >= 2 && b[b.len() - 2] != 0 && p.len() > 0 {
            p.update(p.len() - 1, p.last().push(c))
        } else {
            p.push(seq![c])
        }
    }
}

pub open spec fn byte_views(v: Seq<Vec<u8>>) -> Seq<Seq<u8>> {
    v.map_values(|x: Vec<u8>| x@)
}

pub open spec fn string_views(v: Seq<String>) -> Seq<Seq<char>> {
    v.map_values(|x: String| x@)
}

fn nul_runs_of(b: &[u8]) -> (r: Vec<Vec<u8>>)
    ensures
        byte_views(r@) == nul_runs(b@),
{
    let mut done: Vec<Vec<u8>> = Vec::new();
    let mut cur: Vec<u8> = Vec::new();
    let mut i: usize = 0;
    while i < b.len()
        invariant
            i <= b.len(),
            cur@.len() == 0 ==> byte_views(done@) == nul_runs(b@.take(i as int)),
            cur@.len() == 0 ==> i == 0 || b@[i - 1] == 0,
            cur@.len() > 0 ==> i > 0 && b@[i - 1] != 0 && byte_views(done@).push(cur@) == nul_runs(
                b@.take(i as int),
            ),
        decreases b.len() - i,
    {
        let c = b[i];
        proof {
            assert(b@.take(i + 1).drop_last() == b@.take(i as int));
            assert(b@.take(i + 1).last() == c);
            if i >= 1 {
                assert(b@.take(i + 1)[i - 1] == b@[i - 1]);
            }
        }
        if c == 0 {
            if cur.len() > 0 {
                let old_cur = cur;
                proof {
                    assert(byte_views(done@.push(old_cur)) =~= byte_views(done@).push(old_cur@));
                }
                done.push(old_cur);
                cur = Vec::new();
            }
        } else {
            proof {
                let p = nul_runs(b@.take(i as int));
                if cur@.len() > 0 {
                    assert(nul_runs(b@.take(i + 1)) == p.update(p.len() - 1, p.last().push(c)));
                    assert(byte_views(done@).push(cur@.push(c)) =~= p.update(
                        p.len() - 1,
                        p.last().push(c),
                    ));
                } else {
                    assert(nul_runs(b@.take(i + 1)) == p.push(seq![c]));
                    assert(cur@.push(c) =~= seq![c]);
                    assert(byte_views(done@).push(cur@.push(c)) =~= p.push(seq![c]));
                }
            }
            cur.push(c);
        }
        i = i + 1;
    }
    proof {
        assert(b@.take(b.len() as int) == b@);
    }
    if cur.len() > 0 {
        proof {
            assert(byte_views(done@.push(cur)) =~= byte_views(done@).push(cur@));
        }
        done.push(cur);
    }
    done
}

/// The non-empty entries of a NUL-separated list (`cmdline`, `environ`).
pub open spec fn nul_separated_model(b: Seq<u8>) -> Seq<Seq<char>> {
    nul_runs(b).map_values(|r: Seq<u8>| crate::text::lossy_text(r))
}

pub fn parse_null_separated(bytes: &[u8]) -> (r: Vec<String>)
    ensures
        string_views(r@) == nul_separated_model(bytes@),
{
    let runs = nul_runs_of(bytes);
    let mut r: Vec<String> = Vec::new();
    let mut i: usize = 0;
    while i < runs.len()
        invariant
            i <= runs.len(),
            byte_views(runs@) == nul_runs(bytes@),
            string_views(r@) == nul_runs(bytes@).take(i as int).map_values(
                |x: Seq<u8>| crate::text::lossy_text(x),
            ),
        decreases runs.len() - i,
    {
        let sl = runs[i].as_slice();
        let s = crate::text::text_from_bytes_lossy(sl);
        proof {
            assert(runs@[i as int]@ == nul_runs(bytes@)[i as int]);
            assert(sl@ == runs@[i as int]@);
            assert(s@ == crate::text::lossy_text(nul_runs(bytes@)[i as int]));
            assert(string_views(r@.push(s)) =~= string_views(r@).push(s@));
        }
        r.push(s);
        proof {
            assert(string_views(r@) =~= nul_runs(bytes@).take(i + 1).map_values(
                |x: Seq<u8>| crate::text::lossy_text(x),
            ));
        }
        i = i + 1;
    }
    proof {
        assert(nul_runs(bytes@).take(runs.len() as int) == nul_runs(bytes@));
    }
    r
}

/// The path of a `/proc/<pid>/cgroup` line: what follows its second `:`.
pub open spec fn cgroup_line_path(l: Seq<char>) -> Option<Seq<char>> {
    match split_once_char(l, ':') {
        None => None,
        Some((_, rest)) => match split_once_char(rest, ':') {
            None => None,
            Some((_, path)) => Some(path),
        },
    }
}

/// The non-empty cgroup paths, in line order.
pub open spec fn cgroup_paths_model(ls: Seq<Seq<char>>) -> Seq<Seq<char>>
    decreases ls.len(),
{
    if ls.len() == 0 {
        Seq::<Seq<char>>::empty()
    } else {
        let p = cgroup_paths_model(ls.drop_last());
        match cgroup_line_path(ls.last()) {
            Some(path) => if path.len() > 0 {
                p.push(path)
            } else {
                p
            },
            None => p,
        }
    }
}

pub fn parse_cgroup_paths(input: &str) -> (r: Vec<String>)
    ensures
        string_views(r@) == cgroup_paths_model(lines(input@)),
{
    let text = chars_of(input);
    let ls = lines_of(&text);
    let ghost model_lines = lines(input@);
    let mut r: Vec<String> = Vec::new();
    let mut i: usize = 0;
    while i < ls.len()
        invariant
            i <= ls.len(),
            views(ls@) == model_lines,
            string_views(r@) == cgroup_paths_model(model_lines.take(i as int)),
        decreases ls.len() - i,
    {
        proof {
            assert(model_lines.take(i + 1).drop_last() == model_lines.take(i as int));
            assert(model_lines.take(i + 1).last() == ls@[i as int]@);
        }
        match split_once_char_exec(&ls[i], ':') {
            None => {},
            Some((_, rest)) => {
                match split_once_char_exec(&rest, ':') {
                    None => {},
                    Some((_, path)) => {
                        if path.len() > 0 {
                            let s = string_of(&path);
                            proof {
                                assert(string_views(r@.push(s)) =~= string_views(r@).push(s@));
                            }
                            r.push(s);
                        }
                    },
                }
            },
        }
        i = i + 1;
    }
    proof {
        assert(model_lines.take(i as int) == model_lines);
    }
    r
}

pub open spec fn is_ros2_arg(part: Seq<char>) -> bool {
    part == "--ros-args"@ || crate::path::file_name(part) == Some("ros2"@)
}

/// Whether a process is worth reading the environment of: a name containing
/// `ros`, a `--ros-args` argument or a `ros2` program among the arguments, or
/// an executable under an `install` directory.
pub open spec fn should_read_environment_model(
    name: Seq<char>,
    executable: Option<Seq<char>>,
    command: Seq<Seq<char>>,
) -> bool {
    ||| crate::text::contains(name, "ros"@)
    ||| exists|i: int| 0 <= i < command.len() && is_ros2_arg(#[trigger] command[i])
    ||| match executable {
        Some(e) => crate::path::components(e).contains("install"@),
        None => false,
    }
}

fn is_ros2_arg_exec(part: &Vec<char>) -> (r: bool)
    ensures
        r == is_ros2_arg(part@),
{
    if eq_str(part, "--ros-args") {
        return true;
    }
    match crate::path::file_name_of(part) {
        Some(n) => eq_str(&n, "ros2"),
        None => false,
    }
}

fn has_component(p: &Vec<char>, name: &str) -> (r: bool)
    ensures
        r == crate::path::components(p@).contains(name@),
{
    let cs = crate::path::components_of(p);
    let mut i: usize = 0;
    while i < cs.len()
        invariant
            i <= cs.len(),
            views(cs@) == crate::path::components(p@),
            forall|j: int| 0 <= j < i ==> crate::path::components(p@)[j] != name@,
        decreases cs.len() - i,
    {
        proof {
            assert(cs@[i as int]@ == crate::path::components(p@)[i as int]);
        }
        if eq_str(&cs[i], name) {
            return true;
        }
        i = i + 1;
    }
    false
}

pub fn should_read_environment(name: &str, executable: Option<&str>, command: &Vec<String>) -> (r: bool)
    ensures
        r == should_read_environment_model(
            name@,
            match executable {
                Some(e) => Some(e@),
                None => None,
            },
            string_views(command@),
        ),
{
    let n = chars_of(name);
    if crate::text::contains_str(&n, "ros") {
        return true;
    }
    let mut i: usize = 0;
    while i < command.len()
        invariant
            i <= command.len(),
            forall|j: int| 0 <= j < i ==> !is_ros2_arg(#[trigger] string_views(command@)[j]),
        decreases command.len() - i,
    {
        let part = chars_of(command[i].as_str());
        if is_ros2_arg_exec(&part) {
            proof {
                assert(string_views(command@)[i as int] == part@);
            }
            return true;
        }
        i = i + 1;
    }
    match executable {
        Some(e) => {
            let ev = chars_of(e);
            has_component(&ev, "install")
        },
        None => false,
    }
}

/// The variables kept from a process environment.
pub open spec fn is_kept_variable(key: Seq<char>) -> bool {
    ||| key == "ROS_VERSION"@
    ||| key == "ROS_DISTRO"@
    ||| key == "ROS_DOMAIN_ID"@
    ||| key == "AMENT_PREFIX_PATH"@
    ||| key == "COLCON_PREFIX_PATH"@
}

/// The kept `KEY=value` entries, a later one for a key replacing an earlier one.
pub open spec fn selected_environment_model(entries: Seq<Seq<char>>) -> Map<Seq<char>, Seq<char>>
    decreases entries.len(),
{
    if entries.len() == 0 {
        Map::empty()
    } else {
        let m = selected_environment_model(entries.drop_last());
        match split_once_char(entries.last(), '=') {
            Some((key, value)) => if is_kept_variable(key) {
                m.insert(key, value)
            } else {
                m
            },
            None => m,
        }
    }
}

fn is_kept_variable_exec(key: &Vec<char>) -> (r: bool)
    ensures
        r == is_kept_variable(key@),
{
    eq_str(key, "ROS_VERSION") || eq_str(key, "ROS_DISTRO") || eq_str(key, "ROS_DOMAIN_ID")
        || eq_str(key, "AMENT_PREFIX_PATH") || eq_str(key, "COLCON_PREFIX_PATH")
}

/// Reads the kept variables out of `/proc/<pid>/environ`.
pub fn parse_selected_environment(bytes: &[u8]) -> (r: crate::process::model::LimitedEnvironment)
    ensures
        r@ == selected_environment_model(nul_separated_model(bytes@)),
{
    let entries = parse_null_separated(bytes);
    let mut env = crate::process::model::LimitedEnvironment::new();
    let mut i: usize = 0;
    while i < entries.len()
        invariant
            i <= entries.len(),
            string_views(entries@) == nul_separated_model(bytes@),
            env@ == selected_environment_model(nul_separated_model(bytes@).take(i as int)),
        decreases entries.len() - i,
    {
        let entry = chars_of(entries[i].as_str());
        proof {
            let es = nul_separated_model(bytes@);
            assert(es.take(i + 1).drop_last() == es.take(i as int));
            assert(es.take(i + 1).last() == entry@);
        }
        match split_once_char_exec(&entry, '=') {
            Some((key, value)) => {
                if is_kept_variable_exec(&key) {
                    env.insert(string_of(&key), string_of(&value));
                }
            },
            None => {},
        }
        i = i + 1;
    }
    proof {
        assert(nul_separated_model(bytes@).take(i as int) == nul_separated_model(bytes@));
    }
    env
}

} // verus!
