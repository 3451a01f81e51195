use vstd::prelude::*;

use crate::collector::{agrees, ParseError};
use crate::decimal::{parse_u64, parse_u64_spec};
use crate::process::MemorySnapshot;
use crate::split::{
    lines, lines_of, split_once_char, split_once_char_exec, views, ws_fields, ws_fields_of,
};
use crate::text::{chars_of, eq_str, starts_with, starts_with_str, slice_range};

verus! {

pub open spec fn sat_mul(a: u64, b: u64) -> u64 {
    if a * b > u64::MAX {
        u64::MAX
    } else {
        (a * b) as u64
    }
}

pub fn saturating_mul(a: u64, b: u64) -> (r: u64)
    ensures
        r == sat_mul(a, b),
{
    match a.checked_mul(b) {
        Some(v) => v,
        None => u64::MAX,
    }
}

/// A `/proc` memory amount: a number, optionally followed by `kB`.
pub open spec fn kib_value_model(input: Seq<char>) -> Result<u64, Seq<char>> {
    let fs = ws_fields(input);
    if fs.len() == 0 {
        Err("memory value is missing"@)
    } else {
        match parse_u64_spec(fs[0]) {
            None => Err("invalid memory value: "@ + input),
            Some(v) => if fs.len() >= 2 && fs[1] != "kB"@ {
                Err("unsupported memory unit: "@ + fs[1])
            } else {
                Ok(v)
            },
        }
    }
}

pub fn parse_kib_value(input: &Vec<char>) -> (r: Result<u64, ParseError>)
    ensures
        agrees(r, kib_value_model(input@)),
{
    let fs = ws_fields_of(input);
    if fs.len() == 0 {
        return Err(ParseError::fixed("memory value is missing"));
    }
    proof {
        assert(fs@[0]@ == ws_fields(input@)[0]);
    }
    let value = match parse_u64(&fs[0]) {
        Some(v) => v,
        None => {
            return Err(ParseError::with_detail("invalid memory value: ", input));
        },
    };
    if fs.len() >= 2 {
        proof {
            assert(fs@[1]@ == ws_fields(input@)[1]);
        }
        if !eq_str(&fs[1], "kB") {
            return Err(ParseError::with_detail("unsupported memory unit: ", &fs[1]));
        }
    }
    Ok(value)
}

/// What has been read of `/proc/meminfo`: total, available and free amounts
/// when their lines were seen, buffers and cache (zero when not seen), all in KiB.
pub type MemFacts = (Option<u64>, Option<u64>, Option<u64>, u64, u64);

pub open spec fn note_mem_fact(facts: MemFacts, key: Seq<char>, v: u64) -> MemFacts {
    if key == "MemTotal"@ {
        (Some(v), facts.1, facts.2, facts.3, facts.4)
    } else if key == "MemAvailable"@ {
        (facts.0, Some(v), facts.2, facts.3, facts.4)
    } else if key == "MemFree"@ {
        (facts.0, facts.1, Some(v), facts.3, facts.4)
    } else if key == "Buffers"@ {
        (facts.0, facts.1, facts.2, v, facts.4)
    } else if key == "Cached"@ {
        (facts.0, facts.1, facts.2, facts.3, v)
    } else {
        facts
    }
}

/// Reads the lines in order; a line without `:` is skipped, and a line whose
/// amount does not read stops the parse.
pub open spec fn mem_facts(ls: Seq<Seq<char>>) -> Result<MemFacts, Seq<char>>
    decreases ls.len(),
{
    if ls.len() == 0 {
        Ok((None, None, None, 0u64, 0u64))
    } else {
        match mem_facts(ls.drop_last()) {
            Err(e) => Err(e),
            Ok(facts) => match split_once_char(ls.last(), ':') {
                None => Ok(facts),
                Some((key, rest)) => match kib_value_model(rest) {
                    Err(e) => Err(e),
                    Ok(v) => Ok(note_mem_fact(facts, key, v)),
                },
            },
        }
    }
}

pub proof fn lemma_mem_facts_err_prefix(ls: Seq<Seq<char>>, k: int)
    requires
        0 <= k <= ls.len(),
        mem_facts(ls.take(k)) is Err,
    ensures
        mem_facts(ls) == mem_facts(ls.take(k)),
    decreases ls.len() - k,
{
    if k < ls.len() {
        assert(ls.drop_last().take(k) == ls.take(k));
        lemma_mem_facts_err_prefix(ls.drop_last(), k);
    } else {
        assert(ls.take(k) == ls);
    }
}

pub open spec fn sat_add(a: u64, b: u64) -> u64 {
    crate::collector::cpu::sat_add(a, b)
}

/// `/proc/meminfo` in bytes: `MemTotal` is required; the available amount is
/// `MemAvailable`, or else free + buffers + cached, capped at the total.
pub open spec fn meminfo_model(input: Seq<char>) -> Result<MemorySnapshot, Seq<char>> {
    match mem_facts(lines(input)) {
        Err(e) => Err(e),
        Ok(facts) => match facts.0 {
            None => Err("MemTotal missing from /proc/meminfo"@),
            Some(total) => {
                let available = match facts.1 {
                    Some(a) => a,
                    None => sat_add(
                        sat_add(
                            match facts.2 {
                                Some(f) => f,
                                None => 0u64,
                            },
                            facts.3,
                        ),
                        facts.4,
                    ),
                };
                Ok(
                    MemorySnapshot {
                        total_bytes: sat_mul(total, 1024),
                        available_bytes: sat_mul(
                            if available <= total {
                                available
                            } else {
                                total
                            },
                            1024,
                        ),
                    },
                )
            },
        },
    }
}

fn note_mem_fact_exec(facts: (Option<u64>, Option<u64>, Option<u64>, u64, u64), key: &Vec<char>, v: u64) -> (r: (Option<u64>, Option<u64>, Option<u64>, u64, u64))
    ensures
        r == note_mem_fact(facts, key@, v),
{
    if eq_str(key, "MemTotal") {
        (Some(v), facts.1, facts.2, facts.3, facts.4)
    } else if eq_str(key, "MemAvailable") {
        (facts.0, Some(v), facts.2, facts.3, facts.4)
    } else if eq_str(key, "MemFree") {
        (facts.0, facts.1, Some(v), facts.3, facts.4)
    } else if eq_str(key, "Buffers") {
        (facts.0, facts.1, facts.2, v, facts.4)
    } else if eq_str(key, "Cached") {
        (facts.0, facts.1, facts.2, facts.3, v)
    } else {
        facts
    }
}

/// Parses `/proc/meminfo`.
pub fn parse_meminfo(input: &str) -> (r: Result<MemorySnapshot, ParseError>)
    ensures
        agrees(r, meminfo_model(input@)),
{
    let text = chars_of(input);
    let ls = lines_of(&text);
    let ghost model_lines = lines(input@);
    let mut facts: (Option<u64>, Option<u64>, Option<u64>, u64, u64) = (None, None, None, 0, 0);
    let mut i: usize = 0;
    while i < ls.len()
        invariant
            i <= ls.len(),
            views(ls@) == model_lines,
            model_lines == lines(input@),
            mem_facts(model_lines.take(i as int)) == Ok::<MemFacts, Seq<char>>(facts),
        decreases ls.len() - i,
    {
        proof {
            assert(model_lines.take(i + 1).drop_last() == model_lines.take(i as int));
            assert(model_lines.take(i + 1).last() == ls@[i as int]@);
        }
        match split_once_char_exec(&ls[i], ':') {
            None => {},
            Some((key, rest)) => {
                match parse_kib_value(&rest) {
                    Err(e) => {
                        proof {
                            assert(mem_facts(model_lines.take(i + 1)) == Err::<MemFacts, Seq<char>>(e.message@));
                            lemma_mem_facts_err_prefix(model_lines, i + 1);
                        }
                        return Err(e);
                    },
                    Ok(v) => {
                        facts = note_mem_fact_exec(facts, &key, v);
                    },
                }
            },
        }
        i = i + 1;
    }
    proof {
        assert(model_lines.take(i as int) == model_lines);
    }
    let total = match facts.0 {
        Some(t) => t,
        None => {
            return Err(ParseError::fixed("MemTotal missing from /proc/meminfo"));
        },
    };
    let available = match facts.1 {
        Some(a) => a,
        None => {
            let free = match facts.2 {
                Some(f) => f,
                None => 0,
            };
            free.saturating_add(facts.3).saturating_add(facts.4)
        },
    };
    let capped = if available <= total {
        available
    } else {
        total
    };
    Ok(
        MemorySnapshot {
            total_bytes: saturating_mul(total, 1024),
            available_bytes: saturating_mul(capped, 1024),
        },
    )
}

/// The resident set size from `/proc/<pid>/status`: the first `VmRSS:` line,
/// in bytes; no such line is no error.
pub open spec fn status_rss_model(ls: Seq<Seq<char>>) -> Result<Option<u64>, Seq<char>>
    decreases ls.len(),
{
    if ls.len() == 0 {
        Ok(None)
    } else if starts_with(ls[0], "VmRSS:"@) {
        match kib_value_model(ls[0].skip(6)) {
            Err(e) => Err(e),
            Ok(v) => Ok(Some(sat_mul(v, 1024))),
        }
    } else {
        status_rss_model(ls.drop_first())
    }
}

/// Parses the resident set size out of `/proc/<pid>/status`.
pub fn parse_status_rss_bytes(input: &str) -> (r: Result<Option<u64>, ParseError>)
    ensures
        agrees(r, status_rss_model(lines(input@))),
{
    let text = chars_of(input);
    let ls = lines_of(&text);
    let ghost model_lines = lines(input@);
    let mut i: usize = 0;
    proof {
        assert(model_lines.skip(0) == model_lines);
    }
    while i < ls.len()
        invariant
            i <= ls.len(),
            views(ls@) == model_lines,
            model_lines == lines(input@),
            status_rss_model(model_lines) == status_rss_model(model_lines.skip(i as int)),
        decreases ls.len() - i,
    {
        let line = &ls[i];
        proof {
            assert(line@ == model_lines.skip(i as int)[0]);
            assert(model_lines.skip(i as int).drop_first() == model_lines.skip(i + 1));
            reveal_strlit("VmRSS:");
        }
        if starts_with_str(line, "VmRSS:") {
            proof {
                assert("VmRSS:"@.len() == 6);
            }
            let rest = slice_range(line, 6, line.len());
            proof {
                assert(rest@ == line@.skip(6));
            }
            return match parse_kib_value(&rest) {
                Err(e) => Err(e),
                Ok(v) => Ok(Some(saturating_mul(v, 1024))),
            };
        }
        i = i + 1;
    }
    Ok(None)
}

} // verus!
