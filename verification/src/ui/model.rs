use vstd::prelude::*;

use crate::app::EnrichedProcess;
use crate::classifier::process_type_label;
use crate::process::model::{command_line_model, join_with, string_views};
use crate::provenance::ProcessProvenance;
use crate::text::{chars_eq, chars_of, contains, contains_exec, lower, lowercase, owned, push_all, slice_range, string_of};

verus! {

/// A text cut to at most `max` characters, the last one replaced by `…`
/// when something was cut: nothing fits in zero characters.
pub open spec fn truncate_label_model(value: Seq<char>, max: nat) -> Seq<char> {
    if value.len() <= max {
        value
    } else if max == 0 {
        Seq::empty()
    } else {
        value.take(max - 1).push('…')
    }
}

pub fn truncate_label(value: &str, max_chars: usize) -> (r: String)
    ensures
        r@ == truncate_label_model(value@, max_chars as nat),
{
    let v = chars_of(value);
    if v.len() <= max_chars {
        return owned(value);
    }
    if max_chars == 0 {
        return String::new();
    }
    let mut out = slice_range(&v, 0, max_chars - 1);
    out.push('…');
    assert(out@ =~= value@.take(max_chars - 1).push('…'));
    string_of(&out)
}

/// Whether a list of texts holds one.
fn holds_text(parts: &Vec<Vec<char>>, x: &Vec<char>) -> (r: bool)
    ensures
        r == crate::split::views(parts@).contains(x@),
{
    let mut i: usize = 0;
    while i < parts.len()
        invariant
            i <= parts.len(),
            forall|j: int| 0 <= j < i ==> parts@[j]@ != x@,
        decreases parts.len() - i,
    {
        if chars_eq(&parts[i], x) {
            assert(crate::split::views(parts@)[i as int] == x@);
            return true;
        }
        i = i + 1;
    }
    false
}

/// The name, then the second and third arguments of a command when they are
/// not empty and not shown already.
pub open spec fn label_parts(name: Seq<char>, command: Seq<Seq<char>>) -> Seq<Seq<char>> {
    let first = seq![name];
    let second = if command.len() > 1 && command[1].len() > 0 && !first.contains(command[1]) {
        first.push(command[1])
    } else {
        first
    };
    if command.len() > 2 && command[2].len() > 0 && !second.contains(command[2]) {
        second.push(command[2])
    } else {
        second
    }
}

/// A short label of a process: its name and first two arguments, joined by
/// spaces and cut to `max_chars`; empty when no character is allowed.
pub open spec fn compact_command_model(p: EnrichedProcess, max: nat) -> Seq<char> {
    if max == 0 {
        Seq::empty()
    } else {
        truncate_label_model(join_with(label_parts(p.snapshot.name@, string_views(p.snapshot.command@)), ' '), max)
    }
}

fn join_parts(parts: &Vec<Vec<char>>) -> (r: Vec<char>)
    ensures
        r@ == join_with(crate::split::views(parts@), ' '),
{
    let mut r: Vec<char> = Vec::new();
    let mut i: usize = 0;
    while i < parts.len()
        invariant
            i <= parts.len(),
            r@ == join_with(crate::split::views(parts@).take(i as int), ' '),
        decreases parts.len() - i,
    {
        proof {
            let ps = crate::split::views(parts@);
            assert(ps.take(i + 1).drop_last() == ps.take(i as int));
            assert(ps.take(i + 1).last() == parts@[i as int]@);
        }
        if i > 0 {
            r.push(' ');
        } else {
            assert(r@ =~= Seq::<char>::empty());
        }
        push_all(&mut r, &parts[i]);
        proof {
            if i == 0 {
                assert(r@ =~= parts@[0]@);
            }
        }
        i = i + 1;
    }
    assert(crate::split::views(parts@).take(i as int) == crate::split::views(parts@));
    r
}

pub fn compact_command_label(process: &EnrichedProcess, max_chars: usize) -> (r: String)
    ensures
        r@ == compact_command_model(*process, max_chars as nat),
{
    if max_chars == 0 {
        return String::new();
    }
    let ghost cmd = string_views(process.snapshot.command@);
    let mut parts: Vec<Vec<char>> = Vec::new();
    parts.push(chars_of(process.snapshot.name.as_str()));
    proof {
        assert(crate::split::views(parts@) =~= seq![process.snapshot.name@]);
    }
    let command = &process.snapshot.command;
    if command.len() > 1 {
        let a = chars_of(command[1].as_str());
        if a.len() > 0 && !holds_text(&parts, &a) {
            let ghost before = crate::split::views(parts@);
            parts.push(a);
            assert(crate::split::views(parts@) =~= before.push(cmd[1]));
        }
    }
    proof {
        let first = seq![process.snapshot.name@];
        let second = if cmd.len() > 1 && cmd[1].len() > 0 && !first.contains(cmd[1]) {
            first.push(cmd[1])
        } else {
            first
        };
        assert(crate::split::views(parts@) == second);
    }
    if command.len() > 2 {
        let a = chars_of(command[2].as_str());
        if a.len() > 0 && !holds_text(&parts, &a) {
            let ghost before = crate::split::views(parts@);
            parts.push(a);
            assert(crate::split::views(parts@) =~= before.push(cmd[2]));
        }
    }
    let joined = string_of(&join_parts(&parts));
    truncate_label(joined.as_str(), max_chars)
}

/// Whether a process matches a search query: its name, command line,
/// category label or project label, in ASCII lower case, contains the query.
pub open spec fn matches_query_model(p: EnrichedProcess, prov: ProcessProvenance, query: Seq<char>) -> bool {
    contains(lower(p.snapshot.name@), query) || contains(
        lower(command_line_model(p.snapshot.name@, string_views(p.snapshot.command@))),
        query,
    ) || contains(lower(process_type_label(prov.process_type)), query) || contains(
        lower(prov.project_label@),
        query,
    )
}

pub fn matches_query(process: &EnrichedProcess, provenance: &ProcessProvenance, query: &str) -> (r: bool)
    ensures
        r == matches_query_model(*process, *provenance, query@),
{
    let q = chars_of(query);
    let line = process.snapshot.command_line();
    let label = provenance.process_type.to_string();
    contains_exec(&lowercase(&chars_of(process.snapshot.name.as_str())), &q) || contains_exec(
        &lowercase(&chars_of(line.as_str())),
        &q,
    ) || contains_exec(&lowercase(&chars_of(label.as_str())), &q) || contains_exec(
        &lowercase(&chars_of(provenance.project_label.as_str())),
        &q,
    )
}

} // verus!
