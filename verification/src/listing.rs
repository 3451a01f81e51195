//! The text listing of a sample: a summary line, then one row per process,
//! busiest first.

use vstd::prelude::*;

use crate::app::EnrichedProcess;
use crate::classifier::{process_type_label, ProcessType};
use crate::decimal::{dec, dec_i64, dec_int, dec_u64};
use crate::process::model::{command_line_model, string_views};
use crate::provenance::{
    direct_matches, inherited_matches, owner_index, resolve_all_provenance, ProcessProvenance,
};
use crate::runtime::{passes_filter, report_indices, report_process_indices};
use crate::task::resolver::derived_for;
use crate::text::{chars_of, push_all, string_of};
use crate::ui::model::{truncate_label, truncate_label_model};
use crate::units::{format_bytes, format_bytes_model};

verus! {

// ---------------------------------------------------------------------------
// Row order
// ---------------------------------------------------------------------------

/// Where `f32::total_cmp` places a float, given its bits: positive values by
/// their bits, negative ones below them in reverse.
pub open spec fn total_order_key(bits: u32) -> int {
    if bits < 0x8000_0000 {
        bits as int
    } else {
        0x7fff_ffff - bits
    }
}

/// Row `i` comes before row `j`: more CPU, then more memory, then the lower
/// PID, and, among equals, the earlier process.
pub open spec fn row_before(ps: Seq<EnrichedProcess>, i: usize, j: usize) -> bool {
    let a = ps[i as int].snapshot;
    let b = ps[j as int].snapshot;
    let ka = total_order_key(a.cpu_percent_bits);
    let kb = total_order_key(b.cpu_percent_bits);
    ||| ka > kb
    ||| ka == kb && a.memory_bytes > b.memory_bytes
    ||| ka == kb && a.memory_bytes == b.memory_bytes && a.pid < b.pid
    ||| ka == kb && a.memory_bytes == b.memory_bytes && a.pid == b.pid && i < j
}

/// Rows listed in the order above.
pub open spec fn rows_ordered(ps: Seq<EnrichedProcess>, r: Seq<usize>) -> bool {
    forall|x: int, y: int| 0 <= x < y < r.len() ==> row_before(ps, #[trigger] r[x], #[trigger] r[y])
}

pub(crate) fn total_order_key_exec(bits: u32) -> (r: i64)
    ensures
        r == total_order_key(bits),
{
    if bits < 0x8000_0000u32 {
        bits as i64
    } else {
        0x7fff_ffffi64 - bits as i64
    }
}

fn row_before_exec(processes: &[EnrichedProcess], i: usize, j: usize) -> (r: bool)
    requires
        i < processes@.len(),
        j < processes@.len(),
    ensures
        r == row_before(processes@, i, j),
{
    let a = &processes[i].snapshot;
    let b = &processes[j].snapshot;
    let ka = total_order_key_exec(a.cpu_percent_bits);
    let kb = total_order_key_exec(b.cpu_percent_bits);
    if ka != kb {
        ka > kb
    } else if a.memory_bytes != b.memory_bytes {
        a.memory_bytes > b.memory_bytes
    } else if a.pid != b.pid {
        a.pid < b.pid
    } else {
        i < j
    }
}

/// The selected rows put in order.
fn order_rows(processes: &[EnrichedProcess], selected: &Vec<usize>) -> (r: Vec<usize>)
    requires
        forall|k: int| 0 <= k < selected@.len() ==> #[trigger] selected@[k] < processes@.len(),
        forall|x: int, y: int| 0 <= x < y < selected@.len() ==> selected@[x] < selected@[y],
    ensures
        r@.len() == selected@.len(),
        r@.to_set() == selected@.to_set(),
        forall|q: int| 0 <= q < r@.len() ==> #[trigger] r@[q] < processes@.len(),
        rows_ordered(processes@, r@),
{
    let mut r: Vec<usize> = Vec::new();
    let mut k: usize = 0;
    while k < selected.len()
        invariant
            k <= selected@.len(),
            forall|q: int| 0 <= q < selected@.len() ==> #[trigger] selected@[q] < processes@.len(),
            forall|x: int, y: int| 0 <= x < y < selected@.len() ==> selected@[x] < selected@[y],
            r@.len() == k,
            r@.to_set() == selected@.take(k as int).to_set(),
            forall|q: int| 0 <= q < r@.len() ==> #[trigger] r@[q] < processes@.len(),
            rows_ordered(processes@, r@),
        decreases selected.len() - k,
    {
        let x = selected[k];
        let mut p: usize = 0;
        while p < r.len() && !row_before_exec(processes, x, r[p])
            invariant
                p <= r@.len(),
                x < processes@.len(),
                forall|q: int| 0 <= q < r@.len() ==> #[trigger] r@[q] < processes@.len(),
                forall|q: int| 0 <= q < p ==> !row_before(processes@, x, #[trigger] r@[q]),
            decreases r.len() - p,
        {
            p = p + 1;
        }
        let ghost old_r = r@;
        proof {
            // x differs from every index listed so far, which came before it.
            assert forall|q: int| 0 <= q < old_r.len() implies old_r[q] != x by {
                assert(old_r.to_set().contains(old_r[q]));
                assert(selected@.take(k as int).to_set().contains(old_r[q]));
                let w = choose|w: int| 0 <= w < k && selected@.take(k as int)[w] == old_r[q];
                assert(selected@[w] < selected@[k as int]);
            }
            assert forall|q: int| 0 <= q < p implies row_before(processes@, #[trigger] old_r[q], x) by {
                assert(!row_before(processes@, x, old_r[q]));
            }
        }
        r.insert(p, x);
        proof {
            assert(r@ == old_r.insert(p as int, x));
            assert forall|a: int, b: int| 0 <= a < b < r@.len() implies row_before(
                processes@,
                #[trigger] r@[a],
                #[trigger] r@[b],
            ) by {
                if b < p {
                    assert(r@[a] == old_r[a] && r@[b] == old_r[b]);
                } else if b == p {
                    assert(r@[a] == old_r[a]);
                } else if a < p {
                    assert(r@[a] == old_r[a] && r@[b] == old_r[b - 1]);
                } else if a == p {
                    assert(r@[b] == old_r[b - 1]);
                    if p < old_r.len() {
                        assert(row_before(processes@, x, old_r[p as int]));
                        if b - 1 > p {
                            assert(row_before(processes@, old_r[p as int], old_r[b - 1]));
                        }
                    }
                } else {
                    assert(r@[a] == old_r[a - 1] && r@[b] == old_r[b - 1]);
                }
            }
            assert(selected@.take(k + 1) =~= selected@.take(k as int).push(x));
            assert(r@.to_set() =~= old_r.to_set().insert(x)) by {
                assert forall|v: usize| r@.to_set().contains(v) implies old_r.to_set().insert(x).contains(v) by {
                    let w = choose|w: int| 0 <= w < r@.len() && r@[w] == v;
                    if w < p {
                        assert(old_r[w] == v);
                    } else if w > p {
                        assert(old_r[w - 1] == v);
                    }
                }
                assert forall|v: usize| old_r.to_set().insert(x).contains(v) implies r@.to_set().contains(v) by {
                    if v == x {
                        assert(r@[p as int] == x);
                    } else {
                        let w = choose|w: int| 0 <= w < old_r.len() && old_r[w] == v;
                        if w < p {
                            assert(r@[w] == v);
                        } else {
                            assert(r@[w + 1] == v);
                        }
                    }
                }
            }
            selected@.take(k as int).lemma_push_to_set_commute(x);
        }
        k = k + 1;
    }
    proof {
        assert(selected@.take(k as int) =~= selected@);
    }
    r
}

// ---------------------------------------------------------------------------
// Row text
// ---------------------------------------------------------------------------

/// `n` spaces.
pub open spec fn spaces(n: nat) -> Seq<char> {
    Seq::new(n, |i: int| ' ')
}

/// A text followed by spaces up to `width` characters.
pub open spec fn pad_right(s: Seq<char>, width: nat) -> Seq<char> {
    if s.len() < width {
        s + spaces((width - s.len()) as nat)
    } else {
        s
    }
}

/// A text preceded by spaces up to `width` characters.
pub open spec fn pad_left(s: Seq<char>, width: nat) -> Seq<char> {
    if s.len() < width {
        spaces((width - s.len()) as nat) + s
    } else {
        s
    }
}

/// The GPU utilization column: whole percent, or `-`.
pub open spec fn gpu_column(p: EnrichedProcess) -> Seq<char> {
    match p.snapshot.gpu {
        Some(g) => match g.utilization_percent {
            Some(u) => dec(u as nat),
            None => "-"@,
        },
        None => "-"@,
    }
}

/// The VRAM column: the amount, or `-`.
pub open spec fn vram_column(p: EnrichedProcess) -> Seq<char> {
    match p.snapshot.gpu {
        Some(g) => match g.vram_bytes {
            Some(v) => format_bytes_model(v as nat),
            None => "-"@,
        },
        None => "-"@,
    }
}

/// The column titles.
pub open spec fn listing_titles() -> Seq<char> {
    "PID     TYPE       PROJECT                     CPU%        RAM    GPU%       VRAM  COMMAND\n"@
}

/// One row: PID, category and project as derived, CPU (as given), memory,
/// GPU, VRAM and the command line.
pub open spec fn listing_row(p: EnrichedProcess, d: ProcessProvenance, cpu: Seq<char>) -> Seq<char> {
    pad_right(dec_int(p.snapshot.pid as int), 7) + " "@ + pad_right(process_type_label(d.process_type), 10)
        + " "@ + pad_right(truncate_label_model(d.project_label@, 24), 24) + " "@ + pad_left(cpu, 7) + " "@
        + pad_left(format_bytes_model(p.snapshot.memory_bytes as nat), 10) + " "@ + pad_left(gpu_column(p), 7)
        + " "@ + pad_left(vram_column(p), 10) + "  "@ + truncate_label_model(
        command_line_model(p.snapshot.name@, string_views(p.snapshot.command@)),
        72,
    ) + "\n"@
}

/// The rows of the listed processes, in the given order.
pub open spec fn listing_rows(
    ps: Seq<EnrichedProcess>,
    provs: Seq<ProcessProvenance>,
    cpu: Seq<String>,
    order: Seq<usize>,
) -> Seq<char>
    decreases order.len(),
{
    if order.len() == 0 {
        Seq::empty()
    } else {
        let i = order.last() as int;
        listing_rows(ps, provs, cpu, order.drop_last()) + listing_row(
            ps[i],
            derived_for(ps, provs, ps[i].snapshot.identity).unwrap(),
            cpu[i]@,
        )
    }
}

/// The listing: the summary line, a blank line, the titles and the rows.
pub open spec fn listing_text(
    ps: Seq<EnrichedProcess>,
    provs: Seq<ProcessProvenance>,
    cpu: Seq<String>,
    order: Seq<usize>,
    summary: Seq<char>,
) -> Seq<char> {
    summary + "\n\n"@ + listing_titles() + listing_rows(ps, provs, cpu, order)
}

pub(crate) fn spaces_exec(n: usize) -> (r: Vec<char>)
    ensures
        r@ == spaces(n as nat),
{
    let mut r: Vec<char> = Vec::new();
    let mut i: usize = 0;
    while i < n
        invariant
            i <= n,
            r@ == spaces(i as nat),
        decreases n - i,
    {
        r.push(' ');
        assert(r@ =~= spaces((i + 1) as nat));
        i = i + 1;
    }
    r
}

pub(crate) fn pad_right_exec(s: &Vec<char>, width: usize) -> (r: Vec<char>)
    ensures
        r@ == pad_right(s@, width as nat),
{
    let mut r = crate::text::copy_chars(s);
    if s.len() < width {
        push_all(&mut r, &spaces_exec(width - s.len()));
    }
    r
}

pub(crate) fn pad_left_exec(s: &Vec<char>, width: usize) -> (r: Vec<char>)
    ensures
        r@ == pad_left(s@, width as nat),
{
    if s.len() < width {
        let mut r = spaces_exec(width - s.len());
        push_all(&mut r, s);
        r
    } else {
        crate::text::copy_chars(s)
    }
}

fn string_chars(s: &String) -> (r: Vec<char>)
    ensures
        r@ == s@,
{
    chars_of(s.as_str())
}

fn listing_row_exec(p: &EnrichedProcess, d: &ProcessProvenance, cpu: &String) -> (r: Vec<char>)
    ensures
        r@ == listing_row(*p, *d, cpu@),
{
    let mut out = pad_right_exec(&dec_i64(p.snapshot.pid as i64), 7);
    push_all(&mut out, &chars_of(" "));
    push_all(&mut out, &pad_right_exec(&string_chars(&d.process_type.to_string()), 10));
    push_all(&mut out, &chars_of(" "));
    push_all(&mut out, &pad_right_exec(&string_chars(&truncate_label(d.project_label.as_str(), 24)), 24));
    push_all(&mut out, &chars_of(" "));
    push_all(&mut out, &pad_left_exec(&string_chars(cpu), 7));
    push_all(&mut out, &chars_of(" "));
    push_all(&mut out, &pad_left_exec(&string_chars(&format_bytes(p.snapshot.memory_bytes)), 10));
    push_all(&mut out, &chars_of(" "));
    let gpu = match p.snapshot.gpu {
        Some(g) => match g.utilization_percent {
            Some(u) => dec_u64(u as u64),
            None => chars_of("-"),
        },
        None => chars_of("-"),
    };
    push_all(&mut out, &pad_left_exec(&gpu, 7));
    push_all(&mut out, &chars_of(" "));
    let vram = match p.snapshot.gpu {
        Some(g) => match g.vram_bytes {
            Some(v) => string_chars(&format_bytes(v)),
            None => chars_of("-"),
        },
        None => chars_of("-"),
    };
    push_all(&mut out, &pad_left_exec(&vram, 10));
    push_all(&mut out, &chars_of("  "));
    let line = p.snapshot.command_line();
    push_all(&mut out, &string_chars(&truncate_label(line.as_str(), 72)));
    push_all(&mut out, &chars_of("\n"));
    out
}

/// The listing of the processes whose derived category passes the filter
/// (all without one), busiest first, given the provenance derived for each
/// process (`provenance[i]` for `processes[i]`), each process's CPU use as
/// text (`cpu_texts[i]`) and the summary line.
pub fn format_snapshot_with(
    processes: &[EnrichedProcess],
    provenance: &[ProcessProvenance],
    filter: Option<ProcessType>,
    cpu_texts: &[String],
    summary: &str,
) -> (r: String)
    requires
        provenance@.len() == processes@.len(),
        cpu_texts@.len() == processes@.len(),
    ensures
        exists|order: Seq<usize>|
            #![trigger listing_rows(processes@, provenance@, cpu_texts@, order)]
            {
                &&& order.len() == report_indices(processes@, provenance@, filter, processes@.len() as nat).len()
                &&& order.to_set() == report_indices(
                    processes@,
                    provenance@,
                    filter,
                    processes@.len() as nat,
                ).to_set()
                &&& rows_ordered(processes@, order)
                &&& r@ == listing_text(processes@, provenance@, cpu_texts@, order, summary@)
            },
{
    let selected = report_process_indices(processes, provenance, filter);
    proof {
        assert(processes@.len() == processes.len());
        lemma_report_indices_ascending(processes@, provenance@, filter, processes@.len() as nat);
    }
    let order = order_rows(processes, &selected);
    let mut out = chars_of(summary);
    push_all(&mut out, &chars_of("\n\n"));
    push_all(&mut out, &chars_of("PID     TYPE       PROJECT                     CPU%        RAM    GPU%       VRAM  COMMAND\n"));
    let ghost head = out@;
    let mut rows: Vec<char> = Vec::new();
    let mut k: usize = 0;
    while k < order.len()
        invariant
            k <= order@.len(),
            provenance@.len() == processes@.len(),
            cpu_texts@.len() == processes@.len(),
            forall|q: int| 0 <= q < order@.len() ==> #[trigger] order@[q] < processes@.len(),
            rows@ == listing_rows(processes@, provenance@, cpu_texts@, order@.take(k as int)),
        decreases order.len() - k,
    {
        let i = order[k];
        proof {
            assert(order@.take(k + 1).drop_last() =~= order@.take(k as int));
            assert(order@.take(k + 1).last() == i);
        }
        let d = crate::task::resolver::find_derived(processes, provenance, processes[i].snapshot.identity);
        proof {
            lemma_derived_for_own(processes@, provenance@, i as int);
        }
        let d = d.unwrap();
        push_all(&mut rows, &listing_row_exec(&processes[i], d, &cpu_texts[i]));
        k = k + 1;
    }
    proof {
        assert(order@.take(k as int) =~= order@);
    }
    push_all(&mut out, &rows);
    string_of(&out)
}

/// Every process finds a provenance for its own identity.
proof fn lemma_derived_for_own(ps: Seq<EnrichedProcess>, provs: Seq<ProcessProvenance>, i: int)
    requires
        0 <= i < ps.len(),
        provs.len() == ps.len(),
    ensures
        derived_for(ps, provs, ps[i].snapshot.identity) is Some,
    decreases ps.len(),
{
    if i < ps.len() - 1 && ps.last().snapshot.identity != ps[i].snapshot.identity {
        lemma_derived_for_prefix(ps, provs, i);
    }
}

proof fn lemma_derived_for_prefix(ps: Seq<EnrichedProcess>, provs: Seq<ProcessProvenance>, i: int)
    requires
        0 <= i < ps.len(),
        provs.len() >= ps.len(),
    ensures
        derived_for(ps, provs, ps[i].snapshot.identity) is Some,
    decreases ps.len(),
{
    if ps.last().snapshot.identity != ps[i].snapshot.identity {
        assert(i < ps.len() - 1);
        assert(ps.drop_last()[i] == ps[i]);
        lemma_derived_for_prefix(ps.drop_last(), provs, i);
    }
}

/// The listed indices come in increasing order and name processes.
proof fn lemma_report_indices_ascending(
    ps: Seq<EnrichedProcess>,
    provs: Seq<ProcessProvenance>,
    filter: Option<ProcessType>,
    n: nat,
)
    requires
        n <= ps.len(),
        n <= usize::MAX,
    ensures
        forall|k: int| 0 <= k < report_indices(ps, provs, filter, n).len() ==> #[trigger] report_indices(
            ps,
            provs,
            filter,
            n,
        )[k] < n,
        forall|x: int, y: int|
            0 <= x < y < report_indices(ps, provs, filter, n).len() ==> report_indices(ps, provs, filter, n)[x]
                < report_indices(ps, provs, filter, n)[y],
    decreases n,
{
    if n > 0 {
        lemma_report_indices_ascending(ps, provs, filter, (n - 1) as nat);
        let before = report_indices(ps, provs, filter, (n - 1) as nat);
        let now = report_indices(ps, provs, filter, n);
        if passes_filter(derived_for(ps, provs, ps[n - 1].snapshot.identity), filter) {
            assert(now == before.push((n - 1) as usize));
            assert forall|k: int| 0 <= k < now.len() implies #[trigger] now[k] < n by {
                if k < before.len() {
                    assert(now[k] == before[k]);
                }
            }
            assert forall|x: int, y: int| 0 <= x < y < now.len() implies now[x] < now[y] by {
                if y < before.len() {
                    assert(now[x] == before[x] && now[y] == before[y]);
                    assert(before[x] < before[y]);
                } else {
                    assert(now[x] == before[x]);
                    assert(before[x] < n - 1);
                }
            }
        } else {
            assert(now == before);
        }
    }
}

/// The listing of the processes whose derived category passes the filter
/// (all without one), busiest first, with provenance derived as
/// `resolve_all_provenance` derives it; each process's CPU use comes as text
/// (`cpu_texts[i]`), and the summary line as it is to be shown.
pub fn format_snapshot(
    processes: &[EnrichedProcess],
    filter: Option<ProcessType>,
    cpu_texts: &[String],
    summary: &str,
) -> (r: String)
    requires
        cpu_texts@.len() == processes@.len(),
    ensures
        listing_possible(processes@, filter, cpu_texts@, summary@, r@),
{
    let provenance = resolve_all_provenance(processes);
    let r = format_snapshot_with(processes, provenance.as_slice(), filter, cpu_texts, summary);
    proof {
        assert(provenance_all_fit(provenance@, processes@)) by {
            reveal(provenance_all_fit);
        }
        assert(listing_possible(processes@, filter, cpu_texts@, summary@, r@)) by {
            reveal(listing_possible);
            let order = choose|order: Seq<usize>|
                #![trigger listing_rows(processes@, provenance@, cpu_texts@, order)]
                {
                    &&& order.len() == report_indices(
                        processes@,
                        provenance@,
                        filter,
                        processes@.len() as nat,
                    ).len()
                    &&& order.to_set() == report_indices(
                        processes@,
                        provenance@,
                        filter,
                        processes@.len() as nat,
                    ).to_set()
                    &&& rows_ordered(processes@, order)
                    &&& r@ == listing_text(processes@, provenance@, cpu_texts@, order, summary@)
                };
            assert(listing_by(processes@, provenance@, filter, cpu_texts@, summary@, r@, order));
        }
    }
    r
}

/// Provenance that `resolve_all_provenance` may derive, one per process.
#[verifier::opaque]
pub open spec fn provenance_all_fit(provs: Seq<ProcessProvenance>, ps: Seq<EnrichedProcess>) -> bool {
    &&& provs.len() == ps.len()
    &&& forall|i: int|
        0 <= i < ps.len() ==> {
            let p = ps[i];
            let owner = if p.classification.process_type == ProcessType::Generic {
                owner_index(p.parent_chain@, ps)
            } else {
                None
            };
            &&& owner matches Some(k) ==> inherited_matches(#[trigger] provs[i], p, ps, k)
            &&& owner is None ==> direct_matches(provs[i], p, ps)
        }
}

/// The listing built from given provenance and row order.
pub open spec fn listing_by(
    ps: Seq<EnrichedProcess>,
    provs: Seq<ProcessProvenance>,
    filter: Option<ProcessType>,
    cpu: Seq<String>,
    summary: Seq<char>,
    text: Seq<char>,
    order: Seq<usize>,
) -> bool {
    let selected = report_indices(ps, provs, filter, ps.len() as nat);
    &&& provenance_all_fit(provs, ps)
    &&& order.len() == selected.len()
    &&& order.to_set() == selected.to_set()
    &&& rows_ordered(ps, order)
    &&& text == listing_text(ps, provs, cpu, order, summary)
}

/// A listing of the processes for provenance that `resolve_all_provenance`
/// may derive: the rows of those whose category passes the filter, ordered.
#[verifier::opaque]
pub open spec fn listing_possible(
    ps: Seq<EnrichedProcess>,
    filter: Option<ProcessType>,
    cpu: Seq<String>,
    summary: Seq<char>,
    text: Seq<char>,
) -> bool {
    exists|provs: Seq<ProcessProvenance>, order: Seq<usize>|
        #[trigger] listing_by(ps, provs, filter, cpu, summary, text, order)
}

} // verus!
