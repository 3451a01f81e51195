//! What the text listing always holds.

use vstd::prelude::*;

use crate::app::EnrichedProcess;
use crate::classifier::ProcessType;
use crate::listing::{listing_by, listing_possible, listing_text, provenance_all_fit, rows_ordered};
use crate::provenance::ProcessProvenance;
use crate::runtime::{passes_filter, report_indices};
use crate::task::resolver::derived_for;

verus! {

/// The process at position `i` passes the category filter.
pub open spec fn listed(ps: Seq<EnrichedProcess>, provs: Seq<ProcessProvenance>, filter: Option<ProcessType>, i: int) -> bool {
    passes_filter(derived_for(ps, provs, ps[i].snapshot.identity), filter)
}

proof fn lemma_report_indices(ps: Seq<EnrichedProcess>, provs: Seq<ProcessProvenance>, filter: Option<ProcessType>, n: nat)
    requires
        n <= usize::MAX,
    ensures
        report_indices(ps, provs, filter, n).no_duplicates(),
        forall|i: int|
            0 <= i < n ==> (report_indices(ps, provs, filter, n).contains(i as usize) <==> listed(ps, provs, filter, i)),
        forall|x: usize| report_indices(ps, provs, filter, n).contains(x) ==> x < n,
    decreases n,
{
    if n > 0 {
        let m = (n - 1) as nat;
        lemma_report_indices(ps, provs, filter, m);
        let before = report_indices(ps, provs, filter, m);
        let r = report_indices(ps, provs, filter, n);
        if listed(ps, provs, filter, m as int) {
            assert(r == before.push(m as usize));
            assert forall|x: usize| r.contains(x) implies x < n by {
                let j = choose|j: int| 0 <= j < r.len() && r[j] == x;
                if j < before.len() {
                    assert(before.contains(before[j]));
                }
            }
            assert forall|i: int| 0 <= i < n implies (r.contains(i as usize) <==> listed(ps, provs, filter, i)) by {
                if i < m {
                    if r.contains(i as usize) {
                        let j = choose|j: int| 0 <= j < r.len() && r[j] == i as usize;
                        if j < before.len() {
                            assert(before.contains(before[j]));
                        }
                    }
                    if before.contains(i as usize) {
                        let j = choose|j: int| 0 <= j < before.len() && before[j] == i as usize;
                        assert(r[j] == before[j]);
                    }
                } else {
                    assert(r[r.len() - 1] == m as usize);
                }
            }
            assert forall|a: int, b: int| 0 <= a < r.len() && 0 <= b < r.len() && a != b implies r[a] != r[b] by {
                if a < before.len() && b < before.len() {
                } else if a < before.len() {
                    assert(before.contains(before[a]));
                } else if b < before.len() {
                    assert(before.contains(before[b]));
                }
            }
        } else {
            assert(r == before);
            assert forall|i: int| 0 <= i < n implies (r.contains(i as usize) <==> listed(ps, provs, filter, i)) by {
                if i == m {
                    if before.contains(i as usize) {
                        assert(false);
                    }
                }
            }
        }
    }
}

proof fn lemma_same_set_no_duplicates(a: Seq<usize>, b: Seq<usize>)
    requires
        a.no_duplicates(),
        a.len() == b.len(),
        a.to_set() == b.to_set(),
    ensures
        b.no_duplicates(),
{
    a.unique_seq_to_set();
    b.lemma_no_dup_set_cardinality();
}

/// The listing has one row for each process whose category passes the
/// filter and for no other, ordered by CPU (as `f32::total_cmp` orders it)
/// then memory, both highest first, then by PID ascending.
pub proof fn listing_rows_are_the_filtered_processes_once_each(
    ps: Seq<EnrichedProcess>,
    filter: Option<ProcessType>,
    cpu: Seq<String>,
    summary: Seq<char>,
    text: Seq<char>,
)
    requires
        ps.len() <= usize::MAX,
        listing_possible(ps, filter, cpu, summary, text),
    ensures
        exists|provs: Seq<ProcessProvenance>, order: Seq<usize>|
            #![trigger listing_text(ps, provs, cpu, order, summary)]
            {
                &&& provenance_all_fit(provs, ps)
                &&& text == listing_text(ps, provs, cpu, order, summary)
                &&& order.no_duplicates()
                &&& forall|x: usize| order.contains(x) ==> x < ps.len()
                &&& forall|i: int|
                    0 <= i < ps.len() ==> (order.contains(i as usize) <==> #[trigger] listed(ps, provs, filter, i))
                &&& rows_ordered(ps, order)
            },
{
    reveal(listing_possible);
    let (provs, order) = choose|provs: Seq<ProcessProvenance>, order: Seq<usize>|
        #[trigger] listing_by(ps, provs, filter, cpu, summary, text, order);
    let selected = report_indices(ps, provs, filter, ps.len() as nat);
    lemma_report_indices(ps, provs, filter, ps.len() as nat);
    lemma_same_set_no_duplicates(selected, order);
    assert forall|x: usize| order.contains(x) implies x < ps.len() by {
        assert(order.to_set().contains(x));
        assert(selected.to_set().contains(x));
    }
    assert forall|i: int| 0 <= i < ps.len() implies (order.contains(i as usize) <==> #[trigger] listed(
        ps,
        provs,
        filter,
        i,
    )) by {
        assert(order.contains(i as usize) <==> order.to_set().contains(i as usize));
        assert(selected.contains(i as usize) <==> selected.to_set().contains(i as usize));
    }
}

} // verus!
