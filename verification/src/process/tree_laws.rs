//! How the rows of the process tree hang together.

use vstd::prelude::*;

use crate::process::model::ProcessSnapshot;
use crate::process::tree::{
    child_pids, child_pred, deeper, lemma_ascending_keys_exist, lemma_pid_le_total, pid_le, pid_of,
    ascending_keys, root_pids, tree_fuel, tree_order_model, unseen_pred, visit_each_model, visit_model,
};

verus! {

/// Some process of the table has PID `child` and parent `parent`.
pub open spec fn is_parent_of(m: Map<i32, ProcessSnapshot>, child: i32, parent: i32) -> bool {
    exists|k: i32| m.dom().contains(k) && (#[trigger] m[k]).pid == child && m[k].ppid == parent
}

/// Row `i` has its parent listed before it, one level up.
pub open spec fn follows_its_parent(m: Map<i32, ProcessSnapshot>, o: Seq<(i32, usize)>, i: int) -> bool {
    exists|j: int| #![trigger o[j]] 0 <= j < i && o[j].1 + 1 == o[i].1 && is_parent_of(m, o[i].0, o[j].0)
}

proof fn lemma_child_has_parent(m: Map<i32, ProcessSnapshot>, parent: i32, c: i32)
    requires
        m.dom().finite(),
        child_pids(m, parent).contains(c),
    ensures
        is_parent_of(m, c, parent),
{
    lemma_ascending_keys_exist(m);
    let ks = ascending_keys(m);
    let p = child_pred(m, parent);
    let f = ks.filter(p);
    let mv = f.map_values(pid_of(m));
    let sorted = mv.sort_by(pid_le());
    lemma_pid_le_total();
    mv.lemma_sort_by_ensures(pid_le());
    let s = choose|s: int| 0 <= s < sorted.len() && sorted[s] == c;
    assert(sorted.contains(sorted[s]));
    assert(mv.contains(sorted[s]));
    let t = choose|t: int| 0 <= t < mv.len() && mv[t] == c;
    ks.filter_lemma(p);
    assert(p(f[t]));
    assert(f.contains(f[t]));
    ks.lemma_filter_contains_rev(p, f[t]);
    assert(ks.to_set().contains(f[t]));
    assert(m.dom().contains(f[t]));
    assert(m[f[t]].pid == c);
}

proof fn lemma_visit_parents(m: Map<i32, ProcessSnapshot>, pid: i32, d: usize, seen: Set<i32>, fuel: nat)
    requires
        m.dom().finite(),
        d + fuel < usize::MAX,
    ensures
        ({
            let o = visit_model(m, pid, d, seen, fuel).0;
            &&& o.len() > 0 ==> o[0] == (pid, d)
            &&& forall|i: int| 0 <= i < o.len() ==> (#[trigger] o[i]).1 >= d && (i > 0 ==> o[i].1 > d)
            &&& forall|i: int| 0 <= i < o.len() && (#[trigger] o[i]).1 > d ==> follows_its_parent(m, o, i)
        }),
    decreases fuel, 0nat,
{
    if fuel > 0 && !seen.contains(pid) {
        let children = child_pids(m, pid);
        let s1 = seen.insert(pid);
        assert(deeper(d) == d + 1);
        lemma_visit_each_parents(m, children, deeper(d), s1, (fuel - 1) as nat);
        let below = visit_each_model(m, children, deeper(d), s1, (fuel - 1) as nat).0;
        let o = visit_model(m, pid, d, seen, fuel).0;
        assert(o == seq![(pid, d)] + below);
        assert forall|i: int| 0 <= i < o.len() implies (#[trigger] o[i]).1 >= d && (i > 0 ==> o[i].1 > d) by {
            if i > 0 {
                assert(o[i] == below[i - 1]);
            }
        }
        assert forall|i: int| 0 <= i < o.len() && (#[trigger] o[i]).1 > d implies follows_its_parent(m, o, i) by {
            assert(i > 0);
            assert(o[i] == below[i - 1]);
            if below[i - 1].1 == d + 1 {
                assert(children.contains(below[i - 1].0));
                lemma_child_has_parent(m, pid, o[i].0);
                assert(o[0].1 + 1 == o[i].1);
            } else {
                assert(follows_its_parent(m, below, i - 1));
                let j = choose|j: int|
                    #![trigger below[j]]
                    0 <= j < i - 1 && below[j].1 + 1 == below[i - 1].1 && is_parent_of(m, below[i - 1].0, below[j].0);
                assert(o[j + 1] == below[j]);
            }
        }
    }
}

proof fn lemma_visit_each_parents(
    m: Map<i32, ProcessSnapshot>,
    pids: Seq<i32>,
    d: usize,
    seen: Set<i32>,
    fuel: nat,
)
    requires
        m.dom().finite(),
        d + fuel < usize::MAX,
    ensures
        ({
            let o = visit_each_model(m, pids, d, seen, fuel).0;
            &&& forall|i: int|
                0 <= i < o.len() ==> (#[trigger] o[i]).1 >= d && (o[i].1 == d ==> pids.contains(o[i].0))
            &&& forall|i: int| 0 <= i < o.len() && (#[trigger] o[i]).1 > d ==> follows_its_parent(m, o, i)
        }),
    decreases fuel, pids.len() + 1,
{
    if pids.len() > 0 {
        lemma_visit_parents(m, pids[0], d, seen, fuel);
        let first = visit_model(m, pids[0], d, seen, fuel);
        lemma_visit_each_parents(m, pids.drop_first(), d, first.1, fuel);
        let rest = visit_each_model(m, pids.drop_first(), d, first.1, fuel).0;
        let o = visit_each_model(m, pids, d, seen, fuel).0;
        let n = first.0.len();
        assert(o == first.0 + rest);
        assert forall|i: int| 0 <= i < o.len() implies (#[trigger] o[i]).1 >= d && (o[i].1 == d ==> pids.contains(
            o[i].0,
        )) by {
            if i < n {
                assert(o[i] == first.0[i]);
                if i == 0 {
                    assert(pids[0] == o[i].0);
                }
            } else {
                assert(o[i] == rest[i - n]);
                if o[i].1 == d {
                    let q = choose|q: int| 0 <= q < pids.drop_first().len() && pids.drop_first()[q] == o[i].0;
                    assert(pids[q + 1] == o[i].0);
                }
            }
        }
        assert forall|i: int| 0 <= i < o.len() && (#[trigger] o[i]).1 > d implies follows_its_parent(m, o, i) by {
            if i < n {
                assert(o[i] == first.0[i]);
                assert(follows_its_parent(m, first.0, i));
                let j = choose|j: int|
                    #![trigger first.0[j]]
                    0 <= j < i && first.0[j].1 + 1 == first.0[i].1 && is_parent_of(m, first.0[i].0, first.0[j].0);
                assert(o[j] == first.0[j]);
            } else {
                assert(o[i] == rest[i - n]);
                assert(follows_its_parent(m, rest, i - n));
                let j = choose|j: int|
                    #![trigger rest[j]]
                    0 <= j < i - n && rest[j].1 + 1 == rest[i - n].1 && is_parent_of(m, rest[i - n].0, rest[j].0);
                assert(o[j + n] == rest[j]);
            }
        }
    }
}

/// In tree order, every row below the top level has its parent listed
/// before it, one level up: a process with PID `c` and parent `p` in the
/// table, under a row for `p`. (For tables whose depth count cannot
/// overflow: fewer keys than half of `usize::MAX`.)
pub proof fn tree_rows_follow_their_parents(m: Map<i32, ProcessSnapshot>)
    requires
        m.dom().finite(),
        tree_fuel(m) < usize::MAX,
    ensures
        forall|i: int|
            0 <= i < tree_order_model(m).len() && (#[trigger] tree_order_model(m)[i]).1 > 0 ==> follows_its_parent(
                m,
                tree_order_model(m),
                i,
            ),
{
    let fuel = tree_fuel(m);
    lemma_visit_each_parents(m, root_pids(m), 0, Set::empty(), fuel);
    let (first, seen) = visit_each_model(m, root_pids(m), 0, Set::empty(), fuel);
    let starts = ascending_keys(m).filter(unseen_pred(seen));
    lemma_visit_each_parents(m, starts, 0, seen, fuel);
    let rest = visit_each_model(m, starts, 0, seen, fuel).0;
    let o = tree_order_model(m);
    let n = first.len();
    assert(o == first + rest);
    assert forall|i: int| 0 <= i < o.len() && (#[trigger] o[i]).1 > 0 implies follows_its_parent(m, o, i) by {
        if i < n {
            assert(o[i] == first[i]);
            assert(follows_its_parent(m, first, i));
            let j = choose|j: int|
                #![trigger first[j]]
                0 <= j < i && first[j].1 + 1 == first[i].1 && is_parent_of(m, first[i].0, first[j].0);
            assert(o[j] == first[j]);
        } else {
            assert(o[i] == rest[i - n]);
            assert(follows_its_parent(m, rest, i - n));
            let j = choose|j: int|
                #![trigger rest[j]]
                0 <= j < i - n && rest[j].1 + 1 == rest[i - n].1 && is_parent_of(m, rest[i - n].0, rest[j].0);
            assert(o[j + n] == rest[j]);
        }
    }
}

} // verus!
