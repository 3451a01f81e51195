//! Turning a sample's processes into enriched processes: each gets its chain
//! of ancestors, its classification, its ROS 2 project and its place in the
//! process tree.

use vstd::prelude::*;

use std::collections::HashMap;

use crate::app::EnrichedProcess;
use crate::classifier::{classification_matches, classify, lemma_rule_hits_by_content, rule_hits};
use crate::process::model::{same_snapshot, string_views, ProcessSnapshot};
use crate::process::resolver::{identity_matches, opt_view, resolve_ros2_process, ros2_process_model};
use crate::process::tree::{parent_chain, parent_chain_model, tree_order, tree_order_model};

verus! {

broadcast use vstd::std_specs::hash::group_hash_axioms;

/// How many ancestors are followed.
pub const ANCESTOR_DEPTH: usize = 32;

/// The process table of a sample: each PID mapped to the last snapshot that
/// has it.
pub open spec fn snapshot_table(ps: Seq<ProcessSnapshot>) -> Map<i32, ProcessSnapshot>
    decreases ps.len(),
{
    if ps.len() == 0 {
        Map::empty()
    } else {
        snapshot_table(ps.drop_last()).insert(ps.last().pid, ps.last())
    }
}

/// The snapshots, in chain order, of the PIDs of a chain that the table
/// knows.
pub open spec fn ancestors_of(m: Map<i32, ProcessSnapshot>, chain: Seq<i32>) -> Seq<ProcessSnapshot>
    decreases chain.len(),
{
    if chain.len() == 0 {
        Seq::empty()
    } else {
        let before = ancestors_of(m, chain.drop_last());
        if m.contains_key(chain.last()) {
            before.push(m[chain.last()])
        } else {
            before
        }
    }
}

/// Each PID of a tree order mapped to its position and depth; a PID listed
/// twice keeps its last place.
pub open spec fn order_positions(order: Seq<(i32, usize)>) -> Map<i32, (usize, usize)>
    decreases order.len(),
{
    if order.len() == 0 {
        Map::empty()
    } else {
        order_positions(order.drop_last()).insert(order.last().0, ((order.len() - 1) as usize, order.last().1))
    }
}

/// The position and depth of a PID in a tree order; `(usize::MAX, 0)` for a
/// PID it does not list.
pub open spec fn tree_position(order: Seq<(i32, usize)>, pid: i32) -> (usize, usize) {
    let m = order_positions(order);
    if m.contains_key(pid) {
        m[pid]
    } else {
        (usize::MAX, 0)
    }
}

/// Putting a snapshot in front of the others changes the table only where
/// they do not have its PID.
proof fn lemma_table_prepend(x: ProcessSnapshot, s: Seq<ProcessSnapshot>)
    ensures
        snapshot_table(seq![x] + s) == (if snapshot_table(s).contains_key(x.pid) {
            snapshot_table(s)
        } else {
            snapshot_table(s).insert(x.pid, x)
        }),
    decreases s.len(),
{
    if s.len() == 0 {
        assert(seq![x] + s =~= seq![x]);
        assert(seq![x].drop_last() =~= Seq::<ProcessSnapshot>::empty());
        assert(snapshot_table(Seq::<ProcessSnapshot>::empty()) =~= Map::<i32, ProcessSnapshot>::empty());
    } else {
        let s2 = s.drop_last();
        lemma_table_prepend(x, s2);
        assert((seq![x] + s).drop_last() =~= seq![x] + s2);
        assert((seq![x] + s).last() == s.last());
        assert(snapshot_table(seq![x] + s) =~= (if snapshot_table(s).contains_key(x.pid) {
            snapshot_table(s)
        } else {
            snapshot_table(s).insert(x.pid, x)
        }));
    }
}

/// Copies of the snapshots of a chain's PIDs that the table knows.
fn ancestors_from(chain: &Vec<i32>, table: &HashMap<i32, ProcessSnapshot>) -> (r: Vec<ProcessSnapshot>)
    ensures
        r@.len() == ancestors_of(table@, chain@).len(),
        forall|i: int| 0 <= i < r@.len() ==> same_snapshot(#[trigger] r@[i], ancestors_of(table@, chain@)[i]),
{
    let mut r: Vec<ProcessSnapshot> = Vec::new();
    let mut k: usize = 0;
    while k < chain.len()
        invariant
            k <= chain@.len(),
            r@.len() == ancestors_of(table@, chain@.take(k as int)).len(),
            forall|i: int|
                0 <= i < r@.len() ==> same_snapshot(#[trigger] r@[i], ancestors_of(table@, chain@.take(k as int))[i]),
        decreases chain.len() - k,
    {
        proof {
            assert(chain@.take(k + 1).drop_last() =~= chain@.take(k as int));
            assert(chain@.take(k + 1).last() == chain@[k as int]);
        }
        match table.get(&chain[k]) {
            Some(s) => {
                r.push(s.duplicate());
            },
            None => {},
        }
        k = k + 1;
    }
    proof {
        assert(chain@.take(k as int) =~= chain@);
    }
    r
}

/// Each process of a sample with what is derived from it: its ancestors
/// (through the table of the sample's processes, at most
/// [`ANCESTOR_DEPTH`] of them), its classification from itself and those
/// ancestors, its ROS 2 project, and its position and depth in the process
/// tree. The processes keep their order and their values.
pub fn enrich(processes: Vec<ProcessSnapshot>) -> (r: Vec<EnrichedProcess>)
    ensures
        r@.len() == processes@.len(),
        forall|i: int|
            #![trigger r@[i]]
            0 <= i < processes@.len() ==> {
                let p = processes@[i];
                let m = snapshot_table(processes@);
                let e = r@[i];
                &&& same_snapshot(e.snapshot, p)
                &&& e.parent_chain@ == parent_chain_model(m, p.pid, ANCESTOR_DEPTH as nat)
                &&& classification_matches(e.classification, rule_hits(p, ancestors_of(m, e.parent_chain@)))
                &&& identity_matches(e.project, ros2_process_model(opt_view(p.executable), string_views(p.command@)))
                &&& (e.tree_order, e.tree_depth) == tree_position(tree_order_model(m), p.pid)
            },
{
    let ghost ps = processes@;
    let n = processes.len();
    let mut copies: Vec<ProcessSnapshot> = Vec::new();
    let mut i: usize = 0;
    while i < n
        invariant
            i <= n,
            n == processes@.len(),
            processes@ == ps,
            copies@.len() == i,
            forall|j: int| 0 <= j < i ==> same_snapshot(#[trigger] copies@[j], ps[j]),
        decreases n - i,
    {
        copies.push(processes[i].duplicate());
        i = i + 1;
    }

    let mut rest = processes;
    let mut table: HashMap<i32, ProcessSnapshot> = HashMap::new();
    proof {
        assert(ps.skip(ps.len() as int) =~= Seq::<ProcessSnapshot>::empty());
        assert(snapshot_table(Seq::<ProcessSnapshot>::empty()) =~= Map::<i32, ProcessSnapshot>::empty());
        assert(ps.take(ps.len() as int) =~= ps);
    }
    while rest.len() > 0
        invariant
            rest@.len() <= ps.len(),
            rest@ == ps.take(rest@.len() as int),
            table@ == snapshot_table(ps.skip(rest@.len() as int)),
        decreases rest.len(),
    {
        let k = rest.len();
        let p = rest.pop().unwrap();
        proof {
            assert(p == ps[k - 1]);
            assert(rest@ =~= ps.take(k - 1));
            assert(ps.skip(k - 1) =~= seq![p] + ps.skip(k as int));
            lemma_table_prepend(p, ps.skip(k as int));
        }
        if !table.contains_key(&p.pid) {
            table.insert(p.pid, p);
        }
    }
    proof {
        assert(ps.skip(0) =~= ps);
    }
    let ghost m = snapshot_table(ps);

    let order = tree_order(&table);
    let mut positions: HashMap<i32, (usize, usize)> = HashMap::new();
    let mut k: usize = 0;
    proof {
        assert(order@.take(0) =~= Seq::<(i32, usize)>::empty());
        assert(order_positions(Seq::<(i32, usize)>::empty()) =~= Map::<i32, (usize, usize)>::empty());
    }
    while k < order.len()
        invariant
            k <= order@.len(),
            table@ == m,
            order@ == tree_order_model(m),
            positions@ == order_positions(order@.take(k as int)),
        decreases order.len() - k,
    {
        proof {
            assert(order@.take(k + 1).drop_last() =~= order@.take(k as int));
            assert(order@.take(k + 1).last() == order@[k as int]);
        }
        let entry = order[k];
        positions.insert(entry.0, (k, entry.1));
        k = k + 1;
    }
    proof {
        assert(order@.take(k as int) =~= order@);
    }

    let mut r: Vec<EnrichedProcess> = Vec::new();
    let mut i: usize = 0;
    while i < n
        invariant
            i <= n,
            n == ps.len(),
            copies@.len() == n,
            forall|j: int| 0 <= j < n ==> same_snapshot(#[trigger] copies@[j], ps[j]),
            table@ == m,
            m == snapshot_table(ps),
            positions@ == order_positions(tree_order_model(m)),
            r@.len() == i,
            forall|j: int|
                #![trigger r@[j]]
                0 <= j < i ==> {
                    let p = ps[j];
                    let e = r@[j];
                    &&& same_snapshot(e.snapshot, p)
                    &&& e.parent_chain@ == parent_chain_model(m, p.pid, ANCESTOR_DEPTH as nat)
                    &&& classification_matches(e.classification, rule_hits(p, ancestors_of(m, e.parent_chain@)))
                    &&& identity_matches(
                        e.project,
                        ros2_process_model(opt_view(p.executable), string_views(p.command@)),
                    )
                    &&& (e.tree_order, e.tree_depth) == tree_position(tree_order_model(m), p.pid)
                },
        decreases n - i,
    {
        let snapshot = copies[i].duplicate();
        let chain = parent_chain(snapshot.pid, &table, ANCESTOR_DEPTH);
        let ancestors = ancestors_from(&chain, &table);
        let classification = classify(&snapshot, ancestors.as_slice());
        proof {
            lemma_rule_hits_by_content(snapshot, ps[i as int], ancestors@, ancestors_of(m, chain@));
        }
        let project = resolve_ros2_process(&snapshot);
        let (position, depth) = match positions.get(&snapshot.pid) {
            Some(v) => *v,
            None => (usize::MAX, 0),
        };
        r.push(
            EnrichedProcess {
                snapshot,
                classification,
                project,
                parent_chain: chain,
                tree_depth: depth,
                tree_order: position,
            },
        );
        i = i + 1;
    }
    r
}

} // verus!
