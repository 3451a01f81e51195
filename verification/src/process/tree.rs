use vstd::prelude::*;

use std::collections::HashMap;
use std::collections::HashSet;
use vstd::std_specs::iter::IteratorSpec;
use vstd::relations::{sorted_by, total_ordering};

use crate::process::model::ProcessSnapshot;

verus! {

broadcast use vstd::std_specs::hash::group_hash_axioms;

/// The ancestors of a process, nearest first: follows parent PIDs through the
/// known processes, at most `fuel` steps, stopping at a missing process, at a
/// non-positive parent, at a PID already on the chain (or the start), and
/// after reaching PID 1.
pub open spec fn chain_from(
    m: Map<i32, ProcessSnapshot>,
    current: i32,
    seen: Set<i32>,
    fuel: nat,
) -> Seq<i32>
    decreases fuel,
{
    if fuel == 0 || !m.contains_key(current) {
        Seq::<i32>::empty()
    } else {
        let parent = m[current].ppid;
        if parent <= 0 || seen.contains(parent) {
            Seq::<i32>::empty()
        } else if parent == 1 {
            seq![1i32]
        } else {
            seq![parent] + chain_from(m, parent, seen.insert(parent), (fuel - 1) as nat)
        }
    }
}

pub open spec fn parent_chain_model(m: Map<i32, ProcessSnapshot>, pid: i32, max_depth: nat) -> Seq<i32> {
    chain_from(m, pid, set![pid], max_depth)
}

fn vec_contains(v: &Vec<i32>, x: i32) -> (r: bool)
    ensures
        r == v@.contains(x),
{
    let mut i: usize = 0;
    while i < v.len()
        invariant
            i <= v.len(),
            forall|j: int| 0 <= j < i ==> v@[j] != x,
        decreases v.len() - i,
    {
        if v[i] == x {
            return true;
        }
        i = i + 1;
    }
    false
}

pub fn parent_chain(pid: i32, processes: &HashMap<i32, ProcessSnapshot>, max_depth: usize) -> (r: Vec<i32>)
    ensures
        r@ == parent_chain_model(processes@, pid, max_depth as nat),
{
    let mut chain: Vec<i32> = Vec::new();
    let mut visited: Vec<i32> = Vec::new();
    visited.push(pid);
    let mut current = pid;
    let mut step: usize = 0;
    let ghost mut seen: Set<i32> = set![pid];
    proof {
        assert forall|x: i32| visited@.contains(x) == seen.contains(x) by {
            if x == pid {
                assert(visited@[0] == pid);
            }
        }
    }
    while step < max_depth
        invariant
            step <= max_depth,
            forall|x: i32| visited@.contains(x) == seen.contains(x),
            chain@ + chain_from(processes@, current, seen, (max_depth - step) as nat)
                == parent_chain_model(processes@, pid, max_depth as nat),
        decreases max_depth - step,
    {
        let parent = match processes.get(&current) {
            Some(p) => p.ppid,
            None => {
                proof {
                    assert(chain@ + Seq::<i32>::empty() =~= chain@);
                }
                return chain;
            },
        };
        if parent <= 0 || vec_contains(&visited, parent) {
            proof {
                assert(chain@ + Seq::<i32>::empty() =~= chain@);
            }
            return chain;
        }
        chain.push(parent);
        if parent == 1 {
            return chain;
        }
        proof {
            let rest = chain_from(
                processes@,
                parent,
                seen.insert(parent),
                (max_depth - step - 1) as nat,
            );
            assert(chain@ + rest =~= old_chain_plus(chain@, parent, rest));
        }
        let ghost old_visited = visited@;
        visited.push(parent);
        proof {
            seen = seen.insert(parent);
            assert forall|x: i32| visited@.contains(x) == seen.contains(x) by {
                if x == parent {
                    assert(visited@[visited@.len() - 1] == parent);
                } else if old_visited.contains(x) {
                    let k = choose|k: int| 0 <= k < old_visited.len() && old_visited[k] == x;
                    assert(visited@[k] == x);
                } else if visited@.contains(x) {
                    let k = choose|k: int| 0 <= k < visited@.len() && visited@[k] == x;
                    assert(old_visited[k] == x);
                }
            }
        }
        current = parent;
        step = step + 1;
    }
    proof {
        assert(chain@ + Seq::<i32>::empty() =~= chain@);
    }
    chain
}


/// The keys of a process table, in the table's own order.
fn table_keys(processes: &HashMap<i32, ProcessSnapshot>) -> (ks: Vec<i32>)
    ensures
        ks@.to_set() == processes@.dom(),
        ks@.no_duplicates(),
{
    let mut ks: Vec<i32> = Vec::new();
    let ghost all: Seq<i32> = processes.keys().remaining().unref();
    for k in it: processes.keys()
        invariant
            it.seq().unref() == all,
            ks@.len() == it.index(),
            forall|j: int| 0 <= j < it.index() ==> ks@[j] == *it.seq()[j],
            all.to_set() == processes@.dom(),
            all.no_duplicates(),
            ks@.len() <= all.len(),
    {
        ks.push(*k);
    }
    assert(ks@ =~= all);
    ks
}

/// The order in which PIDs are sorted.
pub open spec fn pid_le() -> spec_fn(i32, i32) -> bool {
    |a: i32, b: i32| a <= b
}

pub open spec fn strictly_ascending(s: Seq<i32>) -> bool {
    forall|i: int, j: int| 0 <= i < j < s.len() ==> s[i] < s[j]
}

/// The keys of a process table in ascending order.
pub open spec fn ascending_keys(m: Map<i32, ProcessSnapshot>) -> Seq<i32> {
    choose|s: Seq<i32>| strictly_ascending(s) && s.to_set() == m.dom()
}

/// A process whose parent is not a positive PID of the table starts a tree.
pub open spec fn starts_tree(m: Map<i32, ProcessSnapshot>, k: i32) -> bool {
    m[k].ppid <= 0 || !m.dom().contains(m[k].ppid)
}

/// What the traversal reads of one table entry: its key, its PID, its parent
/// and whether it starts a tree.
pub open spec fn row_of(m: Map<i32, ProcessSnapshot>, k: i32) -> (i32, i32, i32, bool) {
    (k, m[k].pid, m[k].ppid, starts_tree(m, k))
}

/// Whether a table entry starts a tree.
pub open spec fn root_pred(m: Map<i32, ProcessSnapshot>) -> spec_fn(i32) -> bool {
    |k: i32| starts_tree(m, k)
}

/// Whether a table entry is a child of `parent`.
pub open spec fn child_pred(m: Map<i32, ProcessSnapshot>, parent: i32) -> spec_fn(i32) -> bool {
    |k: i32| !starts_tree(m, k) && m[k].ppid == parent
}

/// The PID recorded in a table entry.
pub open spec fn pid_of(m: Map<i32, ProcessSnapshot>) -> spec_fn(i32) -> i32 {
    |k: i32| m[k].pid
}

/// The rows the traversal reads, in ascending key order.
pub open spec fn row_fn(m: Map<i32, ProcessSnapshot>) -> spec_fn(i32) -> (i32, i32, i32, bool) {
    |k: i32| row_of(m, k)
}

/// Whether a key has not been visited yet.
pub open spec fn unseen_pred(seen: Set<i32>) -> spec_fn(i32) -> bool {
    |k: i32| !seen.contains(k)
}

/// The PIDs of the processes that start trees, ascending.
pub open spec fn root_pids(m: Map<i32, ProcessSnapshot>) -> Seq<i32> {
    ascending_keys(m).filter(root_pred(m)).map_values(pid_of(m)).sort_by(pid_le())
}

/// The PIDs of the children of a process, ascending.
pub open spec fn child_pids(m: Map<i32, ProcessSnapshot>, parent: i32) -> Seq<i32> {
    ascending_keys(m).filter(child_pred(m, parent)).map_values(pid_of(m)).sort_by(pid_le())
}

/// One level deeper, without wrapping.
pub open spec fn deeper(d: usize) -> usize {
    if d == usize::MAX {
        d
    } else {
        (d + 1) as usize
    }
}

/// Depth-first visit of a process and, in ascending order, its children:
/// what is appended to the order, and the set of PIDs seen afterwards. A PID
/// already seen adds nothing.
pub open spec fn visit_model(
    m: Map<i32, ProcessSnapshot>,
    pid: i32,
    depth: usize,
    seen: Set<i32>,
    fuel: nat,
) -> (Seq<(i32, usize)>, Set<i32>)
    decreases fuel, 0nat,
{
    if fuel == 0 || seen.contains(pid) {
        (Seq::empty(), seen)
    } else {
        let (below, after) = visit_each_model(
            m,
            child_pids(m, pid),
            deeper(depth),
            seen.insert(pid),
            (fuel - 1) as nat,
        );
        (seq![(pid, depth)] + below, after)
    }
}

/// Visits each PID of a list in turn.
pub open spec fn visit_each_model(
    m: Map<i32, ProcessSnapshot>,
    pids: Seq<i32>,
    depth: usize,
    seen: Set<i32>,
    fuel: nat,
) -> (Seq<(i32, usize)>, Set<i32>)
    decreases fuel, pids.len() + 1,
{
    if pids.len() == 0 {
        (Seq::empty(), seen)
    } else {
        let (first, s1) = visit_model(m, pids[0], depth, seen, fuel);
        let (rest, s2) = visit_each_model(m, pids.drop_first(), depth, s1, fuel);
        (first + rest, s2)
    }
}

/// Every PID or key the traversal can meet.
pub open spec fn tree_universe(m: Map<i32, ProcessSnapshot>) -> Set<i32> {
    (ascending_keys(m) + ascending_keys(m).map_values(pid_of(m))).to_set()
}

/// Enough steps for the traversal to meet every PID of the universe once.
pub open spec fn tree_fuel(m: Map<i32, ProcessSnapshot>) -> nat {
    2 * ascending_keys(m).len() + 1
}

/// Processes in tree order, each with its depth: the trees started by
/// processes without a known parent, in ascending PID order, each visited
/// depth first with children in ascending PID order; then, in ascending
/// order, every process left unvisited (a cycle), visited the same way.
pub open spec fn tree_order_model(m: Map<i32, ProcessSnapshot>) -> Seq<(i32, usize)> {
    let fuel = tree_fuel(m);
    let (first, seen) = visit_each_model(m, root_pids(m), 0, Set::empty(), fuel);
    let rest_starts = ascending_keys(m).filter(unseen_pred(seen));
    let (rest, _after) = visit_each_model(m, rest_starts, 0, seen, fuel);
    first + rest
}

pub(crate) proof fn lemma_pid_le_total()
    ensures
        total_ordering(pid_le()),
{
}

proof fn lemma_ascending_unique(a: Seq<i32>, b: Seq<i32>)
    requires
        strictly_ascending(a),
        strictly_ascending(b),
        a.to_set() == b.to_set(),
    ensures
        a == b,
    decreases a.len(),
{
    if a.len() == 0 {
        if b.len() > 0 {
            assert(b.to_set().contains(b[0]));
        }
    } else if b.len() == 0 {
        assert(a.to_set().contains(a[0]));
    } else {
        assert(a.to_set().contains(a[0]));
        assert(b.to_set().contains(b[0]));
        assert(b.contains(a[0]));
        assert(a.contains(b[0]));
        let i = choose|i: int| 0 <= i < b.len() && b[i] == a[0];
        let j = choose|j: int| 0 <= j < a.len() && a[j] == b[0];
        assert(b[0] <= b[i]);
        assert(a[0] <= a[j]);
        assert(a[0] == b[0]);
        let a1 = a.drop_first();
        let b1 = b.drop_first();
        assert forall|x: i32| a1.to_set().contains(x) implies b1.to_set().contains(x) by {
            let p = choose|p: int| 0 <= p < a1.len() && a1[p] == x;
            assert(a[p + 1] == x);
            assert(a.to_set().contains(x));
            let q = choose|q: int| 0 <= q < b.len() && b[q] == x;
            assert(q != 0);
            assert(b1[q - 1] == x);
        }
        assert forall|x: i32| b1.to_set().contains(x) implies a1.to_set().contains(x) by {
            let p = choose|p: int| 0 <= p < b1.len() && b1[p] == x;
            assert(b[p + 1] == x);
            assert(b.to_set().contains(x));
            let q = choose|q: int| 0 <= q < a.len() && a[q] == x;
            assert(q != 0);
            assert(a1[q - 1] == x);
        }
        assert(a1.to_set() =~= b1.to_set());
        lemma_ascending_unique(a1, b1);
        assert(a =~= seq![a[0]] + a1);
        assert(b =~= seq![b[0]] + b1);
    }
}

proof fn lemma_insert_to_multiset(s: Seq<i32>, i: int, x: i32)
    requires
        0 <= i <= s.len(),
    ensures
        s.insert(i, x).to_multiset() =~= s.to_multiset().insert(x),
{
    broadcast use vstd::seq_lib::group_to_multiset_ensures;
    vstd::seq_lib::lemma_multiset_commutative(s.take(i).push(x), s.skip(i));
    vstd::seq_lib::lemma_multiset_commutative(s.take(i), s.skip(i));
    assert(s.insert(i, x) =~= s.take(i).push(x) + s.skip(i));
    assert(s =~= s.take(i) + s.skip(i));
}

/// Sorts PIDs ascending (an insertion sort).
fn sort_pids(v: &mut Vec<i32>)
    ensures
        final(v)@.to_multiset() == old(v)@.to_multiset(),
        sorted_by(final(v)@, pid_le()),
{
    broadcast use vstd::seq_lib::group_to_multiset_ensures;
    let mut rest: Vec<i32> = Vec::new();
    std::mem::swap(&mut rest, v);
    let ghost all = rest@;
    let mut r: Vec<i32> = Vec::new();
    while rest.len() > 0
        invariant
            r@.to_multiset().add(rest@.to_multiset()) == all.to_multiset(),
            forall|a: int, b: int| 0 <= a < b < r@.len() ==> r@[a] <= r@[b],
        decreases rest.len(),
    {
        let ghost before = rest@;
        let x = rest.pop().unwrap();
        proof {
            assert(before =~= rest@.push(x));
            vstd::seq_lib::to_multiset_build(rest@, x);
            assert(before.to_multiset() =~= rest@.to_multiset().insert(x));
        }
        let mut pos: usize = 0;
        while pos < r.len() && r[pos] <= x
            invariant
                pos <= r@.len(),
                forall|k: int| 0 <= k < pos ==> r@[k] <= x,
            decreases r.len() - pos,
        {
            pos = pos + 1;
        }
        let ghost old_r = r@;
        proof {
            lemma_insert_to_multiset(old_r, pos as int, x);
        }
        r.insert(pos, x);
        proof {
            assert(r@ =~= old_r.insert(pos as int, x));
            assert(r@.to_multiset().add(rest@.to_multiset()) =~= old_r.to_multiset().add(before.to_multiset()));
            assert forall|a: int, b: int| 0 <= a < b < r@.len() implies r@[a] <= r@[b] by {
                if pos < old_r.len() {
                    assert(old_r[pos as int] > x);
                }
                if a < pos && b > pos {
                    assert(r@[b] == old_r[b - 1]);
                } else if a == pos && b > pos {
                    assert(r@[b] == old_r[b - 1]);
                    assert(old_r[pos as int] <= old_r[b - 1]);
                } else if a > pos {
                    assert(r@[a] == old_r[a - 1]);
                    assert(r@[b] == old_r[b - 1]);
                }
            }
        }
    }
    proof {
        assert(rest@.to_multiset() =~= vstd::multiset::Multiset::empty());
    }
    *v = r;
}

/// A sorted permutation of a sequence is its sorted form.
proof fn lemma_sorted_is_sort(s: Seq<i32>, t: Seq<i32>)
    requires
        t.to_multiset() == s.to_multiset(),
        sorted_by(t, pid_le()),
    ensures
        t == s.sort_by(pid_le()),
{
    lemma_pid_le_total();
    s.lemma_sort_by_ensures(pid_le());
    vstd::seq_lib::lemma_sorted_unique(t, s.sort_by(pid_le()), pid_le());
}

/// Sorting a sequence without duplicates gives a strictly ascending sequence
/// of the same elements.
proof fn lemma_sorted_distinct_ascending(before: Seq<i32>, s: Seq<i32>)
    requires
        before.no_duplicates(),
        s.to_multiset() == before.to_multiset(),
        sorted_by(s, pid_le()),
    ensures
        strictly_ascending(s),
        s.to_set() == before.to_set(),
{
    broadcast use vstd::seq_lib::group_to_multiset_ensures;
    before.lemma_multiset_has_no_duplicates();
    assert forall|i: int, j: int| 0 <= i < j < s.len() implies s[i] < s[j] by {
        assert(pid_le()(s[i], s[j]));
        if s[i] == s[j] {
            assert(s.remove(i).contains(s[i])) by {
                assert(s.remove(i)[j - 1] == s[j]);
            }
            assert(s.remove(i).to_multiset() =~= s.to_multiset().remove(s[i]));
            assert(before.to_multiset().count(s[i]) == 1);
            assert(s.remove(i).to_multiset().count(s[i]) > 0);
        }
    }
    assert forall|x: i32| s.to_set().contains(x) == before.to_set().contains(x) by {
        assert(s.contains(x) == (s.to_multiset().count(x) > 0));
        assert(before.contains(x) == (before.to_multiset().count(x) > 0));
    }
    assert(s.to_set() =~= before.to_set());
}

/// The keys of a process table in ascending order.
fn ascending_table_keys(processes: &HashMap<i32, ProcessSnapshot>) -> (ks: Vec<i32>)
    ensures
        ks@ == ascending_keys(processes@),
        ks@.to_set() == processes@.dom(),
        strictly_ascending(ks@),
{
    broadcast use vstd::seq_lib::group_to_multiset_ensures;
    let mut ks = table_keys(processes);
    let ghost before = ks@;
    sort_pids(&mut ks);
    proof {
        lemma_sorted_distinct_ascending(before, ks@);
        let c = ascending_keys(processes@);
        assert(strictly_ascending(c) && c.to_set() == processes@.dom());
        lemma_ascending_unique(ks@, c);
    }
    ks
}

proof fn lemma_universe(m: Map<i32, ProcessSnapshot>)
    requires
        strictly_ascending(ascending_keys(m)),
        ascending_keys(m).to_set() == m.dom(),
    ensures
        tree_universe(m).finite(),
        tree_universe(m).len() + 1 <= tree_fuel(m),
{
    let ks = ascending_keys(m);
    let u = ks + ks.map_values(pid_of(m));
    u.lemma_cardinality_of_set();
}

/// The table's rows in ascending key order.
fn table_rows(processes: &HashMap<i32, ProcessSnapshot>, keys: &Vec<i32>) -> (rows: Vec<(i32, i32, i32, bool)>)
    requires
        keys@ == ascending_keys(processes@),
        keys@.to_set() == processes@.dom(),
    ensures
        rows@ == keys@.map_values(row_fn(processes@)),
{
    let mut rows: Vec<(i32, i32, i32, bool)> = Vec::new();
    let mut i: usize = 0;
    while i < keys.len()
        invariant
            i <= keys.len(),
            keys@.to_set() == processes@.dom(),
            rows@ == keys@.take(i as int).map_values(row_fn(processes@)),
        decreases keys.len() - i,
    {
        let k = keys[i];
        assert(keys@.to_set().contains(k));
        match processes.get(&k) {
            Some(p) => {
                let root = p.ppid <= 0 || !processes.contains_key(&p.ppid);
                rows.push((k, p.pid, p.ppid, root));
            },
            None => {},
        }
        assert(keys@.take(i + 1) =~= keys@.take(i as int).push(k));
        assert(rows@ =~= keys@.take(i + 1).map_values(row_fn(processes@)));
        i = i + 1;
    }
    assert(keys@.take(keys@.len() as int) =~= keys@);
    rows
}

/// The table rows of `m`, in ascending key order.
pub open spec fn rows_of(rows: Seq<(i32, i32, i32, bool)>, m: Map<i32, ProcessSnapshot>) -> bool {
    &&& rows == ascending_keys(m).map_values(row_fn(m))
    &&& strictly_ascending(ascending_keys(m))
    &&& ascending_keys(m).to_set() == m.dom()
}

/// The PIDs of the rows that satisfy a predicate, ascending.
fn select_pids(
    rows: &Vec<(i32, i32, i32, bool)>,
    roots: bool,
    parent: i32,
    Ghost(m): Ghost<Map<i32, ProcessSnapshot>>,
) -> (r: Vec<i32>)
    requires
        rows_of(rows@, m),
    ensures
        roots ==> r@ == root_pids(m),
        !roots ==> r@ == child_pids(m, parent),
        forall|j: int| 0 <= j < r@.len() ==> tree_universe(m).contains(#[trigger] r@[j]),
{
    broadcast use vstd::seq_lib::group_to_multiset_ensures;
    let ghost ks = ascending_keys(m);
    let ghost pred = if roots { root_pred(m) } else { child_pred(m, parent) };
    let ghost u = ks + ks.map_values(pid_of(m));
    let mut v: Vec<i32> = Vec::new();
    let mut i: usize = 0;
    while i < rows.len()
        invariant
            i <= rows.len(),
            rows_of(rows@, m),
            ks == ascending_keys(m),
            u == ks + ks.map_values(pid_of(m)),
            pred == if roots { root_pred(m) } else { child_pred(m, parent) },
            v@ == ks.take(i as int).filter(pred).map_values(pid_of(m)),
            forall|j: int| 0 <= j < v@.len() ==> u.contains(#[trigger] v@[j]),
        decreases rows.len() - i,
    {
        let row = rows[i];
        let ghost k = ks[i as int];
        assert(row == row_of(m, k));
        let take = if roots { row.3 } else { !row.3 && row.2 == parent };
        proof {
            assert(ks.take(i + 1) =~= ks.take(i as int).push(k));
            ks.take(i as int).lemma_filter_push(k, pred);
        }
        if take {
            v.push(row.1);
            proof {
                assert(u[ks.len() + i] == row.1);
            }
        }
        assert(v@ =~= ks.take(i + 1).filter(pred).map_values(pid_of(m)));
        i = i + 1;
    }
    assert(ks.take(ks.len() as int) =~= ks);
    let ghost unsorted = v@;
    sort_pids(&mut v);
    proof {
        lemma_sorted_is_sort(unsorted, v@);
        assert forall|j: int| 0 <= j < v@.len() implies tree_universe(m).contains(#[trigger] v@[j]) by {
            assert(v@.contains(v@[j]));
            assert(v@.to_multiset().count(v@[j]) > 0);
            assert(unsorted.to_multiset().count(v@[j]) > 0);
            assert(unsorted.contains(v@[j]));
        }
    }
    v
}

fn visit(
    pid: i32,
    depth: usize,
    rows: &Vec<(i32, i32, i32, bool)>,
    visited: &mut HashSet<i32>,
    output: &mut Vec<(i32, usize)>,
    Ghost(m): Ghost<Map<i32, ProcessSnapshot>>,
    Ghost(fuel): Ghost<nat>,
)
    requires
        rows_of(rows@, m),
        tree_universe(m).finite(),
        tree_universe(m).contains(pid),
        old(visited)@.subset_of(tree_universe(m)),
        fuel >= tree_universe(m).len() - old(visited)@.len() + 1,
    ensures
        final(output)@ == old(output)@ + visit_model(m, pid, depth, old(visited)@, fuel).0,
        final(visited)@ == visit_model(m, pid, depth, old(visited)@, fuel).1,
        old(visited)@.subset_of(final(visited)@),
        final(visited)@.subset_of(tree_universe(m)),
    decreases fuel, 0nat,
{
    let ghost seen = visited@;
    proof {
        vstd::set_lib::lemma_len_subset(seen, tree_universe(m));
    }
    if !visited.insert(pid) {
        assert(visited@ =~= seen);
        assert(output@ =~= output@ + Seq::<(i32, usize)>::empty());
        return;
    }
    proof {
        vstd::set_lib::lemma_len_subset(seen.insert(pid), tree_universe(m));
    }
    output.push((pid, depth));
    let kids = select_pids(rows, false, pid, Ghost(m));
    let ghost out1 = output@;
    visit_each(&kids, depth.saturating_add(1), rows, visited, output, Ghost(m), Ghost((fuel - 1) as nat));
    proof {
        let below = visit_each_model(m, kids@, deeper(depth), seen.insert(pid), (fuel - 1) as nat);
        assert(output@ =~= old(output)@ + (seq![(pid, depth)] + below.0));
    }
}

fn visit_each(
    pids: &Vec<i32>,
    depth: usize,
    rows: &Vec<(i32, i32, i32, bool)>,
    visited: &mut HashSet<i32>,
    output: &mut Vec<(i32, usize)>,
    Ghost(m): Ghost<Map<i32, ProcessSnapshot>>,
    Ghost(fuel): Ghost<nat>,
)
    requires
        rows_of(rows@, m),
        tree_universe(m).finite(),
        forall|j: int| 0 <= j < pids@.len() ==> tree_universe(m).contains(#[trigger] pids@[j]),
        old(visited)@.subset_of(tree_universe(m)),
        fuel >= tree_universe(m).len() - old(visited)@.len() + 1,
    ensures
        final(output)@ == old(output)@ + visit_each_model(m, pids@, depth, old(visited)@, fuel).0,
        final(visited)@ == visit_each_model(m, pids@, depth, old(visited)@, fuel).1,
        old(visited)@.subset_of(final(visited)@),
        final(visited)@.subset_of(tree_universe(m)),
    decreases fuel, 1nat,
{
    let ghost out0 = output@;
    let ghost seen0 = visited@;
    let ghost total = visit_each_model(m, pids@, depth, seen0, fuel);
    let mut i: usize = 0;
    proof {
        assert(pids@.skip(0) =~= pids@);
        assert(out0 =~= out0 + Seq::<(i32, usize)>::empty());
    }
    while i < pids.len()
        invariant
            i <= pids.len(),
            rows_of(rows@, m),
            tree_universe(m).finite(),
            forall|j: int| 0 <= j < pids@.len() ==> tree_universe(m).contains(#[trigger] pids@[j]),
            seen0.subset_of(visited@),
            visited@.subset_of(tree_universe(m)),
            fuel >= tree_universe(m).len() - seen0.len() + 1,
            total == visit_each_model(m, pids@, depth, seen0, fuel),
            out0 + total.0 == output@ + visit_each_model(m, pids@.skip(i as int), depth, visited@, fuel).0,
            total.1 == visit_each_model(m, pids@.skip(i as int), depth, visited@, fuel).1,
        decreases pids.len() - i,
    {
        proof {
            vstd::set_lib::lemma_len_subset(seen0, visited@);
            assert(pids@.skip(i as int)[0] == pids@[i as int]);
            assert(pids@.skip(i as int).drop_first() =~= pids@.skip(i + 1));
        }
        let ghost before = output@;
        let ghost vis = visited@;
        visit(pids[i], depth, rows, visited, output, Ghost(m), Ghost(fuel));
        proof {
            let first = visit_model(m, pids@[i as int], depth, vis, fuel);
            let rest = visit_each_model(m, pids@.skip(i + 1), depth, first.1, fuel);
            assert(before + (first.0 + rest.0) =~= output@ + rest.0);
        }
        i = i + 1;
    }
    proof {
        assert(pids@.skip(i as int) =~= Seq::<i32>::empty());
        assert(output@ + Seq::<(i32, usize)>::empty() =~= output@);
    }
}

/// Processes in tree order with their depths: parents before their children,
/// siblings and trees in ascending PID order, and every process of a cycle
/// still listed once.
pub fn tree_order(processes: &HashMap<i32, ProcessSnapshot>) -> (r: Vec<(i32, usize)>)
    ensures
        r@ == tree_order_model(processes@),
{
    let ghost m = processes@;
    let keys = ascending_table_keys(processes);
    let rows = table_rows(processes, &keys);
    proof {
        lemma_universe(m);
    }
    let roots = select_pids(&rows, true, 0, Ghost(m));
    let mut order: Vec<(i32, usize)> = Vec::new();
    let mut visited: HashSet<i32> = HashSet::new();
    visit_each(&roots, 0, &rows, &mut visited, &mut order, Ghost(m), Ghost(tree_fuel(m)));
    let ghost seen = visited@;
    let ghost ks = keys@;
    let ghost u = ks + ks.map_values(pid_of(m));
    let mut leftovers: Vec<i32> = Vec::new();
    let mut i: usize = 0;
    while i < rows.len()
        invariant
            i <= rows.len(),
            rows_of(rows@, m),
            ks == ascending_keys(m),
            u == ks + ks.map_values(pid_of(m)),
            visited@ == seen,
            leftovers@ == ks.take(i as int).filter(unseen_pred(seen)),
            forall|j: int| 0 <= j < leftovers@.len() ==> u.contains(#[trigger] leftovers@[j]),
        decreases rows.len() - i,
    {
        let key = rows[i].0;
        proof {
            assert(key == ks[i as int]);
            assert(ks.take(i + 1) =~= ks.take(i as int).push(key));
            ks.take(i as int).lemma_filter_push(key, unseen_pred(seen));
        }
        if !visited.contains(&key) {
            leftovers.push(key);
            proof {
                assert(u[i as int] == key);
            }
        }
        i = i + 1;
    }
    proof {
        assert(ks.take(ks.len() as int) =~= ks);
    }
    visit_each(&leftovers, 0, &rows, &mut visited, &mut order, Ghost(m), Ghost(tree_fuel(m)));
    order
}

/// The PIDs of an order, without their depths.
pub open spec fn listed_pids(o: Seq<(i32, usize)>) -> Seq<i32> {
    o.map_values(|e: (i32, usize)| e.0)
}

proof fn lemma_to_seq_distinct(s: Set<i32>)
    requires
        s.finite(),
    ensures
        s.to_seq().no_duplicates(),
        s.to_seq().to_set() == s,
    decreases s.len(),
{
    s.lemma_to_seq_to_set_id();
    if s.len() > 0 {
        let x = s.choose();
        let rest = s.remove(x);
        lemma_to_seq_distinct(rest);
        let q = s.to_seq();
        assert(q == seq![x] + rest.to_seq());
        assert forall|i: int, j: int| 0 <= i < j < q.len() implies q[i] != q[j] by {
            if i == 0 {
                assert(rest.to_seq()[j - 1] == q[j]);
                assert(rest.to_seq().to_set().contains(q[j]));
            }
        }
    }
}

/// Every finite table has its keys in ascending order.
pub(crate) proof fn lemma_ascending_keys_exist(m: Map<i32, ProcessSnapshot>)
    requires
        m.dom().finite(),
    ensures
        strictly_ascending(ascending_keys(m)),
        ascending_keys(m).to_set() == m.dom(),
{
    lemma_to_seq_distinct(m.dom());
    let q = m.dom().to_seq();
    lemma_pid_le_total();
    q.lemma_sort_by_ensures(pid_le());
    lemma_sorted_distinct_ascending(q, q.sort_by(pid_le()));
}

/// Selected PIDs of a table belong to its universe.
proof fn lemma_selected_in_universe(m: Map<i32, ProcessSnapshot>, p: spec_fn(i32) -> bool)
    ensures
        forall|j: int|
            0 <= j < ascending_keys(m).filter(p).map_values(pid_of(m)).sort_by(pid_le()).len()
                ==> tree_universe(m).contains(
                #[trigger] ascending_keys(m).filter(p).map_values(pid_of(m)).sort_by(pid_le())[j],
            ),
{
    let ks = ascending_keys(m);
    let f = ks.filter(p);
    let mv = f.map_values(pid_of(m));
    let sorted = mv.sort_by(pid_le());
    let u = ks + ks.map_values(pid_of(m));
    lemma_pid_le_total();
    mv.lemma_sort_by_ensures(pid_le());
    assert forall|j: int| 0 <= j < sorted.len() implies tree_universe(m).contains(#[trigger] sorted[j]) by {
        assert(sorted.contains(sorted[j]));
        assert(mv.contains(sorted[j]));
        let t = choose|t: int| 0 <= t < mv.len() && mv[t] == sorted[j];
        assert(f.contains(f[t]));
        ks.lemma_filter_contains_rev(p, f[t]);
        let q = choose|q: int| 0 <= q < ks.len() && ks[q] == f[t];
        assert(u[ks.len() + q] == sorted[j]);
    }
}

proof fn lemma_visit_shape(m: Map<i32, ProcessSnapshot>, pid: i32, depth: usize, seen: Set<i32>, fuel: nat)
    ensures
        ({
            let r = visit_model(m, pid, depth, seen, fuel);
            &&& listed_pids(r.0).no_duplicates()
            &&& forall|i: int| 0 <= i < r.0.len() ==> !seen.contains(#[trigger] r.0[i].0)
            &&& r.1 == seen + listed_pids(r.0).to_set()
        }),
    decreases fuel, 0nat,
{
    let r = visit_model(m, pid, depth, seen, fuel);
    if fuel == 0 || seen.contains(pid) {
        assert(seen + listed_pids(r.0).to_set() =~= seen);
    } else {
        let s1 = seen.insert(pid);
        lemma_visit_each_shape(m, child_pids(m, pid), deeper(depth), s1, (fuel - 1) as nat);
        let below = visit_each_model(m, child_pids(m, pid), deeper(depth), s1, (fuel - 1) as nat);
        let lb = listed_pids(below.0);
        assert(listed_pids(r.0) =~= seq![pid] + lb);
        assert forall|i: int| 0 <= i < lb.len() implies lb[i] != pid && !seen.contains(lb[i]) by {
            assert(!s1.contains(below.0[i].0));
        }
        assert forall|x: i32| r.1.contains(x) == (seen + listed_pids(r.0).to_set()).contains(x) by {
            if lb.contains(x) {
                let i = choose|i: int| 0 <= i < lb.len() && lb[i] == x;
                assert(listed_pids(r.0)[i + 1] == x);
            }
            if listed_pids(r.0).contains(x) && x != pid {
                let i = choose|i: int| 0 <= i < listed_pids(r.0).len() && listed_pids(r.0)[i] == x;
                assert(lb[i - 1] == x);
            }
            if x == pid {
                assert(listed_pids(r.0)[0] == pid);
            }
        }
        assert(r.1 =~= seen + listed_pids(r.0).to_set());
    }
}

proof fn lemma_visit_each_shape(
    m: Map<i32, ProcessSnapshot>,
    pids: Seq<i32>,
    depth: usize,
    seen: Set<i32>,
    fuel: nat,
)
    ensures
        ({
            let r = visit_each_model(m, pids, depth, seen, fuel);
            &&& listed_pids(r.0).no_duplicates()
            &&& forall|i: int| 0 <= i < r.0.len() ==> !seen.contains(#[trigger] r.0[i].0)
            &&& r.1 == seen + listed_pids(r.0).to_set()
        }),
    decreases fuel, pids.len() + 1,
{
    let r = visit_each_model(m, pids, depth, seen, fuel);
    if pids.len() == 0 {
        assert(seen + listed_pids(r.0).to_set() =~= seen);
    } else {
        lemma_visit_shape(m, pids[0], depth, seen, fuel);
        let first = visit_model(m, pids[0], depth, seen, fuel);
        lemma_visit_each_shape(m, pids.drop_first(), depth, first.1, fuel);
        let rest = visit_each_model(m, pids.drop_first(), depth, first.1, fuel);
        let lf = listed_pids(first.0);
        let lr = listed_pids(rest.0);
        assert(listed_pids(r.0) =~= lf + lr);
        assert forall|i: int| 0 <= i < lr.len() implies !first.1.contains(lr[i]) by {
            assert(!first.1.contains(rest.0[i].0));
        }
        assert forall|i: int| 0 <= i < lf.len() implies first.1.contains(lf[i]) by {
            assert(lf.contains(lf[i]));
        }
        assert forall|i: int| 0 <= i < r.0.len() implies !seen.contains(#[trigger] r.0[i].0) by {
            if i < first.0.len() {
                assert(r.0[i] == first.0[i]);
            } else {
                assert(r.0[i] == rest.0[i - first.0.len()]);
                assert(lr[i - first.0.len()] == r.0[i].0);
            }
        }
        assert forall|i: int, j: int|
            0 <= i < j < listed_pids(r.0).len() implies listed_pids(r.0)[i] != listed_pids(r.0)[j] by {
            if j >= lf.len() && i < lf.len() {
                assert(listed_pids(r.0)[j] == lr[j - lf.len()]);
                assert(listed_pids(r.0)[i] == lf[i]);
            } else if i >= lf.len() {
                assert(listed_pids(r.0)[j] == lr[j - lf.len()]);
                assert(listed_pids(r.0)[i] == lr[i - lf.len()]);
            } else {
                assert(listed_pids(r.0)[j] == lf[j]);
                assert(listed_pids(r.0)[i] == lf[i]);
            }
        }
        assert forall|x: i32| r.1.contains(x) == (seen + listed_pids(r.0).to_set()).contains(x) by {
            if lf.contains(x) {
                let i = choose|i: int| 0 <= i < lf.len() && lf[i] == x;
                assert(listed_pids(r.0)[i] == x);
            }
            if lr.contains(x) {
                let i = choose|i: int| 0 <= i < lr.len() && lr[i] == x;
                assert(listed_pids(r.0)[lf.len() + i] == x);
            }
            if listed_pids(r.0).contains(x) {
                let i = choose|i: int| 0 <= i < listed_pids(r.0).len() && listed_pids(r.0)[i] == x;
                if i < lf.len() {
                    assert(lf[i] == x);
                } else {
                    assert(lr[i - lf.len()] == x);
                }
            }
        }
        assert(r.1 =~= seen + listed_pids(r.0).to_set());
    }
}

proof fn lemma_visit_covers(m: Map<i32, ProcessSnapshot>, pid: i32, depth: usize, seen: Set<i32>, fuel: nat)
    requires
        tree_universe(m).finite(),
        tree_universe(m).contains(pid),
        seen.subset_of(tree_universe(m)),
        fuel >= tree_universe(m).len() - seen.len() + 1,
    ensures
        ({
            let r = visit_model(m, pid, depth, seen, fuel);
            &&& r.1.contains(pid)
            &&& seen.subset_of(r.1)
            &&& r.1.subset_of(tree_universe(m))
        }),
    decreases fuel, 0nat,
{
    lemma_visit_shape(m, pid, depth, seen, fuel);
    vstd::set_lib::lemma_len_subset(seen, tree_universe(m));
    if !seen.contains(pid) {
        vstd::set_lib::lemma_len_subset(seen.insert(pid), tree_universe(m));
        lemma_selected_in_universe(m, child_pred(m, pid));
        lemma_visit_each_covers(m, child_pids(m, pid), deeper(depth), seen.insert(pid), (fuel - 1) as nat);
    }
}

proof fn lemma_visit_each_covers(
    m: Map<i32, ProcessSnapshot>,
    pids: Seq<i32>,
    depth: usize,
    seen: Set<i32>,
    fuel: nat,
)
    requires
        tree_universe(m).finite(),
        forall|j: int| 0 <= j < pids.len() ==> tree_universe(m).contains(#[trigger] pids[j]),
        seen.subset_of(tree_universe(m)),
        fuel >= tree_universe(m).len() - seen.len() + 1,
    ensures
        ({
            let r = visit_each_model(m, pids, depth, seen, fuel);
            &&& forall|j: int| 0 <= j < pids.len() ==> r.1.contains(#[trigger] pids[j])
            &&& seen.subset_of(r.1)
            &&& r.1.subset_of(tree_universe(m))
        }),
    decreases fuel, pids.len() + 1,
{
    if pids.len() > 0 {
        lemma_visit_covers(m, pids[0], depth, seen, fuel);
        let first = visit_model(m, pids[0], depth, seen, fuel);
        vstd::set_lib::lemma_len_subset(seen, first.1);
        assert forall|j: int| 0 <= j < pids.drop_first().len() implies tree_universe(m).contains(
            #[trigger] pids.drop_first()[j],
        ) by {
            assert(pids.drop_first()[j] == pids[j + 1]);
        }
        lemma_visit_each_covers(m, pids.drop_first(), depth, first.1, fuel);
        let r = visit_each_model(m, pids, depth, seen, fuel);
        assert forall|j: int| 0 <= j < pids.len() implies r.1.contains(#[trigger] pids[j]) by {
            if j > 0 {
                assert(pids.drop_first()[j - 1] == pids[j]);
            }
        }
    }
}

/// Tree order lists every process of a table keyed by PID exactly once, and
/// nothing else: processes caught in a cycle of parents stay visible.
pub proof fn tree_order_lists_each_process_once(m: Map<i32, ProcessSnapshot>)
    requires
        m.dom().finite(),
        forall|k: i32| m.dom().contains(k) ==> m[k].pid == k,
    ensures
        listed_pids(tree_order_model(m)).no_duplicates(),
        listed_pids(tree_order_model(m)).to_set() == m.dom(),
{
    lemma_ascending_keys_exist(m);
    lemma_universe(m);
    let ks = ascending_keys(m);
    let u = tree_universe(m);
    let fuel = tree_fuel(m);
    assert forall|x: i32| u.contains(x) implies m.dom().contains(x) by {
        let w = ks + ks.map_values(pid_of(m));
        let i = choose|i: int| 0 <= i < w.len() && w[i] == x;
        if i < ks.len() {
            assert(ks.to_set().contains(ks[i]));
        } else {
            assert(ks.to_set().contains(ks[i - ks.len()]));
        }
    }
    lemma_selected_in_universe(m, root_pred(m));
    let empty = Set::<i32>::empty();
    lemma_visit_each_shape(m, root_pids(m), 0, empty, fuel);
    lemma_visit_each_covers(m, root_pids(m), 0, empty, fuel);
    let (first, seen) = visit_each_model(m, root_pids(m), 0, empty, fuel);
    let starts = ks.filter(unseen_pred(seen));
    assert forall|j: int| 0 <= j < starts.len() implies u.contains(#[trigger] starts[j]) by {
        assert(starts.contains(starts[j]));
        ks.lemma_filter_contains_rev(unseen_pred(seen), starts[j]);
        let q = choose|q: int| 0 <= q < ks.len() && ks[q] == starts[j];
        assert((ks + ks.map_values(pid_of(m)))[q] == starts[j]);
    }
    lemma_visit_each_shape(m, starts, 0, seen, fuel);
    lemma_visit_each_covers(m, starts, 0, seen, fuel);
    let (rest, after) = visit_each_model(m, starts, 0, seen, fuel);
    let o = tree_order_model(m);
    let lf = listed_pids(first);
    let lr = listed_pids(rest);
    assert(o == first + rest);
    assert(listed_pids(o) =~= lf + lr);
    assert forall|i: int| 0 <= i < lf.len() implies seen.contains(lf[i]) by {
        assert(lf.contains(lf[i]));
    }
    assert forall|i: int, j: int|
        0 <= i < j < listed_pids(o).len() implies listed_pids(o)[i] != listed_pids(o)[j] by {
        if j >= lf.len() && i < lf.len() {
            assert(listed_pids(o)[j] == lr[j - lf.len()]);
            assert(!seen.contains(rest[j - lf.len()].0));
        } else if i >= lf.len() {
            assert(listed_pids(o)[j] == lr[j - lf.len()]);
            assert(listed_pids(o)[i] == lr[i - lf.len()]);
        } else {
            assert(listed_pids(o)[j] == lf[j]);
            assert(listed_pids(o)[i] == lf[i]);
        }
    }
    assert forall|x: i32| listed_pids(o).to_set().contains(x) == m.dom().contains(x) by {
        if listed_pids(o).contains(x) {
            let i = choose|i: int| 0 <= i < listed_pids(o).len() && listed_pids(o)[i] == x;
            if i < lf.len() {
                assert(lf[i] == x);
                assert(lf.contains(x));
            } else {
                assert(lr[i - lf.len()] == x);
                assert(lr.contains(x));
            }
            assert(after.contains(x));
        }
        if m.dom().contains(x) {
            assert(ks.to_set().contains(x));
            let q = choose|q: int| 0 <= q < ks.len() && ks[q] == x;
            if seen.contains(x) {
                assert(lf.to_set().contains(x));
                let i = choose|i: int| 0 <= i < lf.len() && lf[i] == x;
                assert(listed_pids(o)[i] == x);
            } else {
                assert(unseen_pred(seen)(ks[q]));
                ks.lemma_filter_contains(unseen_pred(seen), q);
                let j = choose|j: int| 0 <= j < starts.len() && starts[j] == x;
                assert(after.contains(starts[j]));
                assert(lr.to_set().contains(x));
                let i = choose|i: int| 0 <= i < lr.len() && lr[i] == x;
                assert(listed_pids(o)[lf.len() + i] == x);
            }
        }
    }
    assert(listed_pids(o).to_set() =~= m.dom());
}

pub open spec fn chain_links(m: Map<i32, ProcessSnapshot>, current: i32, seen: Set<i32>, c: Seq<i32>) -> bool {
    &&& c.no_duplicates()
    &&& forall|i: int| 0 <= i < c.len() ==> !seen.contains(#[trigger] c[i]) && c[i] > 0
    &&& c.len() > 0 ==> m.contains_key(current) && c[0] == m[current].ppid
    &&& forall|i: int| 0 <= i < c.len() - 1 ==> #[trigger] parent_link(m, c, i)
}

/// Entry `i + 1` of a chain is the parent of entry `i`.
pub open spec fn parent_link(m: Map<i32, ProcessSnapshot>, c: Seq<i32>, i: int) -> bool {
    m.contains_key(c[i]) && c[i + 1] == m[c[i]].ppid
}

proof fn lemma_chain_links_step(
    m: Map<i32, ProcessSnapshot>,
    current: i32,
    seen: Set<i32>,
    parent: i32,
    rest: Seq<i32>,
)
    requires
        m.contains_key(current),
        parent == m[current].ppid,
        parent > 0,
        !seen.contains(parent),
        chain_links(m, parent, seen.insert(parent), rest),
    ensures
        chain_links(m, current, seen, seq![parent] + rest),
{
    let s1 = seen.insert(parent);
    let c = seq![parent] + rest;
    assert forall|i: int| 0 <= i < c.len() implies !seen.contains(#[trigger] c[i]) && c[i] > 0 by {
        if i > 0 {
            assert(c[i] == rest[i - 1]);
        }
    }
    assert forall|i: int, j: int| 0 <= i < j < c.len() implies c[i] != c[j] by {
        assert(c[j] == rest[j - 1]);
        if i > 0 {
            assert(c[i] == rest[i - 1]);
        } else {
            assert(!s1.contains(rest[j - 1]));
        }
    }
    assert forall|i: int| 0 <= i < c.len() - 1 implies #[trigger] parent_link(m, c, i) by {
        assert(c[i + 1] == rest[i]);
        if i > 0 {
            assert(c[i] == rest[i - 1]);
            assert(parent_link(m, rest, i - 1));
        }
    }
    assert(c.no_duplicates());
    assert(c.len() > 0 ==> m.contains_key(current) && c[0] == m[current].ppid);
}

proof fn lemma_chain_from_shape(m: Map<i32, ProcessSnapshot>, current: i32, seen: Set<i32>, fuel: nat)
    ensures
        chain_from(m, current, seen, fuel).len() <= fuel,
        chain_links(m, current, seen, chain_from(m, current, seen, fuel)),
    decreases fuel,
{
    if fuel > 0 && m.contains_key(current) {
        let parent = m[current].ppid;
        if parent > 0 && !seen.contains(parent) {
            if parent == 1 {
                lemma_chain_links_step(m, current, seen, parent, Seq::empty());
                assert(seq![parent] + Seq::<i32>::empty() =~= seq![1i32]);
            } else {
                let s1 = seen.insert(parent);
                lemma_chain_from_shape(m, parent, s1, (fuel - 1) as nat);
                lemma_chain_links_step(m, current, seen, parent, chain_from(m, parent, s1, (fuel - 1) as nat));
            }
        }
    }
}

/// The ancestor chain follows parent links from the process upward: its first
/// entry is the process's parent, each later entry is the parent of the one
/// before, every entry is a positive PID, no PID occurs twice or equals the
/// start, and the chain is at most `max_depth` long.
pub proof fn parent_chain_follows_parents(m: Map<i32, ProcessSnapshot>, pid: i32, max_depth: nat)
    ensures
        ({
            let c = parent_chain_model(m, pid, max_depth);
            &&& c.len() <= max_depth
            &&& c.no_duplicates()
            &&& !c.contains(pid)
            &&& forall|i: int| 0 <= i < c.len() ==> #[trigger] c[i] > 0
            &&& c.len() > 0 ==> m.contains_key(pid) && c[0] == m[pid].ppid
            &&& forall|i: int| 0 <= i < c.len() - 1 ==> #[trigger] parent_link(m, c, i)
        }),
{
    lemma_chain_from_shape(m, pid, set![pid], max_depth);
    let c = parent_chain_model(m, pid, max_depth);
    assert(chain_links(m, pid, set![pid], c));
    if c.contains(pid) {
        let i = choose|i: int| 0 <= i < c.len() && c[i] == pid;
        assert(set![pid].contains(c[i]));
    }
}

proof fn lemma_chain_from_end(m: Map<i32, ProcessSnapshot>, current: i32, seen: Set<i32>, fuel: nat)
    ensures
        ({
            let c = chain_from(m, current, seen, fuel);
            let last = if c.len() == 0 {
                current
            } else {
                c.last()
            };
            &&& forall|i: int| 0 <= i < c.len() - 1 ==> #[trigger] c[i] != 1
            &&& c.len() == fuel || (c.len() > 0 && c.last() == 1) || !m.contains_key(last) || m[last].ppid <= 0
                || seen.contains(m[last].ppid) || c.contains(m[last].ppid)
        }),
    decreases fuel,
{
    if fuel > 0 && m.contains_key(current) {
        let parent = m[current].ppid;
        if parent > 0 && !seen.contains(parent) && parent != 1 {
            let s2 = seen.insert(parent);
            lemma_chain_from_end(m, parent, s2, (fuel - 1) as nat);
            let rest = chain_from(m, parent, s2, (fuel - 1) as nat);
            let c = chain_from(m, current, seen, fuel);
            assert(c == seq![parent] + rest);
            assert forall|i: int| 0 <= i < c.len() - 1 implies #[trigger] c[i] != 1 by {
                if i > 0 {
                    assert(c[i] == rest[i - 1]);
                }
            }
            if rest.len() > 0 {
                assert(c.last() == rest.last());
            }
            let last = if rest.len() == 0 {
                parent
            } else {
                rest.last()
            };
            if m.contains_key(last) {
                let x = m[last].ppid;
                if rest.contains(x) {
                    let j = choose|j: int| 0 <= j < rest.len() && rest[j] == x;
                    assert(c[j + 1] == x);
                }
                if x == parent {
                    assert(c[0] == x);
                }
            }
        }
    }
}

/// Where the chain of ancestors ends: after `max_depth` of them, right after
/// PID 1 (which appears nowhere else), or at its last process when that
/// process is not among the known ones, has no positive parent, or has a
/// parent that is the start or already on the chain.
pub proof fn parent_chain_ends_where_it_should(m: Map<i32, ProcessSnapshot>, pid: i32, max_depth: nat)
    ensures
        ({
            let c = parent_chain_model(m, pid, max_depth);
            let last = if c.len() == 0 {
                pid
            } else {
                c.last()
            };
            &&& forall|i: int| 0 <= i < c.len() - 1 ==> #[trigger] c[i] != 1
            &&& c.len() == max_depth || (c.len() > 0 && c.last() == 1) || !m.contains_key(last) || m[last].ppid <= 0
                || m[last].ppid == pid || c.contains(m[last].ppid)
        }),
{
    lemma_chain_from_end(m, pid, set![pid], max_depth);
}

spec fn old_chain_plus(chain: Seq<i32>, parent: i32, rest: Seq<i32>) -> Seq<i32> {
    chain.drop_last() + (seq![parent] + rest)
}

} // verus!
