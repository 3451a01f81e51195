//! What the topic graph always holds.

use vstd::prelude::*;

use crate::process::model::string_views;
use crate::path::file_name;
use crate::process::model::ProcessSnapshot;
use crate::process::resolver::opt_view;
use crate::ros2_probe::node_scanner::RosNodeInfo;
use crate::ros2_probe::process_mapper::{
    explicit_node_name_model, first_where, lemma_explicit_at, map_node_model, names_node, remap_at, MappingConfidence,
    MappingSource,
};
use crate::text::starts_with;
use crate::ros2_probe::topic_stats::{edges_model, publisher_edges, RosTopicInfo};

verus! {

/// The number of publisher-to-subscriber pairs over a list of topics.
pub open spec fn pair_count(ts: Seq<RosTopicInfo>) -> nat
    decreases ts.len(),
{
    if ts.len() == 0 {
        0
    } else {
        pair_count(ts.drop_last()) + ts.last().publishers@.len() * ts.last().subscribers@.len()
    }
}

proof fn lemma_publisher_edges_len(
    topic: Seq<char>,
    pubs: Seq<Seq<char>>,
    subs: Seq<Seq<char>>,
    types: Seq<Seq<char>>,
)
    ensures
        publisher_edges(topic, pubs, subs, types).len() == pubs.len() * subs.len(),
    decreases pubs.len(),
{
    if pubs.len() > 0 {
        lemma_publisher_edges_len(topic, pubs.drop_last(), subs, types);
        assert(pubs.len() * subs.len() == (pubs.len() - 1) * subs.len() + subs.len()) by (nonlinear_arith);
    }
}

/// There is one edge for each publisher and each subscriber of a topic,
/// topic by topic: the number of edges is the sum over the topics of
/// publishers times subscribers.
pub proof fn one_edge_per_publisher_and_subscriber(ts: Seq<RosTopicInfo>)
    ensures
        edges_model(ts).len() == pair_count(ts),
    decreases ts.len(),
{
    if ts.len() > 0 {
        one_edge_per_publisher_and_subscriber(ts.drop_last());
        let t = ts.last();
        lemma_publisher_edges_len(
            t.name@,
            string_views(t.publishers@),
            string_views(t.subscribers@),
            string_views(t.message_types@),
        );
    }
}


/// A process goes by a name: its own name is that name, or its executable's
/// file name is.
pub open spec fn goes_by(p: ProcessSnapshot, name: Seq<char>) -> bool {
    p.name@ == name || match opt_view(p.executable) {
        Some(e) => file_name(e) == Some(name),
        None => false,
    }
}

proof fn lemma_first_where_none(ps: Seq<ProcessSnapshot>, f: spec_fn(ProcessSnapshot) -> bool)
    requires
        forall|j: int| 0 <= j < ps.len() ==> !f(ps[j]),
    ensures
        first_where(ps, f) is None,
    decreases ps.len(),
{
    if ps.len() > 0 {
        assert forall|j: int| 0 <= j < ps.drop_last().len() implies !f(ps.drop_last()[j]) by {
            assert(ps.drop_last()[j] == ps[j]);
        }
        lemma_first_where_none(ps.drop_last(), f);
        assert(!f(ps[ps.len() - 1]));
    }
}

proof fn lemma_first_where_is(ps: Seq<ProcessSnapshot>, f: spec_fn(ProcessSnapshot) -> bool, i: int)
    requires
        0 <= i < ps.len(),
        f(ps[i]),
        forall|j: int| 0 <= j < i ==> !f(ps[j]),
    ensures
        first_where(ps, f) == Some(i),
    decreases ps.len(),
{
    let d = ps.drop_last();
    if i < ps.len() - 1 {
        assert(d[i] == ps[i]);
        assert forall|j: int| 0 <= j < i implies !f(d[j]) by {
            assert(d[j] == ps[j]);
        }
        lemma_first_where_is(d, f, i);
    } else {
        assert forall|j: int| 0 <= j < d.len() implies !f(d[j]) by {
            assert(d[j] == ps[j]);
        }
        lemma_first_where_none(d, f);
        assert(ps.last() == ps[i]);
    }
}

/// A node that no process names on its command line is mapped, with strong
/// confidence, to the first process that goes by the node's name, by its own
/// name or by its executable's file name (so a process whose name was cut
/// short is still found by its executable); the source is the command line
/// when that holds a `ros2` argument, else the executable.
pub proof fn node_maps_to_first_process_going_by_its_name(node: RosNodeInfo, ps: Seq<ProcessSnapshot>, i: int)
    requires
        0 <= i < ps.len(),
        forall|j: int| 0 <= j < ps.len() ==> !names_node(#[trigger] ps[j], node),
        goes_by(ps[i], node.name@),
        forall|j: int| 0 <= j < i ==> !goes_by(#[trigger] ps[j], node.name@),
    ensures
        map_node_model(node, ps) == (
            Some(ps[i].identity),
            MappingConfidence::Strong,
            if string_views(ps[i].command@).contains("ros2"@) {
                MappingSource::ProcessCmdline
            } else {
                MappingSource::ExecutableMatch
            },
        ),
{
    let fe = |p: ProcessSnapshot| names_node(p, node);
    let fs = |p: ProcessSnapshot| crate::ros2_probe::process_mapper::runs_as_node(p, node);
    assert forall|j: int| 0 <= j < ps.len() implies !fe(ps[j]) by {
        assert(!names_node(ps[j], node));
    }
    lemma_first_where_none(ps, fe);
    assert forall|j: int| 0 <= j < i implies !fs(ps[j]) by {
        assert(!goes_by(ps[j], node.name@));
    }
    lemma_first_where_is(ps, fs, i);
}

/// A node that no process names on its command line and no process goes by
/// is mapped to no process, with unknown confidence and source.
pub proof fn node_without_process_is_unknown(node: RosNodeInfo, ps: Seq<ProcessSnapshot>)
    requires
        forall|j: int| 0 <= j < ps.len() ==> !names_node(#[trigger] ps[j], node),
        forall|j: int| 0 <= j < ps.len() ==> !goes_by(#[trigger] ps[j], node.name@),
    ensures
        map_node_model(node, ps) == (None::<crate::process::model::ProcessIdentity>, MappingConfidence::Unknown, MappingSource::Unknown),
{
    let fe = |p: ProcessSnapshot| names_node(p, node);
    let fs = |p: ProcessSnapshot| crate::ros2_probe::process_mapper::runs_as_node(p, node);
    assert forall|j: int| 0 <= j < ps.len() implies !fe(ps[j]) by {
        assert(!names_node(ps[j], node));
    }
    lemma_first_where_none(ps, fe);
    assert forall|j: int| 0 <= j < ps.len() implies !fs(ps[j]) by {
        assert(!goes_by(ps[j], node.name@));
    }
    lemma_first_where_none(ps, fs);
}


/// An argument that sets a node name by itself, or a flag that makes the
/// next argument do so.
pub open spec fn may_set_node(arg: Seq<char>) -> bool {
    arg == "-r"@ || arg == "--remap"@ || starts_with(arg, "__node:="@)
}

/// The node name of a command line is that of its first `__node:=<name>`
/// argument, alone or after `-r` or `--remap`; a command line with no
/// argument starting with `__node:=` sets none.
pub proof fn explicit_node_name_is_the_first_remap(command: Seq<Seq<char>>, i: int, name: Seq<char>)
    requires
        0 <= i < command.len(),
        forall|j: int| 0 <= j < i ==> !may_set_node(#[trigger] command[j]),
        command[i] == "__node:="@ + name || ((command[i] == "-r"@ || command[i] == "--remap"@) && i + 1
            < command.len() && command[i + 1] == "__node:="@ + name),
    ensures
        explicit_node_name_model(command) == Some(name),
{
    reveal_strlit("__node:=");
    reveal_strlit("-r");
    reveal_strlit("--remap");
    assert forall|j: int| 0 <= j < i implies remap_at(command, j) is None by {
        assert(!may_set_node(command[j]));
    }
    if command[i] == "__node:="@ + name {
        assert(("__node:="@ + name).take(8) =~= "__node:="@);
        assert(("__node:="@ + name).skip(8) =~= name);
        assert(command[i] != "-r"@) by {
            assert(command[i].len() != 2 || command[i][0] != '-');
        }
        assert(command[i] != "--remap"@) by {
            assert(command[i][0] != '-');
        }
    } else {
        assert(("__node:="@ + name).take(8) =~= "__node:="@);
        assert(("__node:="@ + name).skip(8) =~= name);
    }
    lemma_explicit_at(command, i);
}

/// A command line with no argument that starts with `__node:=` sets no node
/// name.
pub proof fn no_node_prefix_sets_no_name(command: Seq<Seq<char>>)
    requires
        forall|j: int| 0 <= j < command.len() ==> !starts_with(#[trigger] command[j], "__node:="@),
    ensures
        explicit_node_name_model(command) is None,
{
    assert forall|j: int| 0 <= j < command.len() implies remap_at(command, j) is None by {
        assert(!starts_with(command[j], "__node:="@));
        if j + 1 < command.len() {
            assert(!starts_with(command[j + 1], "__node:="@));
        }
    }
}

/// A node is mapped, with exact confidence, to the first process whose
/// command line names it explicitly.
pub proof fn node_maps_to_first_process_naming_it(node: RosNodeInfo, ps: Seq<ProcessSnapshot>, i: int)
    requires
        0 <= i < ps.len(),
        names_node(ps[i], node),
        forall|j: int| 0 <= j < i ==> !names_node(#[trigger] ps[j], node),
    ensures
        map_node_model(node, ps) == (Some(ps[i].identity), MappingConfidence::Exact, MappingSource::ExplicitRosArgs),
{
    let fe = |p: ProcessSnapshot| names_node(p, node);
    assert forall|j: int| 0 <= j < i implies !fe(ps[j]) by {
        assert(!names_node(ps[j], node));
    }
    lemma_first_where_is(ps, fe, i);
}

} // verus!
