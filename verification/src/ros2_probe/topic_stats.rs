use vstd::prelude::*;

use std::time::Duration;

use crate::order::{ascending_texts, insert_text, text_lt};
use crate::process::model::string_views;
use crate::ros2_probe::node_scanner::{RosGraphError, RosNodeInfo};
use crate::split::{lines, lines_of, split_once_sub, split_once_sub_exec, trim, trim_exec, views};
use crate::text::{chars_eq, chars_of, eq_str, starts_with, starts_with_str, string_of, text_from_bytes_lossy};
use crate::time::{duration_from_nanos, duration_nanos};

verus! {

/// A topic a node publishes or subscribes to, with its message type.
#[derive(Debug, Clone, PartialEq, Eq)]
pub struct RosTopicEndpoint {
    pub topic: String,
    pub message_type: String,
}

/// The topics one node publishes and subscribes to.
#[derive(Debug, Clone, PartialEq, Eq)]
pub struct RosNodeTopology {
    pub node: String,
    pub publishers: Vec<RosTopicEndpoint>,
    pub subscribers: Vec<RosTopicEndpoint>,
}

/// A topic with its message types and the nodes on each side, each list in
/// ascending order without repeats.
#[derive(Debug, Clone, PartialEq, Eq)]
pub struct RosTopicInfo {
    pub name: String,
    pub message_types: Vec<String>,
    pub publishers: Vec<String>,
    pub subscribers: Vec<String>,
}

/// Data flowing over a topic from one node to another.
#[derive(Debug, Clone, PartialEq, Eq)]
pub struct RosTopicEdge {
    pub topic: String,
    pub publisher_node: String,
    pub subscriber_node: String,
    pub message_types: Vec<String>,
}

/// A source of the topics of the graph and the edges between its nodes.
pub trait RosTopicTopologyProvider {
    fn discover(&self, nodes: &[RosNodeInfo]) -> Result<(Vec<RosTopicInfo>, Vec<RosTopicEdge>, Duration), RosGraphError>;
}

/// Reads topology with `ros2 node info`, node by node, each with a timeout.
#[derive(Debug, Clone, Copy)]
pub struct CliRosTopicTopologyProvider {
    timeout_per_node: Duration,
}

impl Default for CliRosTopicTopologyProvider {
    fn default() -> (r: Self)
        ensures
            duration_nanos(r.timeout_per_node_view()) == 2_000_000_000,
    {
        CliRosTopicTopologyProvider { timeout_per_node: duration_from_nanos(2_000_000_000) }
    }
}

impl CliRosTopicTopologyProvider {
    pub closed spec fn timeout_per_node_view(&self) -> Duration {
        self.timeout_per_node
    }

    pub fn with_timeout_per_node(timeout_per_node: Duration) -> (r: Self)
        ensures
            r.timeout_per_node_view() == timeout_per_node,
    {
        CliRosTopicTopologyProvider { timeout_per_node }
    }

    /// How long `ros2 node info` may run for one node.
    pub fn timeout_per_node(&self) -> (r: Duration)
        ensures
            r == self.timeout_per_node_view(),
    {
        self.timeout_per_node
    }
}

pub open spec fn endpoint_view(e: RosTopicEndpoint) -> (Seq<char>, Seq<char>) {
    (e.topic@, e.message_type@)
}

pub open spec fn endpoint_views(es: Seq<RosTopicEndpoint>) -> Seq<(Seq<char>, Seq<char>)> {
    es.map_values(|e: RosTopicEndpoint| endpoint_view(e))
}

/// The endpoint a line `<topic>: <type>` lists: the topic must start with `/`
/// and the type must not be empty.
pub open spec fn endpoint_of(line: Seq<char>) -> Option<(Seq<char>, Seq<char>)> {
    match split_once_sub(line, ": "@) {
        Some((topic, message_type)) => if starts_with(topic, "/"@) && message_type.len() > 0 {
            Some((topic, message_type))
        } else {
            None
        },
        None => None,
    }
}

pub fn parse_endpoint(line: &Vec<char>) -> (r: Option<RosTopicEndpoint>)
    ensures
        match (r, endpoint_of(line@)) {
            (Some(e), Some(m)) => endpoint_view(e) == m,
            (None, None) => true,
            _ => false,
        },
{
    let sep = chars_of(": ");
    match split_once_sub_exec(line, &sep) {
        Some((topic, message_type)) => {
            if starts_with_str(&topic, "/") && message_type.len() > 0 {
                Some(RosTopicEndpoint { topic: string_of(&topic), message_type: string_of(&message_type) })
            } else {
                None
            }
        },
        None => None,
    }
}

/// Which list of `ros2 node info` the lines being read belong to.
#[derive(Debug, Clone, Copy, PartialEq, Eq, Structural)]
pub enum EndpointSection {
    Elsewhere,
    Publishers,
    Subscribers,
}

/// The section a trimmed heading line opens, if it is a heading.
pub open spec fn heading_of(line: Seq<char>) -> Option<EndpointSection> {
    if line == "Publishers:"@ {
        Some(EndpointSection::Publishers)
    } else if line == "Subscribers:"@ {
        Some(EndpointSection::Subscribers)
    } else if line == "Service Servers:"@ || line == "Service Clients:"@ || line == "Action Servers:"@
        || line == "Action Clients:"@ {
        Some(EndpointSection::Elsewhere)
    } else {
        None
    }
}

/// The section reached and the publishers and subscribers listed after
/// reading some lines of `ros2 node info`.
pub open spec fn node_info_state(ls: Seq<Seq<char>>) -> (EndpointSection, Seq<(Seq<char>, Seq<char>)>, Seq<(Seq<char>, Seq<char>)>)
    decreases ls.len(),
{
    if ls.len() == 0 {
        (EndpointSection::Elsewhere, Seq::empty(), Seq::empty())
    } else {
        let (section, pubs, subs) = node_info_state(ls.drop_last());
        let line = trim(ls.last());
        match heading_of(line) {
            Some(next) => (next, pubs, subs),
            None => match endpoint_of(line) {
                Some(e) => match section {
                    EndpointSection::Publishers => (section, pubs.push(e), subs),
                    EndpointSection::Subscribers => (section, pubs, subs.push(e)),
                    EndpointSection::Elsewhere => (section, pubs, subs),
                },
                None => (section, pubs, subs),
            },
        }
    }
}

fn heading_exec(line: &Vec<char>) -> (r: Option<EndpointSection>)
    ensures
        r == heading_of(line@),
{
    if eq_str(line, "Publishers:") {
        Some(EndpointSection::Publishers)
    } else if eq_str(line, "Subscribers:") {
        Some(EndpointSection::Subscribers)
    } else if eq_str(line, "Service Servers:") || eq_str(line, "Service Clients:") || eq_str(
        line,
        "Action Servers:",
    ) || eq_str(line, "Action Clients:") {
        Some(EndpointSection::Elsewhere)
    } else {
        None
    }
}

/// The publishers and subscribers listed in the text `ros2 node info` prints
/// for a node.
pub fn parse_node_info_text(node: &str, text: &str) -> (r: RosNodeTopology)
    ensures
        r.node@ == node@,
        endpoint_views(r.publishers@) == node_info_state(lines(text@)).1,
        endpoint_views(r.subscribers@) == node_info_state(lines(text@)).2,
{
    let chars = chars_of(text);
    let ls = lines_of(&chars);
    let mut section = EndpointSection::Elsewhere;
    let mut publishers: Vec<RosTopicEndpoint> = Vec::new();
    let mut subscribers: Vec<RosTopicEndpoint> = Vec::new();
    let mut i: usize = 0;
    while i < ls.len()
        invariant
            i <= ls.len(),
            views(ls@) == lines(text@),
            node_info_state(views(ls@).take(i as int)) == (
                section,
                endpoint_views(publishers@),
                endpoint_views(subscribers@),
            ),
        decreases ls.len() - i,
    {
        proof {
            let t = views(ls@).take(i + 1);
            assert(t.drop_last() =~= views(ls@).take(i as int));
            assert(t.last() == ls@[i as int]@);
        }
        let line = trim_exec(&ls[i]);
        match heading_exec(&line) {
            Some(next) => {
                section = next;
            },
            None => {
                match parse_endpoint(&line) {
                    Some(e) => {
                        let ghost ev = endpoint_view(e);
                        match section {
                            EndpointSection::Publishers => {
                                let ghost before = publishers@;
                                publishers.push(e);
                                assert(endpoint_views(publishers@) =~= endpoint_views(before).push(ev));
                            },
                            EndpointSection::Subscribers => {
                                let ghost before = subscribers@;
                                subscribers.push(e);
                                assert(endpoint_views(subscribers@) =~= endpoint_views(before).push(ev));
                            },
                            EndpointSection::Elsewhere => {},
                        }
                    },
                    None => {},
                }
            },
        }
        i = i + 1;
    }
    proof {
        assert(views(ls@).take(ls@.len() as int) =~= views(ls@));
    }
    RosNodeTopology { node: crate::text::owned(node), publishers, subscribers }
}

/// The publishers and subscribers listed in the bytes `ros2 node info`
/// prints for a node.
pub fn parse_node_info(node: &str, output: &[u8]) -> (r: RosNodeTopology)
    ensures
        r.node@ == node@,
        endpoint_views(r.publishers@) == node_info_state(lines(crate::text::lossy_text(output@))).1,
        endpoint_views(r.subscribers@) == node_info_state(lines(crate::text::lossy_text(output@))).2,
{
    let text = text_from_bytes_lossy(output);
    parse_node_info_text(node, text.as_str())
}

/// The endpoints of one node as the aggregation reads them: the node, whether
/// it publishes, the topic and the message type.
pub open spec fn node_rows(n: RosNodeTopology) -> Seq<(Seq<char>, bool, Seq<char>, Seq<char>)> {
    n.publishers@.map_values(|e: RosTopicEndpoint| (n.node@, true, e.topic@, e.message_type@))
        + n.subscribers@.map_values(|e: RosTopicEndpoint| (n.node@, false, e.topic@, e.message_type@))
}

/// Every endpoint of every node, node by node, publishers first.
pub open spec fn topology_rows(ns: Seq<RosNodeTopology>) -> Seq<(Seq<char>, bool, Seq<char>, Seq<char>)>
    decreases ns.len(),
{
    if ns.len() == 0 {
        Seq::empty()
    } else {
        topology_rows(ns.drop_last()) + node_rows(ns.last())
    }
}

/// What an aggregation step takes from a row, if anything.
pub open spec fn select(mode: u8, topic: Seq<char>, row: (Seq<char>, bool, Seq<char>, Seq<char>)) -> Option<Seq<char>> {
    if mode == 0 {
        Some(row.2)
    } else if row.2 != topic {
        None
    } else if mode == 1 {
        Some(row.3)
    } else if mode == 2 {
        if row.1 {
            Some(row.0)
        } else {
            None
        }
    } else {
        if row.1 {
            None
        } else {
            Some(row.0)
        }
    }
}

/// The texts a selection takes from some rows.
pub open spec fn picked(rows: Seq<(Seq<char>, bool, Seq<char>, Seq<char>)>, mode: u8, topic: Seq<char>) -> Set<Seq<char>> {
    Set::new(|x: Seq<char>| exists|q: int| 0 <= q < rows.len() && select(mode, topic, #[trigger] rows[q]) == Some(x))
}

/// All topics named by the endpoints.
pub open spec fn topic_names(rows: Seq<(Seq<char>, bool, Seq<char>, Seq<char>)>) -> Set<Seq<char>> {
    picked(rows, 0, Seq::empty())
}

/// The message types given for a topic.
pub open spec fn topic_types(rows: Seq<(Seq<char>, bool, Seq<char>, Seq<char>)>, t: Seq<char>) -> Set<Seq<char>> {
    picked(rows, 1, t)
}

/// The nodes that publish a topic.
pub open spec fn topic_publishers(rows: Seq<(Seq<char>, bool, Seq<char>, Seq<char>)>, t: Seq<char>) -> Set<Seq<char>> {
    picked(rows, 2, t)
}

/// The nodes that subscribe to a topic.
pub open spec fn topic_subscribers(rows: Seq<(Seq<char>, bool, Seq<char>, Seq<char>)>, t: Seq<char>) -> Set<Seq<char>> {
    picked(rows, 3, t)
}

proof fn lemma_picked_push(rows: Seq<(Seq<char>, bool, Seq<char>, Seq<char>)>, k: int, mode: u8, topic: Seq<char>)
    requires
        0 <= k < rows.len(),
    ensures
        picked(rows.take(k + 1), mode, topic) == match select(mode, topic, rows[k]) {
            Some(x) => picked(rows.take(k), mode, topic).insert(x),
            None => picked(rows.take(k), mode, topic),
        },
{
    let a = rows.take(k);
    let b = rows.take(k + 1);
    let expected = match select(mode, topic, rows[k]) {
        Some(x) => picked(a, mode, topic).insert(x),
        None => picked(a, mode, topic),
    };
    assert forall|x: Seq<char>| picked(b, mode, topic).contains(x) == expected.contains(x) by {
        if picked(b, mode, topic).contains(x) {
            let q = choose|q: int| 0 <= q < b.len() && select(mode, topic, #[trigger] b[q]) == Some(x);
            if q < k {
                assert(a[q] == b[q]);
            }
        }
        if picked(a, mode, topic).contains(x) {
            let q = choose|q: int| 0 <= q < a.len() && select(mode, topic, #[trigger] a[q]) == Some(x);
            assert(b[q] == a[q]);
        }
        if select(mode, topic, rows[k]) == Some(x) {
            assert(b[k] == rows[k]);
        }
    }
    assert(picked(b, mode, topic) =~= expected);
}

pub open spec fn row_view(r: (String, bool, String, String)) -> (Seq<char>, bool, Seq<char>, Seq<char>) {
    (r.0@, r.1, r.2@, r.3@)
}

pub open spec fn row_views(rs: Seq<(String, bool, String, String)>) -> Seq<(Seq<char>, bool, Seq<char>, Seq<char>)> {
    rs.map_values(|r: (String, bool, String, String)| row_view(r))
}

fn push_endpoint_rows(rows: &mut Vec<(String, bool, String, String)>, node: &String, eps: &Vec<RosTopicEndpoint>, publishes: bool)
    ensures
        row_views(final(rows)@) == row_views(old(rows)@) + eps@.map_values(
            |e: RosTopicEndpoint| (node@, publishes, e.topic@, e.message_type@),
        ),
{
    let ghost start = row_views(rows@);
    let ghost f = |e: RosTopicEndpoint| (node@, publishes, e.topic@, e.message_type@);
    let mut i: usize = 0;
    while i < eps.len()
        invariant
            i <= eps.len(),
            f == (|e: RosTopicEndpoint| (node@, publishes, e.topic@, e.message_type@)),
            row_views(rows@) == start + eps@.take(i as int).map_values(f),
        decreases eps.len() - i,
    {
        let ghost before = rows@;
        rows.push((node.clone(), publishes, eps[i].topic.clone(), eps[i].message_type.clone()));
        proof {
            assert(eps@.take(i + 1) =~= eps@.take(i as int).push(eps@[i as int]));
            assert(row_views(rows@) =~= row_views(before).push(f(eps@[i as int])));
            assert(eps@.take(i + 1).map_values(f) =~= eps@.take(i as int).map_values(f).push(f(eps@[i as int])));
        }
        i = i + 1;
    }
    assert(eps@.take(eps@.len() as int) =~= eps@);
}

fn all_rows(nodes: &[RosNodeTopology]) -> (rows: Vec<(String, bool, String, String)>)
    ensures
        row_views(rows@) == topology_rows(nodes@),
{
    let mut rows: Vec<(String, bool, String, String)> = Vec::new();
    let mut i: usize = 0;
    while i < nodes.len()
        invariant
            i <= nodes.len(),
            row_views(rows@) == topology_rows(nodes@.take(i as int)),
        decreases nodes.len() - i,
    {
        let node = &nodes[i];
        push_endpoint_rows(&mut rows, &node.node, &node.publishers, true);
        push_endpoint_rows(&mut rows, &node.node, &node.subscribers, false);
        proof {
            assert(nodes@.take(i + 1).drop_last() =~= nodes@.take(i as int));
            assert(nodes@.take(i + 1).last() == *node);
        }
        i = i + 1;
    }
    assert(nodes@.take(nodes@.len() as int) =~= nodes@);
    rows
}

fn pick_sorted(rows: &Vec<(String, bool, String, String)>, mode: u8, topic: &str) -> (r: Vec<String>)
    ensures
        ascending_texts(string_views(r@)),
        string_views(r@).to_set() == picked(row_views(rows@), mode, topic@),
{
    let ghost rv = row_views(rows@);
    let tv = chars_of(topic);
    let mut r: Vec<String> = Vec::new();
    let mut k: usize = 0;
    proof {
        assert(string_views(r@).to_set() =~= picked(rv.take(0), mode, topic@));
    }
    while k < rows.len()
        invariant
            k <= rows.len(),
            rv == row_views(rows@),
            tv@ == topic@,
            ascending_texts(string_views(r@)),
            string_views(r@).to_set() == picked(rv.take(k as int), mode, topic@),
        decreases rows.len() - k,
    {
        let row = &rows[k];
        proof {
            lemma_picked_push(rv, k as int, mode, topic@);
            assert(rv[k as int] == row_view(*row));
        }
        if mode == 0 {
            insert_text(&mut r, row.2.as_str());
        } else if chars_eq(&chars_of(row.2.as_str()), &tv) {
            if mode == 1 {
                insert_text(&mut r, row.3.as_str());
            } else if mode == 2 {
                if row.1 {
                    insert_text(&mut r, row.0.as_str());
                }
            } else {
                if !row.1 {
                    insert_text(&mut r, row.0.as_str());
                }
            }
        }
        k = k + 1;
    }
    assert(rv.take(rv.len() as int) =~= rv);
    r
}

/// The edges over one topic from each of some publishers to each of its
/// subscribers, publisher by publisher.
pub open spec fn publisher_edges(
    topic: Seq<char>,
    pubs: Seq<Seq<char>>,
    subs: Seq<Seq<char>>,
    types: Seq<Seq<char>>,
) -> Seq<(Seq<char>, Seq<char>, Seq<char>, Seq<Seq<char>>)>
    decreases pubs.len(),
{
    if pubs.len() == 0 {
        Seq::empty()
    } else {
        publisher_edges(topic, pubs.drop_last(), subs, types) + subs.map_values(
            |s: Seq<char>| (topic, pubs.last(), s, types),
        )
    }
}

pub open spec fn topic_edges(t: RosTopicInfo) -> Seq<(Seq<char>, Seq<char>, Seq<char>, Seq<Seq<char>>)> {
    publisher_edges(t.name@, string_views(t.publishers@), string_views(t.subscribers@), string_views(t.message_types@))
}

/// The edges of every topic, topic by topic.
pub open spec fn edges_model(ts: Seq<RosTopicInfo>) -> Seq<(Seq<char>, Seq<char>, Seq<char>, Seq<Seq<char>>)>
    decreases ts.len(),
{
    if ts.len() == 0 {
        Seq::empty()
    } else {
        edges_model(ts.drop_last()) + topic_edges(ts.last())
    }
}

pub open spec fn edge_view(e: RosTopicEdge) -> (Seq<char>, Seq<char>, Seq<char>, Seq<Seq<char>>) {
    (e.topic@, e.publisher_node@, e.subscriber_node@, string_views(e.message_types@))
}

pub open spec fn edge_views(es: Seq<RosTopicEdge>) -> Seq<(Seq<char>, Seq<char>, Seq<char>, Seq<Seq<char>>)> {
    es.map_values(|e: RosTopicEdge| edge_view(e))
}

fn copy_texts(v: &Vec<String>) -> (r: Vec<String>)
    ensures
        r@ == v@,
{
    let mut r: Vec<String> = Vec::new();
    let mut i: usize = 0;
    while i < v.len()
        invariant
            i <= v.len(),
            r@ == v@.take(i as int),
        decreases v.len() - i,
    {
        r.push(v[i].clone());
        assert(v@.take(i + 1) =~= v@.take(i as int).push(v@[i as int]));
        i = i + 1;
    }
    assert(v@.take(v@.len() as int) =~= v@);
    r
}

fn push_topic_edges(edges: &mut Vec<RosTopicEdge>, t: &RosTopicInfo)
    ensures
        edge_views(final(edges)@) == edge_views(old(edges)@) + topic_edges(*t),
{
    let ghost start = edge_views(edges@);
    let ghost name = t.name@;
    let ghost pubs = string_views(t.publishers@);
    let ghost subs = string_views(t.subscribers@);
    let ghost types = string_views(t.message_types@);
    let mut i: usize = 0;
    while i < t.publishers.len()
        invariant
            i <= t.publishers.len(),
            pubs == string_views(t.publishers@),
            subs == string_views(t.subscribers@),
            types == string_views(t.message_types@),
            name == t.name@,
            edge_views(edges@) == start + publisher_edges(name, pubs.take(i as int), subs, types),
        decreases t.publishers.len() - i,
    {
        let ghost mid = edge_views(edges@);
        let ghost f = |s: Seq<char>| (name, pubs[i as int], s, types);
        let mut j: usize = 0;
        while j < t.subscribers.len()
            invariant
                i < t.publishers.len(),
                j <= t.subscribers.len(),
                pubs == string_views(t.publishers@),
                subs == string_views(t.subscribers@),
                types == string_views(t.message_types@),
                name == t.name@,
                f == (|s: Seq<char>| (name, pubs[i as int], s, types)),
                edge_views(edges@) == mid + subs.take(j as int).map_values(f),
            decreases t.subscribers.len() - j,
        {
            let ghost before = edges@;
            let edge = RosTopicEdge {
                topic: t.name.clone(),
                publisher_node: t.publishers[i].clone(),
                subscriber_node: t.subscribers[j].clone(),
                message_types: copy_texts(&t.message_types),
            };
            edges.push(edge);
            proof {
                assert(edge_views(edges@) =~= edge_views(before).push(edge_view(edge)));
                assert(subs.take(j + 1) =~= subs.take(j as int).push(subs[j as int]));
                assert(subs.take(j + 1).map_values(f) =~= subs.take(j as int).map_values(f).push(f(subs[j as int])));
            }
            j = j + 1;
        }
        proof {
            assert(subs.take(subs.len() as int) =~= subs);
            let p1 = pubs.take(i + 1);
            assert(p1.drop_last() =~= pubs.take(i as int));
            assert(p1.last() == pubs[i as int]);
            assert(subs.map_values(f) =~= subs.map_values(|s: Seq<char>| (name, p1.last(), s, types)));
        }
        i = i + 1;
    }
    assert(pubs.take(pubs.len() as int) =~= pubs);
}

/// The topics that the nodes' endpoints name, in ascending order, each with
/// its message types, publishers and subscribers (each ascending, without
/// repeats); and an edge from each publisher to each subscriber of each
/// topic, in the order of the topics, then of the publishers, then of the
/// subscribers.
pub fn aggregate_topology(nodes: &[RosNodeTopology]) -> (r: (Vec<RosTopicInfo>, Vec<RosTopicEdge>))
    ensures
        ascending_texts(r.0@.map_values(|t: RosTopicInfo| t.name@)),
        r.0@.map_values(|t: RosTopicInfo| t.name@).to_set() == topic_names(topology_rows(nodes@)),
        forall|k: int|
            0 <= k < r.0@.len() ==> {
                let t = #[trigger] r.0@[k];
                let rows = topology_rows(nodes@);
                &&& ascending_texts(string_views(t.message_types@))
                &&& string_views(t.message_types@).to_set() == topic_types(rows, t.name@)
                &&& ascending_texts(string_views(t.publishers@))
                &&& string_views(t.publishers@).to_set() == topic_publishers(rows, t.name@)
                &&& ascending_texts(string_views(t.subscribers@))
                &&& string_views(t.subscribers@).to_set() == topic_subscribers(rows, t.name@)
            },
        edge_views(r.1@) == edges_model(r.0@),
{
    let rows = all_rows(nodes);
    let ghost rv = row_views(rows@);
    let names = pick_sorted(&rows, 0, "");
    let mut topics: Vec<RosTopicInfo> = Vec::new();
    let mut i: usize = 0;
    while i < names.len()
        invariant
            i <= names.len(),
            rv == row_views(rows@),
            rv == topology_rows(nodes@),
            topics@.len() == i,
            forall|j: int| 0 <= j < i ==> (#[trigger] topics@[j]).name@ == names@[j]@,
            forall|k: int|
                0 <= k < i ==> {
                    let t = #[trigger] topics@[k];
                    &&& ascending_texts(string_views(t.message_types@))
                    &&& string_views(t.message_types@).to_set() == topic_types(rv, t.name@)
                    &&& ascending_texts(string_views(t.publishers@))
                    &&& string_views(t.publishers@).to_set() == topic_publishers(rv, t.name@)
                    &&& ascending_texts(string_views(t.subscribers@))
                    &&& string_views(t.subscribers@).to_set() == topic_subscribers(rv, t.name@)
                },
        decreases names.len() - i,
    {
        let name = names[i].as_str();
        let info = RosTopicInfo {
            name: names[i].clone(),
            message_types: pick_sorted(&rows, 1, name),
            publishers: pick_sorted(&rows, 2, name),
            subscribers: pick_sorted(&rows, 3, name),
        };
        topics.push(info);
        i = i + 1;
    }
    proof {
        assert(topics@.map_values(|t: RosTopicInfo| t.name@) =~= string_views(names@));
    }
    let mut edges: Vec<RosTopicEdge> = Vec::new();
    let mut k: usize = 0;
    while k < topics.len()
        invariant
            k <= topics.len(),
            edge_views(edges@) == edges_model(topics@.take(k as int)),
        decreases topics.len() - k,
    {
        push_topic_edges(&mut edges, &topics[k]);
        proof {
            assert(topics@.take(k + 1).drop_last() =~= topics@.take(k as int));
        }
        k = k + 1;
    }
    assert(topics@.take(topics@.len() as int) =~= topics@);
    (topics, edges)
}

/// What one node's inspection adds to a topology discovery: a topology is
/// kept; a CLI that cannot run ends the discovery with `NotAvailable`; a node
/// that timed out or failed (it may have gone away) is skipped.
pub fn absorb_inspection(
    found: &mut Vec<RosNodeTopology>,
    outcome: Result<RosNodeTopology, RosGraphError>,
) -> (r: Option<RosGraphError>)
    ensures
        match outcome {
            Ok(t) => r is None && final(found)@ == old(found)@.push(t),
            Err(RosGraphError::CommandNotFound) | Err(RosGraphError::NotAvailable(_)) => final(found)@
                == old(found)@ && (r matches Some(RosGraphError::NotAvailable(m)) && m@
                == "ROS 2 CLI is unavailable for topic topology discovery"@),
            Err(_) => r is None && final(found)@ == old(found)@,
        },
{
    match outcome {
        Ok(t) => {
            found.push(t);
            None
        },
        Err(RosGraphError::CommandNotFound) | Err(RosGraphError::NotAvailable(_)) => Some(
            RosGraphError::NotAvailable(crate::text::owned("ROS 2 CLI is unavailable for topic topology discovery")),
        ),
        Err(_) => None,
    }
}

/// The topology `ros2 node info` reported for a node: its parsed output when
/// the command succeeded, else the failure it reported.
pub fn node_info_result(node: &str, success: bool, stdout: &[u8], stderr: &[u8], fallback: String) -> (r: Result<RosNodeTopology, RosGraphError>)
    ensures
        success ==> (r matches Ok(t) && t.node@ == node@ && endpoint_views(t.publishers@) == node_info_state(
            lines(crate::text::lossy_text(stdout@)),
        ).1 && endpoint_views(t.subscribers@) == node_info_state(lines(crate::text::lossy_text(stdout@))).2),
        !success ==> (r matches Err(RosGraphError::Failed(m)) && m@
            == crate::ros2_probe::node_scanner::failure_message(crate::text::lossy_text(stderr@), fallback@)),
{
    if success {
        Ok(parse_node_info(node, stdout))
    } else {
        Err(crate::ros2_probe::node_scanner::command_failure(stderr, fallback))
    }
}

/// Throughput statistics of topics, from a running graph.
pub struct RosTopicStatsCollector;

} // verus!
