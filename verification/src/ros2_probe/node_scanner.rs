use vstd::prelude::*;

use std::time::Duration;

use crate::process::resolver::opt_view;
use crate::split::{lines, lines_of, trim, trim_exec, views};
use crate::text::{chars_eq, chars_of, last_at, owned, rfind_char, slice_range, string_of, text_from_bytes_lossy};
use crate::time::{duration_from_nanos, duration_nanos};

verus! {

/// A node of the ROS 2 graph.
#[derive(Debug, Clone, PartialEq, Eq)]
pub struct RosNodeInfo {
    pub name: String,
    pub namespace: String,
    pub full_name: String,
    pub package: Option<String>,
    pub workspace: Option<String>,
}

/// Why the ROS 2 graph could not be read.
#[derive(Debug, Clone, PartialEq, Eq)]
pub enum RosGraphError {
    CommandNotFound,
    NotAvailable(String),
    TimedOut,
    Failed(String),
}

/// A source of the nodes of the ROS 2 graph, with the time it took to ask.
pub trait RosGraphProvider {
    fn discover(&self) -> Result<(Vec<RosNodeInfo>, Duration), RosGraphError>;
}

/// Reads the graph with `ros2 node list`, giving up after a timeout.
#[derive(Debug, Clone, Copy)]
pub struct CliRosGraphProvider {
    timeout: Duration,
}

impl Default for CliRosGraphProvider {
    fn default() -> (r: Self)
        ensures
            duration_nanos(r.timeout_view()) == 3_000_000_000,
    {
        CliRosGraphProvider { timeout: duration_from_nanos(3_000_000_000) }
    }
}

impl CliRosGraphProvider {
    pub closed spec fn timeout_view(&self) -> Duration {
        self.timeout
    }

    pub fn with_timeout(timeout: Duration) -> (r: Self)
        ensures
            r.timeout_view() == timeout,
    {
        CliRosGraphProvider { timeout }
    }

    /// How long `ros2 node list` may run.
    pub fn timeout(&self) -> (r: Duration)
        ensures
            r == self.timeout_view(),
    {
        self.timeout
    }
}

/// The view of a node: name, namespace, full name, package and workspace.
pub open spec fn node_view(n: RosNodeInfo) -> (Seq<char>, Seq<char>, Seq<char>, Option<Seq<char>>, Option<Seq<char>>) {
    (n.name@, n.namespace@, n.full_name@, opt_view(n.package), opt_view(n.workspace))
}

pub open spec fn node_views(ns: Seq<RosNodeInfo>) -> Seq<(Seq<char>, Seq<char>, Seq<char>, Option<Seq<char>>, Option<Seq<char>>)> {
    ns.map_values(|n: RosNodeInfo| node_view(n))
}

/// The node a line of `ros2 node list` names: a trimmed line that starts with
/// `/` is a full name, split at its last `/` into namespace (`/` when empty)
/// and name. Any other line (blank, or a message) names no node.
pub open spec fn node_of_line(line: Seq<char>) -> Option<(Seq<char>, Seq<char>, Seq<char>, Option<Seq<char>>, Option<Seq<char>>)> {
    let full = trim(line);
    if full.len() == 0 || full[0] != '/' {
        None
    } else {
        let i = choose|i: int| last_at(full, '/', i);
        let namespace = full.take(i);
        Some((full.skip(i + 1), if namespace.len() == 0 { "/"@ } else { namespace }, full, None, None))
    }
}

/// The nodes named by a list of lines, in order.
pub open spec fn nodes_of_lines(ls: Seq<Seq<char>>) -> Seq<(Seq<char>, Seq<char>, Seq<char>, Option<Seq<char>>, Option<Seq<char>>)>
    decreases ls.len(),
{
    if ls.len() == 0 {
        Seq::empty()
    } else {
        let before = nodes_of_lines(ls.drop_last());
        match node_of_line(ls.last()) {
            Some(n) => before.push(n),
            None => before,
        }
    }
}

/// The nodes that the text printed by `ros2 node list` names, one per line.
pub open spec fn node_list_model(text: Seq<char>) -> Seq<(Seq<char>, Seq<char>, Seq<char>, Option<Seq<char>>, Option<Seq<char>>)> {
    nodes_of_lines(lines(text))
}

fn node_from_line(line: &Vec<char>) -> (r: Option<RosNodeInfo>)
    ensures
        match (r, node_of_line(line@)) {
            (Some(n), Some(m)) => node_view(n) == m,
            (None, None) => true,
            _ => false,
        },
{
    let full = trim_exec(line);
    if full.len() == 0 || full[0] != '/' {
        return None;
    }
    let len = full.len();
    match rfind_char(&full, '/') {
        Some(i) => {
            proof {
                let k = choose|k: int| last_at(full@, '/', k);
                if k < i {
                    assert(full@[i as int] == '/');
                } else if i < k {
                    assert(full@[k] == '/');
                }
            }
            let namespace = if i == 0 {
                owned("/")
            } else {
                string_of(&slice_range(&full, 0, i))
            };
            let name = string_of(&slice_range(&full, i + 1, len));
            proof {
                assert(full@.take(i as int) =~= full@.subrange(0, i as int));
                assert(full@.skip(i + 1) =~= full@.subrange(i + 1, len as int));
            }
            Some(RosNodeInfo {
                name,
                namespace,
                full_name: string_of(&full),
                package: None,
                workspace: None,
            })
        },
        None => {
            proof {
                assert(full@[0] == '/');
            }
            None
        },
    }
}

/// The nodes named in the text printed by `ros2 node list`.
pub fn parse_node_lines(text: &str) -> (r: Vec<RosNodeInfo>)
    ensures
        node_views(r@) == node_list_model(text@),
{
    let chars = chars_of(text);
    let ls = lines_of(&chars);
    let mut r: Vec<RosNodeInfo> = Vec::new();
    let mut i: usize = 0;
    while i < ls.len()
        invariant
            i <= ls.len(),
            views(ls@) == lines(text@),
            node_views(r@) == nodes_of_lines(views(ls@).take(i as int)),
        decreases ls.len() - i,
    {
        let found = node_from_line(&ls[i]);
        proof {
            let t = views(ls@).take(i + 1);
            assert(t.drop_last() =~= views(ls@).take(i as int));
            assert(t.last() == ls@[i as int]@);
        }
        match found {
            Some(n) => {
                let ghost before = r@;
                r.push(n);
                proof {
                    assert(node_views(r@) =~= node_views(before).push(node_view(n)));
                }
            },
            None => {},
        }
        i = i + 1;
    }
    proof {
        assert(views(ls@).take(ls@.len() as int) =~= views(ls@));
    }
    r
}

/// The nodes named in the bytes printed by `ros2 node list`; nothing printed
/// on the error stream is read.
pub fn parse_node_list(output: &[u8]) -> (r: Vec<RosNodeInfo>)
    ensures
        node_views(r@) == node_list_model(crate::text::lossy_text(output@)),
{
    let text = text_from_bytes_lossy(output);
    parse_node_lines(text.as_str())
}

/// Whether a node is called `name`, by its short or its full name.
pub open spec fn named(name: Seq<char>) -> spec_fn(RosNodeInfo) -> bool {
    |n: RosNodeInfo| n.name@ == name || n.full_name@ == name
}

/// Finds nodes in the graph.
pub struct RosNodeScanner;

impl RosNodeScanner {
    /// The nodes found without asking the ROS 2 CLI: none.
    pub fn scan() -> (r: Vec<RosNodeInfo>)
        ensures
            r@.len() == 0,
    {
        Vec::new()
    }

    /// The nodes whose short or full name is `name`, in order.
    pub fn find_by_name<'a>(nodes: &'a [RosNodeInfo], name: &str) -> (r: Vec<&'a RosNodeInfo>)
        ensures
            r@.map_values(|x: &RosNodeInfo| *x) == nodes@.filter(named(name@)),
    {
        let wanted = chars_of(name);
        let mut r: Vec<&'a RosNodeInfo> = Vec::new();
        let mut i: usize = 0;
        while i < nodes.len()
            invariant
                i <= nodes.len(),
                wanted@ == name@,
                r@.map_values(|x: &RosNodeInfo| *x) == nodes@.take(i as int).filter(named(name@)),
            decreases nodes.len() - i,
        {
            let node = &nodes[i];
            let hit = chars_eq(&chars_of(node.name.as_str()), &wanted) || chars_eq(
                &chars_of(node.full_name.as_str()),
                &wanted,
            );
            proof {
                assert(nodes@.take(i + 1) =~= nodes@.take(i as int).push(*node));
                nodes@.take(i as int).lemma_filter_push(*node, named(name@));
            }
            let ghost before = r@;
            if hit {
                r.push(node);
                assert(r@.map_values(|x: &RosNodeInfo| *x) =~= before.map_values(|x: &RosNodeInfo| *x).push(*node));
            }
            i = i + 1;
        }
        assert(nodes@.take(nodes@.len() as int) =~= nodes@);
        r
    }
}

fn copy_text(s: &Option<String>) -> (r: Option<String>)
    ensures
        r == *s,
{
    match s {
        Some(v) => Some(v.clone()),
        None => None,
    }
}

/// A copy of a node.
pub fn copy_node(n: &RosNodeInfo) -> (r: RosNodeInfo)
    ensures
        r == *n,
{
    RosNodeInfo {
        name: n.name.clone(),
        namespace: n.namespace.clone(),
        full_name: n.full_name.clone(),
        package: copy_text(&n.package),
        workspace: copy_text(&n.workspace),
    }
}

/// Why the CLI could not be started: it is missing, or something else failed.
pub fn spawn_error(not_found: bool, message: String) -> (r: RosGraphError)
    ensures
        not_found ==> r == RosGraphError::CommandNotFound,
        !not_found ==> r == RosGraphError::NotAvailable(message),
{
    if not_found {
        RosGraphError::CommandNotFound
    } else {
        RosGraphError::NotAvailable(message)
    }
}

/// What a CLI run that did not succeed reports: its error output, trimmed,
/// or `fallback` when that is empty.
pub open spec fn failure_message(stderr_text: Seq<char>, fallback: Seq<char>) -> Seq<char> {
    let t = trim(stderr_text);
    if t.len() > 0 {
        t
    } else {
        fallback
    }
}

pub fn command_failure(stderr: &[u8], fallback: String) -> (r: RosGraphError)
    ensures
        r matches RosGraphError::Failed(m) && m@ == failure_message(crate::text::lossy_text(stderr@), fallback@),
{
    let text = text_from_bytes_lossy(stderr);
    let t = trim_exec(&chars_of(text.as_str()));
    if t.len() > 0 {
        RosGraphError::Failed(string_of(&t))
    } else {
        RosGraphError::Failed(fallback)
    }
}

/// The nodes `ros2 node list` reported: its parsed output when the command
/// succeeded, else the failure it reported.
pub fn node_list_result(success: bool, stdout: &[u8], stderr: &[u8], fallback: String) -> (r: Result<Vec<RosNodeInfo>, RosGraphError>)
    ensures
        success ==> (r matches Ok(ns) && node_views(ns@) == node_list_model(crate::text::lossy_text(stdout@))),
        !success ==> (r matches Err(RosGraphError::Failed(m)) && m@ == failure_message(
            crate::text::lossy_text(stderr@),
            fallback@,
        )),
{
    if success {
        Ok(parse_node_list(stdout))
    } else {
        Err(command_failure(stderr, fallback))
    }
}

} // verus!
