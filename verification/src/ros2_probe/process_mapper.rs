use vstd::prelude::*;

use crate::path::{file_name, file_name_of};
use crate::process::model::{string_views, ProcessIdentity, ProcessSnapshot};
use crate::process::resolver::opt_view;
use crate::ros2_probe::node_scanner::{copy_node, RosNodeInfo};
use crate::text::{chars_eq, chars_of, eq_str, owned, slice_range, starts_with, starts_with_str, string_of};

verus! {

/// How sure a node-to-process mapping is.
#[derive(Debug, Clone, Copy, PartialEq, Eq, Structural)]
pub enum MappingConfidence {
    Exact,
    Strong,
    Heuristic,
    Unknown,
}

pub open spec fn mapping_confidence_label(c: MappingConfidence) -> Seq<char> {
    match c {
        MappingConfidence::Exact => "exact"@,
        MappingConfidence::Strong => "strong"@,
        MappingConfidence::Heuristic => "heuristic"@,
        MappingConfidence::Unknown => "unknown"@,
    }
}

impl MappingConfidence {
    /// The label shown for the confidence.
    pub fn to_string(&self) -> (r: String)
        ensures
            r@ == mapping_confidence_label(*self),
    {
        match self {
            MappingConfidence::Exact => owned("exact"),
            MappingConfidence::Strong => owned("strong"),
            MappingConfidence::Heuristic => owned("heuristic"),
            MappingConfidence::Unknown => owned("unknown"),
        }
    }
}

/// Which fact a node-to-process mapping rests on.
#[derive(Debug, Clone, Copy, PartialEq, Eq, Structural)]
pub enum MappingSource {
    ExplicitRosArgs,
    ExecutableMatch,
    ProcessCmdline,
    LaunchAncestry,
    ComposedProcess,
    Unknown,
}

pub open spec fn mapping_source_label(s: MappingSource) -> Seq<char> {
    match s {
        MappingSource::ExplicitRosArgs => "explicit_ros_args"@,
        MappingSource::ExecutableMatch => "executable_match"@,
        MappingSource::ProcessCmdline => "process_cmdline"@,
        MappingSource::LaunchAncestry => "launch_ancestry"@,
        MappingSource::ComposedProcess => "composed_process"@,
        MappingSource::Unknown => "unknown"@,
    }
}

impl MappingSource {
    /// The label shown for the source.
    pub fn to_string(&self) -> (r: String)
        ensures
            r@ == mapping_source_label(*self),
    {
        match self {
            MappingSource::ExplicitRosArgs => owned("explicit_ros_args"),
            MappingSource::ExecutableMatch => owned("executable_match"),
            MappingSource::ProcessCmdline => owned("process_cmdline"),
            MappingSource::LaunchAncestry => owned("launch_ancestry"),
            MappingSource::ComposedProcess => owned("composed_process"),
            MappingSource::Unknown => owned("unknown"),
        }
    }
}

/// A node with the process it runs in, if one could be told.
#[derive(Debug, Clone, PartialEq, Eq)]
pub struct RosNodeMapping {
    pub node: RosNodeInfo,
    pub process_identity: Option<ProcessIdentity>,
    pub confidence: MappingConfidence,
    pub source: MappingSource,
}

/// A process known to host a node.
#[derive(Debug, Clone)]
pub struct RosProcessBinding {
    pub pid: u32,
    pub node_name: Option<String>,
    pub package: Option<String>,
}

pub open spec fn node_prefix() -> Seq<char> {
    "__node:="@
}

/// The node name one argument gives, looking at the argument after a `-r` or
/// `--remap` flag: the text after `__node:=`.
pub open spec fn remap_at(command: Seq<Seq<char>>, i: int) -> Option<Seq<char>> {
    let part = command[i];
    if part == "-r"@ || part == "--remap"@ {
        if i + 1 < command.len() && starts_with(command[i + 1], node_prefix()) {
            Some(command[i + 1].skip(8))
        } else {
            None
        }
    } else if starts_with(part, node_prefix()) {
        Some(part.skip(8))
    } else {
        None
    }
}

/// The node name set by the first argument that sets one.
pub open spec fn explicit_node_name_model(command: Seq<Seq<char>>) -> Option<Seq<char>> {
    if exists|i: int| 0 <= i < command.len() && remap_at(command, i) is Some {
        let i = choose|i: int|
            0 <= i < command.len() && remap_at(command, i) is Some && forall|j: int|
                0 <= j < i ==> remap_at(command, j) is None;
        remap_at(command, i)
    } else {
        None
    }
}

pub proof fn lemma_explicit_at(command: Seq<Seq<char>>, i: int)
    requires
        0 <= i < command.len(),
        remap_at(command, i) is Some,
        forall|j: int| 0 <= j < i ==> remap_at(command, j) is None,
    ensures
        explicit_node_name_model(command) == remap_at(command, i),
{
    let k = choose|k: int|
        0 <= k < command.len() && remap_at(command, k) is Some && forall|j: int|
            0 <= j < k ==> remap_at(command, j) is None;
    if k < i {
    } else if i < k {
    }
}

/// A node name with a leading `/`.
pub open spec fn normalized_node_name(name: Seq<char>) -> Seq<char> {
    if starts_with(name, "/"@) {
        name
    } else {
        seq!['/'] + name
    }
}

fn remap_of(command: &Vec<String>, i: usize) -> (r: Option<String>)
    requires
        i < command.len(),
    ensures
        opt_view(r) == remap_at(string_views(command@), i as int),
{
    let ghost cmd = string_views(command@);
    let part = chars_of(command[i].as_str());
    if eq_str(&part, "-r") || eq_str(&part, "--remap") {
        if i + 1 < command.len() {
            let next = chars_of(command[i + 1].as_str());
            if starts_with_str(&next, "__node:=") {
                proof {
                    reveal_strlit("__node:=");
                }
                return Some(string_of(&slice_range(&next, 8, next.len())));
            }
        }
        None
    } else if starts_with_str(&part, "__node:=") {
        proof {
            reveal_strlit("__node:=");
        }
        Some(string_of(&slice_range(&part, 8, part.len())))
    } else {
        None
    }
}

/// The node name that `-r __node:=<name>` or `__node:=<name>` sets in a
/// command line, from the first argument that sets one.
pub fn explicit_node_name(command: &Vec<String>) -> (r: Option<String>)
    ensures
        opt_view(r) == explicit_node_name_model(string_views(command@)),
{
    let ghost cmd = string_views(command@);
    let mut i: usize = 0;
    while i < command.len()
        invariant
            i <= command.len(),
            cmd == string_views(command@),
            forall|j: int| 0 <= j < i ==> remap_at(cmd, j) is None,
        decreases command.len() - i,
    {
        let found = remap_of(command, i);
        if found.is_some() {
            proof {
                lemma_explicit_at(cmd, i as int);
            }
            return found;
        }
        i = i + 1;
    }
    None
}

/// A node name as ROS shows it, with a leading `/`.
pub fn normalize_node_name(name: &str) -> (r: String)
    ensures
        r@ == normalized_node_name(name@),
{
    let v = chars_of(name);
    if starts_with_str(&v, "/") {
        owned(name)
    } else {
        let mut r = owned("/");
        crate::text::push_chars(&mut r, &v);
        proof {
            reveal_strlit("/");
        }
        r
    }
}

/// The file name of a process's executable.
pub open spec fn executable_name_model(p: ProcessSnapshot) -> Option<Seq<char>> {
    match opt_view(p.executable) {
        Some(e) => file_name(e),
        None => None,
    }
}

pub fn executable_name(process: &ProcessSnapshot) -> (r: Option<String>)
    ensures
        opt_view(r) == executable_name_model(*process),
{
    match &process.executable {
        Some(e) => match file_name_of(&chars_of(e.as_str())) {
            Some(n) => Some(string_of(&n)),
            None => None,
        },
        None => None,
    }
}

/// A process that names the node explicitly on its command line.
pub open spec fn names_node(p: ProcessSnapshot, node: RosNodeInfo) -> bool {
    match explicit_node_name_model(string_views(p.command@)) {
        Some(n) => normalized_node_name(n) == node.full_name@,
        None => false,
    }
}

/// A process whose name, or executable's file name, is the node's name.
pub open spec fn runs_as_node(p: ProcessSnapshot, node: RosNodeInfo) -> bool {
    p.name@ == node.name@ || executable_name_model(p) == Some(node.name@)
}

/// How a name match was seen: on a `ros2` command line, or by the executable.
pub open spec fn name_match_source(p: ProcessSnapshot) -> MappingSource {
    if string_views(p.command@).contains("ros2"@) {
        MappingSource::ProcessCmdline
    } else {
        MappingSource::ExecutableMatch
    }
}

/// The position of the first process for which `f` holds.
pub open spec fn first_where(ps: Seq<ProcessSnapshot>, f: spec_fn(ProcessSnapshot) -> bool) -> Option<int>
    decreases ps.len(),
{
    if ps.len() == 0 {
        None
    } else {
        match first_where(ps.drop_last(), f) {
            Some(k) => Some(k),
            None => if f(ps.last()) {
                Some(ps.len() - 1)
            } else {
                None
            },
        }
    }
}

/// The mapping of a node: to the first process that names it explicitly
/// (exact), else to the first process that runs under its name (strong), else
/// to no process.
pub open spec fn map_node_model(node: RosNodeInfo, ps: Seq<ProcessSnapshot>) -> (Option<ProcessIdentity>, MappingConfidence, MappingSource) {
    match first_where(ps, |p: ProcessSnapshot| names_node(p, node)) {
        Some(i) => (Some(ps[i].identity), MappingConfidence::Exact, MappingSource::ExplicitRosArgs),
        None => match first_where(ps, |p: ProcessSnapshot| runs_as_node(p, node)) {
            Some(i) => (Some(ps[i].identity), MappingConfidence::Strong, name_match_source(ps[i])),
            None => (None, MappingConfidence::Unknown, MappingSource::Unknown),
        },
    }
}

proof fn lemma_first_where_step(ps: Seq<ProcessSnapshot>, f: spec_fn(ProcessSnapshot) -> bool, i: int)
    requires
        0 <= i < ps.len(),
    ensures
        first_where(ps.take(i + 1), f) == match first_where(ps.take(i), f) {
            Some(k) => Some(k),
            None => if f(ps[i]) {
                Some(i)
            } else {
                None
            },
        },
{
    assert(ps.take(i + 1).drop_last() =~= ps.take(i));
}

proof fn lemma_first_where_bound(ps: Seq<ProcessSnapshot>, f: spec_fn(ProcessSnapshot) -> bool)
    ensures
        first_where(ps, f) matches Some(k) ==> 0 <= k < ps.len() && f(ps[k]),
    decreases ps.len(),
{
    if ps.len() > 0 {
        lemma_first_where_bound(ps.drop_last(), f);
    }
}

fn consider(
    best: &mut Option<(ProcessIdentity, MappingConfidence, MappingSource, u8)>,
    identity: ProcessIdentity,
    confidence: MappingConfidence,
    source: MappingSource,
    rank: u8,
)
    ensures
        *final(best) == match *old(best) {
            Some(current) => if rank > current.3 {
                Some((identity, confidence, source, rank))
            } else {
                *old(best)
            },
            None => Some((identity, confidence, source, rank)),
        },
{
    let replace = match best {
        Some(current) => rank > current.3,
        None => true,
    };
    if replace {
        *best = Some((identity, confidence, source, rank));
    }
}

fn names_node_exec(process: &ProcessSnapshot, node: &RosNodeInfo) -> (r: bool)
    ensures
        r == names_node(*process, *node),
{
    match explicit_node_name(&process.command) {
        Some(n) => {
            let normal = normalize_node_name(n.as_str());
            chars_eq(&chars_of(normal.as_str()), &chars_of(node.full_name.as_str()))
        },
        None => false,
    }
}

fn runs_as_node_exec(process: &ProcessSnapshot, node: &RosNodeInfo) -> (r: bool)
    ensures
        r == runs_as_node(*process, *node),
{
    let wanted = chars_of(node.name.as_str());
    if chars_eq(&chars_of(process.name.as_str()), &wanted) {
        return true;
    }
    match executable_name(process) {
        Some(e) => chars_eq(&chars_of(e.as_str()), &wanted),
        None => false,
    }
}

fn command_mentions_ros2(command: &Vec<String>) -> (r: bool)
    ensures
        r == string_views(command@).contains("ros2"@),
{
    let ghost cmd = string_views(command@);
    let mut i: usize = 0;
    while i < command.len()
        invariant
            i <= command.len(),
            cmd == string_views(command@),
            forall|j: int| 0 <= j < i ==> cmd[j] != "ros2"@,
        decreases command.len() - i,
    {
        if eq_str(&chars_of(command[i].as_str()), "ros2") {
            assert(cmd[i as int] == "ros2"@);
            return true;
        }
        i = i + 1;
    }
    false
}

/// Maps a node to the process it runs in.
pub fn map_node(node: RosNodeInfo, processes: &[ProcessSnapshot]) -> (r: RosNodeMapping)
    ensures
        r.node == node,
        (r.process_identity, r.confidence, r.source) == map_node_model(node, processes@),
{
    let ghost ps = processes@;
    let ghost fe = |p: ProcessSnapshot| names_node(p, node);
    let ghost fs = |p: ProcessSnapshot| runs_as_node(p, node);
    let mut best: Option<(ProcessIdentity, MappingConfidence, MappingSource, u8)> = None;
    let mut i: usize = 0;
    proof {
        assert(ps.take(0) =~= Seq::<ProcessSnapshot>::empty());
    }
    while i < processes.len()
        invariant
            i <= processes.len(),
            ps == processes@,
            fe == (|p: ProcessSnapshot| names_node(p, node)),
            fs == (|p: ProcessSnapshot| runs_as_node(p, node)),
            best == match first_where(ps.take(i as int), fe) {
                Some(k) => Some((ps[k].identity, MappingConfidence::Exact, MappingSource::ExplicitRosArgs, 4u8)),
                None => match first_where(ps.take(i as int), fs) {
                    Some(k) => Some((ps[k].identity, MappingConfidence::Strong, name_match_source(ps[k]), 3u8)),
                    None => None,
                },
            },
        decreases processes.len() - i,
    {
        let process = &processes[i];
        proof {
            lemma_first_where_step(ps, fe, i as int);
            lemma_first_where_step(ps, fs, i as int);
            lemma_first_where_bound(ps.take(i as int), fe);
            lemma_first_where_bound(ps.take(i as int), fs);
        }
        if names_node_exec(process, &node) {
            consider(&mut best, process.identity, MappingConfidence::Exact, MappingSource::ExplicitRosArgs, 4);
        }
        if runs_as_node_exec(process, &node) {
            let source = if command_mentions_ros2(&process.command) {
                MappingSource::ProcessCmdline
            } else {
                MappingSource::ExecutableMatch
            };
            consider(&mut best, process.identity, MappingConfidence::Strong, source, 3);
        }
        i = i + 1;
    }
    proof {
        assert(ps.take(ps.len() as int) =~= ps);
    }
    let (process_identity, confidence, source) = match best {
        Some(found) => (Some(found.0), found.1, found.2),
        None => (None, MappingConfidence::Unknown, MappingSource::Unknown),
    };
    RosNodeMapping { node, process_identity, confidence, source }
}

/// Maps nodes to the processes that host them.
pub struct RosProcessMapper;

impl RosProcessMapper {
    /// The bindings known without a running graph: none.
    pub fn resolve() -> (r: Vec<RosProcessBinding>)
        ensures
            r@.len() == 0,
    {
        Vec::new()
    }

    /// The mapping of each node, in the order of the nodes.
    pub fn map_nodes(nodes: &[RosNodeInfo], processes: &[ProcessSnapshot]) -> (r: Vec<RosNodeMapping>)
        ensures
            r@.len() == nodes@.len(),
            forall|i: int|
                0 <= i < nodes@.len() ==> (#[trigger] r@[i]).node == nodes@[i] && (
                r@[i].process_identity,
                r@[i].confidence,
                r@[i].source,
            ) == map_node_model(nodes@[i], processes@),
    {
        let mut r: Vec<RosNodeMapping> = Vec::new();
        let mut i: usize = 0;
        while i < nodes.len()
            invariant
                i <= nodes.len(),
                r@.len() == i,
                forall|j: int|
                    0 <= j < i ==> (#[trigger] r@[j]).node == nodes@[j] && (
                    r@[j].process_identity,
                    r@[j].confidence,
                    r@[j].source,
                ) == map_node_model(nodes@[j], processes@),
            decreases nodes.len() - i,
        {
            let node = copy_node(&nodes[i]);
            r.push(map_node(node, processes));
            i = i + 1;
        }
        r
    }

    /// The first binding for a PID.
    pub fn find_pid(bindings: &[RosProcessBinding], pid: u32) -> (r: Option<&RosProcessBinding>)
        ensures
            match r {
                Some(b) => exists|i: int|
                    0 <= i < bindings@.len() && bindings@[i] == *b && b.pid == pid && forall|j: int|
                        0 <= j < i ==> bindings@[j].pid != pid,
                None => forall|i: int| 0 <= i < bindings@.len() ==> bindings@[i].pid != pid,
            },
    {
        let mut i: usize = 0;
        while i < bindings.len()
            invariant
                i <= bindings.len(),
                forall|j: int| 0 <= j < i ==> bindings@[j].pid != pid,
            decreases bindings.len() - i,
        {
            if bindings[i].pid == pid {
                return Some(&bindings[i]);
            }
            i = i + 1;
        }
        None
    }
}

} // verus!
