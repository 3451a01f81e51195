use vstd::prelude::*;

pub mod laws;
pub mod rules;

pub use rules::{is_browser, is_container_cgroup, known_development_executable, systemd_service_unit};

use crate::process::model::{command_line_model, string_views, ProcessSnapshot};
use crate::process::resolver::{opt_view, resolve_ros2_process, ros2_process_model};
use crate::text::{chars_of, contains, contains_str, eq_str, lower, lowercase, owned};
use rules::{is_browser_model, is_container_cgroup_model, known_development_model, systemd_unit_model};

verus! {

/// The category a process is shown under.
#[derive(Debug, Clone, Copy, PartialEq, Eq, Structural, PartialOrd, Ord, Hash)]
pub enum ProcessType {
    Ros2,
    Container,
    Systemd,
    Development,
    Browser,
    Generic,
}

pub open spec fn process_type_label(t: ProcessType) -> Seq<char> {
    match t {
        ProcessType::Ros2 => "ROS2"@,
        ProcessType::Container => "CONTAINER"@,
        ProcessType::Systemd => "SYSTEMD"@,
        ProcessType::Development => "DEV"@,
        ProcessType::Browser => "BROWSER"@,
        ProcessType::Generic => "PROCESS"@,
    }
}

/// The category a filter word names, compared trimmed and without ASCII case.
pub open spec fn process_type_from_word(word: Seq<char>) -> Option<ProcessType> {
    let w = lower(crate::split::trim(word));
    if w == "ros"@ || w == "ros2"@ {
        Some(ProcessType::Ros2)
    } else if w == "container"@ || w == "docker"@ {
        Some(ProcessType::Container)
    } else if w == "systemd"@ || w == "service"@ {
        Some(ProcessType::Systemd)
    } else if w == "dev"@ || w == "development"@ {
        Some(ProcessType::Development)
    } else if w == "browser"@ {
        Some(ProcessType::Browser)
    } else if w == "generic"@ || w == "process"@ {
        Some(ProcessType::Generic)
    } else {
        None
    }
}

impl ProcessType {
    /// Every category, in precedence order.
    pub fn all() -> (r: [ProcessType; 6])
        ensures
            r@ == seq![
                ProcessType::Ros2,
                ProcessType::Container,
                ProcessType::Systemd,
                ProcessType::Development,
                ProcessType::Browser,
                ProcessType::Generic,
            ],
    {
        let r = [
            ProcessType::Ros2,
            ProcessType::Container,
            ProcessType::Systemd,
            ProcessType::Development,
            ProcessType::Browser,
            ProcessType::Generic,
        ];
        proof {
            assert(r@ =~= seq![
                ProcessType::Ros2,
                ProcessType::Container,
                ProcessType::Systemd,
                ProcessType::Development,
                ProcessType::Browser,
                ProcessType::Generic,
            ]);
        }
        r
    }

    /// The label shown for the category.
    pub fn to_string(&self) -> (r: String)
        ensures
            r@ == process_type_label(*self),
    {
        match self {
            ProcessType::Ros2 => owned("ROS2"),
            ProcessType::Container => owned("CONTAINER"),
            ProcessType::Systemd => owned("SYSTEMD"),
            ProcessType::Development => owned("DEV"),
            ProcessType::Browser => owned("BROWSER"),
            ProcessType::Generic => owned("PROCESS"),
        }
    }

    /// Reads a filter word such as `ros2`, `docker` or `dev`.
    pub fn parse(value: &str) -> (r: Result<ProcessType, String>)
        ensures
            match (r, process_type_from_word(value@)) {
                (Ok(t), Some(u)) => t == u,
                (Err(msg), None) => msg@ == "unknown process type: "@ + lower(
                    crate::split::trim(value@),
                ),
                _ => false,
            },
    {
        let v = chars_of(value);
        let t = crate::split::trim_exec(&v);
        let w = lowercase(&t);
        if eq_str(&w, "ros") || eq_str(&w, "ros2") {
            Ok(ProcessType::Ros2)
        } else if eq_str(&w, "container") || eq_str(&w, "docker") {
            Ok(ProcessType::Container)
        } else if eq_str(&w, "systemd") || eq_str(&w, "service") {
            Ok(ProcessType::Systemd)
        } else if eq_str(&w, "dev") || eq_str(&w, "development") {
            Ok(ProcessType::Development)
        } else if eq_str(&w, "browser") {
            Ok(ProcessType::Browser)
        } else if eq_str(&w, "generic") || eq_str(&w, "process") {
            Ok(ProcessType::Generic)
        } else {
            let mut msg = owned("unknown process type: ");
            crate::text::push_chars(&mut msg, &w);
            Err(msg)
        }
    }
}

impl std::str::FromStr for ProcessType {
    type Err = String;

    fn from_str(value: &str) -> (r: Result<Self, Self::Err>)
        ensures
            match (r, process_type_from_word(value@)) {
                (Ok(t), Some(u)) => t == u,
                (Err(msg), None) => msg@ == "unknown process type: "@ + lower(
                    crate::split::trim(value@),
                ),
                _ => false,
            },
    {
        ProcessType::parse(value)
    }
}

/// How strongly the evidence supports the chosen category.
#[derive(Debug, Clone, Copy, PartialEq, Eq, Structural, PartialOrd, Ord)]
pub enum Confidence {
    Low,
    Medium,
    High,
}

pub open spec fn confidence_label(c: Confidence) -> Seq<char> {
    match c {
        Confidence::Low => "low"@,
        Confidence::Medium => "medium"@,
        Confidence::High => "high"@,
    }
}

impl Confidence {
    pub fn to_string(&self) -> (r: String)
        ensures
            r@ == confidence_label(*self),
    {
        match self {
            Confidence::Low => owned("low"),
            Confidence::Medium => owned("medium"),
            Confidence::High => owned("high"),
        }
    }
}

/// One matched classification rule.
#[derive(Debug, Clone, PartialEq, Eq)]
pub struct Evidence {
    pub process_type: ProcessType,
    pub score: i32,
    pub message: String,
}

/// The category of a process, with the rules that matched.
#[derive(Debug, Clone, PartialEq, Eq)]
pub struct Classification {
    pub process_type: ProcessType,
    pub confidence: Confidence,
    pub score: i32,
    pub evidence: Vec<Evidence>,
}

pub open spec fn evidence_view(e: Evidence) -> (ProcessType, i32, Seq<char>) {
    (e.process_type, e.score, e.message@)
}

pub open spec fn evidence_views(es: Seq<Evidence>) -> Seq<(ProcessType, i32, Seq<char>)> {
    es.map_values(|e: Evidence| evidence_view(e))
}

/// `ros2 launch` or `ros2 run` in the command line, without ASCII case.
pub open spec fn is_launcher_model(name: Seq<char>, command: Seq<Seq<char>>) -> bool {
    let joined = lower(command_line_model(name, command));
    contains(joined, "ros2 launch"@) || contains(joined, "ros2 run"@)
}

pub open spec fn is_launcher(p: ProcessSnapshot) -> bool {
    is_launcher_model(p.name@, string_views(p.command@))
}

pub fn is_ros2_launcher(process: &ProcessSnapshot) -> (r: bool)
    ensures
        r == is_launcher(*process),
{
    let line = process.command_line();
    let v = chars_of(line.as_str());
    let l = lowercase(&v);
    contains_str(&l, "ros2 launch") || contains_str(&l, "ros2 run")
}

// The rules, in the order the evidence is listed: by score, highest first,
// and by message within a score.

pub open spec fn msg_container() -> Seq<char> {
    "cgroup contains docker/container runtime marker"@
}

pub open spec fn msg_systemd() -> Seq<char> {
    "cgroup contains a concrete systemd .service unit"@
}

pub open spec fn msg_install() -> Seq<char> {
    "executable matches install/<package>/lib/<package>/<executable>"@
}

pub open spec fn msg_browser() -> Seq<char> {
    "process name matches a known browser"@
}

pub open spec fn msg_ros_args() -> Seq<char> {
    "command contains --ros-args"@
}

pub open spec fn msg_dev() -> Seq<char> {
    "executable matches a known development/build tool"@
}

pub open spec fn msg_launcher() -> Seq<char> {
    "command contains ros2 launch/run"@
}

pub open spec fn msg_ancestor() -> Seq<char> {
    "ancestor command contains ros2 launch/run"@
}

pub open spec fn msg_ros_version() -> Seq<char> {
    "environment contains ROS_VERSION=2"@
}

pub open spec fn msg_ament() -> Seq<char> {
    "environment contains AMENT_PREFIX_PATH"@
}

/// Which rules a process matches.
pub struct RuleHits {
    pub install: bool,
    pub ros_args: bool,
    pub launcher: bool,
    pub ancestor_launcher: bool,
    pub ros_version: bool,
    pub ament: bool,
    pub container: bool,
    pub systemd: bool,
    pub development: bool,
    pub browser: bool,
}

pub open spec fn any_index(s: Seq<Seq<char>>, f: spec_fn(Seq<char>) -> bool) -> bool {
    exists|i: int| 0 <= i < s.len() && f(#[trigger] s[i])
}

pub open spec fn rule_hits(p: ProcessSnapshot, ancestors: Seq<ProcessSnapshot>) -> RuleHits {
    let cmd = string_views(p.command@);
    let cg = string_views(p.cgroup@);
    RuleHits {
        install: ros2_process_model(opt_view(p.executable), cmd) is Some,
        ros_args: cmd.contains("--ros-args"@),
        launcher: is_launcher(p),
        ancestor_launcher: exists|i: int| 0 <= i < ancestors.len() && is_launcher(#[trigger] ancestors[i]),
        ros_version: p.environment@.contains_key("ROS_VERSION"@) && p.environment@["ROS_VERSION"@]
            == "2"@,
        ament: p.environment@.contains_key("AMENT_PREFIX_PATH"@),
        container: exists|i: int| 0 <= i < cg.len() && is_container_cgroup_model(#[trigger] cg[i]),
        systemd: exists|i: int| 0 <= i < cg.len() && systemd_unit_model(#[trigger] cg[i]) is Some,
        development: known_development_model(p.name@) || match opt_view(p.executable) {
            Some(e) => match crate::path::file_name(e) {
                Some(n) => known_development_model(n),
                None => false,
            },
            None => false,
        },
        browser: is_browser_model(p.name@),
    }
}

/// The rules read only the content of the snapshots: snapshots that hold
/// the same values give the same hits.
pub proof fn lemma_rule_hits_by_content(
    p1: ProcessSnapshot,
    p2: ProcessSnapshot,
    a1: Seq<ProcessSnapshot>,
    a2: Seq<ProcessSnapshot>,
)
    requires
        crate::process::model::same_snapshot(p1, p2),
        a1.len() == a2.len(),
        forall|i: int| 0 <= i < a1.len() ==> crate::process::model::same_snapshot(#[trigger] a1[i], a2[i]),
    ensures
        rule_hits(p1, a1) == rule_hits(p2, a2),
{
    assert forall|i: int| 0 <= i < a1.len() implies is_launcher(#[trigger] a1[i]) == is_launcher(a2[i]) by {
        assert(crate::process::model::same_snapshot(a1[i], a2[i]));
    }
    if exists|i: int| 0 <= i < a1.len() && is_launcher(#[trigger] a1[i]) {
        let i = choose|i: int| 0 <= i < a1.len() && is_launcher(#[trigger] a1[i]);
        assert(is_launcher(a2[i]));
    }
    if exists|i: int| 0 <= i < a2.len() && is_launcher(#[trigger] a2[i]) {
        let i = choose|i: int| 0 <= i < a2.len() && is_launcher(#[trigger] a2[i]);
        assert(is_launcher(a1[i]));
    }
}

pub open spec fn push_if(
    es: Seq<(ProcessType, i32, Seq<char>)>,
    hit: bool,
    t: ProcessType,
    score: i32,
    msg: Seq<char>,
) -> Seq<(ProcessType, i32, Seq<char>)> {
    if hit {
        es.push((t, score, msg))
    } else {
        es
    }
}

/// The evidence list: every matched rule, highest score first, ties by message.
pub open spec fn evidence_model(h: RuleHits) -> Seq<(ProcessType, i32, Seq<char>)> {
    let e = Seq::<(ProcessType, i32, Seq<char>)>::empty();
    let e = push_if(e, h.container, ProcessType::Container, 90, msg_container());
    let e = push_if(e, h.systemd, ProcessType::Systemd, 80, msg_systemd());
    let e = push_if(e, h.install, ProcessType::Ros2, 80, msg_install());
    let e = push_if(e, h.browser, ProcessType::Browser, 80, msg_browser());
    let e = push_if(e, h.ros_args, ProcessType::Ros2, 70, msg_ros_args());
    let e = push_if(e, h.development, ProcessType::Development, 70, msg_dev());
    let e = push_if(e, h.launcher, ProcessType::Ros2, 60, msg_launcher());
    let e = push_if(e, h.ancestor_launcher, ProcessType::Ros2, 50, msg_ancestor());
    let e = push_if(e, h.ros_version, ProcessType::Ros2, 40, msg_ros_version());
    push_if(e, h.ament, ProcessType::Ros2, 20, msg_ament())
}

pub open spec fn pts(hit: bool, score: int) -> int {
    if hit {
        score
    } else {
        0
    }
}

/// The summed score of a category.
pub open spec fn type_score(h: RuleHits, t: ProcessType) -> int {
    match t {
        ProcessType::Ros2 => pts(h.install, 80) + pts(h.ros_args, 70) + pts(h.launcher, 60) + pts(
            h.ancestor_launcher,
            50,
        ) + pts(h.ros_version, 40) + pts(h.ament, 20),
        ProcessType::Container => pts(h.container, 90),
        ProcessType::Systemd => pts(h.systemd, 80),
        ProcessType::Development => pts(h.development, 70),
        ProcessType::Browser => pts(h.browser, 80),
        ProcessType::Generic => 0,
    }
}

/// Strong ROS 2 evidence: an installed ROS 2 executable, `--ros-args`, or a
/// `ros2 launch/run` in the process or an ancestor.
pub open spec fn strong_ros2(h: RuleHits) -> bool {
    h.install || h.ros_args || h.launcher || h.ancestor_launcher
}

/// The winner among the categories in precedence order: a category replaces
/// the best so far only with a strictly higher score.
pub open spec fn best_of(h: RuleHits, order: Seq<ProcessType>) -> ProcessType
    decreases order.len(),
{
    if order.len() == 0 {
        ProcessType::Generic
    } else {
        let prev = best_of(h, order.drop_last());
        if type_score(h, order.last()) > type_score(h, prev) {
            order.last()
        } else {
            prev
        }
    }
}

pub open spec fn precedence() -> Seq<ProcessType> {
    seq![
        ProcessType::Ros2,
        ProcessType::Container,
        ProcessType::Systemd,
        ProcessType::Development,
        ProcessType::Browser,
    ]
}

pub open spec fn winning_type_model(h: RuleHits) -> ProcessType {
    if strong_ros2(h) {
        ProcessType::Ros2
    } else {
        best_of(h, precedence())
    }
}

pub open spec fn confidence_of(score: int) -> Confidence {
    if score >= 100 {
        Confidence::High
    } else if score >= 60 {
        Confidence::Medium
    } else {
        Confidence::Low
    }
}

pub open spec fn classification_matches(c: Classification, h: RuleHits) -> bool {
    let t = winning_type_model(h);
    &&& c.process_type == t
    &&& c.score == type_score(h, t)
    &&& c.confidence == confidence_of(type_score(h, t))
    &&& evidence_views(c.evidence@) == evidence_model(h)
}

fn push_evidence(
    evidence: &mut Vec<Evidence>,
    hit: bool,
    process_type: ProcessType,
    score: i32,
    message: &str,
)
    ensures
        evidence_views(final(evidence)@) == push_if(
            evidence_views(old(evidence)@),
            hit,
            process_type,
            score,
            message@,
        ),
{
    if hit {
        let e = Evidence { process_type, score, message: owned(message) };
        evidence.push(e);
        proof {
            assert(evidence_views(evidence@) =~= evidence_views(old(evidence)@).push(
                (process_type, score, message@),
            ));
        }
    }
}

fn any_container_cgroup(cgroup: &Vec<String>) -> (r: bool)
    ensures
        r == exists|i: int|
            0 <= i < cgroup@.len() && is_container_cgroup_model(
                #[trigger] string_views(cgroup@)[i],
            ),
{
    let mut i: usize = 0;
    while i < cgroup.len()
        invariant
            i <= cgroup.len(),
            forall|j: int|
                0 <= j < i ==> !is_container_cgroup_model(#[trigger] string_views(cgroup@)[j]),
        decreases cgroup.len() - i,
    {
        if is_container_cgroup(cgroup[i].as_str()) {
            proof {
                assert(string_views(cgroup@)[i as int] == cgroup@[i as int]@);
            }
            return true;
        }
        proof {
            assert(string_views(cgroup@)[i as int] == cgroup@[i as int]@);
        }
        i = i + 1;
    }
    false
}

fn any_systemd_cgroup(cgroup: &Vec<String>) -> (r: bool)
    ensures
        r == exists|i: int|
            0 <= i < cgroup@.len() && systemd_unit_model(#[trigger] string_views(cgroup@)[i]) is Some,
{
    let mut i: usize = 0;
    while i < cgroup.len()
        invariant
            i <= cgroup.len(),
            forall|j: int|
                0 <= j < i ==> systemd_unit_model(#[trigger] string_views(cgroup@)[j]) is None,
        decreases cgroup.len() - i,
    {
        proof {
            assert(string_views(cgroup@)[i as int] == cgroup@[i as int]@);
        }
        if systemd_service_unit(cgroup[i].as_str()).is_some() {
            return true;
        }
        i = i + 1;
    }
    false
}

fn has_argument(command: &Vec<String>, arg: &str) -> (r: bool)
    ensures
        r == string_views(command@).contains(arg@),
{
    let mut i: usize = 0;
    while i < command.len()
        invariant
            i <= command.len(),
            forall|j: int| 0 <= j < i ==> string_views(command@)[j] != arg@,
        decreases command.len() - i,
    {
        let part = chars_of(command[i].as_str());
        proof {
            assert(string_views(command@)[i as int] == part@);
        }
        if eq_str(&part, arg) {
            return true;
        }
        i = i + 1;
    }
    false
}

fn any_launcher(ancestors: &[ProcessSnapshot]) -> (r: bool)
    ensures
        r == exists|i: int| 0 <= i < ancestors@.len() && is_launcher(#[trigger] ancestors@[i]),
{
    let mut i: usize = 0;
    while i < ancestors.len()
        invariant
            i <= ancestors.len(),
            forall|j: int| 0 <= j < i ==> !is_launcher(#[trigger] ancestors@[j]),
        decreases ancestors.len() - i,
    {
        if is_ros2_launcher(&ancestors[i]) {
            return true;
        }
        i = i + 1;
    }
    false
}

fn development_hit(process: &ProcessSnapshot) -> (r: bool)
    ensures
        r == rule_hits(*process, Seq::empty()).development,
{
    if known_development_executable(process.name.as_str()) {
        return true;
    }
    match &process.executable {
        Some(e) => {
            let ev = chars_of(e.as_str());
            match crate::path::file_name_of(&ev) {
                Some(n) => {
                    let s = crate::text::string_of(&n);
                    known_development_executable(s.as_str())
                },
                None => false,
            }
        },
        None => false,
    }
}

fn score_of(scores: &[i32; 5], t: ProcessType) -> (r: i32)
    ensures
        r == match t {
            ProcessType::Ros2 => scores@[0],
            ProcessType::Container => scores@[1],
            ProcessType::Systemd => scores@[2],
            ProcessType::Development => scores@[3],
            ProcessType::Browser => scores@[4],
            ProcessType::Generic => 0,
        },
{
    match t {
        ProcessType::Ros2 => scores[0],
        ProcessType::Container => scores[1],
        ProcessType::Systemd => scores[2],
        ProcessType::Development => scores[3],
        ProcessType::Browser => scores[4],
        ProcessType::Generic => 0,
    }
}

/// Chooses the category: strong ROS 2 evidence wins outright; otherwise the
/// highest summed score, earlier categories winning ties.
fn winning_type(scores: &[i32; 5], strong: bool, Ghost(h): Ghost<RuleHits>) -> (r: ProcessType)
    requires
        scores@[0] == type_score(h, ProcessType::Ros2),
        scores@[1] == type_score(h, ProcessType::Container),
        scores@[2] == type_score(h, ProcessType::Systemd),
        scores@[3] == type_score(h, ProcessType::Development),
        scores@[4] == type_score(h, ProcessType::Browser),
        strong == strong_ros2(h),
    ensures
        r == winning_type_model(h),
{
    if strong {
        return ProcessType::Ros2;
    }
    let order = [
        ProcessType::Ros2,
        ProcessType::Container,
        ProcessType::Systemd,
        ProcessType::Development,
        ProcessType::Browser,
    ];
    proof {
        assert(order@ =~= precedence());
        assert(precedence().take(0) =~= Seq::<ProcessType>::empty());
    }
    let mut best = ProcessType::Generic;
    let mut best_score: i32 = 0;
    let mut i: usize = 0;
    while i < 5
        invariant
            i <= 5,
            order@ == precedence(),
            best == best_of(h, precedence().take(i as int)),
            best_score == type_score(h, best),
            scores@[0] == type_score(h, ProcessType::Ros2),
            scores@[1] == type_score(h, ProcessType::Container),
            scores@[2] == type_score(h, ProcessType::Systemd),
            scores@[3] == type_score(h, ProcessType::Development),
            scores@[4] == type_score(h, ProcessType::Browser),
        decreases 5 - i,
    {
        let t = order[i];
        let score = score_of(scores, t);
        proof {
            assert(precedence().take(i + 1).drop_last() == precedence().take(i as int));
            assert(precedence().take(i + 1).last() == t);
        }
        if score > best_score {
            best = t;
            best_score = score;
        }
        i = i + 1;
    }
    proof {
        assert(precedence().take(5) == precedence());
    }
    best
}

/// Classifies a process from its own facts and those of its ancestors.
pub fn classify(process: &ProcessSnapshot, ancestors: &[ProcessSnapshot]) -> (r: Classification)
    ensures
        classification_matches(r, rule_hits(*process, ancestors@)),
{
    let ghost h = rule_hits(*process, ancestors@);
    let install = resolve_ros2_process(process).is_some();
    let ros_args = has_argument(&process.command, "--ros-args");
    let launcher = is_ros2_launcher(process);
    let ancestor_launcher = any_launcher(ancestors);
    let ros_version = match process.environment.get("ROS_VERSION") {
        Some(v) => {
            let vv = chars_of(v.as_str());
            eq_str(&vv, "2")
        },
        None => false,
    };
    let ament = process.environment.contains_key("AMENT_PREFIX_PATH");
    let container = any_container_cgroup(&process.cgroup);
    let systemd = any_systemd_cgroup(&process.cgroup);
    let development = development_hit(process);
    let browser = is_browser(process.name.as_str());
    proof {
        assert(install == h.install);
        assert(development == h.development);
    }
    let mut evidence: Vec<Evidence> = Vec::new();
    proof {
        assert(evidence_views(evidence@) =~= Seq::<(ProcessType, i32, Seq<char>)>::empty());
    }
    push_evidence(
        &mut evidence,
        container,
        ProcessType::Container,
        90,
        "cgroup contains docker/container runtime marker",
    );
    push_evidence(
        &mut evidence,
        systemd,
        ProcessType::Systemd,
        80,
        "cgroup contains a concrete systemd .service unit",
    );
    push_evidence(
        &mut evidence,
        install,
        ProcessType::Ros2,
        80,
        "executable matches install/<package>/lib/<package>/<executable>",
    );
    push_evidence(
        &mut evidence,
        browser,
        ProcessType::Browser,
        80,
        "process name matches a known browser",
    );
    push_evidence(&mut evidence, ros_args, ProcessType::Ros2, 70, "command contains --ros-args");
    push_evidence(
        &mut evidence,
        development,
        ProcessType::Development,
        70,
        "executable matches a known development/build tool",
    );
    push_evidence(
        &mut evidence,
        launcher,
        ProcessType::Ros2,
        60,
        "command contains ros2 launch/run",
    );
    push_evidence(
        &mut evidence,
        ancestor_launcher,
        ProcessType::Ros2,
        50,
        "ancestor command contains ros2 launch/run",
    );
    push_evidence(
        &mut evidence,
        ros_version,
        ProcessType::Ros2,
        40,
        "environment contains ROS_VERSION=2",
    );
    push_evidence(
        &mut evidence,
        ament,
        ProcessType::Ros2,
        20,
        "environment contains AMENT_PREFIX_PATH",
    );
    let ros2_score: i32 = (if install { 80 } else { 0 }) + (if ros_args { 70 } else { 0 }) + (if launcher {
        60
    } else {
        0
    }) + (if ancestor_launcher { 50 } else { 0 }) + (if ros_version { 40 } else { 0 }) + (if ament {
        20
    } else {
        0
    });
    let scores: [i32; 5] = [
        ros2_score,
        if container { 90 } else { 0 },
        if systemd { 80 } else { 0 },
        if development { 70 } else { 0 },
        if browser { 80 } else { 0 },
    ];
    let strong = install || ros_args || launcher || ancestor_launcher;
    let process_type = winning_type(&scores, strong, Ghost(h));
    let score = score_of(&scores, process_type);
    let confidence = if score >= 100 {
        Confidence::High
    } else if score >= 60 {
        Confidence::Medium
    } else {
        Confidence::Low
    };
    Classification { process_type, confidence, score, evidence }
}

} // verus!
