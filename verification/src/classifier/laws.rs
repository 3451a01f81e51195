use vstd::prelude::*;

use super::{
    best_of, classification_matches, evidence_model, evidence_views, msg_ament, msg_ancestor, msg_browser, msg_container,
    msg_dev, msg_install, msg_launcher, msg_ros_args, msg_ros_version, msg_systemd, precedence,
    push_if, rule_hits, strong_ros2, type_score, Classification, Confidence, ProcessType, RuleHits,
};
use crate::order::{lemma_text_lt_transitive, text_lt};
use crate::process::model::ProcessSnapshot;
use crate::process::resolver::opt_view;
use crate::text::{contains, lower};

verus! {

pub open spec fn scores_nonincreasing(es: Seq<(ProcessType, i32, Seq<char>)>) -> bool {
    forall|i: int, j: int| 0 <= i < j < es.len() ==> es[i].1 >= es[j].1
}

pub open spec fn all_at_least(es: Seq<(ProcessType, i32, Seq<char>)>, floor: i32) -> bool {
    forall|i: int| 0 <= i < es.len() ==> es[i].1 >= floor
}

proof fn lemma_push_if_keeps_order(
    es: Seq<(ProcessType, i32, Seq<char>)>,
    hit: bool,
    t: ProcessType,
    score: i32,
    msg: Seq<char>,
    next_floor: i32,
)
    requires
        scores_nonincreasing(es),
        all_at_least(es, score),
        next_floor <= score,
    ensures
        scores_nonincreasing(push_if(es, hit, t, score, msg)),
        all_at_least(push_if(es, hit, t, score, msg), next_floor),
{
    let r = push_if(es, hit, t, score, msg);
    if hit {
        assert forall|i: int, j: int| 0 <= i < j < r.len() implies r[i].1 >= r[j].1 by {
            if j == es.len() {
                assert(r[i] == es[i]);
            } else {
                assert(r[i] == es[i] && r[j] == es[j]);
            }
        }
        assert forall|i: int| 0 <= i < r.len() implies r[i].1 >= next_floor by {
            if i < es.len() {
                assert(r[i] == es[i]);
            }
        }
    }
}

/// The evidence of a classification is listed highest score first.
pub proof fn evidence_is_ordered_by_score(process: ProcessSnapshot, ancestors: Seq<ProcessSnapshot>)
    ensures
        scores_nonincreasing(evidence_model(rule_hits(process, ancestors))),
{
    let h = rule_hits(process, ancestors);
    let e0 = Seq::<(ProcessType, i32, Seq<char>)>::empty();
    lemma_push_if_keeps_order(e0, h.container, ProcessType::Container, 90, msg_container(), 80);
    let e1 = push_if(e0, h.container, ProcessType::Container, 90, msg_container());
    lemma_push_if_keeps_order(e1, h.systemd, ProcessType::Systemd, 80, msg_systemd(), 80);
    let e2 = push_if(e1, h.systemd, ProcessType::Systemd, 80, msg_systemd());
    lemma_push_if_keeps_order(e2, h.install, ProcessType::Ros2, 80, msg_install(), 80);
    let e3 = push_if(e2, h.install, ProcessType::Ros2, 80, msg_install());
    lemma_push_if_keeps_order(e3, h.browser, ProcessType::Browser, 80, msg_browser(), 70);
    let e4 = push_if(e3, h.browser, ProcessType::Browser, 80, msg_browser());
    lemma_push_if_keeps_order(e4, h.ros_args, ProcessType::Ros2, 70, msg_ros_args(), 70);
    let e5 = push_if(e4, h.ros_args, ProcessType::Ros2, 70, msg_ros_args());
    lemma_push_if_keeps_order(e5, h.development, ProcessType::Development, 70, msg_dev(), 60);
    let e6 = push_if(e5, h.development, ProcessType::Development, 70, msg_dev());
    lemma_push_if_keeps_order(e6, h.launcher, ProcessType::Ros2, 60, msg_launcher(), 50);
    let e7 = push_if(e6, h.launcher, ProcessType::Ros2, 60, msg_launcher());
    lemma_push_if_keeps_order(e7, h.ancestor_launcher, ProcessType::Ros2, 50, msg_ancestor(), 40);
    let e8 = push_if(e7, h.ancestor_launcher, ProcessType::Ros2, 50, msg_ancestor());
    lemma_push_if_keeps_order(e8, h.ros_version, ProcessType::Ros2, 40, msg_ros_version(), 20);
    let e9 = push_if(e8, h.ros_version, ProcessType::Ros2, 40, msg_ros_version());
    lemma_push_if_keeps_order(e9, h.ament, ProcessType::Ros2, 20, msg_ament(), 0);
}

/// Strong ROS 2 evidence (an installed ROS 2 executable, `--ros-args`, or a
/// `ros2 launch/run` in the process or an ancestor) makes the process ROS2,
/// whatever other categories score.
pub proof fn strong_ros2_evidence_wins(
    c: Classification,
    process: ProcessSnapshot,
    ancestors: Seq<ProcessSnapshot>,
)
    requires
        classification_matches(c, rule_hits(process, ancestors)),
        strong_ros2(rule_hits(process, ancestors)),
    ensures
        c.process_type == ProcessType::Ros2,
{
}

proof fn lemma_best_of_is_maximal(h: RuleHits, order: Seq<ProcessType>)
    ensures
        type_score(h, best_of(h, order)) >= 0,
        forall|k: int|
            0 <= k < order.len() ==> type_score(h, best_of(h, order)) >= type_score(h, order[k]),
        best_of(h, order) == ProcessType::Generic || order.contains(best_of(h, order)),
    decreases order.len(),
{
    if order.len() > 0 {
        lemma_best_of_is_maximal(h, order.drop_last());
        let prev = best_of(h, order.drop_last());
        assert forall|k: int|
            0 <= k < order.len() implies type_score(h, best_of(h, order)) >= type_score(
            h,
            order[k],
        ) by {
            if k < order.len() - 1 {
                assert(order[k] == order.drop_last()[k]);
            }
        }
        if best_of(h, order) != ProcessType::Generic {
            if best_of(h, order) == order.last() {
                assert(order[order.len() - 1] == order.last());
            } else {
                let k = choose|k: int| 0 <= k < order.drop_last().len() && order.drop_last()[k] == prev;
                assert(order[k] == prev);
            }
        }
    }
}

proof fn lemma_best_of_nothing_scored(h: RuleHits, order: Seq<ProcessType>)
    requires
        forall|k: int| 0 <= k < order.len() ==> type_score(h, order[k]) <= 0,
    ensures
        best_of(h, order) == ProcessType::Generic,
    decreases order.len(),
{
    if order.len() > 0 {
        assert forall|k: int| 0 <= k < order.drop_last().len() implies type_score(
            h,
            order.drop_last()[k],
        ) <= 0 by {
            assert(order.drop_last()[k] == order[k]);
        }
        lemma_best_of_nothing_scored(h, order.drop_last());
        assert(type_score(h, order[order.len() - 1]) <= 0);
    }
}

/// Without strong ROS 2 evidence the chosen category has the highest summed
/// score of all categories; a process that matched no rule is PROCESS with
/// score 0 and low confidence.
pub proof fn highest_score_wins(c: Classification, process: ProcessSnapshot, ancestors: Seq<ProcessSnapshot>)
    requires
        classification_matches(c, rule_hits(process, ancestors)),
        !strong_ros2(rule_hits(process, ancestors)),
    ensures
        forall|t: ProcessType| c.score >= type_score(rule_hits(process, ancestors), t),
        c.evidence@.len() == 0 ==> c.process_type == ProcessType::Generic && c.score == 0
            && c.confidence == Confidence::Low,
{
    let h = rule_hits(process, ancestors);
    lemma_best_of_is_maximal(h, precedence());
    assert forall|t: ProcessType| c.score >= type_score(h, t) by {
        match t {
            ProcessType::Ros2 => assert(precedence()[0] == t),
            ProcessType::Container => assert(precedence()[1] == t),
            ProcessType::Systemd => assert(precedence()[2] == t),
            ProcessType::Development => assert(precedence()[3] == t),
            ProcessType::Browser => assert(precedence()[4] == t),
            ProcessType::Generic => {},
        }
    }
    if c.evidence@.len() == 0 {
        assert(evidence_views(c.evidence@).len() == 0);
        assert(!h.container && !h.systemd && !h.install && !h.browser && !h.ros_args
            && !h.development && !h.launcher && !h.ancestor_launcher && !h.ros_version && !h.ament);
        lemma_best_of_nothing_scored(h, precedence());
    }
}


/// One piece of evidence comes before another: a higher score, or the same
/// score and a message earlier in text order.
pub open spec fn evidence_before(a: (ProcessType, i32, Seq<char>), score: i32, msg: Seq<char>) -> bool {
    a.1 > score || (a.1 == score && text_lt(a.2, msg))
}

pub open spec fn score_then_message(es: Seq<(ProcessType, i32, Seq<char>)>) -> bool {
    forall|i: int, j: int| 0 <= i < j < es.len() ==> evidence_before(es[i], es[j].1, es[j].2)
}

proof fn lemma_push_if_keeps_full_order(
    es: Seq<(ProcessType, i32, Seq<char>)>,
    hit: bool,
    t: ProcessType,
    score: i32,
    msg: Seq<char>,
    next_score: i32,
    next_msg: Seq<char>,
)
    requires
        score_then_message(es),
        forall|i: int| 0 <= i < es.len() ==> evidence_before(#[trigger] es[i], score, msg),
        evidence_before((t, score, msg), next_score, next_msg),
    ensures
        score_then_message(push_if(es, hit, t, score, msg)),
        forall|i: int|
            0 <= i < push_if(es, hit, t, score, msg).len() ==> evidence_before(
                #[trigger] push_if(es, hit, t, score, msg)[i],
                next_score,
                next_msg,
            ),
{
    let r = push_if(es, hit, t, score, msg);
    assert forall|i: int| 0 <= i < es.len() implies evidence_before(#[trigger] es[i], next_score, next_msg) by {
        if es[i].1 == score && score == next_score {
            lemma_text_lt_transitive(es[i].2, msg, next_msg);
        }
    }
    if hit {
        assert forall|i: int, j: int| 0 <= i < j < r.len() implies evidence_before(r[i], r[j].1, r[j].2) by {
            assert(r[i] == es[i]);
            if j < es.len() {
                assert(r[j] == es[j]);
            }
        }
        assert forall|i: int| 0 <= i < r.len() implies evidence_before(#[trigger] r[i], next_score, next_msg) by {
            if i < es.len() {
                assert(r[i] == es[i]);
            }
        }
    }
}

/// The evidence is listed by score, highest first, and by message in text
/// order within one score.
pub proof fn evidence_is_ordered_by_score_then_message(process: ProcessSnapshot, ancestors: Seq<ProcessSnapshot>)
    ensures
        score_then_message(evidence_model(rule_hits(process, ancestors))),
{
    reveal_strlit("cgroup contains a concrete systemd .service unit");
    reveal_strlit("executable matches install/<package>/lib/<package>/<executable>");
    reveal_strlit("process name matches a known browser");
    reveal_strlit("command contains --ros-args");
    reveal_strlit("executable matches a known development/build tool");
    let h = rule_hits(process, ancestors);
    assert(text_lt(msg_systemd(), msg_install()));
    assert(text_lt(msg_install(), msg_browser()));
    assert(text_lt(msg_ros_args(), msg_dev()));
    let e0 = Seq::<(ProcessType, i32, Seq<char>)>::empty();
    lemma_push_if_keeps_full_order(e0, h.container, ProcessType::Container, 90, msg_container(), 80, msg_systemd());
    let e1 = push_if(e0, h.container, ProcessType::Container, 90, msg_container());
    lemma_push_if_keeps_full_order(e1, h.systemd, ProcessType::Systemd, 80, msg_systemd(), 80, msg_install());
    let e2 = push_if(e1, h.systemd, ProcessType::Systemd, 80, msg_systemd());
    lemma_push_if_keeps_full_order(e2, h.install, ProcessType::Ros2, 80, msg_install(), 80, msg_browser());
    let e3 = push_if(e2, h.install, ProcessType::Ros2, 80, msg_install());
    lemma_push_if_keeps_full_order(e3, h.browser, ProcessType::Browser, 80, msg_browser(), 70, msg_ros_args());
    let e4 = push_if(e3, h.browser, ProcessType::Browser, 80, msg_browser());
    lemma_push_if_keeps_full_order(e4, h.ros_args, ProcessType::Ros2, 70, msg_ros_args(), 70, msg_dev());
    let e5 = push_if(e4, h.ros_args, ProcessType::Ros2, 70, msg_ros_args());
    lemma_push_if_keeps_full_order(e5, h.development, ProcessType::Development, 70, msg_dev(), 60, msg_launcher());
    let e6 = push_if(e5, h.development, ProcessType::Development, 70, msg_dev());
    lemma_push_if_keeps_full_order(e6, h.launcher, ProcessType::Ros2, 60, msg_launcher(), 50, msg_ancestor());
    let e7 = push_if(e6, h.launcher, ProcessType::Ros2, 60, msg_launcher());
    lemma_push_if_keeps_full_order(e7, h.ancestor_launcher, ProcessType::Ros2, 50, msg_ancestor(), 40, msg_ros_version());
    let e8 = push_if(e7, h.ancestor_launcher, ProcessType::Ros2, 50, msg_ancestor());
    lemma_push_if_keeps_full_order(e8, h.ros_version, ProcessType::Ros2, 40, msg_ros_version(), 20, msg_ament());
    let e9 = push_if(e8, h.ros_version, ProcessType::Ros2, 40, msg_ros_version());
    lemma_push_if_keeps_full_order(e9, h.ament, ProcessType::Ros2, 20, msg_ament(), 0, Seq::empty());
}

proof fn lemma_best_of_first(h: RuleHits, order: Seq<ProcessType>)
    ensures
        best_of(h, order) == ProcessType::Generic ==> forall|k: int|
            0 <= k < order.len() ==> type_score(h, #[trigger] order[k]) <= 0,
        best_of(h, order) != ProcessType::Generic ==> exists|i: int|
            0 <= i < order.len() && order[i] == best_of(h, order) && type_score(h, order[i]) > 0 && forall|k: int|
                0 <= k < i ==> type_score(h, #[trigger] order[k]) < type_score(h, order[i]),
    decreases order.len(),
{
    if order.len() > 0 {
        let d = order.drop_last();
        lemma_best_of_first(h, d);
        lemma_best_of_is_maximal(h, d);
        let prev = best_of(h, d);
        let n = order.len() - 1;
        if type_score(h, order.last()) > type_score(h, prev) {
            assert(order[n] == order.last());
            assert forall|k: int| 0 <= k < n implies type_score(h, #[trigger] order[k]) < type_score(h, order[n]) by {
                assert(order[k] == d[k]);
            }
        } else {
            if prev == ProcessType::Generic {
                assert forall|k: int| 0 <= k < order.len() implies type_score(h, #[trigger] order[k]) <= 0 by {
                    if k < n {
                        assert(order[k] == d[k]);
                    }
                }
            } else {
                let i = choose|i: int|
                    0 <= i < d.len() && d[i] == prev && type_score(h, d[i]) > 0 && forall|k: int|
                        0 <= k < i ==> type_score(h, #[trigger] d[k]) < type_score(h, d[i]);
                assert(order[i] == d[i]);
                assert forall|k: int| 0 <= k < i implies type_score(h, #[trigger] order[k]) < type_score(h, order[i]) by {
                    assert(order[k] == d[k]);
                }
            }
        }
    }
}

/// Without strong ROS 2 evidence: the process is PROCESS exactly when every
/// category sums to 0; otherwise its category is the first one, in the
/// fixed order ROS2, CONTAINER, SYSTEMD, DEV, BROWSER, with the largest sum
/// (a tie goes to the earlier one), and its score is that sum.
pub proof fn ties_go_to_the_earlier_category(c: Classification, process: ProcessSnapshot, ancestors: Seq<ProcessSnapshot>)
    requires
        classification_matches(c, rule_hits(process, ancestors)),
        !strong_ros2(rule_hits(process, ancestors)),
    ensures
        c.process_type == ProcessType::Generic <==> forall|t: ProcessType| type_score(rule_hits(process, ancestors), t) == 0,
        c.process_type != ProcessType::Generic ==> exists|i: int|
            0 <= i < precedence().len() && precedence()[i] == c.process_type && forall|k: int|
                0 <= k < i ==> type_score(rule_hits(process, ancestors), #[trigger] precedence()[k]) < c.score,
        c.score == type_score(rule_hits(process, ancestors), c.process_type),
{
    let h = rule_hits(process, ancestors);
    lemma_best_of_first(h, precedence());
    lemma_best_of_is_maximal(h, precedence());
    if c.process_type == ProcessType::Generic {
        assert forall|t: ProcessType| type_score(h, t) == 0 by {
            match t {
                ProcessType::Ros2 => assert(precedence()[0] == t),
                ProcessType::Container => assert(precedence()[1] == t),
                ProcessType::Systemd => assert(precedence()[2] == t),
                ProcessType::Development => assert(precedence()[3] == t),
                ProcessType::Browser => assert(precedence()[4] == t),
                ProcessType::Generic => {},
            }
        }
    } else {
        let i = choose|i: int|
            0 <= i < precedence().len() && precedence()[i] == best_of(h, precedence()) && type_score(h, precedence()[i]) > 0
                && forall|k: int| 0 <= k < i ==> type_score(h, #[trigger] precedence()[k]) < type_score(h, precedence()[i]);
        assert(type_score(h, c.process_type) > 0);
    }
}


/// The development and build tools that are known by name.
pub open spec fn development_tools() -> Seq<Seq<char>> {
    seq![
        "code"@,
        "code-insiders"@,
        "clangd"@,
        "rustc"@,
        "cargo"@,
        "cmake"@,
        "ninja"@,
        "make"@,
        "colcon"@,
        "gcc"@,
        "g++"@,
        "clang"@,
        "clang++"@,
        "cc1"@,
        "cc1plus"@,
        "rust-analyzer"@,
        "pyright-langserver"@,
        "pylsp"@,
    ]
}

/// A process is a known tool: its name, or its executable's file name, is
/// one of the known tools without ASCII case.
pub open spec fn is_known_tool(p: ProcessSnapshot) -> bool {
    ||| development_tools().contains(lower(p.name@))
    ||| match opt_view(p.executable) {
        Some(e) => match crate::path::file_name(e) {
            Some(n) => development_tools().contains(lower(n)),
            None => false,
        },
        None => false,
    }
}

proof fn lemma_known_tool(name: Seq<char>)
    requires
        development_tools().contains(lower(name)),
    ensures
        super::rules::known_development_model(name),
{
    let t = development_tools();
    let i = choose|i: int| 0 <= i < t.len() && t[i] == lower(name);
    assert(t[0] == "code"@);
    assert(t[1] == "code-insiders"@);
    assert(t[2] == "clangd"@);
    assert(t[3] == "rustc"@);
    assert(t[4] == "cargo"@);
    assert(t[5] == "cmake"@);
    assert(t[6] == "ninja"@);
    assert(t[7] == "make"@);
    assert(t[8] == "colcon"@);
    assert(t[9] == "gcc"@);
    assert(t[10] == "g++"@);
    assert(t[11] == "clang"@);
    assert(t[12] == "clang++"@);
    assert(t[13] == "cc1"@);
    assert(t[14] == "cc1plus"@);
    assert(t[15] == "rust-analyzer"@);
    assert(t[16] == "pyright-langserver"@);
    assert(t[17] == "pylsp"@);
}

/// A known development or build tool earns the development rule's 70
/// points, with its piece of evidence; when no other rule matches it, the
/// process is DEV with score 70, medium confidence and that one piece of
/// evidence.
pub proof fn known_tool_is_development(c: Classification, process: ProcessSnapshot, ancestors: Seq<ProcessSnapshot>)
    requires
        classification_matches(c, rule_hits(process, ancestors)),
        is_known_tool(process),
    ensures
        !strong_ros2(rule_hits(process, ancestors)) ==> c.score >= 70,
        ({
            let h = rule_hits(process, ancestors);
            !h.container && !h.systemd && !h.install && !h.browser && !h.ros_args && !h.launcher
                && !h.ancestor_launcher && !h.ros_version && !h.ament
        }) ==> c.process_type == ProcessType::Development && c.score == 70 && c.confidence
            == Confidence::Medium && evidence_views(c.evidence@) == seq![
            (ProcessType::Development, 70i32, "executable matches a known development/build tool"@),
        ],
{
    let h = rule_hits(process, ancestors);
    if development_tools().contains(lower(process.name@)) {
        lemma_known_tool(process.name@);
    } else {
        let n = crate::path::file_name(opt_view(process.executable)->0)->0;
        lemma_known_tool(n);
    }
    assert(h.development);
    if !strong_ros2(h) {
        highest_score_wins(c, process, ancestors);
        assert(c.score >= type_score(h, ProcessType::Development));
    }
    if !h.container && !h.systemd && !h.install && !h.browser && !h.ros_args && !h.launcher
        && !h.ancestor_launcher && !h.ros_version && !h.ament {
        let order = precedence();
        assert(order.take(1).drop_last() =~= order.take(0));
        assert(order.take(2).drop_last() =~= order.take(1));
        assert(order.take(3).drop_last() =~= order.take(2));
        assert(order.take(4).drop_last() =~= order.take(3));
        assert(order.take(5).drop_last() =~= order.take(4));
        assert(order.take(5) =~= order);
        assert(best_of(h, order.take(0)) == ProcessType::Generic);
        assert(order.take(1).last() == ProcessType::Ros2);
        assert(order.take(2).last() == ProcessType::Container);
        assert(order.take(3).last() == ProcessType::Systemd);
        assert(order.take(4).last() == ProcessType::Development);
        assert(order.take(5).last() == ProcessType::Browser);
        assert(type_score(h, ProcessType::Ros2) == 0);
        assert(best_of(h, order.take(1)) == ProcessType::Generic);
        assert(best_of(h, order.take(2)) == ProcessType::Generic);
        assert(best_of(h, order.take(3)) == ProcessType::Generic);
        assert(best_of(h, order.take(4)) == ProcessType::Development);
        assert(best_of(h, order.take(5)) == ProcessType::Development);
        assert(evidence_model(h) =~= seq![(ProcessType::Development, 70i32, msg_dev())]);
    }
}


/// A process whose name holds `firefox`, `chrome`, `chromium` or `brave`
/// (without ASCII case) earns the browser rule's 80 points; when no other
/// rule matches it, the process is BROWSER with score 80, medium confidence
/// and that one piece of evidence.
pub proof fn browser_name_is_browser(c: Classification, process: ProcessSnapshot, ancestors: Seq<ProcessSnapshot>)
    requires
        classification_matches(c, rule_hits(process, ancestors)),
        ({
            let l = lower(process.name@);
            contains(l, "firefox"@) || contains(l, "chrome"@) || contains(l, "chromium"@) || contains(l, "brave"@)
        }),
    ensures
        !strong_ros2(rule_hits(process, ancestors)) ==> c.score >= 80,
        ({
            let h = rule_hits(process, ancestors);
            !h.container && !h.systemd && !h.install && !h.development && !h.ros_args && !h.launcher
                && !h.ancestor_launcher && !h.ros_version && !h.ament
        }) ==> c.process_type == ProcessType::Browser && c.score == 80 && c.confidence == Confidence::Medium
            && evidence_views(c.evidence@) == seq![
            (ProcessType::Browser, 80i32, "process name matches a known browser"@),
        ],
{
    let h = rule_hits(process, ancestors);
    assert(h.browser);
    if !strong_ros2(h) {
        highest_score_wins(c, process, ancestors);
        assert(c.score >= type_score(h, ProcessType::Browser));
    }
    if !h.container && !h.systemd && !h.install && !h.development && !h.ros_args && !h.launcher
        && !h.ancestor_launcher && !h.ros_version && !h.ament {
        let order = precedence();
        assert(order.take(1).drop_last() =~= order.take(0));
        assert(order.take(2).drop_last() =~= order.take(1));
        assert(order.take(3).drop_last() =~= order.take(2));
        assert(order.take(4).drop_last() =~= order.take(3));
        assert(order.take(5).drop_last() =~= order.take(4));
        assert(order.take(5) =~= order);
        assert(best_of(h, order.take(0)) == ProcessType::Generic);
        assert(order.take(1).last() == ProcessType::Ros2);
        assert(order.take(2).last() == ProcessType::Container);
        assert(order.take(3).last() == ProcessType::Systemd);
        assert(order.take(4).last() == ProcessType::Development);
        assert(order.take(5).last() == ProcessType::Browser);
        assert(type_score(h, ProcessType::Ros2) == 0);
        assert(best_of(h, order.take(1)) == ProcessType::Generic);
        assert(best_of(h, order.take(2)) == ProcessType::Generic);
        assert(best_of(h, order.take(3)) == ProcessType::Generic);
        assert(best_of(h, order.take(4)) == ProcessType::Generic);
        assert(best_of(h, order.take(5)) == ProcessType::Browser);
        assert(evidence_model(h) =~= seq![(ProcessType::Browser, 80i32, msg_browser())]);
    }
}

} // verus!
