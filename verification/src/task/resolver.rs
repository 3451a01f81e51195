use vstd::prelude::*;

use crate::app::{first_unit, systemd_unit, EnrichedProcess};
use crate::classifier::rules::is_container_cgroup_model;
use crate::classifier::{is_container_cgroup, is_launcher, is_ros2_launcher, ProcessType};
use crate::decimal::{dec, dec_int, dec_i64, dec_u64};
use crate::order::{text_less, text_lt};
use crate::process::model::{command_line_model, string_views, ProcessIdentity};
use crate::process::resolver::opt_view;
use crate::provenance::{find_by_pid, index_of_pid, ProcessProvenance};
use crate::task::model::{TaskId, TaskKind};
use crate::text::{chars_of, eq_str, lower, lowercase, owned, push_all, push_chars, slice_range, string_of};

verus! {

/// The task a process belongs to.
#[derive(Debug, Clone, PartialEq, Eq)]
pub struct ResolvedTask {
    pub id: TaskId,
    pub kind: TaskKind,
    pub label: String,
    pub owner_pid: Option<i32>,
}

/// The view of a resolved task: id, kind, label and owner.
pub open spec fn resolved_view(t: ResolvedTask) -> (Seq<char>, TaskKind, Seq<char>, Option<i32>) {
    (t.id.view_text(), t.kind, t.label@, t.owner_pid)
}

/// The first position on a parent chain whose (first) process launches ROS 2.
pub open spec fn launcher_on_chain(chain: Seq<i32>, ps: Seq<EnrichedProcess>) -> Option<int>
    decreases chain.len(),
{
    if chain.len() == 0 {
        None
    } else {
        match index_of_pid(ps, chain[0]) {
            Some(k) => if is_launcher(ps[k].snapshot) {
                Some(k)
            } else {
                launcher_on_chain(chain.drop_first(), ps)
            },
            None => launcher_on_chain(chain.drop_first(), ps),
        }
    }
}

/// The ROS 2 launcher a process runs under: itself, else its nearest
/// visible ancestor that is one. `Some(None)` stands for the process itself.
pub open spec fn nearest_launcher(p: EnrichedProcess, ps: Seq<EnrichedProcess>) -> Option<Option<int>> {
    if is_launcher(p.snapshot) {
        Some(None)
    } else {
        match launcher_on_chain(p.parent_chain@, ps) {
            Some(k) => Some(Some(k)),
            None => None,
        }
    }
}

fn launcher_position(chain: &Vec<i32>, processes: &[EnrichedProcess]) -> (r: Option<usize>)
    ensures
        match r {
            Some(k) => launcher_on_chain(chain@, processes@) == Some(k as int) && k < processes@.len(),
            None => launcher_on_chain(chain@, processes@) is None,
        },
{
    let ghost c = chain@;
    let mut i: usize = 0;
    proof {
        assert(c.skip(0) == c);
    }
    while i < chain.len()
        invariant
            i <= chain.len(),
            c == chain@,
            launcher_on_chain(c, processes@) == launcher_on_chain(c.skip(i as int), processes@),
        decreases chain.len() - i,
    {
        proof {
            assert(c.skip(i as int)[0] == c[i as int]);
            assert(c.skip(i as int).drop_first() == c.skip(i + 1));
        }
        match find_by_pid(processes, chain[i]) {
            Some(k) => {
                if is_ros2_launcher(&processes[k].snapshot) {
                    return Some(k);
                }
            },
            None => {},
        }
        i = i + 1;
    }
    proof {
        assert(c.skip(i as int).len() == 0);
    }
    None
}

/// `<prefix>:<pid>:<start time>`, the key of a task owned by one process.
pub open spec fn pid_task_key(prefix: Seq<char>, p: EnrichedProcess) -> Seq<char> {
    prefix + seq![':'] + dec_int(p.snapshot.identity.pid as int) + seq![':'] + dec(
        p.snapshot.identity.start_time_ticks as nat,
    )
}

fn pid_task_id(prefix: &str, process: &EnrichedProcess) -> (r: TaskId)
    ensures
        r.view_text() == pid_task_key(prefix@, *process),
{
    let mut v = chars_of(prefix);
    v.push(':');
    push_all(&mut v, &dec_i64(process.snapshot.identity.pid as i64));
    v.push(':');
    push_all(&mut v, &dec_u64(process.snapshot.identity.start_time_ticks));
    proof {
        assert(v@ =~= pid_task_key(prefix@, *process));
    }
    TaskId::new(string_of(&v).as_str())
}

/// Where a command reads `ros2 launch|run <package> <target>`, without ASCII
/// case for the first two words.
pub open spec fn launch_words_at(cmd: Seq<Seq<char>>, i: int) -> bool {
    0 <= i && i + 3 < cmd.len() && lower(cmd[i]) == "ros2"@ && (lower(cmd[i + 1]) == "launch"@ || lower(
        cmd[i + 1],
    ) == "run"@)
}

/// `<package>/<target>` from the first `ros2 launch|run <package> <target>`
/// at or after position `i` of a command.
pub open spec fn launch_target_from(cmd: Seq<Seq<char>>, i: int) -> Option<Seq<char>>
    decreases cmd.len() - i,
{
    if i < 0 || i >= cmd.len() {
        None
    } else if launch_words_at(cmd, i) {
        Some(cmd[i + 2] + seq!['/'] + cmd[i + 3])
    } else {
        launch_target_from(cmd, i + 1)
    }
}

/// The label of a ROS 2 launcher: `<package>/<target>` from the first
/// `ros2 launch|run <package> <target>` in its command; else its command
/// line, cut to 64 characters with a final `…`.
pub open spec fn launcher_label(p: EnrichedProcess) -> Seq<char> {
    let cmd = string_views(p.snapshot.command@);
    match launch_target_from(cmd, 0) {
        Some(t) => t,
        None => {
            let line = command_line_model(p.snapshot.name@, cmd);
            if line.len() <= 64 {
                line
            } else {
                line.take(63).push('…')
            }
        },
    }
}

fn ros2_launcher_label(process: &EnrichedProcess) -> (r: String)
    ensures
        r@ == launcher_label(*process),
{
    let ghost cmd = string_views(process.snapshot.command@);
    let n = process.snapshot.command.len();
    let mut i: usize = 0;
    while i < n
        invariant
            i <= n,
            n == process.snapshot.command@.len(),
            cmd == string_views(process.snapshot.command@),
            launch_target_from(cmd, 0) == launch_target_from(cmd, i as int),
        decreases n - i,
    {
        if n > 3 && i < n - 3 && eq_str(&lowercase(&chars_of(process.snapshot.command[i].as_str())), "ros2") {
            let action = lowercase(&chars_of(process.snapshot.command[i + 1].as_str()));
            if eq_str(&action, "launch") || eq_str(&action, "run") {
                let mut v = chars_of(process.snapshot.command[i + 2].as_str());
                v.push('/');
                push_all(&mut v, &chars_of(process.snapshot.command[i + 3].as_str()));
                proof {
                    assert(launch_words_at(cmd, i as int));
                    assert(v@ =~= cmd[i + 2] + seq!['/'] + cmd[i + 3]);
                }
                return string_of(&v);
            }
        }
        i = i + 1;
    }
    let line = process.snapshot.command_line();
    let lv = chars_of(line.as_str());
    if lv.len() <= 64 {
        line
    } else {
        let mut out = slice_range(&lv, 0, 63);
        out.push('…');
        assert(out@ =~= lv@.take(63).push('…'));
        string_of(&out)
    }
}

/// A path without its leading and trailing `/`.
pub open spec fn strip_slashes(p: Seq<char>) -> Seq<char>
    decreases p.len(),
{
    if p.len() > 0 && p[0] == '/' {
        strip_slashes(p.drop_first())
    } else if p.len() > 0 && p.last() == '/' {
        strip_slashes(p.drop_last())
    } else {
        p
    }
}

fn strip_slashes_exec(p: &Vec<char>) -> (r: Vec<char>)
    ensures
        r@ == strip_slashes(p@),
    decreases p@.len(),
{
    if p.len() > 0 && p[0] == '/' {
        let rest = slice_range(p, 1, p.len());
        assert(rest@ =~= p@.drop_first());
        strip_slashes_exec(&rest)
    } else if p.len() > 0 && p[p.len() - 1] == '/' {
        let rest = slice_range(p, 0, p.len() - 1);
        assert(rest@ =~= p@.drop_last());
        strip_slashes_exec(&rest)
    } else {
        crate::text::copy_chars(p)
    }
}

/// The smallest of the container cgroup paths of a process, without its
/// outer slashes.
pub open spec fn container_key_model(cgroups: Seq<Seq<char>>) -> Option<Seq<char>>
    decreases cgroups.len(),
{
    if cgroups.len() == 0 {
        None
    } else {
        let rest = container_key_model(cgroups.drop_last());
        if is_container_cgroup_model(cgroups.last()) {
            let k = strip_slashes(cgroups.last());
            match rest {
                Some(r) => if text_lt(k, r) {
                    Some(k)
                } else {
                    Some(r)
                },
                None => Some(k),
            }
        } else {
            rest
        }
    }
}

fn container_key(process: &EnrichedProcess) -> (r: Option<Vec<char>>)
    ensures
        match r {
            Some(k) => container_key_model(string_views(process.snapshot.cgroup@)) == Some(k@),
            None => container_key_model(string_views(process.snapshot.cgroup@)) is None,
        },
{
    let ghost cg = string_views(process.snapshot.cgroup@);
    let mut best: Option<Vec<char>> = None;
    let mut i: usize = 0;
    while i < process.snapshot.cgroup.len()
        invariant
            i <= process.snapshot.cgroup.len(),
            cg == string_views(process.snapshot.cgroup@),
            match best {
                Some(k) => container_key_model(cg.take(i as int)) == Some(k@),
                None => container_key_model(cg.take(i as int)) is None,
            },
        decreases process.snapshot.cgroup.len() - i,
    {
        proof {
            assert(cg.take(i + 1).drop_last() =~= cg.take(i as int));
            assert(cg.take(i + 1).last() == process.snapshot.cgroup@[i as int]@);
        }
        let path = process.snapshot.cgroup[i].as_str();
        if is_container_cgroup(path) {
            let k = strip_slashes_exec(&chars_of(path));
            best = match best {
                Some(r) => if text_less(&k, &r) {
                    Some(k)
                } else {
                    Some(r)
                },
                None => Some(k),
            };
        }
        i = i + 1;
    }
    assert(cg.take(cg.len() as int) =~= cg);
    best
}

/// The label of an application task: the project label derived for it when
/// it says something, else the process name.
pub open spec fn application_label_model(derived: Option<ProcessProvenance>, p: EnrichedProcess) -> Seq<char> {
    match derived {
        Some(d) => if d.project_label@.len() > 0 && d.project_label@ != "-"@ {
            d.project_label@
        } else {
            p.snapshot.name@
        },
        None => p.snapshot.name@,
    }
}

fn application_label(derived: Option<&ProcessProvenance>, process: &EnrichedProcess) -> (r: String)
    ensures
        r@ == application_label_model(
            match derived {
                Some(d) => Some(*d),
                None => None,
            },
            *process,
        ),
{
    match derived {
        Some(d) => {
            let l = chars_of(d.project_label.as_str());
            if l.len() > 0 && !eq_str(&l, "-") {
                d.project_label.clone()
            } else {
                process.snapshot.name.clone()
            }
        },
        None => process.snapshot.name.clone(),
    }
}

/// The provenance derived for a process: that of the last process in the
/// list with the same identity (a later entry replaces an earlier one).
pub open spec fn derived_for(ps: Seq<EnrichedProcess>, provs: Seq<ProcessProvenance>, id: ProcessIdentity) -> Option<ProcessProvenance>
    decreases ps.len(),
{
    if ps.len() == 0 || provs.len() < ps.len() {
        None
    } else if ps.last().snapshot.identity == id {
        Some(provs[ps.len() - 1])
    } else {
        derived_for(ps.drop_last(), provs, id)
    }
}

pub(crate) fn find_derived<'a>(processes: &[EnrichedProcess], provenance: &'a [ProcessProvenance], id: ProcessIdentity) -> (r: Option<&'a ProcessProvenance>)
    requires
        provenance@.len() == processes@.len(),
    ensures
        match r {
            Some(d) => derived_for(processes@, provenance@, id) == Some(*d),
            None => derived_for(processes@, provenance@, id) is None,
        },
{
    let mut i: usize = processes.len();
    assert(processes@.take(i as int) =~= processes@);
    while i > 0
        invariant
            i <= processes@.len(),
            provenance@.len() == processes@.len(),
            derived_for(processes@, provenance@, id) == derived_for(processes@.take(i as int), provenance@, id),
        decreases i,
    {
        proof {
            assert(processes@.take(i as int).drop_last() =~= processes@.take(i - 1));
        }
        if processes[i - 1].snapshot.identity == id {
            return Some(&provenance[i - 1]);
        }
        i = i - 1;
    }
    None
}

/// The task a process belongs to: a ROS 2 launch it runs under; else the
/// systemd service of its cgroup; else its container; else, for a browser or
/// development tool, its own application; else the application of its
/// browser or development owner; else itself.
pub open spec fn task_model(
    p: EnrichedProcess,
    ps: Seq<EnrichedProcess>,
    provs: Seq<ProcessProvenance>,
) -> (Seq<char>, TaskKind, Seq<char>, Option<i32>) {
    let derived = derived_for(ps, provs, p.snapshot.identity);
    match nearest_launcher(p, ps) {
        Some(at) => {
            let owner = match at {
                Some(k) => ps[k],
                None => p,
            };
            (pid_task_key("ros2"@, owner), TaskKind::Ros2Launch, launcher_label(owner), Some(owner.snapshot.pid))
        },
        None => match first_unit(string_views(p.snapshot.cgroup@)) {
            Some(unit) => ("systemd:"@ + unit, TaskKind::SystemdService, unit, None),
            None => match container_key_model(string_views(p.snapshot.cgroup@)) {
                Some(key) => ("container:"@ + key, TaskKind::Container, key, None),
                None => if p.classification.process_type == ProcessType::Browser
                    || p.classification.process_type == ProcessType::Development {
                    (pid_task_key("app"@, p), TaskKind::Application, application_label_model(derived, p), Some(p.snapshot.pid))
                } else {
                    match derived {
                        Some(d) => match d.owner_pid {
                            Some(o) => match index_of_pid(ps, o) {
                                Some(k) => (
                                    pid_task_key("app"@, ps[k]),
                                    TaskKind::Application,
                                    application_label_model(derived, ps[k]),
                                    Some(ps[k].snapshot.pid),
                                ),
                                None => (pid_task_key("proc"@, p), TaskKind::Process, p.snapshot.name@, Some(p.snapshot.pid)),
                            },
                            None => (pid_task_key("proc"@, p), TaskKind::Process, p.snapshot.name@, Some(p.snapshot.pid)),
                        },
                        None => (pid_task_key("proc"@, p), TaskKind::Process, p.snapshot.name@, Some(p.snapshot.pid)),
                    }
                },
            },
        },
    }
}

/// Resolves the task of a process; `provenance` holds the provenance of each
/// process of the list, in the same order.
pub fn resolve_task(
    process: &EnrichedProcess,
    processes: &[EnrichedProcess],
    provenance: &[ProcessProvenance],
) -> (r: ResolvedTask)
    requires
        provenance@.len() == processes@.len(),
    ensures
        resolved_view(r) == task_model(*process, processes@, provenance@),
{
    let ghost derived_model = derived_for(processes@, provenance@, process.snapshot.identity);
    let launcher = if is_ros2_launcher(&process.snapshot) {
        Some(None)
    } else {
        match launcher_position(&process.parent_chain, processes) {
            Some(k) => Some(Some(k)),
            None => None,
        }
    };
    match launcher {
        Some(at) => {
            let owner = match at {
                Some(k) => &processes[k],
                None => process,
            };
            return ResolvedTask {
                id: pid_task_id("ros2", owner),
                kind: TaskKind::Ros2Launch,
                label: ros2_launcher_label(owner),
                owner_pid: Some(owner.snapshot.pid),
            };
        },
        None => {},
    }
    match systemd_unit(process) {
        Some(unit) => {
            let mut id = owned("systemd:");
            push_chars(&mut id, &chars_of(unit.as_str()));
            return ResolvedTask {
                id: TaskId::new(id.as_str()),
                kind: TaskKind::SystemdService,
                label: unit,
                owner_pid: None,
            };
        },
        None => {},
    }
    match container_key(process) {
        Some(key) => {
            let mut id = owned("container:");
            push_chars(&mut id, &key);
            return ResolvedTask {
                id: TaskId::new(id.as_str()),
                kind: TaskKind::Container,
                label: string_of(&key),
                owner_pid: None,
            };
        },
        None => {},
    }
    let derived = find_derived(processes, provenance, process.snapshot.identity);
    let t = process.classification.process_type;
    if t == ProcessType::Browser || t == ProcessType::Development {
        return ResolvedTask {
            id: pid_task_id("app", process),
            kind: TaskKind::Application,
            label: application_label(derived, process),
            owner_pid: Some(process.snapshot.pid),
        };
    }
    match derived {
        Some(d) => match d.owner_pid {
            Some(o) => match find_by_pid(processes, o) {
                Some(k) => {
                    let owner = &processes[k];
                    return ResolvedTask {
                        id: pid_task_id("app", owner),
                        kind: TaskKind::Application,
                        label: application_label(derived, owner),
                        owner_pid: Some(owner.snapshot.pid),
                    };
                },
                None => {},
            },
            None => {},
        },
        None => {},
    }
    ResolvedTask {
        id: pid_task_id("proc", process),
        kind: TaskKind::Process,
        label: process.snapshot.name.clone(),
        owner_pid: Some(process.snapshot.pid),
    }
}

} // verus!
