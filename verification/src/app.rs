use vstd::prelude::*;

use crate::classifier::rules::systemd_unit_model;
use crate::classifier::{systemd_service_unit, Classification, ProcessType};
use crate::path::{components, components_of, file_name, file_name_of, join_components};
use crate::process::model::{string_views, ProcessSnapshot};
use crate::process::resolver::{opt_view, ProjectIdentity};
use crate::split::views;
use crate::task::model::TaskId;

pub use crate::units::format_bytes;
use crate::text::{chars_of, eq_str, lower, lowercase, owned, string_of};

verus! {

/// A sampled process with what the inspector derived from it.
#[derive(Debug, Clone, PartialEq, Eq)]
pub struct EnrichedProcess {
    pub snapshot: ProcessSnapshot,
    pub classification: Classification,
    pub project: Option<ProjectIdentity>,
    pub parent_chain: Vec<i32>,
    pub tree_depth: usize,
    pub tree_order: usize,
}

// ---------------------------------------------------------------------------
// Git roots of working directories
// ---------------------------------------------------------------------------

/// The parent of a path: all but its last component; none for the root or a
/// path without components (`Path::parent`).
pub open spec fn parent_path(p: Seq<char>) -> Option<Seq<char>> {
    let cs = components(p);
    if cs.len() == 0 || (cs.len() == 1 && cs[0] == crate::path::slash()) {
        None
    } else {
        Some(join_components(cs.drop_last()))
    }
}

pub fn parent_path_of(p: &Vec<char>) -> (r: Option<Vec<char>>)
    ensures
        match (r, parent_path(p@)) {
            (Some(a), Some(b)) => a@ == b,
            (None, None) => true,
            _ => false,
        },
{
    let cs = components_of(p);
    if cs.len() == 0 {
        return None;
    }
    if cs.len() == 1 && cs[0].len() == 1 && cs[0][0] == '/' {
        proof {
            assert(cs@[0]@ =~= crate::path::slash());
        }
        return None;
    }
    proof {
        if cs.len() == 1 {
            assert(cs@[0]@ != crate::path::slash());
        }
        assert(views(cs@).take(cs.len() - 1) == components(p@).drop_last());
    }
    Some(crate::process::resolver::join_components_of(&cs, cs.len() - 1))
}

/// A directory and its parents, nearest first, at most `n` of them.
pub open spec fn dir_and_parents(dir: Seq<char>, n: nat) -> Seq<Seq<char>>
    decreases n,
{
    if n == 0 {
        Seq::<Seq<char>>::empty()
    } else {
        seq![dir] + match parent_path(dir) {
            Some(up) => dir_and_parents(up, (n - 1) as nat),
            None => Seq::<Seq<char>>::empty(),
        }
    }
}

/// The directories searched for a `.git` marker from a working directory: it
/// and at most 8 parents.
pub open spec fn git_search_dirs(cwd: Seq<char>) -> Seq<Seq<char>> {
    dir_and_parents(cwd, 9)
}

pub fn git_search_dirs_of(cwd: &Vec<char>) -> (r: Vec<Vec<char>>)
    ensures
        views(r@) == git_search_dirs(cwd@),
{
    let mut r: Vec<Vec<char>> = Vec::new();
    let mut current = crate::text::copy_chars(cwd);
    let mut left: usize = 9;
    proof {
        assert(views(r@) + dir_and_parents(current@, left as nat) =~= git_search_dirs(cwd@));
    }
    loop
        invariant_except_break
            left <= 9,
            views(r@) + dir_and_parents(current@, left as nat) == git_search_dirs(cwd@),
        ensures
            views(r@) == git_search_dirs(cwd@),
        decreases left,
    {
        if left == 0 {
            proof {
                assert(views(r@) + Seq::<Seq<char>>::empty() =~= views(r@));
            }
            break;
        }
        let up = parent_path_of(&current);
        let ghost cur = current@;
        let here = current;
        proof {
            crate::split::lemma_views_push(r@, here);
        }
        r.push(here);
        match up {
            Some(u) => {
                current = u;
                left = left - 1;
                proof {
                    assert(views(r@) + dir_and_parents(current@, left as nat) =~= git_search_dirs(
                        cwd@,
                    ));
                }
            },
            None => {
                proof {
                    assert(views(r@) =~= git_search_dirs(cwd@));
                }
                break;
            },
        }
    }
    r
}

/// The text of `<dir>/.git`, as `Path::join` builds it.
pub open spec fn git_marker_path(dir: Seq<char>) -> Seq<char> {
    if dir.len() == 0 {
        ".git"@
    } else if dir.last() == '/' {
        dir + ".git"@
    } else {
        dir + "/.git"@
    }
}

/// Whether `<dir>/.git` exists: `Some(true)` or `Some(false)`, or `None` when
/// the file system could not tell (`Path::try_exists` failed). The answer
/// depends on the disk at the time of the call; nothing is promised of it.
#[verifier::external_body]
fn git_marker_exists(marker: &str) -> (r: Option<bool>) {
    std::path::Path::new(marker).try_exists().ok()
}

/// The project named by the first directory found to hold `.git`: its file
/// name. A directory found without one is passed over; a directory that could
/// not be checked ends the search without a name.
pub open spec fn git_root_label(dirs: Seq<Seq<char>>, probes: Seq<Option<bool>>) -> Option<Seq<char>>
    decreases dirs.len(),
{
    if dirs.len() == 0 || probes.len() == 0 {
        None
    } else {
        match probes[0] {
            Some(true) => file_name(dirs[0]),
            Some(false) => git_root_label(dirs.drop_first(), probes.drop_first()),
            None => None,
        }
    }
}

/// Reads the answers of the `.git` checks, one per directory.
pub fn git_root_label_of(dirs: &Vec<Vec<char>>, probes: &Vec<Option<bool>>) -> (r: Option<Vec<char>>)
    ensures
        match (r, git_root_label(views(dirs@), probes@)) {
            (Some(a), Some(b)) => a@ == b,
            (None, None) => true,
            _ => false,
        },
{
    let ghost ds = views(dirs@);
    let mut i: usize = 0;
    proof {
        assert(ds.skip(0) == ds);
        assert(probes@.skip(0) == probes@);
    }
    while i < dirs.len() && i < probes.len()
        invariant
            i <= dirs.len(),
            i <= probes.len(),
            ds == views(dirs@),
            git_root_label(ds, probes@) == git_root_label(ds.skip(i as int), probes@.skip(i as int)),
        decreases dirs.len() - i,
    {
        proof {
            assert(ds.skip(i as int)[0] == dirs@[i as int]@);
            assert(probes@.skip(i as int)[0] == probes@[i as int]);
            assert(ds.skip(i as int).drop_first() == ds.skip(i + 1));
            assert(probes@.skip(i as int).drop_first() == probes@.skip(i + 1));
        }
        match probes[i] {
            Some(true) => {
                return file_name_of(&dirs[i]);
            },
            Some(false) => {},
            None => {
                return None;
            },
        }
        i = i + 1;
    }
    proof {
        if i == dirs.len() {
            assert(ds.skip(i as int).len() == 0);
        } else {
            assert(probes@.skip(i as int).len() == 0);
        }
    }
    None
}

pub fn git_marker_path_of(dir: &Vec<char>) -> (r: String)
    ensures
        r@ == git_marker_path(dir@),
{
    if dir.len() == 0 {
        owned(".git")
    } else if dir[dir.len() - 1] == '/' {
        let mut s = string_of(dir);
        let tail = chars_of(".git");
        crate::text::push_chars(&mut s, &tail);
        s
    } else {
        let mut s = string_of(dir);
        let tail = chars_of("/.git");
        crate::text::push_chars(&mut s, &tail);
        s
    }
}

/// The names a `.git` search from `cwd` can give: the file names of the
/// searched directories.
pub open spec fn git_label_possible(cwd: Seq<char>, label: Seq<char>) -> bool {
    exists|k: int|
        0 <= k < git_search_dirs(cwd).len() && file_name(#[trigger] git_search_dirs(cwd)[k])
            == Some(label)
}

/// What a `.git` search from `cwd` can give: the label that the nearest-first
/// search finds for some answers of the checks on disk.
#[verifier::opaque]
pub open spec fn git_search_outcome(cwd: Seq<char>, r: Option<Seq<char>>) -> bool {
    exists|probes: Seq<Option<bool>>| #[trigger] git_root_label(git_search_dirs(cwd), probes) == r
}

/// Looks for the nearest `.git` root from a working directory, checking it and
/// at most 8 parents on disk.
pub fn development_project_label(cwd: &str) -> (r: Option<String>)
    ensures
        r matches Some(l) ==> git_label_possible(cwd@, l@),
        git_search_outcome(
            cwd@,
            match r {
                Some(l) => Some(l@),
                None => None,
            },
        ),
{
    let c = chars_of(cwd);
    let dirs = git_search_dirs_of(&c);
    let mut probes: Vec<Option<bool>> = Vec::new();
    let mut i: usize = 0;
    while i < dirs.len()
        invariant
            i <= dirs.len(),
        decreases dirs.len() - i,
    {
        let marker = git_marker_path_of(&dirs[i]);
        let found = git_marker_exists(marker.as_str());
        probes.push(found);
        if found != Some(false) {
            break;
        }
        i = i + 1;
    }
    let label = git_root_label_of(&dirs, &probes);
    proof {
        lemma_git_root_label_possible(views(dirs@), probes@);
        if label is Some {
            let k = choose|k: int|
                0 <= k < views(dirs@).len() && file_name(views(dirs@)[k]) == git_root_label(
                    views(dirs@),
                    probes@,
                );
            assert(git_search_dirs(c@)[k] == views(dirs@)[k]);
        }
    }
    proof {
        assert(views(dirs@) == git_search_dirs(c@));
        assert(git_root_label(git_search_dirs(c@), probes@) == match label {
            Some(l) => Some(l@),
            None => None::<Seq<char>>,
        });
        reveal(git_search_outcome);
    }
    match label {
        Some(l) => Some(string_of(&l)),
        None => None,
    }
}

proof fn lemma_git_root_label_possible(dirs: Seq<Seq<char>>, probes: Seq<Option<bool>>)
    ensures
        git_root_label(dirs, probes) is Some ==> exists|k: int|
            0 <= k < dirs.len() && file_name(dirs[k]) == git_root_label(dirs, probes),
    decreases dirs.len(),
{
    if dirs.len() > 0 && probes.len() > 0 {
        lemma_git_root_label_possible(dirs.drop_first(), probes.drop_first());
        if probes[0] == Some(false) && git_root_label(dirs, probes) is Some {
            let k = choose|k: int|
                0 <= k < dirs.drop_first().len() && file_name(dirs.drop_first()[k])
                    == git_root_label(dirs.drop_first(), probes.drop_first());
            assert(dirs[k + 1] == dirs.drop_first()[k]);
        }
    }
}

// ---------------------------------------------------------------------------
// Project labels
// ---------------------------------------------------------------------------

/// The application family of a known development tool, without ASCII case.
pub open spec fn dev_family(name: Seq<char>) -> Option<Seq<char>> {
    let l = lower(name);
    if l == "code"@ || l == "code-insiders"@ {
        Some("VS Code"@)
    } else if l == "rust-analyzer"@ {
        Some("Rust"@)
    } else if l == "clangd"@ {
        Some("Clang"@)
    } else if l == "pyright-langserver"@ || l == "pylsp"@ {
        Some("Python"@)
    } else {
        None
    }
}

pub fn dev_family_of(name: &Vec<char>) -> (r: Option<String>)
    ensures
        opt_view(r) == dev_family(name@),
{
    let l = lowercase(name);
    if eq_str(&l, "code") || eq_str(&l, "code-insiders") {
        Some(owned("VS Code"))
    } else if eq_str(&l, "rust-analyzer") {
        Some(owned("Rust"))
    } else if eq_str(&l, "clangd") {
        Some(owned("Clang"))
    } else if eq_str(&l, "pyright-langserver") || eq_str(&l, "pylsp") {
        Some(owned("Python"))
    } else {
        None
    }
}

/// The family of a process: from its name, else from its executable's file name.
pub open spec fn process_dev_family(p: ProcessSnapshot) -> Option<Seq<char>> {
    match dev_family(p.name@) {
        Some(f) => Some(f),
        None => match opt_view(p.executable) {
            Some(e) => match file_name(e) {
                Some(n) => dev_family(n),
                None => None,
            },
            None => None,
        },
    }
}

pub fn process_dev_family_of(p: &ProcessSnapshot) -> (r: Option<String>)
    ensures
        opt_view(r) == process_dev_family(*p),
{
    let n = chars_of(p.name.as_str());
    match dev_family_of(&n) {
        Some(f) => Some(f),
        None => match &p.executable {
            Some(e) => {
                let ev = chars_of(e.as_str());
                match file_name_of(&ev) {
                    Some(f) => dev_family_of(&f),
                    None => None,
                }
            },
            None => None,
        },
    }
}

/// The innermost concrete systemd unit of the first cgroup path that has one.
pub open spec fn first_unit(cgroups: Seq<Seq<char>>) -> Option<Seq<char>>
    decreases cgroups.len(),
{
    if cgroups.len() == 0 {
        None
    } else {
        match systemd_unit_model(cgroups[0]) {
            Some(u) => Some(u),
            None => first_unit(cgroups.drop_first()),
        }
    }
}

pub fn systemd_unit(process: &EnrichedProcess) -> (r: Option<String>)
    ensures
        opt_view(r) == first_unit(string_views(process.snapshot.cgroup@)),
{
    let ghost cg = string_views(process.snapshot.cgroup@);
    let mut i: usize = 0;
    proof {
        assert(cg.skip(0) == cg);
    }
    while i < process.snapshot.cgroup.len()
        invariant
            i <= process.snapshot.cgroup.len(),
            cg == string_views(process.snapshot.cgroup@),
            first_unit(cg) == first_unit(cg.skip(i as int)),
        decreases process.snapshot.cgroup.len() - i,
    {
        proof {
            assert(cg.skip(i as int)[0] == process.snapshot.cgroup@[i as int]@);
            assert(cg.skip(i as int).drop_first() == cg.skip(i + 1));
        }
        let u = systemd_service_unit(process.snapshot.cgroup[i].as_str());
        if u.is_some() {
            return u;
        }
        i = i + 1;
    }
    proof {
        assert(cg.skip(i as int).len() == 0);
    }
    None
}

/// The label of an installed workspace: its directory name, else the whole path.
pub open spec fn workspace_label(ws: Seq<char>) -> Seq<char> {
    match file_name(ws) {
        Some(n) => n,
        None => ws,
    }
}

pub open spec fn project_workspace(p: EnrichedProcess) -> Option<Seq<char>> {
    match p.project {
        Some(id) => opt_view(id.workspace),
        None => None,
    }
}

/// The project label of a process when it is not decided by a `.git` search:
/// the ROS 2 workspace first, then by category.
pub open spec fn project_label_model(p: EnrichedProcess, dev_git: Option<Seq<char>>) -> Seq<char> {
    match project_workspace(p) {
        Some(ws) => workspace_label(ws),
        None => match p.classification.process_type {
            ProcessType::Development => match dev_git {
                Some(g) => g,
                None => match process_dev_family(p.snapshot) {
                    Some(f) => f,
                    None => "-"@,
                },
            },
            ProcessType::Container => "container"@,
            ProcessType::Systemd => match first_unit(string_views(p.snapshot.cgroup@)) {
                Some(u) => u,
                None => "systemd"@,
            },
            _ => "-"@,
        },
    }
}

fn workspace_label_of(ws: &String) -> (r: String)
    ensures
        r@ == workspace_label(ws@),
{
    let w = chars_of(ws.as_str());
    match file_name_of(&w) {
        Some(n) => string_of(&n),
        None => ws.clone(),
    }
}

/// The PROJECT label: a ROS 2 workspace name, else for a development tool the
/// nearest `.git` root above its working directory (checked on disk), its
/// application family or `-`; `container`; the concrete systemd unit (or
/// `systemd`); `-` otherwise.
pub fn project_label(process: &EnrichedProcess) -> (r: String)
    ensures
        exists|g: Option<Seq<char>>|
            r@ == project_label_model(*process, g) && (g matches Some(l) ==> (opt_view(
                process.snapshot.cwd,
            ) matches Some(c) && git_label_possible(c, l))),
{
    match &process.project {
        Some(id) => match &id.workspace {
            Some(ws) => {
                let r = workspace_label_of(ws);
                proof {
                    assert(r@ == project_label_model(*process, None));
                }
                return r;
            },
            None => {},
        },
        None => {},
    }
    match process.classification.process_type {
        ProcessType::Development => {
            let git = match &process.snapshot.cwd {
                Some(c) => development_project_label(c.as_str()),
                None => None,
            };
            match git {
                Some(g) => {
                    proof {
                        assert(g@ == project_label_model(*process, Some(g@)));
                    }
                    g
                },
                None => {
                    let r = match process_dev_family_of(&process.snapshot) {
                        Some(f) => f,
                        None => owned("-"),
                    };
                    proof {
                        assert(r@ == project_label_model(*process, None));
                    }
                    r
                },
            }
        },
        ProcessType::Container => {
            let r = owned("container");
            proof {
                assert(r@ == project_label_model(*process, None));
            }
            r
        },
        ProcessType::Systemd => {
            let r = match systemd_unit(process) {
                Some(u) => u,
                None => owned("systemd"),
            };
            proof {
                assert(r@ == project_label_model(*process, None));
            }
            r
        },
        _ => {
            let r = owned("-");
            proof {
                assert(r@ == project_label_model(*process, None));
            }
            r
        },
    }
}

/// How the process list is sorted.
#[derive(Debug, Clone, Copy, PartialEq, Eq, Structural)]
pub enum SortMode {
    Cpu,
    Memory,
    Gpu,
    Pid,
}

/// Whether the list or the detail of one entry is shown.
#[derive(Debug, Clone, Copy, PartialEq, Eq, Structural)]
pub enum ViewMode {
    List,
    Detail,
}

/// Whether processes or tasks are listed.
#[derive(Debug, Clone, Copy, PartialEq, Eq, Structural)]
pub enum EntityMode {
    Process,
    Task,
}

/// What the dashboard shows and how.
#[derive(Debug, Clone, PartialEq, Eq)]
pub struct UiState {
    pub selected_pid: Option<i32>,
    pub selected_task_id: Option<TaskId>,
    pub entity_mode: EntityMode,
    pub query: String,
    pub search_active: bool,
    pub process_type_filter: Option<ProcessType>,
    pub tree_mode: bool,
    pub sort: SortMode,
    pub view: ViewMode,
    pub paused: bool,
    pub help_open: bool,
}

impl Default for UiState {
    /// Processes sorted by CPU, listed, live, with nothing selected or
    /// searched.
    fn default() -> (r: Self)
        ensures
            r.selected_pid is None,
            r.selected_task_id is None,
            r.entity_mode == EntityMode::Process,
            r.query@ == Seq::<char>::empty(),
            !r.search_active,
            r.process_type_filter is None,
            !r.tree_mode,
            r.sort == SortMode::Cpu,
            r.view == ViewMode::List,
            !r.paused,
            !r.help_open,
    {
        UiState {
            selected_pid: None,
            selected_task_id: None,
            entity_mode: EntityMode::Process,
            query: String::new(),
            search_active: false,
            process_type_filter: None,
            tree_mode: false,
            sort: SortMode::Cpu,
            view: ViewMode::List,
            paused: false,
            help_open: false,
        }
    }
}

/// Whether something is selected in the current entity mode.
pub open spec fn has_selection(s: UiState) -> bool {
    match s.entity_mode {
        EntityMode::Process => s.selected_pid is Some,
        EntityMode::Task => s.selected_task_id is Some,
    }
}

impl UiState {
    /// Shows the detail of the selected entry, when there is one.
    pub fn open_detail(&mut self)
        ensures
            *final(self) == (UiState {
                view: if has_selection(*old(self)) {
                    ViewMode::Detail
                } else {
                    old(self).view
                },
                ..*old(self)
            }),
    {
        let selected = match self.entity_mode {
            EntityMode::Process => self.selected_pid.is_some(),
            EntityMode::Task => self.selected_task_id.is_some(),
        };
        if selected {
            self.view = ViewMode::Detail;
        }
    }

    /// Returns to the list.
    pub fn back(&mut self)
        ensures
            *final(self) == (UiState { view: ViewMode::List, ..*old(self) }),
    {
        self.view = ViewMode::List;
    }

    /// Switches between processes and tasks, back to the list; tasks are
    /// never shown as a tree.
    pub fn toggle_entity_mode(&mut self)
        ensures
            *final(self) == (UiState {
                entity_mode: match old(self).entity_mode {
                    EntityMode::Process => EntityMode::Task,
                    EntityMode::Task => EntityMode::Process,
                },
                view: ViewMode::List,
                tree_mode: if old(self).entity_mode == EntityMode::Process {
                    false
                } else {
                    old(self).tree_mode
                },
                ..*old(self)
            }),
    {
        self.entity_mode = match self.entity_mode {
            EntityMode::Process => EntityMode::Task,
            EntityMode::Task => EntityMode::Process,
        };
        self.view = ViewMode::List;
        if self.entity_mode == EntityMode::Task {
            self.tree_mode = false;
        }
    }
}

} // verus!
