use vstd::prelude::*;

use crate::app::{
    development_project_label, git_label_possible, git_root_label, git_search_dirs, git_search_outcome, process_dev_family, process_dev_family_of,
    project_label, project_label_model, project_workspace, EnrichedProcess,
};
use crate::classifier::ProcessType;
use crate::path::{file_name, file_name_of};
use crate::process::resolver::opt_view;
use crate::text::{chars_of, contains, contains_str, lower, lowercase, owned};

verus! {

/// Who a process is shown as belonging to.
#[derive(Debug, Clone, PartialEq, Eq)]
pub struct ProcessProvenance {
    pub process_type: ProcessType,
    pub owner_pid: Option<i32>,
    pub owner_name: Option<String>,
    pub project_label: String,
}

/// The browser family a name belongs to, without ASCII case; Chromium is told
/// apart from Chrome.
pub open spec fn browser_family(value: Seq<char>) -> Option<Seq<char>> {
    let l = lower(value);
    if contains(l, "firefox"@) {
        Some("Firefox"@)
    } else if contains(l, "chromium"@) {
        Some("Chromium"@)
    } else if contains(l, "brave"@) {
        Some("Brave"@)
    } else if contains(l, "chrome"@) {
        Some("Chrome"@)
    } else {
        None
    }
}

pub fn browser_family_from_value(value: &str) -> (r: Option<String>)
    ensures
        opt_view(r) == browser_family(value@),
{
    let v = chars_of(value);
    let l = lowercase(&v);
    if contains_str(&l, "firefox") {
        Some(owned("Firefox"))
    } else if contains_str(&l, "chromium") {
        Some(owned("Chromium"))
    } else if contains_str(&l, "brave") {
        Some(owned("Brave"))
    } else if contains_str(&l, "chrome") {
        Some(owned("Chrome"))
    } else {
        None
    }
}

/// The browser family of a process: from its name, else from its executable's
/// file name.
pub open spec fn process_browser_family(p: EnrichedProcess) -> Option<Seq<char>> {
    match browser_family(p.snapshot.name@) {
        Some(f) => Some(f),
        None => match opt_view(p.snapshot.executable) {
            Some(e) => match file_name(e) {
                Some(n) => browser_family(n),
                None => None,
            },
            None => None,
        },
    }
}

pub fn browser_family_label(process: &EnrichedProcess) -> (r: Option<String>)
    ensures
        opt_view(r) == process_browser_family(*process),
{
    match browser_family_from_value(process.snapshot.name.as_str()) {
        Some(f) => Some(f),
        None => match &process.snapshot.executable {
            Some(e) => {
                let ev = chars_of(e.as_str());
                match file_name_of(&ev) {
                    Some(n) => {
                        let s = crate::text::string_of(&n);
                        browser_family_from_value(s.as_str())
                    },
                    None => None,
                }
            },
            None => None,
        },
    }
}

/// The position of the first process with a PID.
pub open spec fn index_of_pid(ps: Seq<EnrichedProcess>, pid: i32) -> Option<int> {
    if exists|i: int| 0 <= i < ps.len() && ps[i].snapshot.pid == pid {
        Some(
            choose|i: int|
                0 <= i < ps.len() && ps[i].snapshot.pid == pid && forall|j: int|
                    0 <= j < i ==> ps[j].snapshot.pid != pid,
        )
    } else {
        None
    }
}

pub proof fn lemma_index_of_pid(ps: Seq<EnrichedProcess>, pid: i32, i: int)
    requires
        0 <= i < ps.len(),
        ps[i].snapshot.pid == pid,
        forall|j: int| 0 <= j < i ==> ps[j].snapshot.pid != pid,
    ensures
        index_of_pid(ps, pid) == Some(i),
{
    let k = choose|k: int|
        0 <= k < ps.len() && ps[k].snapshot.pid == pid && forall|j: int|
            0 <= j < k ==> ps[j].snapshot.pid != pid;
    if k < i {
    } else if i < k {
    }
}

pub fn find_by_pid(processes: &[EnrichedProcess], pid: i32) -> (r: Option<usize>)
    ensures
        match r {
            Some(i) => i < processes@.len() && processes@[i as int].snapshot.pid == pid
                && index_of_pid(processes@, pid) == Some(i as int),
            None => index_of_pid(processes@, pid) is None,
        },
{
    let mut i: usize = 0;
    while i < processes.len()
        invariant
            i <= processes.len(),
            forall|j: int| 0 <= j < i ==> processes@[j].snapshot.pid != pid,
        decreases processes.len() - i,
    {
        if processes[i].snapshot.pid == pid {
            proof {
                lemma_index_of_pid(processes@, pid, i as int);
            }
            return Some(i);
        }
        i = i + 1;
    }
    None
}

/// The nearest visible ancestor on the chain that is a browser or a
/// development tool.
pub open spec fn owner_index(chain: Seq<i32>, ps: Seq<EnrichedProcess>) -> Option<int>
    decreases chain.len(),
{
    if chain.len() == 0 {
        None
    } else {
        match index_of_pid(ps, chain[0]) {
            Some(k) => {
                let t = ps[k].classification.process_type;
                if t == ProcessType::Browser || t == ProcessType::Development {
                    Some(k)
                } else {
                    owner_index(chain.drop_first(), ps)
                }
            },
            None => owner_index(chain.drop_first(), ps),
        }
    }
}

/// The working directory of the first process with a PID, if it is known.
pub open spec fn cwd_of_pid(ps: Seq<EnrichedProcess>, pid: i32) -> Option<Seq<char>> {
    match index_of_pid(ps, pid) {
        Some(k) => opt_view(ps[k].snapshot.cwd),
        None => None,
    }
}

/// The working directories searched for a `.git` root on behalf of a
/// development process: its own, then those of its visible ancestors.
pub open spec fn chain_cwds(p: EnrichedProcess, ps: Seq<EnrichedProcess>) -> Seq<Option<Seq<char>>> {
    seq![opt_view(p.snapshot.cwd)] + p.parent_chain@.map_values(|pid: i32| cwd_of_pid(ps, pid))
}

proof fn lemma_chain_cwd_at(p: EnrichedProcess, ps: Seq<EnrichedProcess>, i: int, k: int)
    requires
        0 <= i < p.parent_chain@.len(),
        index_of_pid(ps, p.parent_chain@[i]) == Some(k),
    ensures
        chain_cwds(p, ps).len() == p.parent_chain@.len() + 1,
        chain_cwds(p, ps)[i + 1] == opt_view(ps[k].snapshot.cwd),
{
    let m = p.parent_chain@.map_values(|pid: i32| cwd_of_pid(ps, pid));
    assert(m[i] == cwd_of_pid(ps, p.parent_chain@[i]));
}

proof fn lemma_chain_cwd_own(p: EnrichedProcess, ps: Seq<EnrichedProcess>)
    ensures
        chain_cwds(p, ps).len() >= 1,
        chain_cwds(p, ps)[0] == opt_view(p.snapshot.cwd),
{
}

pub open spec fn git_label_possible_from(cwds: Seq<Option<Seq<char>>>, label: Seq<char>) -> bool {
    exists|k: int|
        0 <= k < cwds.len() && (#[trigger] cwds[k] matches Some(c) && git_label_possible(c, label))
}

/// The project label of a development process, direct or inherited: a `.git`
/// root found from one of the searched working directories, else the family of
/// the development tool, else `-`.
pub open spec fn dev_label_model(git: Option<Seq<char>>, family: Option<Seq<char>>) -> Seq<char> {
    match git {
        Some(g) => g,
        None => match family {
            Some(f) => f,
            None => "-"@,
        },
    }
}

/// What the `.git` search can give for one working directory: nothing where
/// the directory is unknown.
pub open spec fn cwd_search_outcome(cwd: Option<Seq<char>>, o: Option<Seq<char>>) -> bool {
    match cwd {
        Some(c) => git_search_outcome(c, o),
        None => o is None,
    }
}

/// The first label found, in search order.
pub open spec fn first_found(outs: Seq<Option<Seq<char>>>) -> Option<Seq<char>>
    decreases outs.len(),
{
    if outs.len() == 0 {
        None
    } else if outs[0] is Some {
        outs[0]
    } else {
        first_found(outs.drop_first())
    }
}

/// What searching a list of working directories in turn can give: the first
/// label that one of the searches found, for some answers of the disk.
#[verifier::opaque]
pub open spec fn chain_search_outcome(cwds: Seq<Option<Seq<char>>>, r: Option<Seq<char>>) -> bool {
    exists|outs: Seq<Option<Seq<char>>>|
        outs.len() == cwds.len() && (forall|k: int|
            0 <= k < cwds.len() ==> cwd_search_outcome(cwds[k], #[trigger] outs[k]))
            && #[trigger] first_found(outs) == r
}

proof fn lemma_nothing_found_is_possible(c: Seq<char>)
    ensures
        git_search_outcome(c, None),
{
    reveal(git_search_outcome);
    assert(git_root_label(git_search_dirs(c), Seq::<Option<bool>>::empty()) == None::<Seq<char>>);
}

proof fn lemma_first_found(outs: Seq<Option<Seq<char>>>, j: int)
    requires
        0 <= j <= outs.len(),
        forall|k: int| 0 <= k < j ==> (#[trigger] outs[k]) is None,
    ensures
        j < outs.len() && outs[j] is Some ==> first_found(outs) == outs[j],
        j == outs.len() ==> first_found(outs) is None,
    decreases j,
{
    if j > 0 {
        let d = outs.drop_first();
        assert forall|k: int| 0 <= k < j - 1 implies (#[trigger] d[k]) is None by {
            assert(d[k] == outs[k + 1]);
        }
        assert(outs[0] is None);
        lemma_first_found(d, j - 1);
        if j < outs.len() {
            assert(d[j - 1] == outs[j]);
        }
    }
}

proof fn lemma_chain_outcome_at(cwds: Seq<Option<Seq<char>>>, j: int, x: Option<Seq<char>>)
    requires
        0 <= j < cwds.len(),
        cwd_search_outcome(cwds[j], x),
        x is Some,
    ensures
        chain_search_outcome(cwds, x),
{
    reveal(chain_search_outcome);
    let outs = Seq::new(cwds.len(), |k: int| if k == j { x } else { None::<Seq<char>> });
    assert forall|k: int| 0 <= k < cwds.len() implies cwd_search_outcome(cwds[k], #[trigger] outs[k]) by {
        if k != j {
            if cwds[k] is Some {
                lemma_nothing_found_is_possible(cwds[k]->0);
            }
        }
    }
    lemma_first_found(outs, j);
}

proof fn lemma_chain_nothing(cwds: Seq<Option<Seq<char>>>)
    ensures
        chain_search_outcome(cwds, None),
{
    reveal(chain_search_outcome);
    let outs = Seq::new(cwds.len(), |k: int| None::<Seq<char>>);
    assert forall|k: int| 0 <= k < cwds.len() implies cwd_search_outcome(cwds[k], #[trigger] outs[k]) by {
        if cwds[k] is Some {
            lemma_nothing_found_is_possible(cwds[k]->0);
        }
    }
    lemma_first_found(outs, outs.len() as int);
}

proof fn lemma_label_found_at(cwds: Seq<Option<Seq<char>>>, j: int, c: Seq<char>, l: Seq<char>)
    requires
        0 <= j < cwds.len(),
        cwds[j] == Some(c),
        git_label_possible(c, l),
        git_search_outcome(c, Some(l)),
    ensures
        git_label_possible_from(cwds, l),
        chain_search_outcome(cwds, Some(l)),
{
    lemma_chain_outcome_at(cwds, j, Some(l));
}

fn git_label_from_chain(process: &EnrichedProcess, processes: &[EnrichedProcess]) -> (r: Option<String>)
    ensures
        r matches Some(l) ==> git_label_possible_from(chain_cwds(*process, processes@), l@),
        chain_search_outcome(
            chain_cwds(*process, processes@),
            match r {
                Some(l) => Some(l@),
                None => None,
            },
        ),
{
    let ghost cwds = chain_cwds(*process, processes@);
    match &process.snapshot.cwd {
        Some(c) => {
            let found = development_project_label(c.as_str());
            if found.is_some() {
                proof {
                    lemma_chain_cwd_own(*process, processes@);
                    lemma_label_found_at(cwds, 0, c@, found->0@);
                }
                return found;
            }
        },
        None => {},
    }
    let mut i: usize = 0;
    while i < process.parent_chain.len()
        invariant
            i <= process.parent_chain.len(),
            cwds == chain_cwds(*process, processes@),
        decreases process.parent_chain.len() - i,
    {
        match find_by_pid(processes, process.parent_chain[i]) {
            Some(k) => {
                match &processes[k].snapshot.cwd {
                    Some(c) => {
                        let found = development_project_label(c.as_str());
                        if found.is_some() {
                            proof {
                                lemma_chain_cwd_at(*process, processes@, i as int, k as int);
                                lemma_label_found_at(cwds, i + 1, c@, found->0@);
                            }
                            return found;
                        }
                    },
                    None => {},
                }
            },
            None => {},
        }
        i = i + 1;
    }
    proof {
        lemma_chain_nothing(cwds);
    }
    None
}

/// Finds the owner of a process along its parent chain.
pub fn find_owner(chain: &Vec<i32>, processes: &[EnrichedProcess]) -> (r: Option<usize>)
    ensures
        match r {
            Some(k) => owner_index(chain@, processes@) == Some(k as int) && k < processes@.len() && (
            processes@[k as int].classification.process_type == ProcessType::Browser
                || processes@[k as int].classification.process_type == ProcessType::Development),
            None => owner_index(chain@, processes@) is None,
        },
{
    let ghost c = chain@;
    let mut i: usize = 0;
    proof {
        assert(c.skip(0) == c);
    }
    while i < chain.len()
        invariant
            i <= chain.len(),
            c == chain@,
            owner_index(c, processes@) == owner_index(c.skip(i as int), processes@),
        decreases chain.len() - i,
    {
        proof {
            assert(c.skip(i as int)[0] == c[i as int]);
            assert(c.skip(i as int).drop_first() == c.skip(i + 1));
        }
        match find_by_pid(processes, chain[i]) {
            Some(k) => {
                if processes[k].classification.process_type == ProcessType::Browser
                    || processes[k].classification.process_type == ProcessType::Development {
                    return Some(k);
                }
            },
            None => {},
        }
        i = i + 1;
    }
    proof {
        assert(c.skip(i as int).len() == 0);
    }
    None
}

/// The provenance of a process whose own category is PROCESS and which has a
/// browser or development owner.
pub open spec fn inherited_matches(r: ProcessProvenance, p: EnrichedProcess, ps: Seq<EnrichedProcess>, k: int) -> bool {
    let owner = ps[k];
    &&& r.process_type == owner.classification.process_type
    &&& r.owner_pid == Some(owner.snapshot.pid)
    &&& opt_view(r.owner_name) == Some(owner.snapshot.name@)
    &&& if owner.classification.process_type == ProcessType::Browser {
        r.project_label@ == match process_browser_family(owner) {
            Some(f) => f,
            None => "-"@,
        }
    } else {
        exists|g: Option<Seq<char>>|
            r.project_label@ == dev_label_model(g, process_dev_family(owner.snapshot)) && (
            g matches Some(l) ==> git_label_possible_from(chain_cwds(p, ps), l))
    }
}

/// The provenance of a process that keeps its own category.
pub open spec fn direct_matches(r: ProcessProvenance, p: EnrichedProcess, ps: Seq<EnrichedProcess>) -> bool {
    let t = p.classification.process_type;
    &&& r.process_type == t
    &&& r.owner_pid is None
    &&& r.owner_name is None
    &&& if t == ProcessType::Browser {
        r.project_label@ == match process_browser_family(p) {
            Some(f) => f,
            None => "-"@,
        }
    } else if t == ProcessType::Development && project_workspace(p) is None {
        exists|g: Option<Seq<char>>|
            r.project_label@ == dev_label_model(g, process_dev_family(p.snapshot)) && (
            g matches Some(l) ==> git_label_possible_from(chain_cwds(p, ps), l))
    } else {
        exists|g: Option<Seq<char>>| r.project_label@ == project_label_model(p, g)
    }
}

/// The provenance of a process shown as its owner's, the owner being the
/// browser or development tool at position `k`.
fn inherited_provenance(process: &EnrichedProcess, processes: &[EnrichedProcess], k: usize) -> (r: ProcessProvenance)
    requires
        k < processes@.len(),
        processes@[k as int].classification.process_type == ProcessType::Browser
            || processes@[k as int].classification.process_type == ProcessType::Development,
    ensures
        inherited_matches(r, *process, processes@, k as int),
{
    let owner = &processes[k];
    if owner.classification.process_type == ProcessType::Browser {
        let label = match browser_family_label(owner) {
            Some(f) => f,
            None => owned("-"),
        };
        return ProcessProvenance {
            process_type: ProcessType::Browser,
            owner_pid: Some(owner.snapshot.pid),
            owner_name: Some(owner.snapshot.name.clone()),
            project_label: label,
        };
    }
    let git = git_label_from_chain(process, processes);
    let label = match git {
        Some(g) => g,
        None => match process_dev_family_of(&owner.snapshot) {
            Some(f) => f,
            None => owned("-"),
        },
    };
    proof {
        let g = opt_view(git);
        assert(label@ == dev_label_model(g, process_dev_family(owner.snapshot)));
    }
    ProcessProvenance {
        process_type: ProcessType::Development,
        owner_pid: Some(owner.snapshot.pid),
        owner_name: Some(owner.snapshot.name.clone()),
        project_label: label,
    }
}

/// The provenance of a process that keeps its own category.
fn direct_provenance(process: &EnrichedProcess, processes: &[EnrichedProcess]) -> (r: ProcessProvenance)
    ensures
        direct_matches(r, *process, processes@),
{
    let direct = process.classification.process_type;
    let has_workspace = match &process.project {
        Some(id) => id.workspace.is_some(),
        None => false,
    };
    let project = if direct == ProcessType::Browser {
        match browser_family_label(process) {
            Some(f) => f,
            None => owned("-"),
        }
    } else if direct == ProcessType::Development && !has_workspace {
        let git = git_label_from_chain(process, processes);
        let label = match git {
            Some(g) => g,
            None => match process_dev_family_of(&process.snapshot) {
                Some(f) => f,
                None => owned("-"),
            },
        };
        proof {
            let g = opt_view(git);
            assert(label@ == dev_label_model(g, process_dev_family(process.snapshot)));
        }
        label
    } else {
        project_label(process)
    };
    ProcessProvenance { process_type: direct, owner_pid: None, owner_name: None, project_label: project }
}

/// Explains whom a process belongs to: a PROCESS-category child of a browser
/// or development tool is shown as that owner's; every other process keeps its
/// own category.
pub fn resolve_process_provenance(process: &EnrichedProcess, processes: &[EnrichedProcess]) -> (r: ProcessProvenance)
    ensures
        (if process.classification.process_type == ProcessType::Generic {
            owner_index(process.parent_chain@, processes@)
        } else {
            None
        }) matches Some(k) ==> inherited_matches(r, *process, processes@, k),
        (if process.classification.process_type == ProcessType::Generic {
            owner_index(process.parent_chain@, processes@)
        } else {
            None
        }) is None ==> direct_matches(r, *process, processes@),
{
    if process.classification.process_type == ProcessType::Generic {
        match find_owner(&process.parent_chain, processes) {
            Some(k) => {
                return inherited_provenance(process, processes, k);
            },
            None => {},
        }
    }
    direct_provenance(process, processes)
}

/// The provenance of every process, in the order of the processes. It is a
/// `Vec` parallel to the processes rather than a `HashMap` keyed by process
/// identity: vstd gives a hash table no key model for a struct key, so every
/// lookup in such a map would go unproved; `derived_for` finds a process's
/// entry by identity instead.
pub fn resolve_all_provenance(processes: &[EnrichedProcess]) -> (r: Vec<ProcessProvenance>)
    ensures
        r@.len() == processes@.len(),
        forall|i: int|
            0 <= i < processes@.len() ==> {
                let p = processes@[i];
                let owner = if p.classification.process_type == ProcessType::Generic {
                    owner_index(p.parent_chain@, processes@)
                } else {
                    None
                };
                &&& owner matches Some(k) ==> inherited_matches(#[trigger] r@[i], p, processes@, k)
                &&& owner is None ==> direct_matches(r@[i], p, processes@)
            },
{
    let mut r: Vec<ProcessProvenance> = Vec::new();
    let mut i: usize = 0;
    while i < processes.len()
        invariant
            i <= processes.len(),
            r@.len() == i,
            forall|j: int|
                0 <= j < i ==> {
                    let p = processes@[j];
                    let owner = if p.classification.process_type == ProcessType::Generic {
                        owner_index(p.parent_chain@, processes@)
                    } else {
                        None
                    };
                    &&& owner matches Some(k) ==> inherited_matches(
                        #[trigger] r@[j],
                        p,
                        processes@,
                        k,
                    )
                    &&& owner is None ==> direct_matches(r@[j], p, processes@)
                },
        decreases processes.len() - i,
    {
        let prov = resolve_process_provenance(&processes[i], processes);
        r.push(prov);
        i = i + 1;
    }
    r
}

} // verus!
