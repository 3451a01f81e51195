use vstd::prelude::*;

use crate::path::{components, components_of, join_components};
use crate::process::model::{string_views, ProcessSnapshot};
use crate::split::views;
use crate::text::{chars_eq, chars_of, eq_str, push_all, string_of};

verus! {

/// Where a ROS 2 executable was installed from.
#[derive(Debug, Clone, PartialEq, Eq)]
pub struct ProjectIdentity {
    pub workspace: Option<String>,
    pub package: Option<String>,
    pub executable: Option<String>,
}

pub open spec fn first_component_at(cs: Seq<Seq<char>>, name: Seq<char>, i: int) -> bool {
    0 <= i < cs.len() && cs[i] == name && forall|j: int| 0 <= j < i ==> cs[j] != name
}

/// The workspace, package and executable of a colcon install layout
/// `<workspace>/install/<package>/lib/<package>/.../<executable>`, read at the
/// first `install` component.
pub open spec fn install_path_model(p: Seq<char>) -> Option<(Seq<char>, Seq<char>, Seq<char>)> {
    let cs = components(p);
    if cs.contains("install"@) {
        let i = choose|i: int| first_component_at(cs, "install"@, i);
        if i + 4 < cs.len() && cs[i + 2] == "lib"@ && cs[i + 3] == cs[i + 1] {
            Some((join_components(cs.take(i)), cs[i + 1], cs.last()))
        } else {
            None
        }
    } else {
        None
    }
}

pub open spec fn identity_matches(r: Option<ProjectIdentity>, m: Option<(Seq<char>, Seq<char>, Seq<char>)>) -> bool {
    match (r, m) {
        (None, None) => true,
        (Some(id), Some((w, p, e))) => opt_view(id.workspace) == Some(w) && opt_view(id.package)
            == Some(p) && opt_view(id.executable) == Some(e),
        _ => false,
    }
}

/// The path made of the first `k` components.
pub fn join_components_of(cs: &Vec<Vec<char>>, k: usize) -> (r: Vec<char>)
    requires
        k <= cs.len(),
    ensures
        r@ == join_components(views(cs@).take(k as int)),
{
    let mut r: Vec<char> = Vec::new();
    let mut i: usize = 0;
    while i < k
        invariant
            i <= k <= cs.len(),
            r@ == join_components(views(cs@).take(i as int)),
        decreases k - i,
    {
        proof {
            let vs = views(cs@);
            assert(vs.take(i + 1).drop_last() == vs.take(i as int));
            assert(vs.take(i + 1).last() == cs@[i as int]@);
        }
        if !(r.len() == 0 || r[r.len() - 1] == '/') {
            r.push('/');
        }
        push_all(&mut r, &cs[i]);
        proof {
            assert(r@ =~= join_components(views(cs@).take(i + 1)));
        }
        i = i + 1;
    }
    r
}

pub fn resolve_ros2_install_path(path: &str) -> (r: Option<ProjectIdentity>)
    ensures
        identity_matches(r, install_path_model(path@)),
{
    let p = chars_of(path);
    let cs = components_of(&p);
    let ghost model = components(path@);
    let mut i: usize = 0;
    while i < cs.len()
        invariant
            i <= cs.len(),
            views(cs@) == model,
            model == components(path@),
            forall|j: int| 0 <= j < i ==> model[j] != "install"@,
        decreases cs.len() - i,
    {
        proof {
            assert(cs@[i as int]@ == model[i as int]);
        }
        if eq_str(&cs[i], "install") {
            proof {
                assert(first_component_at(model, "install"@, i as int));
                assert(model.contains("install"@));
                let k = choose|k: int| first_component_at(model, "install"@, k);
                if k < i {
                } else if i < k {
                }
                assert(k == i);
            }
            if cs.len() - i <= 4 {
                return None;
            }
            proof {
                assert(cs@[i + 1]@ == model[i + 1]);
                assert(cs@[i + 2]@ == model[i + 2]);
                assert(cs@[i + 3]@ == model[i + 3]);
                assert(cs@[cs.len() - 1]@ == model.last());
            }
            if !eq_str(&cs[i + 2], "lib") || !chars_eq(&cs[i + 3], &cs[i + 1]) {
                return None;
            }
            let workspace = join_components_of(&cs, i);
            return Some(
                ProjectIdentity {
                    workspace: Some(string_of(&workspace)),
                    package: Some(string_of(&cs[i + 1])),
                    executable: Some(string_of(&cs[cs.len() - 1])),
                },
            );
        }
        i = i + 1;
    }
    proof {
        if model.contains("install"@) {
            let k = choose|k: int| 0 <= k < model.len() && model[k] == "install"@;
            assert(model[k] != "install"@);
        }
    }
    None
}

/// The install identity of a process: from its executable, else from the first
/// command argument that resolves (an interpreted node shows its interpreter
/// as executable and its installed path among the arguments).
pub open spec fn ros2_process_model(exe: Option<Seq<char>>, command: Seq<Seq<char>>) -> Option<
    (Seq<char>, Seq<char>, Seq<char>),
> {
    let from_exe = match exe {
        Some(e) => install_path_model(e),
        None => None,
    };
    if from_exe is Some {
        from_exe
    } else {
        first_resolving(command)
    }
}

pub open spec fn first_resolving(command: Seq<Seq<char>>) -> Option<(Seq<char>, Seq<char>, Seq<char>)>
    decreases command.len(),
{
    if command.len() == 0 {
        None
    } else if install_path_model(command[0]) is Some {
        install_path_model(command[0])
    } else {
        first_resolving(command.drop_first())
    }
}

pub open spec fn opt_view(o: Option<String>) -> Option<Seq<char>> {
    match o {
        Some(s) => Some(s@),
        None => None,
    }
}

pub fn resolve_ros2_process(process: &ProcessSnapshot) -> (r: Option<ProjectIdentity>)
    ensures
        identity_matches(
            r,
            ros2_process_model(opt_view(process.executable), string_views(process.command@)),
        ),
{
    match &process.executable {
        Some(e) => {
            let found = resolve_ros2_install_path(e.as_str());
            if found.is_some() {
                return found;
            }
        },
        None => {},
    }
    let ghost cmd = string_views(process.command@);
    let mut i: usize = 0;
    proof {
        assert(cmd.skip(0) == cmd);
    }
    while i < process.command.len()
        invariant
            i <= process.command.len(),
            cmd == string_views(process.command@),
            match opt_view(process.executable) {
                Some(e) => install_path_model(e) is None,
                None => true,
            },
            first_resolving(cmd) == first_resolving(cmd.skip(i as int)),
        decreases process.command.len() - i,
    {
        proof {
            assert(cmd.skip(i as int)[0] == process.command@[i as int]@);
            assert(cmd.skip(i as int).drop_first() == cmd.skip(i + 1));
        }
        let found = resolve_ros2_install_path(process.command[i].as_str());
        if found.is_some() {
            return found;
        }
        i = i + 1;
    }
    proof {
        assert(cmd.skip(i as int) =~= Seq::<Seq<char>>::empty());
    }
    None
}

} // verus!
