use vstd::prelude::*;

use crate::split::{split_char, split_on, views};
use crate::text::{chars_of, contains, contains_str, ends_with, eq_str, lower, lowercase, slice_range};

verus! {

/// A cgroup path of a container runtime (Docker, containerd, Kubernetes, Podman).
pub open spec fn is_container_cgroup_model(path: Seq<char>) -> bool {
    let l = lower(path);
    ||| contains(l, "/docker/"@)
    ||| contains(l, "docker-"@)
    ||| contains(l, "containerd"@)
    ||| contains(l, "kubepods"@)
    ||| contains(l, "libpod-"@)
}

pub fn is_container_cgroup(path: &str) -> (r: bool)
    ensures
        r == is_container_cgroup_model(path@),
{
    let p = chars_of(path);
    let l = lowercase(&p);
    contains_str(&l, "/docker/") || contains_str(&l, "docker-") || contains_str(&l, "containerd")
        || contains_str(&l, "kubepods") || contains_str(&l, "libpod-")
}

/// A known development or build tool, compared without ASCII case.
pub open spec fn known_development_model(name: Seq<char>) -> bool {
    let l = lower(name);
    ||| l == "code"@
    ||| l == "code-insiders"@
    ||| l == "clangd"@
    ||| l == "rustc"@
    ||| l == "cargo"@
    ||| l == "cmake"@
    ||| l == "ninja"@
    ||| l == "make"@
    ||| l == "colcon"@
    ||| l == "gcc"@
    ||| l == "g++"@
    ||| l == "clang"@
    ||| l == "clang++"@
    ||| l == "cc1"@
    ||| l == "cc1plus"@
    ||| l == "rust-analyzer"@
    ||| l == "pyright-langserver"@
    ||| l == "pylsp"@
}

pub fn known_development_executable(name: &str) -> (r: bool)
    ensures
        r == known_development_model(name@),
{
    let n = chars_of(name);
    let l = lowercase(&n);
    eq_str(&l, "code") || eq_str(&l, "code-insiders") || eq_str(&l, "clangd") || eq_str(&l, "rustc")
        || eq_str(&l, "cargo") || eq_str(&l, "cmake") || eq_str(&l, "ninja") || eq_str(&l, "make")
        || eq_str(&l, "colcon") || eq_str(&l, "gcc") || eq_str(&l, "g++") || eq_str(&l, "clang")
        || eq_str(&l, "clang++") || eq_str(&l, "cc1") || eq_str(&l, "cc1plus") || eq_str(
        &l,
        "rust-analyzer",
    ) || eq_str(&l, "pyright-langserver") || eq_str(&l, "pylsp")
}

/// A process name of a known browser, compared without ASCII case.
pub open spec fn is_browser_model(name: Seq<char>) -> bool {
    let l = lower(name);
    ||| contains(l, "firefox"@)
    ||| contains(l, "chrome"@)
    ||| contains(l, "chromium"@)
    ||| contains(l, "brave"@)
}

pub fn is_browser(name: &str) -> (r: bool)
    ensures
        r == is_browser_model(name@),
{
    let n = chars_of(name);
    let l = lowercase(&n);
    contains_str(&l, "firefox") || contains_str(&l, "chrome") || contains_str(&l, "chromium")
        || contains_str(&l, "brave")
}

pub open spec fn service_suffix() -> Seq<char> {
    ".service"@
}

/// `user@<digits>.service`: the per-user service manager, which every desktop
/// application runs under and which therefore says nothing about a process.
pub open spec fn is_user_manager_unit(segment: Seq<char>) -> bool {
    let body = segment.take(segment.len() - 8);
    &&& ends_with(segment, service_suffix())
    &&& body.len() > 5
    &&& body.take(5) == "user@"@
    &&& crate::decimal::all_digits(body.skip(5))
}

/// A concrete systemd unit: a path segment with a non-empty name before
/// `.service`, other than the per-user manager.
pub open spec fn is_concrete_unit(segment: Seq<char>) -> bool {
    &&& segment.len() > 8
    &&& ends_with(segment, service_suffix())
    &&& !is_user_manager_unit(segment)
}

/// The innermost concrete `.service` unit among the segments.
pub open spec fn last_concrete_unit(segments: Seq<Seq<char>>) -> Option<Seq<char>>
    decreases segments.len(),
{
    if segments.len() == 0 {
        None
    } else if is_concrete_unit(segments.last()) {
        Some(segments.last())
    } else {
        last_concrete_unit(segments.drop_last())
    }
}

/// The systemd unit a cgroup path proves: its innermost concrete `.service`
/// segment.
pub open spec fn systemd_unit_model(path: Seq<char>) -> Option<Seq<char>> {
    last_concrete_unit(split_on(path, '/'))
}

fn is_user_manager_unit_exec(seg: &Vec<char>) -> (r: bool)
    requires
        crate::text::ends_with(seg@, service_suffix()),
        seg@.len() >= 8,
    ensures
        r == is_user_manager_unit(seg@),
{
    proof {
        reveal_strlit(".service");
        reveal_strlit("user@");
    }
    let body = slice_range(seg, 0, seg.len() - 8);
    if body.len() <= 5 {
        return false;
    }
    let head = slice_range(&body, 0, 5);
    proof {
        assert(head@ == body@.take(5));
    }
    if !eq_str(&head, "user@") {
        return false;
    }
    let mut i: usize = 5;
    while i < body.len()
        invariant
            5 <= i <= body.len(),
            seg@.len() >= 8,
            crate::text::ends_with(seg@, service_suffix()),
            body@ == seg@.take(seg@.len() - 8),
            body@.take(5) == "user@"@,
            forall|j: int| 5 <= j < i ==> crate::text::is_digit(body@[j]),
        decreases body.len() - i,
    {
        if !('0' <= body[i] && body[i] <= '9') {
            proof {
                assert(body@.skip(5)[i - 5] == body@[i as int]);
            }
            return false;
        }
        i = i + 1;
    }
    proof {
        assert forall|j: int| 0 <= j < body@.skip(5).len() implies crate::text::is_digit(
            #[trigger] body@.skip(5)[j],
        ) by {
            assert(body@.skip(5)[j] == body@[j + 5]);
        }
    }
    true
}

fn is_concrete_unit_exec(seg: &Vec<char>) -> (r: bool)
    ensures
        r == is_concrete_unit(seg@),
{
    proof {
        reveal_strlit(".service");
    }
    if seg.len() <= 8 {
        return false;
    }
    let suffix = chars_of(".service");
    if !crate::text::ends_with_exec(seg, &suffix) {
        return false;
    }
    !is_user_manager_unit_exec(seg)
}

pub fn systemd_service_unit(path: &str) -> (r: Option<String>)
    ensures
        match (r, systemd_unit_model(path@)) {
            (Some(a), Some(b)) => a@ == b,
            (None, None) => true,
            _ => false,
        },
{
    let p = chars_of(path);
    let segs = split_char(&p, '/');
    let ghost model = split_on(path@, '/');
    let mut i: usize = segs.len();
    proof {
        assert(model.take(i as int) == model);
    }
    while i > 0
        invariant
            i <= segs.len(),
            views(segs@) == model,
            model == split_on(path@, '/'),
            last_concrete_unit(model) == last_concrete_unit(model.take(i as int)),
        decreases i,
    {
        proof {
            assert(model.take(i as int).last() == segs@[i - 1]@);
            assert(model.take(i as int).drop_last() == model.take(i - 1));
        }
        if is_concrete_unit_exec(&segs[i - 1]) {
            return Some(crate::text::string_of(&segs[i - 1]));
        }
        i = i - 1;
    }
    None
}

} // verus!
