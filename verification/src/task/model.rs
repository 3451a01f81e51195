use vstd::prelude::*;

use crate::text::owned;

verus! {

/// The key of a task.
#[derive(Debug, Clone, PartialEq, Eq, Hash, PartialOrd, Ord)]
pub struct TaskId(String);

impl TaskId {
    pub closed spec fn view_text(&self) -> Seq<char> {
        self.0@
    }

    pub fn new(value: &str) -> (r: Self)
        ensures
            r.view_text() == value@,
    {
        TaskId(owned(value))
    }

    pub fn as_str(&self) -> (r: &str)
        ensures
            r@ == self.view_text(),
    {
        self.0.as_str()
    }
}

/// What kind of thing a task is.
#[derive(Debug, Clone, Copy, PartialEq, Eq, Hash, Structural)]
pub enum TaskKind {
    Ros2Launch,
    SystemdService,
    Container,
    Application,
    Process,
}

pub open spec fn task_kind_label(k: TaskKind) -> Seq<char> {
    match k {
        TaskKind::Ros2Launch => "ROS2"@,
        TaskKind::SystemdService => "SYSTEMD"@,
        TaskKind::Container => "CONTAINER"@,
        TaskKind::Application => "APP"@,
        TaskKind::Process => "PROCESS"@,
    }
}

impl TaskKind {
    /// The label shown for the kind.
    pub fn to_string(&self) -> (r: String)
        ensures
            r@ == task_kind_label(*self),
    {
        match self {
            TaskKind::Ros2Launch => owned("ROS2"),
            TaskKind::SystemdService => owned("SYSTEMD"),
            TaskKind::Container => owned("CONTAINER"),
            TaskKind::Application => owned("APP"),
            TaskKind::Process => owned("PROCESS"),
        }
    }
}

} // verus!
