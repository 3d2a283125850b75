//! The three states of a task.

use vstd::prelude::*;

verus! {

/// The state of a task.
#[derive(Debug, Clone, Copy, PartialEq, Eq, Structural)]
pub enum TaskStatus {
    Backlog,
    InProgress,
    Done,
}

/// The order in which tasks are listed: what has not been started comes first.
pub const STATUS_ORDER: [TaskStatus; 3] = [
    TaskStatus::Backlog,
    TaskStatus::InProgress,
    TaskStatus::Done,
];

impl TaskStatus {
    /// The character between the brackets of a check box.
    pub open spec fn mark(self) -> char {
        match self {
            TaskStatus::Backlog => ' ',
            TaskStatus::InProgress => '-',
            TaskStatus::Done => 'x',
        }
    }

    /// The state that a character between the brackets stands for.
    pub open spec fn of_mark(c: char) -> Option<TaskStatus> {
        if c == ' ' {
            Some(TaskStatus::Backlog)
        } else if c == '-' {
            Some(TaskStatus::InProgress)
        } else if c == 'x' || c == 'X' {
            Some(TaskStatus::Done)
        } else {
            None
        }
    }

    /// The state that follows in the cycle.
    pub open spec fn after(self) -> TaskStatus {
        match self {
            TaskStatus::Backlog => TaskStatus::InProgress,
            TaskStatus::InProgress => TaskStatus::Done,
            TaskStatus::Done => TaskStatus::Backlog,
        }
    }

    /// The name written to project files and shown on screen.
    pub open spec fn title(self) -> Seq<char> {
        match self {
            TaskStatus::Backlog => "Backlog"@,
            TaskStatus::InProgress => "InProgress"@,
            TaskStatus::Done => "Done"@,
        }
    }

    /// The place in the listing order.
    pub open spec fn rank(self) -> int {
        match self {
            TaskStatus::Backlog => 0,
            TaskStatus::InProgress => 1,
            TaskStatus::Done => 2,
        }
    }

    /// The state that a name in a project file stands for. A name that is not known
    /// counts as not started.
    pub open spec fn of_name(name: Seq<char>) -> TaskStatus {
        if name == "InProgress"@ {
            TaskStatus::InProgress
        } else if name == "Done"@ {
            TaskStatus::Done
        } else {
            TaskStatus::Backlog
        }
    }

    pub fn marker(self) -> (r: char)
        ensures
            r == self.mark(),
    {
        match self {
            TaskStatus::Backlog => ' ',
            TaskStatus::InProgress => '-',
            TaskStatus::Done => 'x',
        }
    }

    pub fn from_marker(c: char) -> (r: Option<TaskStatus>)
        ensures
            r == TaskStatus::of_mark(c),
    {
        if c == ' ' {
            Some(TaskStatus::Backlog)
        } else if c == '-' {
            Some(TaskStatus::InProgress)
        } else if c == 'x' || c == 'X' {
            Some(TaskStatus::Done)
        } else {
            None
        }
    }

    /// The state after this one; the three states follow each other in a circle.
    pub fn next(self) -> (r: TaskStatus)
        ensures
            r == self.after(),
    {
        match self {
            TaskStatus::Backlog => TaskStatus::InProgress,
            TaskStatus::InProgress => TaskStatus::Done,
            TaskStatus::Done => TaskStatus::Backlog,
        }
    }

    /// The name written to project files.
    pub fn name(self) -> (r: &'static str)
        ensures
            r@ == self.title(),
    {
        match self {
            TaskStatus::Backlog => "Backlog",
            TaskStatus::InProgress => "InProgress",
            TaskStatus::Done => "Done",
        }
    }

    /// The name shown on screen.
    pub fn label(self) -> (r: &'static str)
        ensures
            r@ == self.title(),
    {
        self.name()
    }

    /// The state named in a project file.
    pub fn from_name(name: &str) -> (r: TaskStatus)
        ensures
            r == TaskStatus::of_name(name@),
    {
        if crate::text::same_string(name, "InProgress") {
            TaskStatus::InProgress
        } else if crate::text::same_string(name, "Done") {
            TaskStatus::Done
        } else {
            TaskStatus::Backlog
        }
    }
}

/// The mark of a state reads back as the state.
pub proof fn law_marker_reads_back(s: TaskStatus)
    ensures
        TaskStatus::of_mark(s.mark()) == Some(s),
{
}

/// Three steps lead through all three states and back.
pub proof fn law_status_cycle(s: TaskStatus)
    ensures
        s.after().after().after() == s,
        s.after() != s,
        s.after().after() != s,
{
}

/// The name of a state reads back as the state.
pub proof fn law_name_reads_back(s: TaskStatus)
    ensures
        TaskStatus::of_name(s.title()) == s,
{
    reveal_strlit("Backlog");
    reveal_strlit("InProgress");
    reveal_strlit("Done");
    assert("Backlog"@.len() == 7);
    assert("InProgress"@.len() == 10);
    assert("Done"@.len() == 4);
}

} // verus!
