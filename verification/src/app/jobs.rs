//! What the screen asks to be done outside, what comes back, and what it then goes on with.

use vstd::prelude::*;

use crate::app::plan;
use crate::app::plan::{Change, ChangeView, PairView, Row};
use crate::app::types;
use crate::config;
use crate::model::note;
use crate::model::note::{DailyNote, NoteView, RowView};
use crate::model::project;
use crate::model::project::{Project, ProjectView};
use crate::model::status::TaskStatus;
use crate::number;
use crate::number::push_number;
use crate::text;

verus! {

// ------------------------------------------------------------------------- jobs

/// Something to be done outside.
#[derive(Debug)]
pub enum Job {
    /// The note is to be written; where `create` is set, its directory may have to be made.
    SaveNote { note_idx: usize, create: bool },
    /// The tasks of a project are to be written.
    SaveTasks { project_idx: usize, tasks: Vec<(TaskStatus, String)>, now_ms: i64 },
    /// The projects are to be read.
    LoadProjects,
    /// Notes and projects are to be read.
    LoadAll,
    /// The order of projects is to be written.
    SaveOrder { order: Vec<String> },
    /// The time a project was archived is to be written.
    SetArchived { project_idx: usize, archived_at_ms: i64, now_ms: i64 },
    /// A project is to be made.
    CreateProject { name: String, now_ms: i64 },
    /// The note of a day is to be read, or made up where there is none.
    OpenNote { date: String },
    /// A note that was opened is to be written.
    SaveOpened { note: DailyNote },
    /// A text is to be put on the clipboard.
    Copy { text: String },
}

/// What a job holds.
pub enum JobView {
    SaveNote { note_idx: int, create: bool },
    SaveTasks { project_idx: int, tasks: Seq<PairView>, now_ms: i64 },
    LoadProjects,
    LoadAll,
    SaveOrder { order: Seq<Seq<char>> },
    SetArchived { project_idx: int, archived_at_ms: i64, now_ms: i64 },
    CreateProject { name: Seq<char>, now_ms: i64 },
    OpenNote { date: Seq<char> },
    SaveOpened { note: NoteView },
    Copy { text: Seq<char> },
}

impl View for Job {
    type V = JobView;

    open spec fn view(&self) -> JobView {
        match *self {
            Job::SaveNote { note_idx, create } => JobView::SaveNote {
                note_idx: note_idx as int,
                create,
            },
            Job::SaveTasks { project_idx, tasks, now_ms } => JobView::SaveTasks {
                project_idx: project_idx as int,
                tasks: project::pair_views(tasks@),
                now_ms,
            },
            Job::LoadProjects => JobView::LoadProjects,
            Job::LoadAll => JobView::LoadAll,
            Job::SaveOrder { order } => JobView::SaveOrder { order: text::texts(order@) },
            Job::SetArchived { project_idx, archived_at_ms, now_ms } => JobView::SetArchived {
                project_idx: project_idx as int,
                archived_at_ms,
                now_ms,
            },
            Job::CreateProject { name, now_ms } => JobView::CreateProject { name: name@, now_ms },
            Job::OpenNote { date } => JobView::OpenNote { date: date@ },
            Job::SaveOpened { note } => JobView::SaveOpened { note: note@ },
            Job::Copy { text } => JobView::Copy { text: text@ },
        }
    }
}

/// What an optional job holds.
pub open spec fn job_view(j: Option<Job>) -> Option<JobView> {
    match j {
        Some(job) => Some(job@),
        None => None,
    }
}

// ----------------------------------------------------------------------- events

/// What came of a job. An error is told in words.
#[derive(Debug)]
pub enum Event {
    Saved(Result<(), String>),
    Projects(Result<Vec<Project>, String>),
    All(Result<(Vec<DailyNote>, Vec<Project>), String>),
    /// The name of the directory that was made.
    Created(Result<String, String>),
    Opened(Result<DailyNote, String>),
    /// The command that took the text.
    Copied(Result<String, String>),
}

/// What an event holds.
pub enum EventView {
    Saved(Option<Seq<char>>),
    Projects(Result<Seq<ProjectView>, Seq<char>>),
    All(Result<(Seq<NoteView>, Seq<ProjectView>), Seq<char>>),
    Created(Result<Seq<char>, Seq<char>>),
    Opened(Result<NoteView, Seq<char>>),
    Copied(Result<Seq<char>, Seq<char>>),
}

impl View for Event {
    type V = EventView;

    open spec fn view(&self) -> EventView {
        match *self {
            Event::Saved(r) => EventView::Saved(
                match r {
                    Ok(_) => None,
                    Err(e) => Some(e@),
                },
            ),
            Event::Projects(r) => EventView::Projects(
                match r {
                    Ok(p) => Ok(project::project_views(p@)),
                    Err(e) => Err(e@),
                },
            ),
            Event::All(r) => EventView::All(
                match r {
                    Ok((n, p)) => Ok((note::note_views(n@), project::project_views(p@))),
                    Err(e) => Err(e@),
                },
            ),
            Event::Created(r) => EventView::Created(
                match r {
                    Ok(s) => Ok(s@),
                    Err(e) => Err(e@),
                },
            ),
            Event::Opened(r) => EventView::Opened(
                match r {
                    Ok(n) => Ok(n@),
                    Err(e) => Err(e@),
                },
            ),
            Event::Copied(r) => EventView::Copied(
                match r {
                    Ok(s) => Ok(s@),
                    Err(e) => Err(e@),
                },
            ),
        }
    }
}

impl EventView {
    /// Whether notes that came back are such that their entries lie inside their lines.
    pub open spec fn fits(self) -> bool {
        match self {
            EventView::All(Ok((notes, _))) => forall|i: int|
                0 <= i < notes.len() ==> (#[trigger] notes[i]).fits(),
            _ => true,
        }
    }
}

// ------------------------------------------------------------------------- sync

/// How many projects were written, and how many tasks came and went.
#[derive(Debug, Clone, Copy, PartialEq, Eq, Structural)]
pub struct ProjectSync {
    pub projects: usize,
    pub added: usize,
    pub removed: usize,
}

/// The sum of two counts; it stops at the largest number.
pub open spec fn sum(a: usize, b: int) -> usize {
    types::least(a + b, usize::MAX as int) as usize
}

impl ProjectSync {
    /// Nothing was written.
    pub open spec fn none() -> ProjectSync {
        ProjectSync { projects: 0, added: 0, removed: 0 }
    }

    /// One more project was written.
    pub open spec fn with(self, c: ChangeView) -> ProjectSync {
        ProjectSync {
            projects: sum(self.projects, 1),
            added: sum(self.added, c.added),
            removed: sum(self.removed, c.removed),
        }
    }

    /// What was written, in words; nothing where no project was.
    pub open spec fn words(self) -> Option<Seq<char>> {
        if self.projects == 0 {
            None
        } else {
            let a = "プロジェクト "@ + number::decimal(self.projects as nat) + " 件に反映"@;
            let b = if self.added > 0 {
                a + "・"@ + number::decimal(self.added as nat) + " 件追加"@
            } else {
                a
            };
            let c = if self.removed > 0 {
                b + "・"@ + number::decimal(self.removed as nat) + " 件削除"@
            } else {
                b
            };
            Some(c)
        }
    }

    /// Counts one more project.
    pub fn count(self, c: &Change) -> (r: ProjectSync)
        ensures
            r == self.with(c@),
    {
        ProjectSync {
            projects: self.projects.saturating_add(1),
            added: self.added.saturating_add(c.added),
            removed: self.removed.saturating_add(c.removed),
        }
    }

    /// What was written, in words.
    pub fn detail(self) -> (r: Option<String>)
        ensures
            config::opt(r) == self.words(),
    {
        if self.projects == 0 {
            return None;
        }
        let mut out: String = "プロジェクト ".to_owned();
        push_number(&mut out, self.projects as u64);
        out.append(" 件に反映");
        if self.added > 0 {
            out.append("・");
            push_number(&mut out, self.added as u64);
            out.append(" 件追加");
        }
        if self.removed > 0 {
            out.append("・");
            push_number(&mut out, self.removed as u64);
            out.append(" 件削除");
        }
        Some(out)
    }
}

// ------------------------------------------------------------------------- wait

/// What is said once projects were written because of a task list.
#[derive(Debug)]
pub enum Finish {
    /// An entry was edited.
    EntryBody,
    /// The state of one row went on.
    RowState { title: String, next: TaskStatus, group: String },
}

/// What such an ending holds.
pub enum FinishView {
    EntryBody,
    RowState { title: Seq<char>, next: TaskStatus, group: Seq<char> },
}

impl View for Finish {
    type V = FinishView;

    open spec fn view(&self) -> FinishView {
        match *self {
            Finish::EntryBody => FinishView::EntryBody,
            Finish::RowState { title, next, group } => FinishView::RowState {
                title: title@,
                next,
                group: group@,
            },
        }
    }
}

/// What follows once the projects were read again.
#[derive(Debug)]
pub enum AfterReload {
    Order { to: usize, down: bool },
    Archived { name: String, archived: bool },
    Created { name: String, dir_name: String },
    Tasks { name: String, removed: Vec<String>, count: usize },
    Cycled { title: String, next: TaskStatus, name: String },
    Synced { sync: ProjectSync, finish: Finish },
}

/// What such a continuation holds.
pub enum AfterView {
    Order { to: int, down: bool },
    Archived { name: Seq<char>, archived: bool },
    Created { name: Seq<char>, dir_name: Seq<char> },
    Tasks { name: Seq<char>, removed: Seq<Seq<char>>, count: int },
    Cycled { title: Seq<char>, next: TaskStatus, name: Seq<char> },
    Synced { sync: ProjectSync, finish: FinishView },
}

impl View for AfterReload {
    type V = AfterView;

    open spec fn view(&self) -> AfterView {
        match *self {
            AfterReload::Order { to, down } => AfterView::Order { to: to as int, down },
            AfterReload::Archived { name, archived } => AfterView::Archived { name: name@, archived },
            AfterReload::Created { name, dir_name } => AfterView::Created {
                name: name@,
                dir_name: dir_name@,
            },
            AfterReload::Tasks { name, removed, count } => AfterView::Tasks {
                name: name@,
                removed: text::texts(removed@),
                count: count as int,
            },
            AfterReload::Cycled { title, next, name } => AfterView::Cycled {
                title: title@,
                next,
                name: name@,
            },
            AfterReload::Synced { sync, finish } => AfterView::Synced { sync, finish: finish@ },
        }
    }
}

/// What the screen waits for.
#[derive(Debug)]
pub enum Wait {
    Idle,
    /// A note is being written after it was changed. Where rows of a task list changed, the
    /// projects follow.
    Persist {
        note_idx: usize,
        before: String,
        success: String,
        rows: Option<(Vec<Row>, Vec<Row>)>,
    },
    /// A note is being written after the state of a task went on.
    Row { note_idx: usize, before: String, group: String, title: String, next: TaskStatus },
    /// Projects are being written, one after the other.
    Changes { changes: Vec<Change>, at: usize, sync: ProjectSync, finish: Finish },
    /// The order of projects is being written.
    Order { to: usize, down: bool },
    /// The time a project was archived is being written.
    Archive { name: String, archived: bool },
    /// A project is being made.
    Create { name: String },
    /// The tasks of a project are being written after they were edited.
    Tasks { name: String, removed: Vec<String>, count: usize },
    /// The tasks of a project are being written after the state of one went on.
    Cycle { title: String, next: TaskStatus, name: String },
    /// The projects are being read again.
    Projects(AfterReload),
    /// The note of a day is being opened for a new entry.
    Open { date: String, block: String },
    /// The note with the new entry is being written.
    SaveEntry { date: String },
    /// All is being read again after an entry was made.
    EntryReload { date: String },
    /// All is being read again.
    Reload,
    /// A text is being copied.
    Copy { count: usize },
}

/// What a wait holds.
pub enum WaitView {
    Idle,
    Persist {
        note_idx: int,
        before: Seq<char>,
        success: Seq<char>,
        rows: Option<(Seq<RowView>, Seq<RowView>)>,
    },
    Row {
        note_idx: int,
        before: Seq<char>,
        group: Seq<char>,
        title: Seq<char>,
        next: TaskStatus,
    },
    Changes { changes: Seq<ChangeView>, at: int, sync: ProjectSync, finish: FinishView },
    Order { to: int, down: bool },
    Archive { name: Seq<char>, archived: bool },
    Create { name: Seq<char> },
    Tasks { name: Seq<char>, removed: Seq<Seq<char>>, count: int },
    Cycle { title: Seq<char>, next: TaskStatus, name: Seq<char> },
    Projects(AfterView),
    Open { date: Seq<char>, block: Seq<char> },
    SaveEntry { date: Seq<char> },
    EntryReload { date: Seq<char> },
    Reload,
    Copy { count: int },
}

/// What optional pairs of rows hold.
pub open spec fn rows_view(r: Option<(Vec<Row>, Vec<Row>)>) -> Option<
    (Seq<RowView>, Seq<RowView>),
> {
    match r {
        Some((a, b)) => Some((note::row_views(a@), note::row_views(b@))),
        None => None,
    }
}

impl View for Wait {
    type V = WaitView;

    open spec fn view(&self) -> WaitView {
        match *self {
            Wait::Idle => WaitView::Idle,
            Wait::Persist { note_idx, before, success, rows } => WaitView::Persist {
                note_idx: note_idx as int,
                before: before@,
                success: success@,
                rows: rows_view(rows),
            },
            Wait::Row { note_idx, before, group, title, next } => WaitView::Row {
                note_idx: note_idx as int,
                before: before@,
                group: group@,
                title: title@,
                next,
            },
            Wait::Changes { changes, at, sync, finish } => WaitView::Changes {
                changes: plan::change_views(changes@),
                at: at as int,
                sync,
                finish: finish@,
            },
            Wait::Order { to, down } => WaitView::Order { to: to as int, down },
            Wait::Archive { name, archived } => WaitView::Archive { name: name@, archived },
            Wait::Create { name } => WaitView::Create { name: name@ },
            Wait::Tasks { name, removed, count } => WaitView::Tasks {
                name: name@,
                removed: text::texts(removed@),
                count: count as int,
            },
            Wait::Cycle { title, next, name } => WaitView::Cycle {
                title: title@,
                next,
                name: name@,
            },
            Wait::Projects(after) => WaitView::Projects(after@),
            Wait::Open { date, block } => WaitView::Open { date: date@, block: block@ },
            Wait::SaveEntry { date } => WaitView::SaveEntry { date: date@ },
            Wait::EntryReload { date } => WaitView::EntryReload { date: date@ },
            Wait::Reload => WaitView::Reload,
            Wait::Copy { count } => WaitView::Copy { count: count as int },
        }
    }
}

impl WaitView {
    /// Whether an event is of the kind that is waited for.
    pub open spec fn takes(self, e: EventView) -> bool {
        match self {
            WaitView::Idle => false,
            WaitView::Projects(_) => e is Projects,
            WaitView::EntryReload { .. } | WaitView::Reload => e is All,
            WaitView::Create { .. } => e is Created,
            WaitView::Open { .. } => e is Opened,
            WaitView::Copy { .. } => e is Copied,
            _ => e is Saved,
        }
    }

    /// Whether the places that are waited with exist.
    pub open spec fn fits(self, notes: Seq<NoteView>) -> bool {
        match self {
            WaitView::Persist { note_idx, .. } => 0 <= note_idx < notes.len(),
            WaitView::Row { note_idx, .. } => 0 <= note_idx < notes.len(),
            WaitView::Changes { changes, at, .. } => 0 <= at < changes.len(),
            _ => true,
        }
    }
}

} // verus!
