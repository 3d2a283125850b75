//! The state of the screen, and what can be read off it.

use vstd::prelude::*;
use vstd::view::View as _;

use crate::app::jobs::{Wait, WaitView};
use crate::app::reading;
use crate::app::reading::{detail_of, summaries};
use crate::app::todos;
use crate::app::todos::{
    arrange, days_of, filter_todos, limit_list, markdown, rows, todos_of_day, Placed, PlacedView,
};
use crate::app::types;
use crate::app::types::{
    Confirm, DetailLine, DetailView, EntrySummary, Focus, HitView, Mode, SearchHit, SummaryView, TodoRow, TodoSort, View,
};
use crate::config;
use crate::config::{Config, ConfigView};
use crate::editor::{EditRequest, RequestView};
use crate::model::entry::EntryView;
use crate::model::note;
use crate::model::note::{DailyNote, NoteView};
use crate::model::project;
use crate::model::project::{Project, ProjectTask, ProjectView, TaskView};
use crate::model::status::TaskStatus;
use crate::number;
use crate::number::push_number;
use crate::text;

verus! {

/// How long the logo is shown, in milliseconds.
pub const SPLASH_MS: u64 = 1400;

/// The state of the screen.
#[derive(Debug)]
pub struct App {
    pub config: Config,
    pub notes: Vec<DailyNote>,
    pub projects: Vec<Project>,
    /// The tasks of all notes with the places of their notes.
    pub todos: Vec<Placed>,
    pub view: View,
    /// The screen that the search was opened from.
    pub return_view: View,
    pub mode: Mode,
    pub focus: Focus,
    pub note_sel: usize,
    pub entry_sel: usize,
    pub detail_scroll: usize,
    pub note_task_sel: usize,
    pub todo_date_sel: usize,
    pub todo_sel: usize,
    pub project_sel: usize,
    pub task_sel: usize,
    pub search_sel: usize,
    pub query: String,
    pub hits: Vec<SearchHit>,
    pub confirm: Option<Confirm>,
    /// The editor is to be opened.
    pub pending_edit: Option<EditRequest>,
    /// When the logo disappears.
    pub splash: Option<u64>,
    pub status: Option<String>,
    pub show_all_notes: bool,
    pub show_archived: bool,
    pub todo_sort: TodoSort,
    pub todo_open_only: bool,
    pub help_scroll: usize,
    pub should_quit: bool,
    /// How many lines of a body fit on the screen.
    pub viewport: usize,
    /// What is being waited for.
    pub wait: Wait,
}

/// What the state holds.
#[verifier::ext_equal]
pub struct AppView {
    pub config: ConfigView,
    pub notes: Seq<NoteView>,
    pub projects: Seq<ProjectView>,
    pub todos: Seq<PlacedView>,
    pub view: View,
    pub return_view: View,
    pub mode: Mode,
    pub focus: Focus,
    pub note_sel: int,
    pub entry_sel: int,
    pub detail_scroll: int,
    pub note_task_sel: int,
    pub todo_date_sel: int,
    pub todo_sel: int,
    pub project_sel: int,
    pub task_sel: int,
    pub search_sel: int,
    pub query: Seq<char>,
    pub hits: Seq<HitView>,
    pub confirm: Option<Confirm>,
    pub pending_edit: Option<RequestView>,
    pub splash: Option<u64>,
    pub status: Option<Seq<char>>,
    pub show_all_notes: bool,
    pub show_archived: bool,
    pub todo_sort: TodoSort,
    pub todo_open_only: bool,
    pub help_scroll: int,
    pub should_quit: bool,
    pub viewport: int,
    pub wait: WaitView,
}

/// What an optional request holds.
pub open spec fn request_view(r: Option<EditRequest>) -> Option<RequestView> {
    match r {
        Some(q) => Some(q@),
        None => None,
    }
}

impl vstd::view::View for App {
    type V = AppView;

    open spec fn view(&self) -> AppView {
        AppView {
            config: self.config@,
            notes: note::note_views(self.notes@),
            projects: project::project_views(self.projects@),
            todos: todos::placed_views(self.todos@),
            view: self.view,
            return_view: self.return_view,
            mode: self.mode,
            focus: self.focus,
            note_sel: self.note_sel as int,
            entry_sel: self.entry_sel as int,
            detail_scroll: self.detail_scroll as int,
            note_task_sel: self.note_task_sel as int,
            todo_date_sel: self.todo_date_sel as int,
            todo_sel: self.todo_sel as int,
            project_sel: self.project_sel as int,
            task_sel: self.task_sel as int,
            search_sel: self.search_sel as int,
            query: self.query@,
            hits: types::hit_views(self.hits@),
            confirm: self.confirm,
            pending_edit: request_view(self.pending_edit),
            splash: self.splash,
            status: config::opt(self.status),
            show_all_notes: self.show_all_notes,
            show_archived: self.show_archived,
            todo_sort: self.todo_sort,
            todo_open_only: self.todo_open_only,
            help_scroll: self.help_scroll as int,
            should_quit: self.should_quit,
            viewport: self.viewport as int,
            wait: self.wait@,
        }
    }
}

// ------------------------------------------------------------------------ models

/// The projects that are listed, by their places.
pub open spec fn listed_projects(projects: Seq<ProjectView>, archived: bool) -> Seq<int>
    decreases projects.len(),
{
    if projects.len() == 0 {
        Seq::empty()
    } else {
        let before = listed_projects(projects.drop_last(), archived);
        if archived || projects.last().archived_at_ms <= 0 {
            before.push(projects.len() - 1)
        } else {
            before
        }
    }
}

/// The places of the lines that are tasks.
pub open spec fn task_spots(lines: Seq<DetailView>) -> Seq<int>
    decreases lines.len(),
{
    if lines.len() == 0 {
        Seq::empty()
    } else {
        let before = task_spots(lines.drop_last());
        if lines.last().task_line is Some {
            before.push(lines.len() - 1)
        } else {
            before
        }
    }
}

/// The tasks of a project that are shown: of those that are done only the first ones.
pub open spec fn shown_tasks(tasks: Seq<TaskView>, done_limit: int) -> Seq<TaskView> {
    project::tasks_in(tasks, TaskStatus::Backlog) + project::tasks_in(
        tasks,
        TaskStatus::InProgress,
    ) + todos::limited(project::tasks_in(tasks, TaskStatus::Done), done_limit)
}

/// How many tasks are not done.
pub open spec fn open_count(todos: Seq<PlacedView>) -> nat {
    todos::unfinished(todos, true).len()
}

/// The first entry from `i` on whose body holds a line, or the number of entries.
pub open spec fn entry_with(entries: Seq<EntryView>, line: int, i: int) -> int
    decreases entries.len() - i,
{
    if i >= entries.len() || entries[i].body.0 <= line < entries[i].body.1 {
        i
    } else {
        entry_with(entries, line, i + 1)
    }
}

impl AppView {
    /// The entries of every note lie inside its lines, and the places that are waited with
    /// exist.
    pub open spec fn is_sound(self) -> bool {
        &&& forall|i: int| 0 <= i < self.notes.len() ==> (#[trigger] self.notes[i]).fits()
        &&& self.wait.fits(self.notes)
    }

    /// Nothing is being waited for.
    pub open spec fn is_idle(self) -> bool {
        self.wait is Idle
    }

    /// How many notes are listed.
    pub open spec fn notes_shown(self) -> int {
        if self.show_all_notes || self.config.recent_notes == 0 {
            self.notes.len() as int
        } else {
            types::least(self.config.recent_notes as int, self.notes.len() as int)
        }
    }

    /// The projects that are listed, by their places.
    pub open spec fn projects_shown(self) -> Seq<int> {
        listed_projects(self.projects, self.show_archived)
    }

    /// The tasks that pass the filter.
    pub open spec fn open_todos(self) -> Seq<PlacedView> {
        todos::unfinished(self.todos, self.todo_open_only)
    }

    /// The days of the task list.
    pub open spec fn days_shown(self) -> Seq<Seq<char>> {
        todos::limited(
            todos::days(self.open_todos()),
            if self.show_all_notes {
                0
            } else {
                self.config.recent_notes as int
            },
        )
    }

    /// The day that is chosen in the task list.
    pub open spec fn day(self) -> Option<Seq<char>> {
        if 0 <= self.todo_date_sel < self.days_shown().len() {
            Some(self.days_shown()[self.todo_date_sel])
        } else {
            None
        }
    }

    /// The tasks of the day that is chosen.
    pub open spec fn todos_shown(self) -> Seq<PlacedView> {
        match self.day() {
            Some(day) => todos::arranged(todos::of_day(self.open_todos(), day), self.todo_sort),
            None => Seq::empty(),
        }
    }

    /// The task list in Markdown.
    pub open spec fn markdown(self) -> Option<Seq<char>> {
        match self.day() {
            Some(day) => if self.todos_shown().len() == 0 {
                None
            } else {
                Some(todos::markdown_of(day, self.todos_shown()))
            },
            None => None,
        }
    }

    /// The note that is chosen.
    pub open spec fn note(self) -> Option<NoteView> {
        if 0 <= self.note_sel < self.notes.len() {
            Some(self.notes[self.note_sel])
        } else {
            None
        }
    }

    /// The number of entries of the note that is chosen.
    pub open spec fn entry_count(self) -> int {
        match self.note() {
            Some(n) => n.entries.len() as int,
            None => 0,
        }
    }

    /// The body that is shown.
    pub open spec fn detail(self) -> Seq<DetailView> {
        match self.note() {
            Some(n) => reading::entry_detail(n, self.entry_sel),
            None => Seq::empty(),
        }
    }

    /// The headings of the entries of the note that is chosen.
    pub open spec fn headings(self) -> Seq<SummaryView> {
        match self.note() {
            Some(n) => reading::summaries_of(n),
            None => Seq::empty(),
        }
    }

    /// The places of the tasks in the body that is shown.
    pub open spec fn spots(self) -> Seq<int> {
        task_spots(self.detail())
    }

    /// The line of the file of the task that is chosen in the body.
    pub open spec fn task_line(self) -> Option<int> {
        let spots = self.spots();
        if 0 <= self.note_task_sel < spots.len() {
            self.detail()[spots[self.note_task_sel]].task_line
        } else {
            None
        }
    }

    /// The place of the project that is chosen.
    pub open spec fn project_at(self) -> Option<int> {
        let shown = self.projects_shown();
        if 0 <= self.project_sel < shown.len() {
            Some(shown[self.project_sel])
        } else {
            None
        }
    }

    /// The project that is chosen.
    pub open spec fn project(self) -> Option<ProjectView> {
        match self.project_at() {
            Some(i) => Some(self.projects[i]),
            None => None,
        }
    }

    /// The tasks of the project that is chosen.
    pub open spec fn tasks_shown(self) -> Seq<TaskView> {
        match self.project() {
            Some(p) => shown_tasks(p.tasks, self.config.project_done_limit as int),
            None => Seq::empty(),
        }
    }

    /// The entry that keys act on.
    pub open spec fn entry_at(self) -> Option<(int, int)> {
        match self.view {
            View::Notes => if self.entry_sel < self.entry_count() {
                Some((self.note_sel, self.entry_sel))
            } else {
                None
            },
            View::Todo => {
                let list = self.todos_shown();
                if 0 <= self.todo_sel < list.len() {
                    let (n, t) = list[self.todo_sel];
                    if 0 <= n < self.notes.len() {
                        let k = entry_with(self.notes[n].entries, t.line, 0);
                        if k < self.notes[n].entries.len() {
                            Some((n, k))
                        } else {
                            None
                        }
                    } else {
                        None
                    }
                } else {
                    None
                }
            },
            View::Search => if 0 <= self.search_sel < self.hits.len() && reading::hit_fits(
                self.hits[self.search_sel],
                self.notes,
            ) {
                Some((self.hits[self.search_sel].note_idx, self.hits[self.search_sel].entry_idx))
            } else {
                None
            },
            View::Projects => None,
        }
    }

    /// The line at the bottom of the screen.
    pub open spec fn summary(self) -> Seq<char> {
        let shown = self.notes_shown();
        let all = self.notes.len();
        let notes = if shown < all {
            "ノート "@ + number::decimal(shown as nat) + "/"@ + number::decimal(all)
        } else {
            "ノート "@ + number::decimal(all)
        };
        notes + " / ToDo 未完 "@ + number::decimal(open_count(self.todos)) + " / プロジェクト "@
            + number::decimal(listed_projects(self.projects, false).len())
    }
}

/// The places of tasks lie in the body.
pub proof fn lemma_task_spots(lines: Seq<DetailView>)
    ensures
        task_spots(lines).len() <= lines.len(),
        forall|i: int|
            0 <= i < task_spots(lines).len() ==> 0 <= #[trigger] task_spots(lines)[i] < lines.len()
                && lines[task_spots(lines)[i]].task_line is Some,
    decreases lines.len(),
{
    if lines.len() > 0 {
        let head = lines.drop_last();
        lemma_task_spots(head);
        let before = task_spots(head);
        let all = task_spots(lines);
        assert forall|i: int| 0 <= i < all.len() implies 0 <= #[trigger] all[i] < lines.len()
            && lines[all[i]].task_line is Some by {
            if i < before.len() {
                assert(all[i] == before[i]);
                assert(lines[before[i]] == head[before[i]]);
            }
        }
    }
}

/// What a list of places holds.
pub open spec fn places(v: Seq<usize>) -> Seq<int> {
    v.map_values(|i: usize| i as int)
}

impl App {
    /// How many notes are listed.
    pub fn visible_notes(&self) -> (r: usize)
        ensures
            r == self@.notes_shown(),
            r <= self.notes@.len(),
    {
        assert(self@.notes.len() == self.notes@.len());
        if self.show_all_notes || self.config.recent_notes == 0 {
            self.notes.len()
        } else if self.config.recent_notes < self.notes.len() {
            self.config.recent_notes
        } else {
            self.notes.len()
        }
    }

    /// The projects that are listed, by their places.
    pub fn visible_projects(&self) -> (r: Vec<usize>)
        ensures
            places(r@) == self@.projects_shown(),
            forall|i: int| 0 <= i < r@.len() ==> #[trigger] r@[i] < self.projects@.len(),
    {
        let ghost all = self@.projects;
        let mut out: Vec<usize> = Vec::new();
        let mut i: usize = 0;
        assert(places(out@) == Seq::<int>::empty());
        while i < self.projects.len()
            invariant
                i <= self.projects.len(),
                all == project::project_views(self.projects@),
                places(out@) == listed_projects(all.take(i as int), self.show_archived),
                forall|k: int| 0 <= k < out@.len() ==> #[trigger] out@[k] < i,
            decreases self.projects.len() - i,
        {
            assert(all.take(i + 1).drop_last() == all.take(i as int));
            assert(all[i as int] == self.projects@[i as int]@);
            if self.show_archived || !self.projects[i].is_archived() {
                let ghost done = out@;
                out.push(i);
                assert(places(out@) =~= places(done).push(i as int));
            }
            i += 1;
        }
        assert(all.take(i as int) == all);
        out
    }

    /// The tasks that pass the filter.
    fn filtered_todos(&self) -> (r: Vec<&Placed>)
        ensures
            todos::placed_refs(r@) == self@.open_todos(),
    {
        filter_todos(&self.todos, self.todo_open_only)
    }

    /// The days of the task list.
    pub fn visible_todo_dates(&self) -> (r: Vec<String>)
        ensures
            text::texts(r@) == self@.days_shown(),
    {
        let list: Vec<&Placed> = self.filtered_todos();
        let limit: usize = if self.show_all_notes {
            0
        } else {
            self.config.recent_notes
        };
        limit_list(days_of(&list), limit)
    }

    /// How many days there are without the limit.
    pub fn todo_dates_total(&self) -> (r: usize)
        ensures
            r == todos::days(self@.open_todos()).len(),
    {
        let list: Vec<&Placed> = self.filtered_todos();
        let all: Vec<String> = days_of(&list);
        assert(all@.len() == text::texts(all@).len());
        all.len()
    }

    /// The day that is chosen in the task list.
    pub fn selected_todo_date(&self) -> (r: Option<String>)
        ensures
            config::opt(r) == self@.day(),
    {
        let list: Vec<String> = self.visible_todo_dates();
        assert(list@.len() == text::texts(list@).len());
        if self.todo_date_sel < list.len() {
            assert(text::texts(list@)[self.todo_date_sel as int]
                == list@[self.todo_date_sel as int]@);
            Some(list[self.todo_date_sel].clone())
        } else {
            None
        }
    }

    /// The tasks of the day that is chosen.
    pub fn visible_todos(&self) -> (r: Vec<&Placed>)
        ensures
            todos::placed_refs(r@) == self@.todos_shown(),
    {
        match self.selected_todo_date() {
            Some(day) => {
                let list: Vec<&Placed> = self.filtered_todos();
                arrange(todos_of_day(&list, day.as_str()), self.todo_sort)
            },
            None => {
                let none: Vec<&Placed> = Vec::new();
                assert(todos::placed_refs(none@) == Seq::<PlacedView>::empty());
                none
            },
        }
    }

    /// The number of tasks of the day that is chosen.
    pub(crate) fn todo_count(&self) -> (r: usize)
        ensures
            r == self@.todos_shown().len(),
    {
        let list: Vec<&Placed> = self.visible_todos();
        assert(list@.len() == todos::placed_refs(list@).len());
        list.len()
    }

    /// The rows of the task list.
    pub fn todo_rows(&self) -> (r: Vec<TodoRow>)
        ensures
            types::row_kinds(r@) == todos::rows_of(self@.todos_shown()),
    {
        let list: Vec<&Placed> = self.visible_todos();
        rows(&list)
    }

    /// The task list in Markdown, as it is shown; nothing where it is empty.
    pub fn todo_markdown(&self) -> (r: Option<String>)
        ensures
            config::opt(r) == self@.markdown(),
    {
        match self.selected_todo_date() {
            Some(day) => {
                let list: Vec<&Placed> = self.visible_todos();
                assert(list@.len() == todos::placed_refs(list@).len());
                if list.len() == 0 {
                    None
                } else {
                    Some(markdown(day.as_str(), &list))
                }
            },
            None => None,
        }
    }

    /// The note that is chosen.
    pub fn selected_note(&self) -> (r: Option<&DailyNote>)
        ensures
            match r {
                Some(n) => self@.note() == Some(n@) && self.note_sel < self.notes@.len() && *n
                    == self.notes@[self.note_sel as int],
                None => self@.note() is None,
            },
    {
        assert(self@.notes.len() == self.notes@.len());
        if self.note_sel < self.notes.len() {
            assert(self@.notes[self.note_sel as int] == self.notes@[self.note_sel as int]@);
            Some(&self.notes[self.note_sel])
        } else {
            None
        }
    }

    /// The number of entries of the note that is chosen.
    pub(crate) fn entry_total(&self) -> (r: usize)
        ensures
            r == self@.entry_count(),
    {
        match self.selected_note() {
            Some(n) => {
                assert(n@.entries.len() == n.entries@.len());
                n.entries.len()
            },
            None => 0,
        }
    }

    /// The body that is shown.
    pub fn detail_lines(&self) -> (r: Vec<DetailLine>)
        requires
            self@.is_sound(),
        ensures
            types::detail_views(r@) == self@.detail(),
    {
        match self.selected_note() {
            Some(n) => {
                assert(self@.notes[self.note_sel as int].fits());
                detail_of(n, self.entry_sel)
            },
            None => {
                let none: Vec<DetailLine> = Vec::new();
                assert(types::detail_views(none@) == Seq::<DetailView>::empty());
                none
            },
        }
    }

    /// The headings of the entries of the note that is chosen.
    pub fn entry_summaries(&self) -> (r: Vec<EntrySummary>)
        requires
            self@.is_sound(),
        ensures
            types::summary_views(r@) == self@.headings(),
    {
        match self.selected_note() {
            Some(n) => {
                assert(self@.notes[self.note_sel as int].fits());
                summaries(n)
            },
            None => {
                let none: Vec<EntrySummary> = Vec::new();
                assert(types::summary_views(none@) == Seq::<SummaryView>::empty());
                none
            },
        }
    }

    /// The places of the tasks in the body that is shown.
    pub fn note_task_positions(&self) -> (r: Vec<usize>)
        requires
            self@.is_sound(),
        ensures
            places(r@) == self@.spots(),
    {
        let lines: Vec<DetailLine> = self.detail_lines();
        let ghost all = types::detail_views(lines@);
        let mut out: Vec<usize> = Vec::new();
        let mut i: usize = 0;
        assert(places(out@) == Seq::<int>::empty());
        while i < lines.len()
            invariant
                i <= lines.len(),
                all == types::detail_views(lines@),
                places(out@) == task_spots(all.take(i as int)),
            decreases lines.len() - i,
        {
            assert(all.take(i + 1).drop_last() == all.take(i as int));
            assert(all[i as int] == lines@[i as int]@);
            if lines[i].task_line.is_some() {
                let ghost done = out@;
                out.push(i);
                assert(places(out@) =~= places(done).push(i as int));
            }
            i += 1;
        }
        assert(all.take(i as int) == all);
        out
    }

    /// The line of the file of the task that is chosen in the body.
    pub fn selected_note_task(&self) -> (r: Option<usize>)
        requires
            self@.is_sound(),
        ensures
            match r {
                Some(l) => self@.task_line() == Some(l as int),
                None => self@.task_line() is None,
            },
    {
        let lines: Vec<DetailLine> = self.detail_lines();
        let spots: Vec<usize> = self.note_task_positions();
        let ghost all = types::detail_views(lines@);
        proof {
            lemma_task_spots(all);
        }
        assert(spots@.len() == places(spots@).len());
        if self.note_task_sel < spots.len() {
            let at: usize = spots[self.note_task_sel];
            assert(places(spots@)[self.note_task_sel as int] == at);
            assert(all[at as int] == lines@[at as int]@);
            lines[at].task_line
        } else {
            None
        }
    }

    /// The place of the project that is chosen.
    pub(crate) fn project_index(&self) -> (r: Option<usize>)
        ensures
            match r {
                Some(i) => self@.project_at() == Some(i as int) && i < self.projects@.len(),
                None => self@.project_at() is None,
            },
    {
        let shown: Vec<usize> = self.visible_projects();
        assert(shown@.len() == places(shown@).len());
        if self.project_sel < shown.len() {
            let i: usize = shown[self.project_sel];
            assert(places(shown@)[self.project_sel as int] == i);
            Some(i)
        } else {
            None
        }
    }

    /// The project that is chosen.
    pub fn selected_project(&self) -> (r: Option<&Project>)
        ensures
            match r {
                Some(p) => self@.project() == Some(p@),
                None => self@.project() is None,
            },
    {
        match self.project_index() {
            Some(i) => {
                assert(self@.projects[i as int] == self.projects@[i as int]@);
                Some(&self.projects[i])
            },
            None => None,
        }
    }

    /// The tasks of the project that is chosen.
    pub fn visible_tasks(&self) -> (r: Vec<&ProjectTask>)
        ensures
            project::task_ref_views(r@) == self@.tasks_shown(),
    {
        match self.selected_project() {
            Some(p) => {
                let mut out: Vec<&ProjectTask> = p.tasks_with(TaskStatus::Backlog);
                let doing: Vec<&ProjectTask> = p.tasks_with(TaskStatus::InProgress);
                let done: Vec<&ProjectTask> = p.tasks_with(TaskStatus::Done);
                let limit: usize = self.config.project_done_limit;
                let shown: usize = if 0 < limit && limit < done.len() {
                    limit
                } else {
                    done.len()
                };
                let ghost finished = project::task_ref_views(done@);
                assert(finished.len() == done@.len());
                assert(finished.take(finished.len() as int) == finished);
                assert(finished.take(shown as int) == todos::limited(finished, limit as int));
                let whole: usize = doing.len();
                push_tasks(&mut out, &doing, whole);
                push_tasks(&mut out, &done, shown);
                assert(project::task_ref_views(doing@).take(whole as int)
                    == project::task_ref_views(doing@));
                out
            },
            None => {
                let none: Vec<&ProjectTask> = Vec::new();
                assert(project::task_ref_views(none@) == Seq::<TaskView>::empty());
                none
            },
        }
    }

    /// The number of tasks of the project that is chosen.
    pub(crate) fn task_count(&self) -> (r: usize)
        ensures
            r == self@.tasks_shown().len(),
    {
        let list: Vec<&ProjectTask> = self.visible_tasks();
        assert(list@.len() == project::task_ref_views(list@).len());
        list.len()
    }

    /// How many tasks that are done are not shown.
    pub fn hidden_done(&self) -> (r: usize)
        ensures
            r == match self@.project() {
                Some(p) => if self@.config.project_done_limit == 0 {
                    0
                } else {
                    types::less(
                        project::tasks_in(p.tasks, TaskStatus::Done).len() as int,
                        self@.config.project_done_limit as int,
                    )
                },
                None => 0,
            },
    {
        match self.selected_project() {
            Some(p) => {
                let limit: usize = self.config.project_done_limit;
                if limit == 0 {
                    0
                } else {
                    let done: usize = p.count(TaskStatus::Done);
                    if done < limit {
                        0
                    } else {
                        done - limit
                    }
                }
            },
            None => 0,
        }
    }

    /// The entry that keys act on.
    pub(crate) fn focused_entry(&self) -> (r: Option<(usize, usize)>)
        ensures
            match r {
                Some((n, k)) => self@.entry_at() == Some((n as int, k as int)) && n
                    < self.notes@.len() && k < self.notes@[n as int].entries@.len(),
                None => self@.entry_at() is None,
            },
    {
        assert(self@.notes.len() == self.notes@.len());
        match self.view {
            View::Notes => {
                let count: usize = self.entry_total();
                if self.entry_sel < count {
                    assert(self@.notes[self.note_sel as int]
                        == self.notes@[self.note_sel as int]@);
                    Some((self.note_sel, self.entry_sel))
                } else {
                    None
                }
            },
            View::Todo => {
                let list: Vec<&Placed> = self.visible_todos();
                assert(list@.len() == todos::placed_refs(list@).len());
                if self.todo_sel >= list.len() {
                    return None;
                }
                let p: &Placed = list[self.todo_sel];
                assert(todos::placed_refs(list@)[self.todo_sel as int] == todos::placed_view(*p));
                let n: usize = p.0;
                if n >= self.notes.len() {
                    return None;
                }
                assert(self@.notes[n as int] == self.notes@[n as int]@);
                let k: usize = find_entry(&self.notes[n], p.1.line);
                if k < self.notes[n].entries.len() {
                    Some((n, k))
                } else {
                    None
                }
            },
            View::Search => {
                assert(self@.hits.len() == self.hits@.len());
                if self.search_sel < self.hits.len() {
                    let h: &SearchHit = &self.hits[self.search_sel];
                    assert(self@.hits[self.search_sel as int] == h@);
                    if h.note_idx < self.notes.len() {
                        assert(self@.notes[h.note_idx as int] == self.notes@[h.note_idx as int]@);
                        if h.entry_idx < self.notes[h.note_idx].entries.len() {
                            return Some((h.note_idx, h.entry_idx));
                        }
                    }
                    None
                } else {
                    None
                }
            },
            View::Projects => None,
        }
    }

    /// The line at the bottom of the screen.
    pub fn summary(&self) -> (r: String)
        ensures
            r@ == self@.summary(),
    {
        let open: Vec<&Placed> = filter_todos(&self.todos, true);
        assert(open@.len() == todos::placed_refs(open@).len());
        let active: usize = count_active(&self.projects);
        let shown: usize = self.visible_notes();
        let all: usize = self.notes.len();
        assert(self@.notes.len() == all);
        let mut out: String = "ノート ".to_owned();
        if shown < all {
            push_number(&mut out, shown as u64);
            out.append("/");
        }
        push_number(&mut out, all as u64);
        out.append(" / ToDo 未完 ");
        push_number(&mut out, open.len() as u64);
        out.append(" / プロジェクト ");
        push_number(&mut out, active as u64);
        assert(out@ =~= self@.summary());
        out
    }
}

/// Copies references to the first tasks of a list behind another.
fn push_tasks<'a>(out: &mut Vec<&'a ProjectTask>, list: &Vec<&'a ProjectTask>, n: usize)
    requires
        n <= list@.len(),
    ensures
        project::task_ref_views(final(out)@) == project::task_ref_views(old(out)@)
            + project::task_ref_views(list@).take(n as int),
{
    let ghost front = project::task_ref_views(out@);
    let ghost all = project::task_ref_views(list@);
    let mut i: usize = 0;
    assert(front + all.take(0) == front);
    while i < n
        invariant
            i <= n <= list@.len(),
            all == project::task_ref_views(list@),
            project::task_ref_views(out@) == front + all.take(i as int),
        decreases n - i,
    {
        let ghost done = out@;
        let t: &'a ProjectTask = list[i];
        out.push(t);
        assert(project::task_ref_views(out@) =~= project::task_ref_views(done).push(t@));
        assert(all.take(i + 1) =~= all.take(i as int).push(t@));
        assert(front + all.take(i + 1) =~= (front + all.take(i as int)).push(t@));
        i += 1;
    }
}

/// Finds the entry whose body holds a line.
fn find_entry(n: &DailyNote, line: usize) -> (r: usize)
    ensures
        r == entry_with(n@.entries, line as int, 0),
        r <= n.entries@.len(),
{
    let mut i: usize = 0;
    while i < n.entries.len() && !(n.entries[i].body.start <= line && line < n.entries[i].body.end)
        invariant
            i <= n.entries.len(),
            entry_with(n@.entries, line as int, 0) == entry_with(
                n@.entries,
                line as int,
                i as int,
            ),
        decreases n.entries.len() - i,
    {
        assert(n@.entries[i as int] == n.entries@[i as int]@);
        i += 1;
    }
    if i < n.entries.len() {
        assert(n@.entries[i as int] == n.entries@[i as int]@);
    }
    i
}

/// How many projects are not archived.
fn count_active(projects: &Vec<Project>) -> (r: usize)
    ensures
        r == listed_projects(project::project_views(projects@), false).len(),
{
    let ghost all = project::project_views(projects@);
    let mut count: usize = 0;
    let mut i: usize = 0;
    while i < projects.len()
        invariant
            i <= projects.len(),
            all == project::project_views(projects@),
            count == listed_projects(all.take(i as int), false).len(),
            count <= i,
        decreases projects.len() - i,
    {
        assert(all.take(i + 1).drop_last() == all.take(i as int));
        assert(all[i as int] == projects@[i as int]@);
        if !projects[i].is_archived() {
            count += 1;
        }
        i += 1;
    }
    assert(all.take(i as int) == all);
    count
}

} // verus!
