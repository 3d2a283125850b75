//! How the state changes: what it is after each message, edit and event.

use vstd::prelude::*;
use vstd::view::View as _;

use crate::app::jobs::{AfterView, EventView, FinishView, JobView, ProjectSync, WaitView};
use crate::app::plan;
use crate::app::plan::{ChangeView, PairView};
use crate::app::reading;
use crate::app::state::{AppView, SPLASH_MS};
use crate::app::todos;
use crate::app::todos::PlacedView;
use crate::app::types;
use crate::app::types::{Confirm, Focus, Mode, Move, Msg, TodoSort, View};
use crate::calendar;
use crate::calendar::Moment;
use crate::config::ConfigView;
use crate::editor;
use crate::editor::{EditTarget, RequestView};
use crate::model::block;
use crate::model::note;
use crate::model::note::{NoteView, RowView, TODO_TAG};
use crate::model::project;
use crate::model::project::{ProjectView, TaskView};
use crate::model::status::TaskStatus;
use crate::model::todo;
use crate::model::todo::WantedView;
use crate::number;
use crate::text;

verus! {

/// A new state, and what is to be done outside.
pub type Step = (AppView, Option<JobView>);

// ---------------------------------------------------------------------- helpers

/// The first task from `i` on with a day and a line, or the number of tasks.
pub open spec fn same_todo(list: Seq<PlacedView>, day: Seq<char>, line: int, i: int) -> int
    decreases list.len() - i,
{
    if i >= list.len() || (list[i].1.date == day && list[i].1.line == line) {
        i
    } else {
        same_todo(list, day, line, i + 1)
    }
}

/// The first of the listed projects from `i` on with a name, or the number of them.
pub open spec fn listed_name(
    listed: Seq<int>,
    projects: Seq<ProjectView>,
    name: Seq<char>,
    i: int,
) -> int
    decreases listed.len() - i,
{
    if i >= listed.len() || projects[listed[i]].name == name {
        i
    } else {
        listed_name(listed, projects, name, i + 1)
    }
}

/// The first of the listed projects from `i` on with a directory, or the number of them.
pub open spec fn listed_dir(
    listed: Seq<int>,
    projects: Seq<ProjectView>,
    dir_name: Seq<char>,
    i: int,
) -> int
    decreases listed.len() - i,
{
    if i >= listed.len() || projects[listed[i]].dir_name == dir_name {
        i
    } else {
        listed_dir(listed, projects, dir_name, i + 1)
    }
}

/// The first task from `i` on with a title, or the number of tasks.
pub open spec fn task_titled(tasks: Seq<TaskView>, title: Seq<char>, i: int) -> int
    decreases tasks.len() - i,
{
    if i >= tasks.len() || tasks[i].title == title {
        i
    } else {
        task_titled(tasks, title, i + 1)
    }
}

/// The first text from `i` on that is equal, or the number of texts.
pub open spec fn text_at(list: Seq<Seq<char>>, s: Seq<char>, i: int) -> int
    decreases list.len() - i,
{
    if i >= list.len() || list[i] == s {
        i
    } else {
        text_at(list, s, i + 1)
    }
}

/// Names with those at the first `k` of some places put in another order.
pub open spec fn rearranged(
    names: Seq<Seq<char>>,
    places: Seq<int>,
    order: Seq<int>,
    k: int,
) -> Seq<Seq<char>>
    decreases k,
{
    if k <= 0 {
        names
    } else {
        rearranged(names, places, order, k - 1).update(places[k - 1], names[order[k - 1]])
    }
}

/// The first note from `i` on of a day, or the number of notes.
pub open spec fn note_of_day(notes: Seq<NoteView>, day: Seq<char>, i: int) -> int
    decreases notes.len() - i,
{
    if i >= notes.len() || notes[i].date == day {
        i
    } else {
        note_of_day(notes, day, i + 1)
    }
}

/// The first entry from `i` on that holds tasks, or the number of entries.
pub open spec fn todo_entry(n: NoteView, i: int) -> int
    decreases n.entries.len() - i,
{
    if i >= n.entries.len() || n.holds_todo(n.entries[i]) {
        i
    } else {
        todo_entry(n, i + 1)
    }
}

/// The place of the task list of a day.
pub open spec fn todo_place(notes: Seq<NoteView>, day: Seq<char>) -> Option<(int, int)> {
    let n = note_of_day(notes, day, 0);
    if n < notes.len() && todo_entry(notes[n], 0) < notes[n].entries.len() {
        Some((n, todo_entry(notes[n], 0)))
    } else {
        None
    }
}

/// The task on a line of a note, if there is one.
pub open spec fn task_on(items: Seq<note::TodoView>, line: int, i: int) -> int
    decreases items.len() - i,
{
    if i >= items.len() || items[i].line == line {
        i
    } else {
        task_on(items, line, i + 1)
    }
}

/// The tasks of a project with the state of those with a title changed, in listing order.
pub open spec fn with_next(tasks: Seq<TaskView>, title: Seq<char>, next: TaskStatus) -> Seq<
    PairView,
> {
    project::listed(tasks).map_values(
        |t: TaskView|
            (
                if t.title == title {
                    next
                } else {
                    t.status
                },
                t.title,
            ),
    )
}

/// The tasks of a project as they are wanted in the task list of a day: those in progress
/// are added.
pub open spec fn wanted_of(tasks: Seq<TaskView>) -> Seq<WantedView> {
    tasks.map_values(|t: TaskView| (t.status, t.title, t.status is InProgress))
}

/// The titles of tasks that are not among others.
pub open spec fn dropped_titles(tasks: Seq<TaskView>, next: Seq<PairView>) -> Seq<Seq<char>>
    decreases tasks.len(),
{
    if tasks.len() == 0 {
        Seq::empty()
    } else {
        let before = dropped_titles(tasks.drop_last(), next);
        let title = tasks.last().title;
        if plan::title_at(next, title, 0) < next.len() {
            before
        } else {
            before.push(title)
        }
    }
}

/// The projects that are not archived and have tasks in progress, with these tasks.
pub open spec fn active_groups(projects: Seq<ProjectView>) -> Seq<(Seq<char>, Seq<TaskView>)>
    decreases projects.len(),
{
    if projects.len() == 0 {
        Seq::empty()
    } else {
        let before = active_groups(projects.drop_last());
        let p = projects.last();
        let tasks = project::tasks_in(p.tasks, TaskStatus::InProgress);
        if p.archived_at_ms <= 0 && tasks.len() > 0 {
            before.push((p.name, tasks))
        } else {
            before
        }
    }
}

/// How many tasks groups have; the count stops at the largest number.
pub open spec fn group_total(groups: Seq<(Seq<char>, Seq<TaskView>)>) -> usize
    decreases groups.len(),
{
    if groups.len() == 0 {
        0
    } else {
        crate::app::jobs::sum(group_total(groups.drop_last()), groups.last().1.len() as int)
    }
}

/// The first line from `i` on that is not blank, without white space around it.
pub open spec fn first_words(lines: Seq<Seq<char>>, i: int) -> Option<Seq<char>>
    decreases lines.len() - i,
{
    if i >= lines.len() {
        None
    } else if !text::is_blank(lines[i]) {
        Some(text::trimmed(lines[i]))
    } else {
        first_words(lines, i + 1)
    }
}

/// What a task list was brought up to date with, in words.
pub open spec fn upsert_words(added: nat, updated: nat, removed: nat) -> Seq<char> {
    let a = if added > 0 {
        seq![number::decimal(added) + " 件追加"@]
    } else {
        Seq::empty()
    };
    let b = if updated > 0 {
        a.push(number::decimal(updated) + " 件更新"@)
    } else {
        a
    };
    let c = if removed > 0 {
        b.push(number::decimal(removed) + " 件削除"@)
    } else {
        b
    };
    "今日の ToDo に "@ + text::joined(c, "、"@) + "しました"@
}

/// A state after another, in words.
pub open spec fn state_words(title: Seq<char>, next: TaskStatus) -> Seq<char> {
    title + " → "@ + next.title()
}

impl AppView {
    /// The state that the screen begins with: the list of notes, and the logo over it for a
    /// while.
    pub open spec fn fresh(
        config: ConfigView,
        notes: Seq<NoteView>,
        projects: Seq<ProjectView>,
        now_ms: u64,
    ) -> AppView {
        AppView {
            config,
            notes,
            projects,
            todos: Seq::empty(),
            view: View::Notes,
            return_view: View::Notes,
            mode: Mode::Normal,
            focus: Focus::List,
            note_sel: 0,
            entry_sel: 0,
            detail_scroll: 0,
            note_task_sel: 0,
            todo_date_sel: 0,
            todo_sel: 0,
            project_sel: 0,
            task_sel: 0,
            search_sel: 0,
            query: Seq::empty(),
            hits: Seq::empty(),
            confirm: None,
            pending_edit: None,
            splash: Some(types::least(now_ms + SPLASH_MS, u64::MAX as int) as u64),
            status: None,
            show_all_notes: false,
            show_archived: false,
            todo_sort: TodoSort::Date,
            todo_open_only: false,
            help_scroll: 0,
            should_quit: false,
            viewport: 20,
            wait: WaitView::Idle,
        }.rebuilt()
    }

    /// The state with a message at the bottom.
    pub open spec fn said(self, s: Seq<char>) -> AppView {
        AppView { status: Some(s), ..self }
    }

    /// A place that lies in a list of this length where it did not.
    pub open spec fn pulled(sel: int, len: int) -> int {
        if sel >= len {
            types::less(len, 1)
        } else {
            sel
        }
    }

    // -------------------------------------------------------------- plain changes

    /// The tasks are collected again.
    pub open spec fn rebuilt(self) -> AppView {
        let s = AppView { todos: todos::all_todos(self.notes), ..self };
        AppView { todo_sel: types::clamped(self.todo_sel, s.todos_shown().len() as int), ..s }
    }

    /// The search is made again.
    pub open spec fn searched(self) -> AppView {
        AppView { search_sel: 0, hits: reading::hits_of(self.notes, self.query), ..self }
    }

    /// The places lie in their lists.
    pub open spec fn all_clamped(self) -> AppView {
        let a = AppView { note_sel: types::clamped(self.note_sel, self.notes_shown()), ..self };
        let b = AppView { entry_sel: types::clamped(a.entry_sel, a.entry_count()), ..a };
        AppView {
            todo_sel: types::clamped(b.todo_sel, b.todos_shown().len() as int),
            project_sel: types::clamped(b.project_sel, b.projects.len() as int),
            search_sel: types::clamped(b.search_sel, b.hits.len() as int),
            detail_scroll: 0,
            ..b
        }
    }

    /// Another screen. The one that the search is opened from is kept in mind.
    pub open spec fn switched(self, view: View) -> AppView {
        AppView {
            return_view: if view is Search && self.view !is Search {
                self.view
            } else {
                self.return_view
            },
            view,
            focus: Focus::List,
            mode: if view is Search {
                Mode::Search
            } else if self.mode is Search {
                Mode::Normal
            } else {
                self.mode
            },
            ..self
        }
    }

    /// The next screen in the circle, or the one before.
    pub open spec fn turned(self, delta: int) -> AppView {
        self.switched(View::at((self.view.place() + delta) % 4))
    }

    /// The parts of the screen from left to right.
    pub open spec fn lanes(self) -> Seq<Focus> {
        if self.view is Notes {
            seq![Focus::List, Focus::Entries, Focus::Detail]
        } else {
            seq![Focus::List, Focus::Detail]
        }
    }

    /// The place of the focus among the parts of the screen.
    pub open spec fn lane(self) -> int {
        if self.focus is List {
            0
        } else if self.view is Notes {
            if self.focus is Entries {
                1
            } else {
                2
            }
        } else if self.focus is Detail {
            1
        } else {
            0
        }
    }

    /// The focus one to the right; it stops at the end.
    pub open spec fn focus_right(self) -> AppView {
        AppView {
            focus: self.lanes()[types::least(self.lane() + 1, self.lanes().len() - 1)],
            ..self
        }
    }

    /// The focus one to the left; it stops at the end.
    pub open spec fn focus_left(self) -> AppView {
        AppView { focus: self.lanes()[types::less(self.lane(), 1)], ..self }
    }

    /// The focus one to the right, and from the end to the beginning.
    pub open spec fn focus_on(self) -> AppView {
        let next = self.lane() + 1;
        AppView {
            focus: self.lanes()[if next < self.lanes().len() {
                next
            } else {
                0
            }],
            ..self
        }
    }

    /// The body scrolled so that the task that is chosen is on the screen.
    pub open spec fn scrolled(self) -> AppView {
        let spots = self.spots();
        if 0 <= self.note_task_sel < spots.len() {
            let at = spots[self.note_task_sel];
            let height = if self.viewport < 1 {
                1
            } else {
                self.viewport
            };
            if at < self.detail_scroll {
                AppView { detail_scroll: at, ..self }
            } else if at >= self.detail_scroll + height {
                AppView { detail_scroll: at + 1 - height, ..self }
            } else {
                self
            }
        } else {
            self
        }
    }

    /// A place after a move in a list; 0 where the list is empty.
    pub open spec fn placed(self, sel: int, m: Move, len: int) -> int {
        if len == 0 {
            0
        } else {
            types::moved(sel, m, len - 1, self.viewport)
        }
    }

    /// A cursor moved. Which one it is depends on the screen and on the focus.
    pub open spec fn stepped(self, m: Move) -> AppView {
        if self.mode is Help {
            AppView {
                help_scroll: types::moved(self.help_scroll, m, usize::MAX - 1, 5),
                ..self
            }
        } else if self.view is Notes && self.focus is Entries {
            let len = self.entry_count();
            if len == 0 {
                AppView { entry_sel: 0, ..self }
            } else {
                AppView {
                    entry_sel: self.placed(self.entry_sel, m, len),
                    detail_scroll: 0,
                    note_task_sel: 0,
                    ..self
                }
            }
        } else if self.view is Notes && self.focus is Detail {
            let spots = self.spots();
            if spots.len() == 0 {
                AppView {
                    detail_scroll: types::moved(
                        self.detail_scroll,
                        m,
                        types::less(self.detail().len() as int, 1),
                        self.viewport,
                    ),
                    ..self
                }
            } else {
                AppView {
                    note_task_sel: self.placed(self.note_task_sel, m, spots.len() as int),
                    ..self
                }.scrolled()
            }
        } else if self.view is Projects && self.focus is Detail {
            AppView {
                task_sel: self.placed(self.task_sel, m, self.tasks_shown().len() as int),
                ..self
            }
        } else if self.view is Todo && self.focus is Detail {
            AppView {
                todo_sel: self.placed(self.todo_sel, m, self.todos_shown().len() as int),
                ..self
            }
        } else {
            match self.view {
                View::Notes => {
                    let len = self.notes_shown();
                    if len == 0 {
                        AppView { note_sel: 0, ..self }
                    } else {
                        AppView {
                            note_sel: self.placed(self.note_sel, m, len),
                            entry_sel: 0,
                            detail_scroll: 0,
                            note_task_sel: 0,
                            ..self
                        }
                    }
                },
                View::Todo => {
                    let len = self.days_shown().len() as int;
                    if len == 0 {
                        AppView { todo_date_sel: 0, ..self }
                    } else {
                        AppView {
                            todo_date_sel: self.placed(self.todo_date_sel, m, len),
                            todo_sel: 0,
                            ..self
                        }
                    }
                },
                View::Projects => {
                    let len = self.projects_shown().len() as int;
                    if len == 0 {
                        AppView { project_sel: 0, ..self }
                    } else {
                        AppView {
                            project_sel: self.placed(self.project_sel, m, len),
                            task_sel: 0,
                            ..self
                        }
                    }
                },
                View::Search => AppView {
                    search_sel: self.placed(self.search_sel, m, self.hits.len() as int),
                    ..self
                },
            }
        }
    }

    /// The day and the line of the task that is chosen.
    pub open spec fn todo_mark(self) -> Option<(Seq<char>, int)> {
        let list = self.todos_shown();
        if 0 <= self.todo_sel < list.len() {
            Some((list[self.todo_sel].1.date, list[self.todo_sel].1.line))
        } else {
            None
        }
    }

    /// The place in the task list of a task, if it is shown; else the first place.
    pub open spec fn todo_found(self, mark: Option<(Seq<char>, int)>) -> int {
        let list = self.todos_shown();
        match mark {
            Some((day, line)) => {
                let at = same_todo(list, day, line, 0);
                if at < list.len() {
                    at
                } else {
                    0
                }
            },
            None => 0,
        }
    }

    /// The task with a day and a line stays chosen, if it is still shown.
    pub open spec fn todo_kept(self, mark: Option<(Seq<char>, int)>) -> AppView {
        let days = self.days_shown();
        let at = match mark {
            Some((day, _)) => text_at(days, day, 0),
            None => days.len() as int,
        };
        let s = AppView {
            todo_date_sel: if at < days.len() {
                at
            } else {
                Self::pulled(self.todo_date_sel, days.len() as int)
            },
            ..self
        };
        AppView { todo_sel: s.todo_found(mark), ..s }
    }

    /// The task list in the next order. The task that was chosen stays chosen.
    pub open spec fn sort_cycled(self) -> AppView {
        let s = AppView { todo_sort: self.todo_sort.after(), ..self }.todo_kept(self.todo_mark());
        s.said("ToDo を"@ + s.todo_sort.name() + "に並べます"@)
    }

    /// The task list with all tasks, or with those that are not done. The task that was
    /// chosen stays chosen, if it is still shown.
    pub open spec fn filter_toggled(self) -> AppView {
        let s = AppView { todo_open_only: !self.todo_open_only, ..self }.todo_kept(
            self.todo_mark(),
        );
        let n = number::decimal(s.todos_shown().len());
        s.said(
            if s.todo_open_only {
                "未完の "@ + n + " 件だけ表示"@
            } else {
                "すべての "@ + n + " 件を表示"@
            },
        )
    }

    /// Archived projects are listed, or not.
    pub open spec fn archived_toggled(self) -> AppView {
        let a = AppView { show_archived: !self.show_archived, ..self };
        let len = a.projects_shown().len();
        let s = AppView {
            project_sel: Self::pulled(a.project_sel, len as int),
            task_sel: 0,
            ..a
        };
        s.said(
            if s.show_archived {
                "アーカイブ済みも表示（"@ + number::decimal(s.projects.len()) + " 件）"@
            } else {
                "アーカイブ済みを除外（"@ + number::decimal(len) + " 件）"@
            },
        )
    }

    /// All notes are listed, or the recent ones.
    pub open spec fn all_notes_toggled(self) -> AppView {
        let a = AppView { show_all_notes: !self.show_all_notes, ..self };
        let len = a.notes_shown();
        let s = if a.note_sel >= len {
            AppView { note_sel: types::less(len, 1), detail_scroll: 0, ..a }
        } else {
            a
        };
        s.said(
            if s.show_all_notes {
                "全 "@ + number::decimal(s.notes.len()) + " 件を表示"@
            } else {
                "直近 "@ + number::decimal(len as nat) + " 件を表示"@
            },
        )
    }

    /// The help is opened or closed, at its beginning.
    pub open spec fn help_toggled(self) -> AppView {
        AppView {
            mode: if self.mode is Help {
                Mode::Normal
            } else {
                Mode::Help
            },
            help_scroll: 0,
            ..self
        }
    }

    /// The hit that is chosen is gone to.
    pub open spec fn search_committed(self) -> AppView {
        if 0 <= self.search_sel < self.hits.len() {
            let hit = self.hits[self.search_sel];
            AppView {
                view: View::Notes,
                mode: Mode::Normal,
                focus: Focus::Detail,
                show_all_notes: self.show_all_notes || hit.note_idx >= self.notes_shown(),
                note_sel: hit.note_idx,
                entry_sel: hit.entry_idx,
                detail_scroll: 0,
                note_task_sel: 0,
                ..self
            }
        } else {
            AppView { mode: Mode::Normal, ..self }
        }
    }

    /// The search is left for the screen that it was opened from.
    pub open spec fn search_cancelled(self) -> AppView {
        AppView { mode: Mode::Normal, view: self.return_view, focus: Focus::List, ..self }
    }

    // -------------------------------------------------------------------- editing

    /// The editor is asked for.
    pub open spec fn asked(self, target: EditTarget, initial: Seq<char>) -> AppView {
        AppView { pending_edit: Some(RequestView { target, initial }), ..self }
    }

    /// The text that is edited of an entry.
    pub open spec fn edit_text(self, n: int, k: int) -> Seq<char> {
        let e = self.notes[n].entries[k];
        editor::composed(e.tags, text::joined(self.notes[n].body(e), seq!['\n']))
    }

    /// What is chosen is to be edited.
    pub open spec fn edit_started(self) -> AppView {
        if self.view is Projects {
            match self.project_at() {
                Some(i) => {
                    let list = project::checklist_text(project::listed(self.projects[i].tasks));
                    self.asked(
                        EditTarget::ProjectTasks { project_idx: i as usize },
                        if list.len() == 0 {
                            "- [ ] "@
                        } else {
                            list
                        },
                    )
                },
                None => self.said("プロジェクトがありません"@),
            }
        } else {
            match self.entry_at() {
                Some((n, k)) => self.asked(
                    EditTarget::EntryBody { note_idx: n as usize, entry_idx: k as usize },
                    self.edit_text(n, k),
                ),
                None => self.said("編集するエントリがありません"@),
            }
        }
    }

    /// A new project is to be named.
    pub open spec fn project_started(self) -> AppView {
        self.asked(EditTarget::NewProject, Seq::empty()).said(
            "プロジェクト名を 1 行で書いて保存します"@,
        )
    }

    /// A new entry is to be written, or on the screen of projects a new project.
    pub open spec fn entry_started(self) -> AppView {
        if self.view is Projects {
            self.project_started()
        } else {
            self.asked(EditTarget::NewEntry, editor::composed(Seq::empty(), Seq::empty()))
        }
    }

    /// The task list of today is to be edited; where there is none, one is made up of the
    /// tasks in progress.
    pub open spec fn today_started(self, now: Moment) -> AppView {
        match todo_place(self.notes, calendar::date_text(now.date)) {
            Some((n, k)) => self.asked(
                EditTarget::EntryBody { note_idx: n as usize, entry_idx: k as usize },
                self.edit_text(n, k),
            ).said("今日の ToDo を開きます"@),
            None => {
                let groups = active_groups(self.projects);
                let body = text::joined(todo::body_rows(now.date, groups), seq!['\n']);
                let count = group_total(groups);
                self.asked(EditTarget::NewEntry, editor::composed(seq![TODO_TAG@], body)).said(
                    if count > 0 {
                        "進行中のタスク "@ + number::decimal(count as nat) + " 件から作ります"@
                    } else {
                        "今日の ToDo を作ります"@
                    },
                )
            },
        }
    }

    /// The entry that is chosen is to be deleted, if that is confirmed.
    pub open spec fn delete_started(self) -> AppView {
        match self.entry_at() {
            Some((n, k)) => AppView {
                confirm: Some(
                    Confirm::DeleteEntry { note_idx: n as usize, entry_idx: k as usize },
                ),
                mode: Mode::Confirm,
                ..self
            },
            None => self.said("削除するエントリがありません"@),
        }
    }

    // ------------------------------------------------------------------ saving notes

    /// The state with a note changed.
    pub open spec fn with_note(self, n: int, note: NoteView) -> AppView {
        AppView { notes: self.notes.update(n, note), ..self }
    }

    /// A note that was changed is to be written. `before` is its text before the change.
    pub open spec fn persisting(
        self,
        note_idx: int,
        before: Seq<char>,
        success: Seq<char>,
        rows: Option<(Seq<RowView>, Seq<RowView>)>,
    ) -> Step {
        (
            AppView { wait: WaitView::Persist { note_idx, before, success, rows }, ..self },
            Some(JobView::SaveNote { note_idx, create: true }),
        )
    }

    /// A note is as it was before it was changed.
    pub open spec fn reverted(self, n: int, before: Seq<char>) -> AppView {
        self.with_note(n, note::note_of(self.notes[n].date, self.notes[n].path, before))
    }

    /// What was confirmed is done.
    pub open spec fn confirmed(self) -> Step {
        let s = AppView { confirm: None, mode: Mode::Normal, ..self };
        match self.confirm {
            Some(Confirm::DeleteEntry { note_idx, entry_idx }) => {
                if note_idx >= self.notes.len() {
                    (s, None)
                } else if entry_idx >= self.notes[note_idx as int].entries.len() {
                    (s.said("エントリが見つかりません"@), None)
                } else {
                    let n = note_idx as int;
                    let left = self.notes[n].without_entry(entry_idx as int);
                    AppView {
                        detail_scroll: 0,
                        note_task_sel: 0,
                        entry_sel: Self::pulled(self.entry_sel, left.entries.len() as int),
                        ..s.with_note(n, left)
                    }.persisting(n, self.notes[n].text(), "削除しました"@, None)
                }
            },
            None => (s, None),
        }
    }

    /// The note with the body and the tags that were edited.
    pub open spec fn edited_note(
        n: NoteView,
        k: int,
        tags: Seq<Seq<char>>,
        body: Seq<char>,
    ) -> NoteView {
        let m = n.with_body(k, body);
        if k < m.entries.len() && m.entries[k].tags != tags {
            m.with_tags(k, tags)
        } else {
            m
        }
    }

    /// An entry was edited.
    pub open spec fn entry_edited(self, note_idx: int, k: int, s: Seq<char>) -> Step {
        let (tags, body) = editor::decomposed(s);
        if text::is_blank(body) {
            (self.said("本文が空のままなので変更しませんでした"@), None)
        } else if note_idx >= self.notes.len() {
            (self, None)
        } else if k >= self.notes[note_idx].entries.len() {
            (self.said("エントリが見つかりません"@), None)
        } else {
            let n = self.notes[note_idx];
            let m = Self::edited_note(n, k, tags, body);
            let still = k < m.entries.len() && m.holds_todo(m.entries[k]);
            self.with_note(note_idx, m).persisting(
                note_idx,
                n.text(),
                "保存しました"@,
                if still {
                    Some((n.rows_of(k), m.rows_of(k)))
                } else {
                    None
                },
            )
        }
    }

    // ---------------------------------------------------------------- task states

    /// The state of the chosen row of the task list goes on.
    pub open spec fn todo_cycled(self) -> Step {
        if self.view is Notes {
            self.note_task_cycled()
        } else if self.view is Todo && self.focus is List {
            if self.todos_shown().len() == 0 {
                (self.said("ToDo がありません"@), None)
            } else {
                (
                    AppView { focus: Focus::Detail, ..self }.said(
                        "タスクを選んで Space で状態を進めます"@,
                    ),
                    None,
                )
            }
        } else if 0 <= self.todo_sel < self.todos_shown().len() {
            let (n, t) = self.todos_shown()[self.todo_sel];
            let next = t.status.after();
            if n >= self.notes.len() {
                (self, None)
            } else if !self.notes[n].has_checkbox(t.line) {
                (self.said("チェック欄が見つかりません"@), None)
            } else {
                (
                    AppView {
                        wait: WaitView::Row {
                            note_idx: n,
                            before: self.notes[n].text(),
                            group: t.group,
                            title: t.title,
                            next,
                        },
                        ..self.with_note(n, self.notes[n].with_status(t.line, next))
                    },
                    Some(JobView::SaveNote { note_idx: n, create: false }),
                )
            }
        } else {
            (self.said("ToDo がありません"@), None)
        }
    }

    /// The state of the chosen task of the body goes on.
    pub open spec fn note_task_cycled(self) -> Step {
        if self.focus is List {
            if self.spots().len() == 0 {
                (self.said("この日に ToDo はありません"@), None)
            } else {
                (
                    AppView { focus: Focus::Detail, ..self }.said(
                        "タスクを選んで Space で状態を進めます"@,
                    ),
                    None,
                )
            }
        } else {
            match self.task_line() {
                Some(line) => {
                    let n = self.note_sel;
                    let items = self.notes[n].tasks();
                    let at = task_on(items, line, 0);
                    if at >= items.len() {
                        (self, None)
                    } else if !self.notes[n].has_checkbox(line) {
                        (self.said("チェック欄が見つかりません"@), None)
                    } else {
                        let t = items[at];
                        let next = t.status.after();
                        (
                            AppView {
                                wait: WaitView::Row {
                                    note_idx: n,
                                    before: self.notes[n].text(),
                                    group: t.group,
                                    title: t.title,
                                    next,
                                },
                                ..self.with_note(n, self.notes[n].with_status(line, next))
                            },
                            Some(JobView::SaveNote { note_idx: n, create: false }),
                        )
                    }
                },
                None => (self.said("この日に ToDo はありません"@), None),
            }
        }
    }

    /// The state of the chosen task of a project goes on.
    pub open spec fn project_task_cycled(self, now: Moment) -> Step {
        let tasks = self.tasks_shown();
        if self.focus is List {
            if tasks.len() == 0 {
                (self.said("タスクがありません"@), None)
            } else {
                (
                    AppView { focus: Focus::Detail, ..self }.said(
                        "タスクを選んで Space で状態を進めます"@,
                    ),
                    None,
                )
            }
        } else {
            match self.project_at() {
                Some(i) => {
                    let p = self.projects[i];
                    if 0 <= self.task_sel < tasks.len() {
                        let title = tasks[self.task_sel].title;
                        let next = tasks[self.task_sel].status.after();
                        (
                            AppView {
                                wait: WaitView::Cycle { title, next, name: p.name },
                                ..self
                            },
                            Some(
                                JobView::SaveTasks {
                                    project_idx: i,
                                    tasks: with_next(p.tasks, title, next),
                                    now_ms: now.ms,
                                },
                            ),
                        )
                    } else {
                        (self.said("タスクがありません"@), None)
                    }
                },
                None => (self.said("プロジェクトがありません"@), None),
            }
        }
    }

    // -------------------------------------------------------------------- projects

    /// The chosen project goes down or up the list. Projects that are not listed stay where
    /// they are.
    pub open spec fn project_moved(self, delta: int) -> Step {
        let shown = self.projects_shown();
        let at = self.project_sel;
        let to = at + delta;
        if shown.len() < 2 || to < 0 || to >= shown.len() || at >= shown.len() {
            (self, None)
        } else {
            let names = self.projects.map_values(|p: ProjectView| p.dir_name);
            let moved = shown.remove(at).insert(to, shown[at]);
            (
                AppView { wait: WaitView::Order { to, down: delta > 0 }, ..self },
                Some(
                    JobView::SaveOrder {
                        order: rearranged(names, shown, moved, shown.len() as int),
                    },
                ),
            )
        }
    }

    /// The chosen project is to be archived, or taken back from there.
    pub open spec fn archive_toggled(self, now: Moment) -> Step {
        if self.view !is Projects {
            (self.said("プロジェクトビューで切り替えます"@), None)
        } else {
            match self.project_at() {
                Some(i) => {
                    let p = self.projects[i];
                    let archived = p.archived_at_ms > 0;
                    (
                        AppView { wait: WaitView::Archive { name: p.name, archived }, ..self },
                        Some(
                            JobView::SetArchived {
                                project_idx: i,
                                archived_at_ms: if archived {
                                    0
                                } else {
                                    now.ms
                                },
                                now_ms: now.ms,
                            },
                        ),
                    )
                },
                None => (self.said("プロジェクトがありません"@), None),
            }
        }
    }

    /// The task list is to be copied.
    pub open spec fn copying(self) -> Step {
        if self.view !is Todo {
            (self.said("ToDo ビュー（2）でコピーできます"@), None)
        } else {
            match self.markdown() {
                Some(t) => (
                    AppView {
                        wait: WaitView::Copy { count: text::lines_of(t).len() as int },
                        ..self
                    },
                    Some(JobView::Copy { text: t }),
                ),
                None => (self.said("コピーする ToDo がありません"@), None),
            }
        }
    }

    /// A new project was named.
    pub open spec fn project_named(self, s: Seq<char>, now: Moment) -> Step {
        match first_words(text::lines_of(s), 0) {
            Some(name) => (
                AppView { wait: WaitView::Create { name }, ..self },
                Some(JobView::CreateProject { name, now_ms: now.ms }),
            ),
            None => (self.said("名前が空なので作成しませんでした"@), None),
        }
    }

    /// The tasks of a project were edited.
    pub open spec fn tasks_edited(self, idx: int, s: Seq<char>, now: Moment) -> Step {
        let next = project::checklist_rows(text::lines_of(s));
        if idx >= self.projects.len() {
            (self, None)
        } else if next.len() == 0 {
            (
                self.said(
                    if self.projects[idx].tasks.len() > 0 {
                        "タスクが空になったので変更しませんでした"@
                    } else {
                        "タスクとして読み取れる行がありませんでした"@
                    },
                ),
                None,
            )
        } else {
            let p = self.projects[idx];
            (
                AppView {
                    wait: WaitView::Tasks {
                        name: p.name,
                        removed: dropped_titles(p.tasks, next),
                        count: next.len() as int,
                    },
                    ..self
                },
                Some(JobView::SaveTasks { project_idx: idx, tasks: next, now_ms: now.ms }),
            )
        }
    }

    // ---------------------------------------------------------------------- messages

    /// The state after a message, and what is to be done outside.
    pub open spec fn told(self, msg: Msg, now: Moment) -> Step {
        let s = AppView { status: None, ..self };
        match msg {
            Msg::Quit => (AppView { should_quit: true, ..s }, None),
            Msg::DismissStatus => (s, None),
            Msg::ToggleHelp => (s.help_toggled(), None),
            Msg::SwitchView(view) => (s.switched(view), None),
            Msg::NextView => (s.turned(1), None),
            Msg::PrevView => (s.turned(-1), None),
            Msg::FocusRight => (s.focus_right(), None),
            Msg::FocusLeft => (s.focus_left(), None),
            Msg::FocusCycle => (s.focus_on(), None),
            Msg::ToggleFocus => (s.focus_on(), None),
            Msg::Move(m) => (s.stepped(m), None),
            Msg::CycleTodo => if s.view is Projects {
                s.project_task_cycled(now)
            } else {
                s.todo_cycled()
            },
            Msg::Reload => (AppView { wait: WaitView::Reload, ..s }, Some(JobView::LoadAll)),
            Msg::CycleTodoSort => (s.sort_cycled(), None),
            Msg::ToggleTodoFilter => (s.filter_toggled(), None),
            Msg::ToggleArchived => (s.archived_toggled(), None),
            Msg::ToggleAllNotes => (s.all_notes_toggled(), None),
            Msg::SearchStart => (s.switched(View::Search), None),
            Msg::SearchInput(c) => (AppView { query: s.query.push(c), ..s }.searched(), None),
            Msg::SearchBackspace => (
                AppView {
                    query: if s.query.len() > 0 {
                        s.query.drop_last()
                    } else {
                        s.query
                    },
                    ..s
                }.searched(),
                None,
            ),
            Msg::SearchClear => (AppView { query: Seq::empty(), ..s }.searched(), None),
            Msg::SearchCommit => (s.search_committed(), None),
            Msg::SearchCancel => (s.search_cancelled(), None),
            Msg::EditEntry => (s.edit_started(), None),
            Msg::NewEntry => (s.entry_started(), None),
            Msg::TodayTodo => (s.today_started(now), None),
            Msg::MoveProject(delta) => s.project_moved(delta as int),
            Msg::ToggleArchiveProject => s.archive_toggled(now),
            Msg::CopyTodo => s.copying(),
            Msg::NewProject => (s.project_started(), None),
            Msg::DeleteEntry => (s.delete_started(), None),
            Msg::ConfirmYes => s.confirmed(),
            Msg::ConfirmNo => (AppView { confirm: None, mode: Mode::Normal, ..s }, None),
        }
    }

    /// A new entry is to be made.
    pub open spec fn entry_made(
        self,
        tags: Seq<Seq<char>>,
        body: Seq<char>,
        now: Moment,
        id: Seq<char>,
    ) -> Step {
        let date = calendar::date_text(now.date);
        (
            AppView {
                wait: WaitView::Open {
                    date,
                    block: block::block_text(
                        id,
                        calendar::stamp_text(now),
                        now.ms as int,
                        tags,
                        body,
                    ),
                },
                ..self
            },
            Some(JobView::OpenNote { date }),
        )
    }

    /// The state after the editor was closed, and what is to be done outside. Nothing came
    /// back where the text did not change.
    pub open spec fn edited(
        self,
        target: EditTarget,
        result: Option<Seq<char>>,
        now: Moment,
        id: Seq<char>,
    ) -> Step {
        match result {
            None => (self.said("変更はありません"@), None),
            Some(s) => match target {
                EditTarget::EntryBody { note_idx, entry_idx } => self.entry_edited(
                    note_idx as int,
                    entry_idx as int,
                    s,
                ),
                EditTarget::NewProject => self.project_named(s, now),
                EditTarget::ProjectTasks { project_idx } => self.tasks_edited(
                    project_idx as int,
                    s,
                    now,
                ),
                EditTarget::NewEntry => {
                    let (tags, body) = editor::decomposed(s);
                    if text::is_blank(body) {
                        (self.said("本文が空なので作成しませんでした"@), None)
                    } else {
                        self.entry_made(tags, body, now, id)
                    }
                },
            },
        }
    }

    // ------------------------------------------------------------------------ events

    /// What was written because of a task list is told.
    pub open spec fn ended(self, sync: ProjectSync, finish: FinishView) -> AppView {
        match finish {
            FinishView::EntryBody => match sync.words() {
                Some(words) => self.said("保存しました（"@ + words + "）"@),
                None => self,
            },
            FinishView::RowState { title, next, group } => if sync.projects > 0 {
                self.said(state_words(title, next) + "（"@ + group + " にも反映）"@)
            } else {
                self
            },
        }
    }

    /// The projects follow the rows of a task list.
    pub open spec fn syncing(
        self,
        before: Seq<RowView>,
        after: Seq<RowView>,
        allow: bool,
        finish: FinishView,
        now: Moment,
    ) -> Step {
        let changes = plan::changes(self.projects, before, after, allow);
        if changes.len() == 0 {
            (self.ended(ProjectSync::none(), finish), None)
        } else {
            (
                AppView {
                    wait: WaitView::Changes { changes, at: 0, sync: ProjectSync::none(), finish },
                    ..self
                },
                Some(Self::saving(changes[0], now)),
            )
        }
    }

    /// A change is to be written.
    pub open spec fn saving(c: ChangeView, now: Moment) -> JobView {
        JobView::SaveTasks { project_idx: c.project_idx, tasks: c.tasks, now_ms: now.ms }
    }

    /// One change was written, or not; the next one follows.
    pub open spec fn change_saved(
        self,
        changes: Seq<ChangeView>,
        at: int,
        sync: ProjectSync,
        finish: FinishView,
        error: Option<Seq<char>>,
        now: Moment,
    ) -> Step {
        let s = match error {
            Some(e) => self.said("プロジェクトに反映できません: "@ + e),
            None => self,
        };
        let sum = match error {
            Some(_) => sync,
            None => sync.with(changes[at]),
        };
        if at + 1 < changes.len() {
            (
                AppView {
                    wait: WaitView::Changes { changes, at: at + 1, sync: sum, finish },
                    ..s
                },
                Some(Self::saving(changes[at + 1], now)),
            )
        } else if sum.projects > 0 {
            s.reloading(AfterView::Synced { sync: sum, finish })
        } else {
            (s.ended(sum, finish), None)
        }
    }

    /// The projects are to be read again.
    pub open spec fn reloading(self, after: AfterView) -> Step {
        (AppView { wait: WaitView::Projects(after), ..self }, Some(JobView::LoadProjects))
    }

    /// The projects were read again, or not. The chosen project stays chosen by its name.
    pub open spec fn projects_read(self, r: Result<Seq<ProjectView>, Seq<char>>) -> AppView {
        match r {
            Ok(projects) => {
                let a = AppView { projects, ..self };
                let shown = a.projects_shown();
                let found = match self.project() {
                    Some(p) => listed_name(shown, projects, p.name, 0),
                    None => shown.len() as int,
                };
                let sel = if found < shown.len() {
                    found
                } else {
                    a.project_sel
                };
                let b = AppView { project_sel: Self::pulled(sel, shown.len() as int), ..a };
                AppView { task_sel: Self::pulled(b.task_sel, b.tasks_shown().len() as int), ..b }
            },
            Err(e) => self.said("読み直しに失敗しました: "@ + e),
        }
    }

    /// The tasks of a project are brought into the task list of today.
    pub open spec fn today_synced(
        self,
        name: Seq<char>,
        removed: Seq<Seq<char>>,
        now: Moment,
    ) -> Step {
        let at = plan::named_at(self.projects, name, 0);
        if at >= self.projects.len() {
            (self, None)
        } else {
            let wanted = wanted_of(self.projects[at].tasks);
            if wanted.len() == 0 && removed.len() == 0 {
                (self, None)
            } else {
                match todo_place(self.notes, calendar::date_text(now.date)) {
                    None => if exists|i: int| 0 <= i < wanted.len() && (#[trigger] wanted[i]).2 {
                        (
                            self.said(
                                "タスクを保存しました（今日の ToDo がまだ無いので反映していません。t で作れます）"@,
                            ),
                            None,
                        )
                    } else {
                        (self, None)
                    },
                    Some((n, k)) => {
                        let m = self.notes[n];
                        let u = todo::upserted(m.body(m.entries[k]), name, wanted, removed);
                        if u.added == 0 && u.updated == 0 && u.removed == 0 {
                            (self, None)
                        } else {
                            self.with_note(
                                n,
                                m.with_body(k, text::joined(u.lines, seq!['\n'])),
                            ).persisting(
                                n,
                                m.text(),
                                upsert_words(u.added, u.updated, u.removed),
                                None,
                            )
                        }
                    },
                }
            }
        }
    }

    /// What follows once the projects were read again.
    pub open spec fn after_reload(self, after: AfterView, now: Moment) -> Step {
        match after {
            AfterView::Order { to, down } => {
                let s = AppView { project_sel: to, ..self };
                (
                    s.said(
                        (match s.project() {
                            Some(p) => p.name,
                            None => Seq::empty(),
                        }) + " を "@ + (if down {
                            "下"@
                        } else {
                            "上"@
                        }) + " へ"@,
                    ),
                    None,
                )
            },
            AfterView::Archived { name, archived } => (
                AppView {
                    project_sel: Self::pulled(
                        self.project_sel,
                        self.projects_shown().len() as int,
                    ),
                    task_sel: 0,
                    ..self
                }.said(
                    if archived {
                        name + " をアーカイブから戻しました"@
                    } else {
                        name + " をアーカイブしました（A で表示）"@
                    },
                ),
                None,
            ),
            AfterView::Created { name, dir_name } => {
                let s = AppView { view: View::Projects, focus: Focus::List, ..self };
                let shown = s.projects_shown();
                let at = listed_dir(shown, s.projects, dir_name, 0);
                let t = if at < shown.len() {
                    AppView { project_sel: at, task_sel: 0, ..s }
                } else {
                    s
                };
                (t.said(name + " を作成しました（e でタスクを足せます）"@), None)
            },
            AfterView::Tasks { name, removed, count } => self.said(
                "タスクを保存しました（"@ + number::decimal(count as nat) + " 件）"@,
            ).today_synced(name, removed, now),
            AfterView::Cycled { title, next, name } => {
                let tasks = self.tasks_shown();
                let at = task_titled(tasks, title, 0);
                let s = if at < tasks.len() {
                    AppView { task_sel: at, ..self }
                } else {
                    self
                };
                s.said(state_words(title, next)).today_synced(name, Seq::empty(), now)
            },
            AfterView::Synced { sync, finish } => (self.ended(sync, finish), None),
        }
    }

    /// All was read again, or not.
    pub open spec fn all_read(
        self,
        r: Result<(Seq<NoteView>, Seq<ProjectView>), Seq<char>>,
    ) -> AppView {
        match r {
            Ok((notes, projects)) => AppView {
                notes,
                projects,
                ..self
            }.all_clamped().rebuilt().searched().said(
                "再読み込みしました（"@ + number::decimal(notes.len()) + " 件）"@,
            ),
            Err(e) => self.said("再読み込みに失敗しました: "@ + e),
        }
    }

    /// The entry that was made is shown.
    pub open spec fn entry_shown(self, date: Seq<char>) -> AppView {
        let at = note_of_day(self.notes, date, 0);
        let a = AppView {
            view: View::Notes,
            focus: Focus::Detail,
            note_sel: if at < self.notes.len() {
                at
            } else {
                0
            },
            ..self
        };
        let b = AppView {
            show_all_notes: a.show_all_notes || a.note_sel >= a.notes_shown(),
            ..a
        };
        AppView {
            entry_sel: types::less(b.entry_count(), 1),
            detail_scroll: 0,
            note_task_sel: 0,
            ..b
        }.said("エントリを追加しました"@)
    }

    /// A row of the task list was written, or not.
    pub open spec fn row_saved(
        self,
        group: Seq<char>,
        title: Seq<char>,
        next: TaskStatus,
        now: Moment,
    ) -> Step {
        let rows = seq![(group, title, next)];
        self.rebuilt().said(state_words(title, next)).syncing(
            rows,
            rows,
            false,
            FinishView::RowState { title, next, group },
            now,
        )
    }

    /// The state after what was waited for came, and what is to be done next.
    pub open spec fn resumed(self, e: EventView, now: Moment) -> Step {
        let s = AppView { wait: WaitView::Idle, ..self };
        match (self.wait, e) {
            (WaitView::Persist { note_idx, before, success, rows }, EventView::Saved(r)) =>
            match r {
                None => {
                    let t = s.rebuilt().searched().said(success);
                    match rows {
                        Some((a, b)) => t.syncing(a, b, true, FinishView::EntryBody, now),
                        None => (t, None),
                    }
                },
                Some(err) => (
                    s.reverted(note_idx, before).rebuilt().said("保存に失敗しました: "@ + err),
                    None,
                ),
            },
            (WaitView::Row { note_idx, before, group, title, next }, EventView::Saved(r)) =>
            match r {
                None => s.row_saved(group, title, next, now),
                Some(err) => (
                    s.reverted(note_idx, before).said("保存に失敗しました: "@ + err),
                    None,
                ),
            },
            (WaitView::Changes { changes, at, sync, finish }, EventView::Saved(r)) =>
            s.change_saved(changes, at, sync, finish, r, now),
            (WaitView::Order { to, down }, EventView::Saved(r)) => match r {
                None => s.reloading(AfterView::Order { to, down }),
                Some(err) => (s.said("並びを保存できません: "@ + err), None),
            },
            (WaitView::Archive { name, archived }, EventView::Saved(r)) => match r {
                None => s.reloading(AfterView::Archived { name, archived }),
                Some(err) => (s.said("保存に失敗しました: "@ + err), None),
            },
            (WaitView::Tasks { name, removed, count }, EventView::Saved(r)) => match r {
                None => s.reloading(AfterView::Tasks { name, removed, count }),
                Some(err) => (s.said("保存に失敗しました: "@ + err), None),
            },
            (WaitView::Cycle { title, next, name }, EventView::Saved(r)) => match r {
                None => s.reloading(AfterView::Cycled { title, next, name }),
                Some(err) => (s.said("保存に失敗しました: "@ + err), None),
            },
            (WaitView::Create { name }, EventView::Created(r)) => match r {
                Ok(dir_name) => s.reloading(AfterView::Created { name, dir_name }),
                Err(err) => (s.said("作成に失敗しました: "@ + err), None),
            },
            (WaitView::Projects(after), EventView::Projects(r)) => s.projects_read(
                r,
            ).after_reload(after, now),
            (WaitView::Open { date, block }, EventView::Opened(r)) => match r {
                Ok(n) => (
                    AppView { wait: WaitView::SaveEntry { date }, ..self },
                    Some(JobView::SaveOpened { note: n.with_block(block) }),
                ),
                Err(err) => (s.said("ノートを開けません: "@ + err), None),
            },
            (WaitView::SaveEntry { date }, EventView::Saved(r)) => match r {
                None => (
                    AppView { wait: WaitView::EntryReload { date }, ..self },
                    Some(JobView::LoadAll),
                ),
                Some(err) => (s.said("保存に失敗しました: "@ + err), None),
            },
            (WaitView::EntryReload { date }, EventView::All(r)) => (
                s.all_read(r).entry_shown(date),
                None,
            ),
            (WaitView::Reload, EventView::All(r)) => (s.all_read(r), None),
            (WaitView::Copy { count }, EventView::Copied(r)) => match r {
                Ok(command) => (
                    s.said(
                        "ToDo を Markdown でコピーしました（"@ + number::decimal(count as nat)
                            + " 行 / "@ + command + "）"@,
                    ),
                    None,
                ),
                Err(err) => (s.said("コピーできません: "@ + err), None),
            },
            _ => (self, None),
        }
    }
}

} // verus!
