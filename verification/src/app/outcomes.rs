//! What is written and shown when tasks, entries and projects change.

use vstd::prelude::*;

use crate::app::following;
use crate::app::jobs::{AfterView, EventView, JobView, WaitView};
use crate::app::plan;
use crate::app::plan::PairView;
use crate::app::state::AppView;
use crate::app::steps;
use crate::app::types::{Confirm, Msg};
use crate::calendar;
use crate::calendar::Moment;
use crate::editor;
use crate::editor::EditTarget;
use crate::model::block;
use crate::model::line;
use crate::model::note::{NoteView, RowView};
use crate::model::parsed;
use crate::model::project;
use crate::model::project::{ProjectView, TaskView};
use crate::model::status::TaskStatus;
use crate::model::todo;
use crate::text;

verus! {

// --------------------------------------------------------------------- task states

/// Whether a state follows another: what is not started is begun, what is begun is done, and
/// what is done is not started again.
pub open spec fn follows(next: TaskStatus, status: TaskStatus) -> bool {
    match status {
        TaskStatus::Backlog => next is InProgress,
        TaskStatus::InProgress => next is Done,
        TaskStatus::Done => next is Backlog,
    }
}

/// Whether a line of a note exists and has a mark.
pub open spec fn has_mark(n: NoteView, line: int) -> bool {
    0 <= line < n.lines.len() && exists|p: int| #[trigger] parsed::is_mark(n.lines[line], p)
}

/// Whether notes are others with the state of one line of note `n` set, and nothing else.
pub open spec fn is_line_set(
    new: Seq<NoteView>,
    notes: Seq<NoteView>,
    n: int,
    line: int,
    status: TaskStatus,
) -> bool {
    &&& new.len() == notes.len()
    &&& forall|i: int| 0 <= i < notes.len() && i != n ==> #[trigger] new[i] == notes[i]
    &&& new[n].date == notes[n].date && new[n].path == notes[n].path && new[n].entries
        == notes[n].entries
    &&& new[n].lines.len() == notes[n].lines.len()
    &&& forall|i: int|
        0 <= i < notes[n].lines.len() && i != line ==> #[trigger] new[n].lines[i]
            == notes[n].lines[i]
    &&& new[n].lines[line] == line::with_mark(notes[n].lines[line], status)
}

proof fn lemma_has_mark(n: NoteView, line: int)
    ensures
        n.has_checkbox(line) == has_mark(n, line),
{
    if 0 <= line < n.lines.len() {
        let l = n.lines[line];
        line::lemma_checkbox_from(l, 0);
        match line::checkbox_from(l, 0) {
            Some(i) => {
                assert(parsed::is_mark(l, i + 1));
            },
            None => {
                assert forall|p: int| !(#[trigger] parsed::is_mark(l, p)) by {
                    if p > 0 {
                        assert(!line::checkbox_at(l, p - 1));
                    }
                }
            },
        }
    }
}

/// In the task list the chosen task goes one state on: its line gets the mark of the next state,
/// every other line and note stays, and the note is to be written. A task whose line has no mark
/// stays as it is.
pub proof fn law_chosen_task_goes_on(s: AppView, now: Moment)
    requires
        s.view is Todo,
        s.focus !is List,
        0 <= s.todo_sel < s.todos_shown().len(),
        0 <= s.todos_shown()[s.todo_sel].0 < s.notes.len(),
    ensures
        ({
            let (n, t) = s.todos_shown()[s.todo_sel];
            let step = s.told(Msg::CycleTodo, now);
            if has_mark(s.notes[n], t.line) {
                &&& step.1 == Some(JobView::SaveNote { note_idx: n, create: false })
                &&& step.0.wait is Row
                &&& follows(step.0.wait->Row_next, t.status)
                &&& is_line_set(step.0.notes, s.notes, n, t.line, step.0.wait->Row_next)
                &&& step.0.wait->Row_note_idx == n
                &&& step.0.wait->Row_before == s.notes[n].text()
                &&& step.0.wait->Row_group == t.group && step.0.wait->Row_title == t.title
                &&& step.0.projects == s.projects
            } else {
                step.1 is None && step.0.notes == s.notes && step.0.wait == s.wait
            }
        }),
{
    let a = AppView { status: None, ..s };
    assert(a.todos_shown() == s.todos_shown());
    let (n, t) = s.todos_shown()[s.todo_sel];
    lemma_has_mark(s.notes[n], t.line);
}

/// In the body of an entry the chosen task goes one state on, in the same way.
pub proof fn law_chosen_line_goes_on(s: AppView, now: Moment, at: int)
    requires
        s.view is Notes,
        s.focus !is List,
        s.task_line() is Some,
        0 <= at < s.notes[s.note_sel].tasks().len(),
        s.notes[s.note_sel].tasks()[at].line == s.task_line()->0,
        forall|j: int|
            0 <= j < at ==> (#[trigger] s.notes[s.note_sel].tasks()[j]).line != s.task_line()->0,
    ensures
        ({
            let n = s.note_sel;
            let t = s.notes[n].tasks()[at];
            let step = s.told(Msg::CycleTodo, now);
            if has_mark(s.notes[n], t.line) {
                &&& step.1 == Some(JobView::SaveNote { note_idx: n, create: false })
                &&& step.0.wait is Row
                &&& follows(step.0.wait->Row_next, t.status)
                &&& is_line_set(step.0.notes, s.notes, n, t.line, step.0.wait->Row_next)
                &&& step.0.wait->Row_group == t.group && step.0.wait->Row_title == t.title
            } else {
                step.1 is None && step.0.notes == s.notes && step.0.wait == s.wait
            }
        }),
{
    let n = s.note_sel;
    let a = AppView { status: None, ..s };
    assert(a.detail() == s.detail());
    assert(a.task_line() == s.task_line());
    assert(0 <= n < s.notes.len());
    let items = s.notes[n].tasks();
    lemma_task_on(items, s.task_line()->0, 0, at);
    lemma_has_mark(s.notes[n], items[at].line);
}

proof fn lemma_task_on(items: Seq<crate::model::note::TodoView>, line: int, i: int, at: int)
    requires
        0 <= i <= at < items.len(),
        items[at].line == line,
        forall|j: int| 0 <= j < at ==> (#[trigger] items[j]).line != line,
    ensures
        steps::task_on(items, line, i) == at,
    decreases at - i,
{
    if i < at {
        assert(items[i].line != line);
        lemma_task_on(items, line, i + 1, at);
    }
}

/// The chosen task of a project goes one state on: all tasks of the project are to be written as
/// they are listed, those with the title of the chosen one with the next state, the others with
/// the state that they have.
pub proof fn law_chosen_project_task_goes_on(s: AppView, now: Moment)
    requires
        s.view is Projects,
        s.focus !is List,
        s.project_at() is Some,
        0 <= s.task_sel < s.tasks_shown().len(),
    ensures
        ({
            let i = s.project_at()->0;
            let t = s.tasks_shown()[s.task_sel];
            let list = project::listed(s.projects[i].tasks);
            let step = s.told(Msg::CycleTodo, now);
            &&& step.1 is Some && step.1->0 is SaveTasks
            &&& step.1->0->SaveTasks_project_idx == i
            &&& step.1->0->SaveTasks_now_ms == now.ms
            &&& step.0.wait is Cycle && follows(step.0.wait->Cycle_next, t.status)
            &&& step.0.wait->Cycle_title == t.title
            &&& step.0.wait->Cycle_name == s.projects[i].name
            &&& step.1->0->SaveTasks_tasks.len() == list.len()
            &&& forall|k: int|
                0 <= k < list.len() ==> #[trigger] step.1->0->SaveTasks_tasks[k] == (
                    if list[k].title == t.title {
                        step.0.wait->Cycle_next
                    } else {
                        list[k].status
                    },
                    list[k].title,
                )
            &&& step.0.notes == s.notes && step.0.projects == s.projects
        }),
{
    let a = AppView { status: None, ..s };
    assert(a.project_at() == s.project_at());
    assert(a.tasks_shown() == s.tasks_shown());
}

/// The projects of a list with a name.
pub open spec fn is_first_named(projects: Seq<ProjectView>, idx: int, name: Seq<char>) -> bool {
    &&& 0 <= idx < projects.len()
    &&& projects[idx].name == name
    &&& forall|j: int| 0 <= j < idx ==> (#[trigger] projects[j]).name != name
}

/// Whether tasks are those of a project with the state of those with a title set.
pub open spec fn is_state_set(
    next: Seq<PairView>,
    tasks: Seq<TaskView>,
    title: Seq<char>,
    status: TaskStatus,
) -> bool {
    next.len() == tasks.len() && forall|i: int|
        0 <= i < next.len() ==> #[trigger] next[i] == (
            if tasks[i].title == title {
                status
            } else {
                tasks[i].status
            },
            tasks[i].title,
        )
}

/// When a row of the task list was written, its state goes over to the project that it names:
/// where a task of the project has its title and another state, all tasks of the project are to
/// be written with the state of those with the title set. Else nothing is.
pub proof fn law_row_state_reaches_its_project(s: AppView, now: Moment, idx: int)
    requires
        s.wait is Row,
        s.wait->Row_group.len() > 0,
        is_first_named(s.projects, idx, s.wait->Row_group),
    ensures
        ({
            let step = s.resumed(EventView::Saved(None), now);
            let tasks = s.projects[idx].tasks;
            let title = s.wait->Row_title;
            let next = s.wait->Row_next;
            if exists|i: int|
                0 <= i < tasks.len() && (#[trigger] tasks[i]).title == title && tasks[i].status
                    != next {
                &&& step.1 is Some && step.1->0 is SaveTasks
                &&& step.1->0->SaveTasks_project_idx == idx
                &&& step.1->0->SaveTasks_now_ms == now.ms
                &&& is_state_set(step.1->0->SaveTasks_tasks, tasks, title, next)
            } else {
                step.1 is None && step.0.wait is Idle
            }
        }),
{
    let group = s.wait->Row_group;
    let title = s.wait->Row_title;
    let next = s.wait->Row_next;
    let p = s.projects[idx];
    let rows: Seq<RowView> = seq![(group, title, next)];
    assert(rows[0].0 == group);
    assert(following::is_named(rows, group));
    let all = plan::changes(s.projects, rows, rows, false);
    following::law_tasks_follow_their_rows(s.projects, rows, rows, false, idx);
    let (kept, new) = choose|kept: Seq<PairView>, new: Seq<PairView>|
        {
            &&& #[trigger] following::are_staying(
                kept,
                s.projects[idx].tasks,
                rows,
                rows,
                s.projects[idx].name,
                false,
            )
            &&& #[trigger] following::are_joining(new, kept, rows, s.projects[idx].name, false)
            &&& if following::are_same(kept + new, p.tasks) {
                forall|y: int| 0 <= y < all.len() ==> (#[trigger] all[y]).project_idx != idx
            } else {
                exists|x: int|
                    {
                        &&& 0 <= x < all.len()
                        &&& (#[trigger] all[x]).project_idx == idx
                        &&& all[x].tasks == kept + new
                        &&& all[x].added == new.len()
                        &&& following::is_gone_count(all[x].removed, rows, rows, p.name, false)
                        &&& forall|y: int|
                            0 <= y < all.len() && (#[trigger] all[y]).project_idx == idx ==> y == x
                    }
            }
        };
    lemma_state_only(kept, new, p.tasks, rows, group, title, next);
    plan::law_changes_in_range(s.projects, rows, rows, false);
    assert forall|y: int| 0 <= y < all.len() implies (#[trigger] all[y]).project_idx == idx by {
        let j = all[y].project_idx;
        if j != idx {
            if s.projects[j].name == group {
                assert(idx < j) by {
                    if j < idx {
                        assert(s.projects[j].name != group);
                    }
                }
                assert(s.projects[idx].name == s.projects[j].name);
            } else {
                assert(!following::is_named(rows, s.projects[j].name)) by {
                    if following::is_named(rows, s.projects[j].name) {
                        let r = choose|r: int|
                            0 <= r < rows.len() && (#[trigger] rows[r]).0 == s.projects[j].name;
                        assert(r == 0);
                    }
                }
            }
            following::law_other_projects_are_left_alone(s.projects, rows, rows, false, j);
            assert(false);
        }
    }
    let t = AppView { wait: WaitView::Idle, ..s }.rebuilt().said(steps::state_words(title, next));
    assert(t.projects == s.projects);
    if following::are_same(kept + new, p.tasks) {
        if all.len() > 0 {
            assert(all[0].project_idx != idx);
        }
    } else {
        let x = choose|x: int|
            {
                &&& 0 <= x < all.len()
                &&& (#[trigger] all[x]).project_idx == idx
                &&& all[x].tasks == kept + new
                &&& all[x].added == new.len()
                &&& following::is_gone_count(all[x].removed, rows, rows, p.name, false)
                &&& forall|y: int|
                    0 <= y < all.len() && (#[trigger] all[y]).project_idx == idx ==> y == x
            };
        assert(all[0].project_idx == idx);
        assert(x == 0);
    }
}

/// Where no row may come or go, the tasks that follow one row are all tasks of the project, with
/// the state of those with its title set.
proof fn lemma_state_only(
    kept: Seq<PairView>,
    new: Seq<PairView>,
    tasks: Seq<TaskView>,
    rows: Seq<RowView>,
    group: Seq<char>,
    title: Seq<char>,
    next: TaskStatus,
)
    requires
        rows == seq![(group, title, next)],
        following::are_staying(kept, tasks, rows, rows, group, false),
        following::are_joining(new, kept, rows, group, false),
    ensures
        is_state_set(kept + new, tasks, title, next),
        following::are_same(kept + new, tasks) == !(exists|i: int|
            0 <= i < tasks.len() && (#[trigger] tasks[i]).title == title && tasks[i].status
                != next),
{
    let none = choose|at: Seq<int>|
        {
            &&& #[trigger] crate::pick::rising(at, rows.len() as int)
            &&& forall|r: int|
                0 <= r < rows.len() ==> #[trigger] at.contains(r) == (false
                    && following::is_first_row(rows, r, group, rows[r].1) && forall|k: int|
                    0 <= k < kept.len() ==> (#[trigger] kept[k]).1 != rows[r].1)
            &&& new.len() == at.len()
        };
    if none.len() > 0 {
        assert(none.contains(none[0]));
    }
    assert(kept + new =~= kept);
    let at = choose|at: Seq<int>|
        {
            &&& #[trigger] crate::pick::rising(at, tasks.len() as int)
            &&& forall|i: int|
                0 <= i < tasks.len() ==> #[trigger] at.contains(i) == !(false && following::went(
                    rows,
                    rows,
                    group,
                    tasks[i].title,
                ))
            &&& kept.len() == at.len()
            &&& forall|k: int|
                0 <= k < kept.len() ==> (#[trigger] kept[k]).1 == tasks[at[k]].title
                    && following::is_state_of(kept[k].0, tasks[at[k]], rows, group)
        };
    let all = Seq::new(tasks.len(), |i: int| i);
    assert forall|k: int| 0 <= k < tasks.len() implies at.contains(k) == #[trigger] all.contains(
        k,
    ) by {
        assert(all[k] == k);
    }
    crate::pick::lemma_rising_unique(at, all, tasks.len() as int);
    assert forall|i: int| 0 <= i < kept.len() implies #[trigger] kept[i] == (
        if tasks[i].title == title {
            next
        } else {
            tasks[i].status
        },
        tasks[i].title,
    ) by {
        assert(at[i] == i);
        assert(following::is_state_of(kept[i].0, tasks[i], rows, group));
        assert(rows[0] == (group, title, next));
        if tasks[i].title == title {
            assert(!following::is_no_row(rows, group, title));
            let r = choose|r: int| #[trigger]
                following::is_first_row(rows, r, group, tasks[i].title) && kept[i].0 == rows[r].2;
            assert(r == 0);
        } else {
            assert forall|r: int| !(#[trigger] following::is_first_row(
                rows,
                r,
                group,
                tasks[i].title,
            )) by {
                if following::is_first_row(rows, r, group, tasks[i].title) {
                    assert(r == 0);
                }
            }
        }
    }
    if following::are_same(kept, tasks) {
        assert forall|i: int|
            0 <= i < tasks.len() && (#[trigger] tasks[i]).title == title implies tasks[i].status
            == next by {
            assert(kept[i] == (tasks[i].status, tasks[i].title));
        }
    }
}

// --------------------------------------------------------------- changes of projects

/// The changes of projects are written one after the other, each with all its tasks. After the
/// last one the projects are read again, if any was written.
pub proof fn law_changes_are_written_in_turn(s: AppView, error: Option<Seq<char>>, now: Moment)
    requires
        s.wait is Changes,
        0 <= s.wait->Changes_at < s.wait->Changes_changes.len(),
    ensures
        ({
            let all = s.wait->Changes_changes;
            let at = s.wait->Changes_at;
            let step = s.resumed(EventView::Saved(error), now);
            let old = s.wait->Changes_sync;
            if at + 1 < all.len() {
                &&& step.1 == Some(
                    JobView::SaveTasks {
                        project_idx: all[at + 1].project_idx,
                        tasks: all[at + 1].tasks,
                        now_ms: now.ms,
                    },
                )
                &&& step.0.wait is Changes
                &&& step.0.wait->Changes_changes == all && step.0.wait->Changes_at == at + 1
                &&& error is Some ==> step.0.wait->Changes_sync == old
                &&& error is None && old.projects < usize::MAX
                    ==> step.0.wait->Changes_sync.projects == old.projects + 1
                &&& error is None && 0 <= all[at].added <= usize::MAX - old.added
                    ==> step.0.wait->Changes_sync.added == old.added + all[at].added
                &&& error is None && 0 <= all[at].removed <= usize::MAX - old.removed
                    ==> step.0.wait->Changes_sync.removed == old.removed + all[at].removed
            } else if error is None || old.projects > 0 {
                step.1 == Some(JobView::LoadProjects)
            } else {
                step.1 is None
            }
        }),
{
}

/// When an entry with tasks was written after it was edited, the projects follow its rows: rows
/// that came and went count. When any other note was written, nothing more is.
pub proof fn law_edited_rows_reach_the_projects(s: AppView, now: Moment)
    requires
        s.wait is Persist,
    ensures
        ({
            let step = s.resumed(EventView::Saved(None), now);
            match s.wait->Persist_rows {
                Some((before, after)) => {
                    let all = plan::changes(s.projects, before, after, true);
                    if all.len() == 0 {
                        step.1 is None && step.0.wait is Idle
                    } else {
                        &&& step.1 == Some(
                            JobView::SaveTasks {
                                project_idx: all[0].project_idx,
                                tasks: all[0].tasks,
                                now_ms: now.ms,
                            },
                        )
                        &&& step.0.wait is Changes && step.0.wait->Changes_changes == all
                        &&& step.0.wait->Changes_at == 0
                    }
                },
                None => step.1 is None && step.0.wait is Idle,
            }
        }),
{
}

// ---------------------------------------------------------------------------- entries

/// An entry that is to be deleted, once that is confirmed, is taken out of its note, every other
/// note stays, and the note is to be written.
pub proof fn law_confirmed_entry_is_deleted(s: AppView, n: usize, k: usize, now: Moment)
    requires
        s.confirm == Some(Confirm::DeleteEntry { note_idx: n, entry_idx: k }),
        n < s.notes.len(),
        k < s.notes[n as int].entries.len(),
    ensures
        ({
            let step = s.told(Msg::ConfirmYes, now);
            &&& step.1 == Some(JobView::SaveNote { note_idx: n as int, create: true })
            &&& step.0.notes == s.notes.update(n as int, s.notes[n as int].without_entry(k as int))
            &&& step.0.confirm is None && step.0.mode is Normal
            &&& step.0.projects == s.projects
        }),
{
}

/// An entry that was edited has the new body and the new tags, every other note stays, and the
/// note is to be written. Where it holds tasks, its rows before and after are kept for the
/// projects.
pub proof fn law_edited_entry_is_written(
    s: AppView,
    n: usize,
    k: usize,
    edited: Seq<char>,
    now: Moment,
    id: Seq<char>,
)
    requires
        n < s.notes.len(),
        k < s.notes[n as int].entries.len(),
        text::trimmed(editor::decomposed(edited).1).len() > 0,
    ensures
        ({
            let step = s.edited(
                EditTarget::EntryBody { note_idx: n, entry_idx: k },
                Some(edited),
                now,
                id,
            );
            let (tags, body) = editor::decomposed(edited);
            let old = s.notes[n as int];
            let with_body = old.with_body(k as int, body);
            let new = step.0.notes[n as int];
            &&& step.1 == Some(JobView::SaveNote { note_idx: n as int, create: true })
            &&& step.0.notes == s.notes.update(n as int, new)
            &&& k >= with_body.entries.len() || with_body.entries[k as int].tags == tags ==> new
                == with_body
            &&& k < with_body.entries.len() && with_body.entries[k as int].tags != tags ==> new
                == with_body.with_tags(k as int, tags)
            &&& step.0.wait is Persist
            &&& step.0.wait->Persist_before == old.text()
            &&& step.0.wait->Persist_rows == if k < new.entries.len() && new.holds_todo(
                new.entries[k as int],
            ) {
                Some((old.rows_of(k as int), new.rows_of(k as int)))
            } else {
                None
            }
        }),
{
}

/// A new entry goes into the note of the day: that note is opened, the block of the entry is put
/// behind it, it is written, and all is read again.
pub proof fn law_new_entry_is_written(
    s: AppView,
    edited: Seq<char>,
    n: NoteView,
    now: Moment,
    later: Moment,
    id: Seq<char>,
)
    requires
        text::trimmed(editor::decomposed(edited).1).len() > 0,
    ensures
        ({
            let (tags, body) = editor::decomposed(edited);
            let day = calendar::date_text(now.date);
            let a = s.edited(EditTarget::NewEntry, Some(edited), now, id);
            let b = a.0.resumed(EventView::Opened(Ok(n)), later);
            let c = b.0.resumed(EventView::Saved(None), later);
            &&& a.1 == Some(JobView::OpenNote { date: day })
            &&& a.0.notes == s.notes
            &&& b.1 == Some(
                JobView::SaveOpened {
                    note: n.with_block(
                        block::block_text(
                            id,
                            calendar::stamp_text(now),
                            now.ms as int,
                            tags,
                            body,
                        ),
                    ),
                },
            )
            &&& c.1 == Some(JobView::LoadAll)
        }),
{
}

/// Once all was read again after a new entry was written, the note of its day is chosen, with
/// its last entry, on the screen of notes.
pub proof fn law_new_entry_is_shown(
    s: AppView,
    notes: Seq<NoteView>,
    projects: Seq<ProjectView>,
    at: int,
    now: Moment,
)
    requires
        s.wait is EntryReload,
        0 <= at < notes.len(),
        notes[at].date == s.wait->EntryReload_date,
        forall|j: int| 0 <= j < at ==> (#[trigger] notes[j]).date != s.wait->EntryReload_date,
    ensures
        ({
            let t = s.resumed(EventView::All(Ok((notes, projects))), now).0;
            &&& t.notes == notes && t.projects == projects
            &&& t.view is Notes && t.focus is Detail
            &&& t.note_sel == at && t.note_sel < t.notes_shown()
            &&& notes[at].entries.len() > 0 ==> t.entry_sel == notes[at].entries.len() - 1
            &&& t.detail_scroll == 0 && t.note_task_sel == 0
            &&& t.wait is Idle
        }),
{
    lemma_note_of_day(notes, s.wait->EntryReload_date, 0, at);
}

proof fn lemma_note_of_day(notes: Seq<NoteView>, day: Seq<char>, i: int, at: int)
    requires
        0 <= i <= at < notes.len(),
        notes[at].date == day,
        forall|j: int| 0 <= j < at ==> (#[trigger] notes[j]).date != day,
    ensures
        steps::note_of_day(notes, day, i) == at,
    decreases at - i,
{
    if i < at {
        assert(notes[i].date != day);
        lemma_note_of_day(notes, day, i + 1, at);
    }
}

// --------------------------------------------------------------------------- projects

/// Tasks of a project that were edited are to be written as the text says, line by line; the
/// titles that it no longer has are kept for the task list of today.
pub proof fn law_edited_tasks_are_written(
    s: AppView,
    idx: usize,
    edited: Seq<char>,
    now: Moment,
    id: Seq<char>,
)
    requires
        idx < s.projects.len(),
        project::checklist_rows(text::lines_of(edited)).len() > 0,
    ensures
        ({
            let step = s.edited(
                EditTarget::ProjectTasks { project_idx: idx },
                Some(edited),
                now,
                id,
            );
            let next = project::checklist_rows(text::lines_of(edited));
            &&& step.1 == Some(
                JobView::SaveTasks { project_idx: idx as int, tasks: next, now_ms: now.ms },
            )
            &&& step.0.wait is Tasks
            &&& step.0.wait->Tasks_name == s.projects[idx as int].name
            &&& step.0.wait->Tasks_removed == steps::dropped_titles(
                s.projects[idx as int].tasks,
                next,
            )
            &&& step.0.projects == s.projects && step.0.notes == s.notes
        }),
{
}

/// A project that is not archived is archived with the time of the moment; one that is, is taken
/// back.
pub proof fn law_archiving_turns(s: AppView, now: Moment)
    requires
        s.view is Projects,
        s.project_at() is Some,
    ensures
        ({
            let i = s.project_at()->0;
            let step = s.told(Msg::ToggleArchiveProject, now);
            step.1 == Some(
                JobView::SetArchived {
                    project_idx: i,
                    archived_at_ms: if s.projects[i].archived_at_ms > 0 {
                        0
                    } else {
                        now.ms
                    },
                    now_ms: now.ms,
                },
            )
        }),
{
    let a = AppView { status: None, ..s };
    assert(a.project_at() == s.project_at());
}

/// A new project is named after the first line of the text that is not blank, without white
/// space around it.
pub proof fn law_new_project_is_named(
    s: AppView,
    edited: Seq<char>,
    at: int,
    now: Moment,
    id: Seq<char>,
)
    requires
        0 <= at < text::lines_of(edited).len(),
        text::trimmed(text::lines_of(edited)[at]).len() > 0,
        forall|j: int|
            0 <= j < at ==> text::trimmed(#[trigger] text::lines_of(edited)[j]).len() == 0,
    ensures
        s.edited(EditTarget::NewProject, Some(edited), now, id).1 == Some(
            JobView::CreateProject {
                name: text::trimmed(text::lines_of(edited)[at]),
                now_ms: now.ms,
            },
        ),
{
    lemma_first_words(text::lines_of(edited), 0, at);
}

proof fn lemma_first_words(lines: Seq<Seq<char>>, i: int, at: int)
    requires
        0 <= i <= at < lines.len(),
        text::trimmed(lines[at]).len() > 0,
        forall|j: int| 0 <= j < at ==> text::trimmed(#[trigger] lines[j]).len() == 0,
    ensures
        steps::first_words(lines, i) == Some(text::trimmed(lines[at])),
    decreases at - i,
{
    if i < at {
        assert(text::trimmed(lines[i]).len() == 0);
        lemma_first_words(lines, i + 1, at);
    }
}

/// When projects were read again, the project that was chosen is still chosen where one of its
/// name is listed.
pub proof fn law_chosen_project_stays_chosen(
    s: AppView,
    projects: Seq<ProjectView>,
    p: ProjectView,
    i: int,
)
    requires
        s.project() == Some(p),
        ({
            let t = AppView { projects, ..s };
            0 <= i < t.projects_shown().len() && projects[t.projects_shown()[i]].name == p.name
        }),
    ensures
        ({
            let t = s.projects_read(Ok(projects));
            &&& t.projects == projects
            &&& t.project() is Some && (t.project()->0).name == p.name
        }),
{
    let a = AppView { projects, ..s };
    let shown = a.projects_shown();
    lemma_listed_name(shown, projects, p.name, 0, i);
    crate::app::listing::law_projects_are_listed(projects, s.show_archived);
    let t = s.projects_read(Ok(projects));
    assert(t.projects_shown() == shown);
}

proof fn lemma_listed_name(
    listed: Seq<int>,
    projects: Seq<ProjectView>,
    name: Seq<char>,
    i: int,
    at: int,
)
    requires
        0 <= i <= at < listed.len(),
        projects[listed[at]].name == name,
    ensures
        i <= steps::listed_name(listed, projects, name, i) <= at,
        projects[listed[steps::listed_name(listed, projects, name, i)]].name == name,
    decreases at - i,
{
    if i < at && projects[listed[i]].name != name {
        lemma_listed_name(listed, projects, name, i + 1, at);
    }
}

// ------------------------------------------------------------------- today's task list

/// Whether entry `k` of note `n` is the task list of a day: the first entry with tasks in the
/// first note of that day.
pub open spec fn is_list_of(notes: Seq<NoteView>, day: Seq<char>, n: int, k: int) -> bool {
    &&& 0 <= n < notes.len() && notes[n].date == day
    &&& forall|j: int| 0 <= j < n ==> (#[trigger] notes[j]).date != day
    &&& 0 <= k < notes[n].entries.len() && notes[n].holds_todo(notes[n].entries[k])
    &&& forall|j: int| 0 <= j < k ==> !notes[n].holds_todo(#[trigger] notes[n].entries[j])
}

proof fn lemma_todo_entry(n: NoteView, i: int, k: int)
    requires
        0 <= i <= k < n.entries.len(),
        n.holds_todo(n.entries[k]),
        forall|j: int| 0 <= j < k ==> !n.holds_todo(#[trigger] n.entries[j]),
    ensures
        steps::todo_entry(n, i) == k,
    decreases k - i,
{
    if i < k {
        assert(!n.holds_todo(n.entries[i]));
        lemma_todo_entry(n, i + 1, k);
    }
}

/// Asking for the task list of today opens it where there is one: its tags and its body are to
/// be edited.
pub proof fn law_todays_list_is_opened(s: AppView, n: int, k: int, now: Moment)
    requires
        is_list_of(s.notes, calendar::date_text(now.date), n, k),
    ensures
        ({
            let t = s.told(Msg::TodayTodo, now).0;
            let e = s.notes[n].entries[k];
            &&& t.pending_edit is Some
            &&& t.pending_edit->0.target == EditTarget::EntryBody {
                note_idx: n as usize,
                entry_idx: k as usize,
            }
            &&& t.pending_edit->0.initial == editor::composed(
                e.tags,
                text::joined(s.notes[n].lines.subrange(e.body.0, e.body.1), seq!['\n']),
            )
        }),
{
    lemma_note_of_day(s.notes, calendar::date_text(now.date), 0, n);
    lemma_todo_entry(s.notes[n], 0, k);
}

/// Where there is no task list of today, a new one is to be edited: with the tag of task lists,
/// the heading of the day, and a group for each project with tasks in progress.
pub proof fn law_todays_list_is_made(s: AppView, now: Moment)
    requires
        forall|n: int, k: int| !(#[trigger] is_list_of(
            s.notes,
            calendar::date_text(now.date),
            n,
            k,
        )),
    ensures
        ({
            let t = s.told(Msg::TodayTodo, now).0;
            &&& t.pending_edit is Some
            &&& t.pending_edit->0.target is NewEntry
            &&& t.pending_edit->0.initial == editor::composed(
                seq!["ToDo"@],
                text::joined(
                    todo::body_rows(now.date, steps::active_groups(s.projects)),
                    seq!['\n'],
                ),
            )
        }),
{
    let day = calendar::date_text(now.date);
    let n = steps::note_of_day(s.notes, day, 0);
    lemma_note_found(s.notes, day, 0);
    if n < s.notes.len() {
        let k = steps::todo_entry(s.notes[n], 0);
        lemma_entry_found(s.notes[n], 0);
        if k < s.notes[n].entries.len() {
            assert(is_list_of(s.notes, day, n, k));
        }
    }
}

proof fn lemma_note_found(notes: Seq<NoteView>, day: Seq<char>, i: int)
    requires
        0 <= i <= notes.len(),
    ensures
        ({
            let at = steps::note_of_day(notes, day, i);
            &&& i <= at <= notes.len()
            &&& at < notes.len() ==> notes[at].date == day
            &&& forall|j: int| i <= j < at ==> (#[trigger] notes[j]).date != day
        }),
    decreases notes.len() - i,
{
    if i < notes.len() && notes[i].date != day {
        lemma_note_found(notes, day, i + 1);
    }
}

proof fn lemma_entry_found(n: NoteView, i: int)
    requires
        0 <= i <= n.entries.len(),
    ensures
        ({
            let at = steps::todo_entry(n, i);
            &&& i <= at <= n.entries.len()
            &&& at < n.entries.len() ==> n.holds_todo(n.entries[at])
            &&& forall|j: int| i <= j < at ==> !n.holds_todo(#[trigger] n.entries[j])
        }),
    decreases n.entries.len() - i,
{
    if i < n.entries.len() && !n.holds_todo(n.entries[i]) {
        lemma_entry_found(n, i + 1);
    }
}

/// Whether wanted rows are those of tasks: each with its state and its title, and to be added
/// where it is in progress.
pub open spec fn are_wanted_of(wanted: Seq<todo::WantedView>, tasks: Seq<TaskView>) -> bool {
    wanted.len() == tasks.len() && forall|i: int|
        0 <= i < tasks.len() ==> #[trigger] wanted[i] == (
            tasks[i].status,
            tasks[i].title,
            tasks[i].status == TaskStatus::InProgress,
        )
}

/// When the tasks of a project were written and read again, the task list of today is brought up
/// to date with them: rows of titles that are gone are removed, rows get the states of their
/// tasks, and tasks in progress without a row are added. Where something changes, the note is to
/// be written; else nothing is.
#[verifier::spinoff_prover]
#[verifier::rlimit(40)]
pub proof fn law_todays_list_follows_the_project(
    s: AppView,
    projects: Seq<ProjectView>,
    wanted: Seq<todo::WantedView>,
    idx: int,
    n: int,
    k: int,
    now: Moment,
)
    requires
        s.wait matches WaitView::Projects(AfterView::Tasks { name, .. }) && is_first_named(
            projects,
            idx,
            name,
        ),
        are_wanted_of(wanted, projects[idx].tasks),
        is_list_of(s.notes, calendar::date_text(now.date), n, k),
    ensures
        ({
            let step = s.resumed(EventView::Projects(Ok(projects)), now);
            let removed = s.wait->Projects_0->Tasks_removed;
            let m = s.notes[n];
            let e = m.entries[k];
            let u = todo::upserted(
                m.lines.subrange(e.body.0, e.body.1),
                projects[idx].name,
                wanted,
                removed,
            );
            if u.added > 0 || u.updated > 0 || u.removed > 0 {
                &&& step.1 == Some(JobView::SaveNote { note_idx: n, create: true })
                &&& step.0.notes == s.notes.update(
                    n,
                    m.with_body(k, text::joined(u.lines, seq!['\n'])),
                )
            } else {
                step.1 is None && step.0.notes == s.notes
            }
        }),
{
    let day = calendar::date_text(now.date);
    lemma_note_of_day(s.notes, day, 0, n);
    lemma_todo_entry(s.notes[n], 0, k);
    lemma_named(projects, projects[idx].name, 0, idx);
    let tasks = projects[idx].tasks;
    assert(steps::wanted_of(tasks) =~= wanted);
    let removed = s.wait->Projects_0->Tasks_removed;
    let m = s.notes[n];
    let body = m.body(m.entries[k]);
    if wanted.len() == 0 && removed.len() == 0 {
        lemma_nothing_wanted(body, projects[idx].name, wanted, removed);
    }
}

proof fn lemma_named(projects: Seq<ProjectView>, name: Seq<char>, i: int, at: int)
    requires
        0 <= i <= at < projects.len(),
        projects[at].name == name,
        forall|j: int| 0 <= j < at ==> (#[trigger] projects[j]).name != name,
    ensures
        plan::named_at(projects, name, i) == at,
    decreases at - i,
{
    if i < at {
        assert(projects[i].name != name);
        lemma_named(projects, name, i + 1, at);
    }
}

/// Where nothing is wanted and nothing is dropped, nothing is counted.
proof fn lemma_nothing_wanted(
    lines: Seq<Seq<char>>,
    name: Seq<char>,
    wanted: Seq<todo::WantedView>,
    dropped: Seq<Seq<char>>,
)
    requires
        wanted.len() == 0,
        dropped.len() == 0,
    ensures
        ({
            let u = todo::upserted(lines, name, wanted, dropped);
            u.added == 0 && u.updated == 0 && u.removed == 0
        }),
{
    assert(dropped =~= Seq::<Seq<char>>::empty());
    crate::model::sync::law_upsert_keeps_lines(lines, name, wanted);
}

} // verus!
