//! Which entry, task and project keys act on, and what is said about it.

use vstd::prelude::*;
use vstd::view::View as _;

use crate::app::jobs::{AfterView, EventView, FinishView, JobView, ProjectSync, WaitView};
use crate::app::listing;
use crate::app::state;
use crate::app::state::AppView;
use crate::app::steps;
use crate::app::types;
use crate::app::types::{Msg, View};
use crate::calendar;
use crate::calendar::Moment;
use crate::config::ConfigView;
use crate::editor;
use crate::editor::EditTarget;
use crate::model::entry::EntryView;
use crate::model::note::NoteView;
use crate::model::project;
use crate::model::project::{ProjectView, TaskView};
use crate::model::status::TaskStatus;
use crate::number;
use crate::text;

verus! {

// ---------------------------------------------------------------------------- start

/// At the beginning the list of notes is shown with the first note chosen, the logo stands over
/// it for a while, all tasks are collected, and nothing is waited for.
pub proof fn law_beginning(
    config: ConfigView,
    notes: Seq<NoteView>,
    projects: Seq<ProjectView>,
    now_ms: u64,
)
    ensures
        ({
            let s = AppView::fresh(config, notes, projects, now_ms);
            &&& s.config == config && s.notes == notes && s.projects == projects
            &&& s.todos == crate::app::todos::all_todos(notes)
            &&& s.view is Notes && s.mode is Normal && s.focus is List
            &&& s.note_sel == 0 && s.entry_sel == 0 && s.todo_date_sel == 0 && s.todo_sel == 0
            &&& s.project_sel == 0 && s.task_sel == 0 && s.search_sel == 0
            &&& s.query.len() == 0 && s.hits.len() == 0
            &&& s.confirm is None && s.pending_edit is None && s.status is None
            &&& !s.show_all_notes && !s.show_archived && !s.todo_open_only && s.todo_sort is Date
            &&& !s.should_quit && s.wait is Idle
            &&& s.splash is Some
        }),
{
}

// -------------------------------------------------------------------------- entries

/// Whether entry `k` is the first whose body holds a line.
pub open spec fn is_entry_of(entries: Seq<EntryView>, line: int, k: int) -> bool {
    &&& 0 <= k < entries.len()
    &&& entries[k].body.0 <= line < entries[k].body.1
    &&& forall|j: int|
        0 <= j < k ==> !((#[trigger] entries[j]).body.0 <= line < entries[j].body.1)
}

proof fn lemma_entry_with(entries: Seq<EntryView>, line: int, i: int)
    requires
        0 <= i <= entries.len(),
        forall|j: int|
            0 <= j < i ==> !((#[trigger] entries[j]).body.0 <= line < entries[j].body.1),
    ensures
        ({
            let k = state::entry_with(entries, line, i);
            if k < entries.len() {
                is_entry_of(entries, line, k)
            } else {
                forall|j: int|
                    0 <= j < entries.len() ==> !((#[trigger] entries[j]).body.0 <= line
                        < entries[j].body.1)
            }
        }),
    decreases entries.len() - i,
{
    if i < entries.len() && !(entries[i].body.0 <= line < entries[i].body.1) {
        lemma_entry_with(entries, line, i + 1);
    }
}

/// Keys act on the entry that is chosen among the notes, on the one whose body holds the chosen
/// task, or on the one that the chosen hit points to; on the screen of projects on none. What is
/// edited of it are its tags and its body, and only that entry is asked about before it is
/// deleted.
pub proof fn law_keys_act_on_the_chosen_entry(s: AppView, now: Moment)
    requires
        0 <= s.note_sel,
        0 <= s.entry_sel,
    ensures
        match s.entry_at() {
            Some((n, k)) => {
                let e = s.notes[n].entries[k];
                let edit = s.told(Msg::EditEntry, now).0;
                let asked = s.told(Msg::DeleteEntry, now).0;
                &&& 0 <= n < s.notes.len() && 0 <= k < s.notes[n].entries.len()
                &&& s.view is Notes ==> n == s.note_sel && k == s.entry_sel
                &&& s.view is Todo ==> s.todos_shown()[s.todo_sel].0 == n && is_entry_of(
                    s.notes[n].entries,
                    s.todos_shown()[s.todo_sel].1.line,
                    k,
                )
                &&& s.view is Search ==> s.hits[s.search_sel].note_idx == n
                    && s.hits[s.search_sel].entry_idx == k
                &&& s.view !is Projects
                &&& edit.pending_edit is Some && edit.pending_edit->0.target
                    == EditTarget::EntryBody { note_idx: n as usize, entry_idx: k as usize }
                &&& edit.pending_edit->0.initial == editor::composed(
                    e.tags,
                    text::joined(s.notes[n].lines.subrange(e.body.0, e.body.1), seq!['\n']),
                )
                &&& asked.confirm == Some(
                    types::Confirm::DeleteEntry { note_idx: n as usize, entry_idx: k as usize },
                )
                &&& asked.mode is Confirm
            },
            None => {
                &&& s.view is Notes ==> s.note_sel >= s.notes.len() || s.entry_sel
                    >= s.notes[s.note_sel].entries.len()
                &&& s.view is Search ==> !(0 <= s.search_sel < s.hits.len() && 0
                    <= s.hits[s.search_sel].note_idx < s.notes.len() && 0
                    <= s.hits[s.search_sel].entry_idx
                    < s.notes[s.hits[s.search_sel].note_idx].entries.len())
                &&& s.told(Msg::DeleteEntry, now).0.confirm == s.confirm
                &&& s.view !is Projects ==> s.told(Msg::EditEntry, now).0.pending_edit
                    == s.pending_edit
            },
        },
{
    let a = AppView { status: None, ..s };
    assert(a.todos_shown() == s.todos_shown());
    assert(a.entry_at() == s.entry_at());
    if s.view is Todo && 0 <= s.todo_sel < s.todos_shown().len() {
        let (n, t) = s.todos_shown()[s.todo_sel];
        if 0 <= n < s.notes.len() {
            lemma_entry_with(s.notes[n].entries, t.line, 0);
        }
    }
}

/// On the screen of projects the tasks of the chosen project are edited as a checklist, in the
/// order in which they are listed; where there are none, an empty check box is begun.
pub proof fn law_tasks_are_edited_as_a_checklist(s: AppView, now: Moment)
    requires
        s.view is Projects,
        s.project_at() is Some,
    ensures
        ({
            let i = s.project_at()->0;
            let list = project::listed(s.projects[i].tasks);
            let t = s.told(Msg::EditEntry, now).0;
            &&& t.pending_edit is Some
            &&& t.pending_edit->0.target == EditTarget::ProjectTasks { project_idx: i as usize }
            &&& list.len() > 0 ==> t.pending_edit->0.initial == project::checklist_text(list)
            &&& list.len() == 0 ==> t.pending_edit->0.initial == "- [ ] "@
        }),
{
    let a = AppView { status: None, ..s };
    assert(a.project_at() == s.project_at());
}

/// A new entry begins without tags and without a body; on the screen of projects a new project
/// is to be named.
pub proof fn law_new_things_begin_empty(s: AppView, now: Moment)
    ensures
        ({
            let t = s.told(Msg::NewEntry, now).0;
            &&& t.pending_edit is Some
            &&& s.view is Projects ==> t.pending_edit->0.target is NewProject
                && t.pending_edit->0.initial.len() == 0
            &&& s.view !is Projects ==> t.pending_edit->0.target is NewEntry
                && t.pending_edit->0.initial == editor::composed(Seq::empty(), Seq::empty())
            &&& s.told(Msg::NewProject, now).0.pending_edit is Some
            &&& (s.told(Msg::NewProject, now).0.pending_edit->0).target is NewProject
        }),
{
}

// ------------------------------------------------------------------------- projects

/// Once a new project was made and read, it is chosen on the screen of projects where it is
/// listed.
pub proof fn law_new_project_is_chosen(
    s: AppView,
    projects: Seq<ProjectView>,
    dir_name: Seq<char>,
    i: int,
    now: Moment,
)
    requires
        s.wait matches WaitView::Projects(AfterView::Created { dir_name: d, .. }) && d == dir_name,
        ({
            let shown = state::listed_projects(projects, s.show_archived);
            0 <= i < shown.len() && projects[shown[i]].dir_name == dir_name
        }),
    ensures
        ({
            let t = s.resumed(EventView::Projects(Ok(projects)), now).0;
            &&& t.view is Projects && t.focus is List
            &&& t.project() is Some && (t.project()->0).dir_name == dir_name
            &&& t.task_sel == 0
        }),
{
    let shown = state::listed_projects(projects, s.show_archived);
    lemma_listed_dir(shown, projects, dir_name, 0, i);
    let a = AppView { wait: WaitView::Idle, ..s }.projects_read(Ok(projects));
    assert(a.projects == projects && a.show_archived == s.show_archived);
    let b = AppView { view: View::Projects, focus: types::Focus::List, ..a };
    assert(b.projects_shown() == shown);
}

proof fn lemma_listed_dir(
    listed: Seq<int>,
    projects: Seq<ProjectView>,
    dir_name: Seq<char>,
    i: int,
    at: int,
)
    requires
        0 <= i <= at < listed.len(),
        projects[listed[at]].dir_name == dir_name,
    ensures
        i <= steps::listed_dir(listed, projects, dir_name, i) <= at,
        projects[listed[steps::listed_dir(listed, projects, dir_name, i)]].dir_name == dir_name,
    decreases at - i,
{
    if i < at && projects[listed[i]].dir_name != dir_name {
        lemma_listed_dir(listed, projects, dir_name, i + 1, at);
    }
}

/// Writing a project that was archived, and one whose order changed, is followed by reading the
/// projects again; where the writing failed, nothing is read and the failure is said.
pub proof fn law_projects_are_read_after_writing(s: AppView, error: Seq<char>, now: Moment)
    requires
        s.wait is Order || s.wait is Archive || s.wait is Tasks || s.wait is Cycle,
    ensures
        ({
            let done = s.resumed(EventView::Saved(None), now);
            let failed = s.resumed(EventView::Saved(Some(error)), now);
            &&& done.1 == Some(JobView::LoadProjects)
            &&& failed.1 is None && failed.0.wait is Idle && failed.0.status is Some
            &&& failed.0.projects == s.projects && failed.0.notes == s.notes
            &&& done.0.projects == s.projects && done.0.notes == s.notes
        }),
{
}

/// Reading all again replaces the notes and the projects, collects the tasks and searches anew.
/// Where it failed, all stays as it was.
pub proof fn law_all_is_read_again(
    s: AppView,
    notes: Seq<NoteView>,
    projects: Seq<ProjectView>,
    error: Seq<char>,
    now: Moment,
)
    requires
        s.wait is Reload,
    ensures
        ({
            let t = s.resumed(EventView::All(Ok((notes, projects))), now).0;
            let failed = s.resumed(EventView::All(Err(error)), now).0;
            &&& t.notes == notes && t.projects == projects
            &&& t.todos == crate::app::todos::all_todos(notes)
            &&& t.hits == crate::app::reading::hits_of(notes, s.query) && t.query == s.query
            &&& t.wait is Idle
            &&& failed == (AppView {
                wait: WaitView::Idle,
                status: failed.status,
                ..s
            })
            &&& failed.status is Some
        }),
{
    let failed = s.resumed(EventView::All(Err(error)), now).0;
    assert(failed =~= (AppView { wait: WaitView::Idle, status: failed.status, ..s }));
}

// ---------------------------------------------------------------------------- places

/// A place is kept where it lies in its list; else it is the last place, or the first of an
/// empty list.
pub proof fn law_places_are_kept(sel: int, len: int)
    requires
        0 <= sel,
        0 <= len,
    ensures
        sel < len ==> types::clamped(sel, len) == sel && AppView::pulled(sel, len) == sel,
        0 < len <= sel ==> types::clamped(sel, len) == len - 1 && AppView::pulled(sel, len) == len
            - 1,
        len == 0 ==> types::clamped(sel, len) == 0 && AppView::pulled(sel, len) == 0,
{
}

/// The screens stand in the order notes, task list, projects and search.
pub proof fn law_order_of_screens(s: AppView, now: Moment)
    ensures
        ({
            let next = s.told(Msg::NextView, now).0.view;
            let before = s.told(Msg::PrevView, now).0.view;
            match s.view {
                View::Notes => next is Todo && before is Search,
                View::Todo => next is Projects && before is Notes,
                View::Projects => next is Search && before is Todo,
                View::Search => next is Notes && before is Projects,
            }
        }),
{
}

/// The time of an entry is what stands behind the first space of the moment that it names; where
/// there is no space there is none.
pub proof fn law_time_of_an_entry(day: Seq<char>, time: Seq<char>)
    requires
        !day.contains(' '),
    ensures
        types::time_of(day + seq![' '] + time) == Some(time),
        types::time_of(day) is None,
{
    let s = day + seq![' '] + time;
    let k = day.len() as int;
    assert(s[k] == ' ');
    assert forall|i: int| 0 <= i < k implies #[trigger] s[i] != ' ' by {
        assert(s[i] == day[i]);
        assert(day.contains(day[i]));
    }
    text::lemma_first_index_unique(s, ' ', k);
    assert(s.skip(k + 1) =~= time);
    text::lemma_first_index(day, ' ');
    if text::first_index(day, ' ') < day.len() {
        assert(day.contains(day[text::first_index(day, ' ') as int]));
    }
}

// ---------------------------------------------------------------------------- words

/// What is said of a task list that was brought up to date names the rows that were added, those
/// that were marked anew and those that were removed, each where there are any.
pub proof fn law_upsert_is_said(added: nat, updated: nat, removed: nat)
    ensures
        exists|parts: Seq<Seq<char>>|
            {
                let a = number::decimal(added) + " 件追加"@;
                let b = number::decimal(updated) + " 件更新"@;
                let c = number::decimal(removed) + " 件削除"@;
                let words = "今日の ToDo に "@ + #[trigger] text::joined(parts, "、"@)
                    + "しました"@;
                &&& steps::upsert_words(added, updated, removed) == words
                &&& parts.contains(a) || added == 0
                &&& parts.contains(b) || updated == 0
                &&& parts.contains(c) || removed == 0
                &&& parts.len() == (if added > 0 {
                    1int
                } else {
                    0
                }) + (if updated > 0 {
                    1int
                } else {
                    0
                }) + (if removed > 0 {
                    1int
                } else {
                    0
                })
            },
{
    let a = if added > 0 {
        seq![number::decimal(added) + " 件追加"@]
    } else {
        Seq::empty()
    };
    let b = if updated > 0 {
        a.push(number::decimal(updated) + " 件更新"@)
    } else {
        a
    };
    let c = if removed > 0 {
        b.push(number::decimal(removed) + " 件削除"@)
    } else {
        b
    };
    if added > 0 {
        assert(c[0] == number::decimal(added) + " 件追加"@);
    }
    if updated > 0 {
        assert(c[a.len() as int] == number::decimal(updated) + " 件更新"@);
    }
    if removed > 0 {
        assert(c[b.len() as int] == number::decimal(removed) + " 件削除"@);
    }
    assert(steps::upsert_words(added, updated, removed) == "今日の ToDo に "@ + text::joined(
        c,
        "、"@,
    ) + "しました"@);
}

/// What is said of projects that followed a task list names how many they were, and the tasks
/// that were added and removed where there are any. Where no project was written, nothing is.
pub proof fn law_sync_is_said(sync: ProjectSync)
    ensures
        sync.projects == 0 <==> sync.words() is None,
        sync.projects > 0 ==> sync.words() == Some(
            "プロジェクト "@ + number::decimal(sync.projects as nat) + " 件に反映"@ + (
            if sync.added > 0 {
                "・"@ + number::decimal(sync.added as nat) + " 件追加"@
            } else {
                Seq::empty()
            }) + (if sync.removed > 0 {
                "・"@ + number::decimal(sync.removed as nat) + " 件削除"@
            } else {
                Seq::empty()
            }),
        ),
{
    let a = "プロジェクト "@ + number::decimal(sync.projects as nat) + " 件に反映"@;
    let x = "・"@ + number::decimal(sync.added as nat) + " 件追加"@;
    let y = "・"@ + number::decimal(sync.removed as nat) + " 件削除"@;
    if sync.projects > 0 {
        let b = if sync.added > 0 {
            x
        } else {
            Seq::empty()
        };
        let c = if sync.removed > 0 {
            y
        } else {
            Seq::empty()
        };
        assert(sync.words()->0 =~= a + b + c);
    }
}

/// The bottom row says how many notes there are, how many of them are listed where that is not
/// all, how many tasks are not done, and how many projects are not archived.
pub proof fn law_summary_counts(s: AppView)
    ensures
        exists|open: Seq<int>, kept: Seq<int>|
            {
                let notes = if s.notes_shown() < s.notes.len() {
                    number::decimal(s.notes_shown() as nat) + "/"@ + number::decimal(s.notes.len())
                } else {
                    number::decimal(s.notes.len())
                };
                &&& #[trigger] crate::pick::rising(open, s.todos.len() as int)
                &&& forall|i: int|
                    0 <= i < s.todos.len() ==> #[trigger] open.contains(i)
                        == !(s.todos[i].1.status is Done)
                &&& #[trigger] crate::pick::rising(kept, s.projects.len() as int)
                &&& forall|i: int|
                    0 <= i < s.projects.len() ==> #[trigger] kept.contains(i)
                        == (s.projects[i].archived_at_ms <= 0)
                &&& s.summary() == "ノート "@ + notes + " / ToDo 未完 "@ + number::decimal(
                    open.len(),
                ) + " / プロジェクト "@ + number::decimal(kept.len())
            },
{
    listing::law_open_tasks_are_counted(s.todos);
    listing::law_projects_are_listed(s.projects, false);
    let kept = state::listed_projects(s.projects, false);
    let open = choose|at: Seq<int>|
        {
            &&& #[trigger] crate::pick::rising(at, s.todos.len() as int)
            &&& forall|i: int|
                0 <= i < s.todos.len() ==> #[trigger] at.contains(i) == (s.todos[i].1.status
                    != crate::model::status::TaskStatus::Done)
            &&& state::open_count(s.todos) == at.len()
        };
    let notes = if s.notes_shown() < s.notes.len() {
        number::decimal(s.notes_shown() as nat) + "/"@ + number::decimal(s.notes.len())
    } else {
        number::decimal(s.notes.len())
    };
    assert(s.summary() =~= "ノート "@ + notes + " / ToDo 未完 "@ + number::decimal(open.len())
        + " / プロジェクト "@ + number::decimal(kept.len()));
    assert(crate::pick::rising(open, s.todos.len() as int));
    assert(crate::pick::rising(kept, s.projects.len() as int));
}

// --------------------------------------------------------------------- what is said

/// Once the changes of an edited entry were written to the projects, what became of them is
/// said, where there is anything to say; once the state of a row was, the project that follows it
/// is named. Nothing else changes, and nothing more is to be done.
pub proof fn law_finished_work_is_said(
    s: AppView,
    sync: ProjectSync,
    title: Seq<char>,
    next: TaskStatus,
    group: Seq<char>,
    now: Moment,
)
    ensures
        ({
            let (t, job) = s.after_reload(
                AfterView::Synced { sync, finish: FinishView::EntryBody },
                now,
            );
            &&& job is None
            &&& t == (AppView { status: t.status, ..s })
            &&& t.status == match sync.words() {
                Some(words) => Some("保存しました（"@ + words + "）"@),
                None => s.status,
            }
        }),
        ({
            let (t, job) = s.after_reload(
                AfterView::Synced { sync, finish: FinishView::RowState { title, next, group } },
                now,
            );
            &&& job is None
            &&& t == (AppView { status: t.status, ..s })
            &&& t.status == if sync.projects > 0 {
                Some(title + " → "@ + next.title() + "（"@ + group + " にも反映）"@)
            } else {
                s.status
            }
        }),
{
}

/// Once the order of the projects was written and read, the project that was moved is chosen and
/// named with the way that it went.
pub proof fn law_moved_project_is_said(s: AppView, to: int, down: bool, now: Moment)
    ensures
        ({
            let (t, job) = s.after_reload(AfterView::Order { to, down }, now);
            &&& job is None
            &&& t == (AppView { project_sel: to, status: t.status, ..s })
            &&& t.project() is Some ==> t.status == Some(
                (t.project()->0).name + " を "@ + (if down {
                    "下"@
                } else {
                    "上"@
                }) + " へ"@,
            )
        }),
{
    let a = AppView { project_sel: to, ..s };
    let t = s.after_reload(AfterView::Order { to, down }, now).0;
    assert(t.project() == a.project());
}

/// Once a project was put away or taken back, that is said with its name, and the place that is
/// chosen still lies in the list.
pub proof fn law_archiving_is_said(s: AppView, name: Seq<char>, archived: bool, now: Moment)
    requires
        0 <= s.project_sel,
    ensures
        ({
            let (t, job) = s.after_reload(AfterView::Archived { name, archived }, now);
            let count = s.projects_shown().len();
            &&& job is None
            &&& t == (AppView {
                project_sel: t.project_sel,
                task_sel: 0,
                status: t.status,
                ..s
            })
            &&& archived ==> t.status == Some(name + " をアーカイブから戻しました"@)
            &&& !archived ==> t.status == Some(name + " をアーカイブしました（A で表示）"@)
            &&& s.project_sel < count ==> t.project_sel == s.project_sel
            &&& 0 < count <= s.project_sel ==> t.project_sel == count - 1
        }),
{
}

proof fn lemma_task_titled(tasks: Seq<TaskView>, title: Seq<char>, i: int)
    requires
        0 <= i <= tasks.len(),
    ensures
        ({
            let at = steps::task_titled(tasks, title, i);
            &&& i <= at <= tasks.len()
            &&& at < tasks.len() ==> tasks[at].title == title
            &&& forall|j: int| i <= j < at ==> (#[trigger] tasks[j]).title != title
        }),
    decreases tasks.len() - i,
{
    if i < tasks.len() && tasks[i].title != title {
        lemma_task_titled(tasks, title, i + 1);
    }
}

/// A task whose state went on stays chosen: once the projects were read again, the first task
/// that is listed under its title is the chosen one, wherever it now stands. Where none is, the
/// place stays.
pub proof fn law_task_stays_chosen(
    s: AppView,
    title: Seq<char>,
    next: TaskStatus,
    name: Seq<char>,
    now: Moment,
)
    ensures
        ({
            let t = s.after_reload(AfterView::Cycled { title, next, name }, now).0;
            let tasks = s.tasks_shown();
            ||| {
                &&& 0 <= t.task_sel < tasks.len()
                &&& tasks[t.task_sel].title == title
                &&& forall|j: int| 0 <= j < t.task_sel ==> (#[trigger] tasks[j]).title != title
            }
            ||| {
                &&& t.task_sel == s.task_sel
                &&& forall|j: int| 0 <= j < tasks.len() ==> (#[trigger] tasks[j]).title != title
            }
        }),
{
    lemma_task_titled(s.tasks_shown(), title, 0);
}

/// Where the list of today is to be made, it is said from how many tasks in progress; where it is
/// there already, that it is opened.
pub proof fn law_todays_list_is_said(s: AppView, now: Moment)
    ensures
        ({
            let t = s.told(Msg::TodayTodo, now).0;
            let total = steps::group_total(steps::active_groups(s.projects));
            if steps::todo_place(s.notes, calendar::date_text(now.date)) is Some {
                t.status == Some("今日の ToDo を開きます"@)
            } else if total > 0 {
                t.status == Some(
                    "進行中のタスク "@ + number::decimal(total as nat) + " 件から作ります"@,
                )
            } else {
                t.status == Some("今日の ToDo を作ります"@)
            }
        }),
{
}

} // verus!
