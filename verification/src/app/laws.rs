//! What holds of every step.

use vstd::prelude::*;
use vstd::view::View as _;

use crate::app::jobs::{AfterView, EventView, JobView, WaitView};
use crate::app::state::AppView;
use crate::app::steps;
use crate::app::steps::Step;
use crate::app::todos;
use crate::app::todos::PlacedView;
use crate::app::types;
use crate::app::types::{Confirm, Move, Msg};
use crate::calendar::Moment;
use crate::editor;
use crate::editor::EditTarget;
use crate::model::note;
use crate::model::note::NoteView;
use crate::model::project;
use crate::sort;
use crate::text;

verus! {

// ---------------------------------------------------------------------- screens

/// The screens stand in a circle: four steps lead back, and a step back undoes a step on.
pub proof fn law_screens_stand_in_a_circle(s: AppView)
    ensures
        s.turned(1).turned(1).turned(1).turned(1).view == s.view,
        s.turned(1).turned(-1).view == s.view,
        s.turned(-1).turned(1).view == s.view,
{
}

/// The state after characters were typed one after the other.
pub open spec fn typed(s: AppView, chars: Seq<char>, now: Moment) -> AppView
    decreases chars.len(),
{
    if chars.len() == 0 {
        s
    } else {
        typed(s, chars.drop_last(), now).told(Msg::SearchInput(chars.last()), now).0
    }
}

/// Typing adds to the query and leaves the screen alone.
proof fn lemma_typed(s: AppView, chars: Seq<char>, now: Moment)
    ensures
        typed(s, chars, now).query == s.query + chars,
        typed(s, chars, now).view == s.view,
        typed(s, chars, now).mode == s.mode,
        typed(s, chars, now).return_view == s.return_view,
        typed(s, chars, now).wait == s.wait,
    decreases chars.len(),
{
    if chars.len() == 0 {
        assert(s.query + chars =~= s.query);
    } else {
        lemma_typed(s, chars.drop_last(), now);
        assert(s.query + chars =~= (s.query + chars.drop_last()).push(chars.last()));
    }
}

/// Leaving the search leads back to the screen that it was opened from, whatever was typed.
pub proof fn law_search_leads_back(s: AppView, chars: Seq<char>, now: Moment)
    requires
        s.view !is Search,
    ensures
        ({
            let open = s.told(Msg::SearchStart, now).0;
            let t = typed(open, chars, now);
            let closed = t.told(Msg::SearchCancel, now).0;
            &&& t.query == s.query + chars
            &&& t.mode is Search
            &&& closed.view == s.view
            &&& closed.mode is Normal
        }),
{
    lemma_typed(s.told(Msg::SearchStart, now).0, chars, now);
}

/// The help that was opened is closed by the same message, and begins at its beginning.
pub proof fn law_help_toggles(s: AppView, now: Moment)
    requires
        s.mode is Normal,
    ensures
        ({
            let open = s.told(Msg::ToggleHelp, now).0;
            let closed = open.told(Msg::ToggleHelp, now).0;
            &&& open.mode is Help && open.help_scroll == 0
            &&& closed == (AppView { status: None, help_scroll: 0, ..s })
        }),
{
    let closed = s.told(Msg::ToggleHelp, now).0.told(Msg::ToggleHelp, now).0;
    assert(closed =~= (AppView { status: None, help_scroll: 0, ..s }));
}

/// The focus goes round all parts of the screen with the notes, and of the others.
pub proof fn law_focus_goes_round(s: AppView)
    requires
        s.focus is Entries ==> s.view is Notes,
    ensures
        s.view is Notes ==> s.focus_on().focus_on().focus_on().focus == s.focus,
        s.view !is Notes ==> s.focus_on().focus_on().focus == s.focus,
{
}

/// A message at the bottom is gone with the next step: the step does not depend on it.
pub proof fn law_message_is_forgotten(s: AppView, words: Option<Seq<char>>, msg: Msg, now: Moment)
    ensures
        (AppView { status: words, ..s }).told(msg, now) == s.told(msg, now),
{
    assert((AppView { status: None, ..(AppView { status: words, ..s }) }) =~= (AppView {
        status: None,
        ..s
    }));
}

// ------------------------------------------------------------------------ moves

/// Whether a place lies in a list, or is the first where the list is empty.
pub open spec fn in_list(sel: int, len: int) -> bool {
    0 <= sel && (sel < len || (len == 0 && sel == 0))
}

/// A move keeps the place in its list, on whatever screen it is made.
#[verifier::spinoff_prover]
#[verifier::rlimit(60)]
pub proof fn law_moves_stay_in_lists(s: AppView, m: Move)
    requires
        s.mode !is Help,
        s.viewport >= 0,
        in_list(s.note_sel, s.notes_shown()),
        in_list(s.entry_sel, s.entry_count()),
        in_list(s.todo_date_sel, s.days_shown().len() as int),
        in_list(s.todo_sel, s.todos_shown().len() as int),
        in_list(s.project_sel, s.projects_shown().len() as int),
        in_list(s.task_sel, s.tasks_shown().len() as int),
        in_list(s.search_sel, s.hits.len() as int),
    ensures
        ({
            let t = s.stepped(m);
            &&& in_list(t.note_sel, t.notes_shown())
            &&& in_list(t.entry_sel, t.entry_count())
            &&& in_list(t.todo_date_sel, t.days_shown().len() as int)
            &&& in_list(t.todo_sel, t.todos_shown().len() as int)
            &&& in_list(t.project_sel, t.projects_shown().len() as int)
            &&& in_list(t.task_sel, t.tasks_shown().len() as int)
            &&& in_list(t.search_sel, t.hits.len() as int)
        }),
{
}

// ---------------------------------------------------------------- work outside

/// Whether an event is what a job is answered with.
pub open spec fn answers(j: JobView, e: EventView) -> bool {
    match j {
        JobView::LoadProjects => e is Projects,
        JobView::LoadAll => e is All,
        JobView::CreateProject { .. } => e is Created,
        JobView::OpenNote { .. } => e is Opened,
        JobView::Copy { .. } => e is Copied,
        _ => e is Saved,
    }
}

/// Whether a step either asks for something and waits for what it is answered with, or asks
/// for nothing and waits for nothing.
pub open spec fn is_in_step(step: Step) -> bool {
    match step.1 {
        Some(j) => forall|e: EventView| #[trigger] answers(j, e) ==> step.0.wait.takes(e),
        None => step.0.is_idle(),
    }
}

/// Whether a message can lead to work outside.
pub open spec fn can_lead_outside(msg: Msg) -> bool {
    msg is CycleTodo || msg is Reload || msg is MoveProject || msg is ToggleArchiveProject
        || msg is CopyTodo || msg is ConfirmYes
}

/// A message that cannot lead outside asks for nothing and waits for nothing.
#[verifier::spinoff_prover]
#[verifier::rlimit(60)]
proof fn lemma_plain_in_step(s: AppView, msg: Msg, now: Moment)
    requires
        !can_lead_outside(msg),
    ensures
        s.told(msg, now).1 is None,
        s.told(msg, now).0.wait == s.wait,
        s.told(msg, now).0.notes == s.notes,
        s.told(msg, now).0.projects == s.projects,
{
}

/// Going on with a state asks for what is waited for.
proof fn lemma_cycle_in_step(s: AppView, now: Moment)
    requires
        s.is_idle(),
    ensures
        is_in_step(s.note_task_cycled()),
        is_in_step(s.todo_cycled()),
        is_in_step(s.project_task_cycled(now)),
{
}

/// Working on projects, copying and deleting ask for what is waited for.
proof fn lemma_work_in_step(s: AppView, delta: int, now: Moment)
    requires
        s.is_idle(),
    ensures
        is_in_step(s.project_moved(delta)),
        is_in_step(s.archive_toggled(now)),
        is_in_step(s.copying()),
        is_in_step(s.confirmed()),
{
}

/// After a message, what is waited for is what was asked for.
pub proof fn law_message_waits_for_its_job(s: AppView, msg: Msg, now: Moment)
    requires
        s.is_idle(),
    ensures
        is_in_step(s.told(msg, now)),
{
    let t = AppView { status: None, ..s };
    if can_lead_outside(msg) {
        lemma_cycle_in_step(t, now);
        let delta = if msg is MoveProject {
            msg->MoveProject_0 as int
        } else {
            0
        };
        lemma_work_in_step(t, delta, now);
    } else {
        lemma_plain_in_step(s, msg, now);
    }
}

/// After an edit, what is waited for is what was asked for.
pub proof fn law_edit_waits_for_its_job(
    s: AppView,
    target: EditTarget,
    result: Option<Seq<char>>,
    now: Moment,
    id: Seq<char>,
)
    requires
        s.is_idle(),
    ensures
        is_in_step(s.edited(target, result, now, id)),
{
}

/// A change of a task list that projects follow leaves what is waited for in step.
proof fn lemma_synced_in_step(s: AppView, name: Seq<char>, removed: Seq<Seq<char>>, now: Moment)
    requires
        s.is_idle(),
    ensures
        is_in_step(s.today_synced(name, removed, now)),
        s.today_synced(name, removed, now).0.wait is Idle || (s.today_synced(
            name,
            removed,
            now,
        ).0.wait is Persist && s.today_synced(name, removed, now).0.wait->Persist_rows is None),
{
}

/// What follows once projects were read leaves what is waited for in step.
#[verifier::spinoff_prover]
#[verifier::rlimit(40)]
proof fn lemma_reloaded_in_step(s: AppView, after: AfterView, now: Moment)
    requires
        s.is_idle(),
    ensures
        is_in_step(s.after_reload(after, now)),
        s.after_reload(after, now).0.wait is Idle || ((after is Tasks || after is Cycled)
            && s.after_reload(after, now).0.wait is Persist && s.after_reload(
            after,
            now,
        ).0.wait->Persist_rows is None),
{
    match after {
        AfterView::Tasks { name, removed, count } => {
            let t = s.said(
                "タスクを保存しました（"@ + crate::number::decimal(count as nat) + " 件）"@,
            );
            lemma_synced_in_step(t, name, removed, now);
        },
        AfterView::Cycled { title, next, name } => {
            let tasks = s.tasks_shown();
            let at = steps::task_titled(tasks, title, 0);
            let c = if at < tasks.len() {
                AppView { task_sel: at, ..s }
            } else {
                s
            };
            lemma_synced_in_step(
                c.said(steps::state_words(title, next)),
                name,
                Seq::empty(),
                now,
            );
        },
        _ => {},
    }
}

/// What is left to be done while something is waited for: first whether projects are still
/// to be looked at, then how many jobs there are at most.
pub open spec fn work_left(wait: WaitView) -> (int, int) {
    match wait {
        WaitView::Idle => (0, 0),
        WaitView::Persist { rows, .. } => if rows is Some {
            (1, 0)
        } else {
            (0, 1)
        },
        WaitView::Row { .. } => (1, 0),
        WaitView::Changes { changes, at, .. } => (0, 2 + changes.len() - at),
        WaitView::Projects(after) => match after {
            AfterView::Tasks { .. } | AfterView::Cycled { .. } => (0, 2),
            _ => (0, 1),
        },
        WaitView::Order { .. } | WaitView::Archive { .. } | WaitView::Create { .. } => (0, 2),
        WaitView::Tasks { .. } | WaitView::Cycle { .. } => (0, 3),
        WaitView::Open { .. } => (0, 3),
        WaitView::SaveEntry { .. } => (0, 2),
        WaitView::EntryReload { .. } | WaitView::Reload | WaitView::Copy { .. } => (0, 1),
    }
}

/// What came of a job leads on to the next one, or to an end: what is waited for is what
/// was asked for, and there is less left to do.
#[verifier::spinoff_prover]
#[verifier::rlimit(60)]
pub proof fn law_work_comes_to_an_end(s: AppView, e: EventView, now: Moment)
    requires
        s.is_sound(),
        s.wait.takes(e),
    ensures
        is_in_step(s.resumed(e, now)),
        ({
            let before = work_left(s.wait);
            let after = work_left(s.resumed(e, now).0.wait);
            &&& 0 <= after.0 && 0 <= after.1
            &&& after.0 < before.0 || (after.0 == before.0 && after.1 < before.1)
        }),
{
    match (s.wait, e) {
        (WaitView::Projects(after), EventView::Projects(r)) => {
            let idle = AppView { wait: WaitView::Idle, ..s };
            lemma_reloaded_in_step(idle.projects_read(r), after, now);
        },
        _ => {},
    }
}

/// Few messages lead to work outside; all others only change the screen, and leave notes and
/// projects alone.
pub proof fn law_few_messages_lead_outside(s: AppView, msg: Msg, now: Moment)
    requires
        !can_lead_outside(msg),
    ensures
        s.told(msg, now).1 is None,
        s.told(msg, now).0.notes == s.notes,
        s.told(msg, now).0.projects == s.projects,
{
    lemma_plain_in_step(s, msg, now);
}

/// Closing the editor with the text as it was writes nothing and changes nothing but the
/// message at the bottom.
pub proof fn law_unchanged_text_is_not_written(
    s: AppView,
    target: EditTarget,
    now: Moment,
    id: Seq<char>,
)
    ensures
        s.edited(target, None, now, id).1 is None,
        s.edited(target, None, now, id).0 == (AppView {
            status: Some("変更はありません"@),
            ..s
        }),
{
}

/// An entry whose body was emptied is neither written nor changed, and none is made of an
/// empty body. Nor is a project without a name made, nor a checklist without tasks taken
/// over.
pub proof fn law_empty_text_is_refused(
    s: AppView,
    target: EditTarget,
    edited: Seq<char>,
    now: Moment,
    id: Seq<char>,
)
    requires
        match target {
            EditTarget::EntryBody { .. } | EditTarget::NewEntry => text::is_blank(
                editor::decomposed(edited).1,
            ),
            EditTarget::NewProject => steps::first_words(text::lines_of(edited), 0) is None,
            EditTarget::ProjectTasks { .. } => project::checklist_rows(
                text::lines_of(edited),
            ).len() == 0,
        },
    ensures
        s.edited(target, Some(edited), now, id).1 is None,
        s.edited(target, Some(edited), now, id).0 == (AppView {
            status: s.edited(target, Some(edited), now, id).0.status,
            ..s
        }),
{
    let t = s.edited(target, Some(edited), now, id).0;
    assert(t =~= (AppView { status: t.status, ..s }));
}

/// Asking for an entry to be deleted deletes nothing, and saying no leaves all notes as they
/// are.
pub proof fn law_deleting_asks_first(s: AppView, now: Moment)
    ensures
        ({
            let asked = s.told(Msg::DeleteEntry, now);
            let refused = asked.0.told(Msg::ConfirmNo, now);
            &&& asked.1 is None && asked.0.notes == s.notes
            &&& s.entry_at() is Some ==> asked.0.mode is Confirm && asked.0.confirm is Some
            &&& refused.1 is None && refused.0.notes == s.notes
            &&& refused.0.confirm is None && refused.0.mode is Normal
        }),
{
    let t = AppView { status: None, ..s };
    assert(t.entry_at() == s.entry_at()) by {
        assert(t.todos_shown() == s.todos_shown());
    }
}

/// While the focus is on the list, going on with a state writes nothing: the focus goes to
/// the tasks first.
pub proof fn law_first_the_focus_moves(s: AppView, now: Moment)
    requires
        s.focus is List,
        s.view !is Search,
    ensures
        s.told(Msg::CycleTodo, now).1 is None,
        s.told(Msg::CycleTodo, now).0.notes == s.notes,
        s.told(Msg::CycleTodo, now).0.projects == s.projects,
{
}

// ----------------------------------------------------------------- saves that fail

/// Whether a note is read as itself from its own text.
pub open spec fn reads_back(n: NoteView) -> bool {
    note::note_of(n.date, n.path, n.text()) == n
}

/// A note that was read from a text is read as itself from its own.
pub proof fn law_read_note_reads_back(date: Seq<char>, path: Seq<char>, t: Seq<char>)
    ensures
        reads_back(note::note_of(date, path, t)),
{
    let plain = text::normalized(t);
    text::lemma_split_joined(plain, '\n');
    text::lemma_normalized_clean(t);
    text::lemma_normalized_same(plain);
}

/// Putting a note back undoes a change of it.
proof fn lemma_reverted(s: AppView, t: AppView, n: int)
    requires
        0 <= n < s.notes.len(),
        reads_back(s.notes[n]),
        t.notes == s.notes.update(n, t.notes[n]),
        t.notes[n].date == s.notes[n].date,
        t.notes[n].path == s.notes[n].path,
    ensures
        t.reverted(n, s.notes[n].text()).notes == s.notes,
{
    assert(t.reverted(n, s.notes[n].text()).notes =~= s.notes);
}

/// Whether a save that failed leaves notes and projects as they were in a state, asks for
/// nothing more, and is told.
pub open spec fn is_put_back(s: AppView, step: Step, error: Seq<char>) -> bool {
    &&& step.0.notes == s.notes
    &&& step.0.projects == s.projects
    &&& step.0.status == Some("保存に失敗しました: "@ + error)
    &&& step.0.wait is Idle
    &&& step.1 is None
}

/// Where an entry that was deleted cannot be written, all is as it was, and that is told.
pub proof fn law_failed_delete_is_undone(s: AppView, error: Seq<char>, now: Moment, later: Moment)
    requires
        forall|i: int| 0 <= i < s.notes.len() ==> reads_back(#[trigger] s.notes[i]),
        s.told(Msg::ConfirmYes, now).1 is Some,
    ensures
        is_put_back(
            s,
            s.told(Msg::ConfirmYes, now).0.resumed(EventView::Saved(Some(error)), later),
            error,
        ),
{
    let step = s.told(Msg::ConfirmYes, now);
    match s.confirm {
        Some(Confirm::DeleteEntry { note_idx, entry_idx }) => {
            let n = note_idx as int;
            assert(reads_back(s.notes[n]));
            let idle = AppView { wait: WaitView::Idle, ..step.0 };
            lemma_reverted(s, idle, n);
        },
        None => {},
    }
}

/// Where an entry that was edited cannot be written, all is as it was, and that is told. The
/// projects do not follow what was edited.
pub proof fn law_failed_edit_is_undone(
    s: AppView,
    note_idx: usize,
    entry_idx: usize,
    edited: Seq<char>,
    error: Seq<char>,
    now: Moment,
    later: Moment,
    id: Seq<char>,
)
    requires
        forall|i: int| 0 <= i < s.notes.len() ==> reads_back(#[trigger] s.notes[i]),
        s.edited(EditTarget::EntryBody { note_idx, entry_idx }, Some(edited), now, id).1 is Some,
    ensures
        is_put_back(
            s,
            s.edited(
                EditTarget::EntryBody { note_idx, entry_idx },
                Some(edited),
                now,
                id,
            ).0.resumed(EventView::Saved(Some(error)), later),
            error,
        ),
{
    let step = s.entry_edited(note_idx as int, entry_idx as int, edited);
    let n = note_idx as int;
    assert(reads_back(s.notes[n]));
    let idle = AppView { wait: WaitView::Idle, ..step.0 };
    lemma_reverted(s, idle, n);
}

/// Where the state of a task in a body cannot be written, all is as it was, and that is told.
pub proof fn law_failed_state_is_undone(s: AppView, error: Seq<char>, now: Moment, later: Moment)
    requires
        s.view is Notes,
        forall|i: int| 0 <= i < s.notes.len() ==> reads_back(#[trigger] s.notes[i]),
        s.told(Msg::CycleTodo, now).1 is Some,
    ensures
        is_put_back(
            s,
            s.told(Msg::CycleTodo, now).0.resumed(EventView::Saved(Some(error)), later),
            error,
        ),
{
    let step = s.told(Msg::CycleTodo, now);
    let n = s.note_sel;
    assert(0 <= n < s.notes.len());
    assert(reads_back(s.notes[n]));
    let idle = AppView { wait: WaitView::Idle, ..step.0 };
    lemma_reverted(s, idle, n);
}

/// Where the state of a row of the task list cannot be written, all is as it was, the list
/// too, and that is told.
pub proof fn law_failed_row_is_undone(s: AppView, error: Seq<char>, now: Moment, later: Moment)
    requires
        s.view !is Notes,
        s.view !is Projects,
        forall|i: int| 0 <= i < s.notes.len() ==> reads_back(#[trigger] s.notes[i]),
        s.todos_shown()[s.todo_sel].0 >= 0,
        s.told(Msg::CycleTodo, now).1 is Some,
    ensures
        ({
            let step = s.told(Msg::CycleTodo, now).0.resumed(
                EventView::Saved(Some(error)),
                later,
            );
            is_put_back(s, step, error) && step.0.todos == s.todos
        }),
{
    let a = AppView { status: None, ..s };
    assert(a.todos_shown() == s.todos_shown());
    let step = s.told(Msg::CycleTodo, now);
    let n = s.todos_shown()[s.todo_sel].0;
    assert(0 <= n < s.notes.len());
    assert(reads_back(s.notes[n]));
    let idle = AppView { wait: WaitView::Idle, ..step.0 };
    lemma_reverted(s, idle, n);
}

// ------------------------------------------------------------------ kept choices

/// A text that is in a list is found in it.
proof fn lemma_text_at(list: Seq<Seq<char>>, s: Seq<char>, i: int, at: int)
    requires
        0 <= i <= at < list.len(),
        list[at] == s,
    ensures
        i <= steps::text_at(list, s, i) <= at,
        list[steps::text_at(list, s, i)] == s,
    decreases at - i,
{
    if list[i] != s {
        lemma_text_at(list, s, i + 1, at);
    }
}

/// A task that is in a list is found in it.
proof fn lemma_same_todo(list: Seq<PlacedView>, i: int, at: int)
    requires
        0 <= i <= at < list.len(),
    ensures
        ({
            let k = steps::same_todo(list, list[at].1.date, list[at].1.line, i);
            &&& i <= k <= at
            &&& list[k].1.date == list[at].1.date
            &&& list[k].1.line == list[at].1.line
        }),
    decreases at - i,
{
    if !(list[i].1.date == list[at].1.date && list[i].1.line == list[at].1.line) {
        lemma_same_todo(list, i + 1, at);
    }
}

/// Arranging tasks loses none and adds none.
pub proof fn law_arranged_holds_the_same(list: Seq<PlacedView>, by: types::TodoSort, p: PlacedView)
    ensures
        todos::arranged(list, by).len() == list.len(),
        todos::arranged(list, by).contains(p) <==> list.contains(p),
{
    if by !is Date {
        let keys = list.map_values(|p: PlacedView| todos::todo_key(p.1, by));
        let order = sort::order_of(keys);
        sort::law_order_is_stable(keys);
        let all = todos::arranged(list, by);
        if all.contains(p) {
            let k = choose|k: int| 0 <= k < all.len() && all[k] == p;
            assert(list[order[k]] == p);
        }
        if list.contains(p) {
            let i = choose|i: int| 0 <= i < list.len() && list[i] == p;
            sort::lemma_order_has_all(keys, i);
            let k = choose|k: int| 0 <= k < order.len() && order[k] == i;
            assert(all[k] == p);
        }
    }
}

/// The tasks of a day are those with that day.
proof fn lemma_of_day(list: Seq<PlacedView>, day: Seq<char>, p: PlacedView)
    ensures
        todos::of_day(list, day).contains(p) <==> list.contains(p) && p.1.date == day,
    decreases list.len(),
{
    if list.len() > 0 {
        let front = list.drop_last();
        lemma_of_day(front, day, p);
        let before = todos::of_day(front, day);
        assert(list =~= front.push(list.last()));
        lemma_push_has(front, list.last(), p);
        lemma_push_has(before, list.last(), p);
    }
}

/// What a list with one more item holds.
proof fn lemma_push_has<T>(list: Seq<T>, x: T, p: T)
    ensures
        list.push(x).contains(p) <==> list.contains(p) || p == x,
{
    let all = list.push(x);
    if list.contains(p) {
        let k = choose|k: int| 0 <= k < list.len() && list[k] == p;
        assert(all[k] == p);
    }
    if p == x {
        assert(all[list.len() as int] == p);
    }
    if all.contains(p) {
        let k = choose|k: int| 0 <= k < all.len() && all[k] == p;
        if k < list.len() {
            assert(list[k] == p);
        }
    }
}

/// The tasks that are shown are those of the filter.
proof fn lemma_unfinished(list: Seq<PlacedView>, open_only: bool, p: PlacedView)
    ensures
        todos::unfinished(list, open_only).contains(p) <==> list.contains(p) && (!open_only
            || p.1.status !is Done),
    decreases list.len(),
{
    if list.len() > 0 {
        let front = list.drop_last();
        lemma_unfinished(front, open_only, p);
        let before = todos::unfinished(front, open_only);
        assert(list =~= front.push(list.last()));
        lemma_push_has(front, list.last(), p);
        lemma_push_has(before, list.last(), p);
    }
}

/// A task that is still listed, on a day that is still listed, stays chosen.
proof fn lemma_kept(t: AppView, p: PlacedView)
    requires
        t.days_shown().contains(p.1.date),
        t.open_todos().contains(p),
    ensures
        ({
            let kept = t.todo_kept(Some((p.1.date, p.1.line)));
            let list = kept.todos_shown();
            &&& 0 <= kept.todo_sel < list.len()
            &&& list[kept.todo_sel].1.date == p.1.date
            &&& list[kept.todo_sel].1.line == p.1.line
        }),
{
    let day = p.1.date;
    let days = t.days_shown();
    let i = choose|i: int| 0 <= i < days.len() && days[i] == day;
    lemma_text_at(days, day, 0, i);
    let at = steps::text_at(days, day, 0);
    let c = AppView { todo_date_sel: at, ..t };
    assert(c.days_shown() == days);
    assert(c.day() == Some(day));
    let base = todos::of_day(t.open_todos(), day);
    lemma_of_day(t.open_todos(), day, p);
    law_arranged_holds_the_same(base, t.todo_sort, p);
    let list = c.todos_shown();
    assert(list.contains(p));
    let k = choose|k: int| 0 <= k < list.len() && list[k] == p;
    lemma_same_todo(list, 0, k);
    let kept = t.todo_kept(Some((p.1.date, p.1.line)));
    assert(kept.todos_shown() == list);
}

/// The task that is chosen is one of the day that is chosen.
proof fn lemma_chosen(s: AppView)
    requires
        0 <= s.todo_sel < s.todos_shown().len(),
    ensures
        s.days_shown().contains(s.todos_shown()[s.todo_sel].1.date),
        s.open_todos().contains(s.todos_shown()[s.todo_sel]),
{
    let p = s.todos_shown()[s.todo_sel];
    let day = s.day()->0;
    assert(s.todos_shown().contains(p));
    let base = todos::of_day(s.open_todos(), day);
    law_arranged_holds_the_same(base, s.todo_sort, p);
    lemma_of_day(s.open_todos(), day, p);
    assert(s.days_shown()[s.todo_date_sel] == day);
}

/// The task that is chosen stays chosen when the order changes.
pub proof fn law_order_keeps_the_choice(s: AppView)
    requires
        0 <= s.todo_sel < s.todos_shown().len(),
    ensures
        ({
            let p = s.todos_shown()[s.todo_sel].1;
            let t = s.sort_cycled();
            let q = t.todos_shown()[t.todo_sel].1;
            &&& 0 <= t.todo_sel < t.todos_shown().len()
            &&& q.date == p.date
            &&& q.line == p.line
        }),
{
    let p = s.todos_shown()[s.todo_sel];
    let a = AppView { todo_sort: s.todo_sort.after(), ..s };
    lemma_chosen(s);
    assert(a.days_shown() == s.days_shown());
    assert(a.open_todos() == s.open_todos());
    lemma_kept(a, p);
    let kept = a.todo_kept(s.todo_mark());
    let t = s.sort_cycled();
    assert(t.todos_shown() == kept.todos_shown());
}

/// The task that is chosen stays chosen when tasks that are done come or go, as long as it
/// is not one of them and its day is among those that are listed.
pub proof fn law_filter_keeps_the_choice(s: AppView)
    requires
        0 <= s.todo_sel < s.todos_shown().len(),
        s.todo_open_only || s.todos_shown()[s.todo_sel].1.status !is Done,
        (AppView { todo_open_only: !s.todo_open_only, ..s }).days_shown().contains(
            s.todos_shown()[s.todo_sel].1.date,
        ),
    ensures
        ({
            let p = s.todos_shown()[s.todo_sel].1;
            let t = s.filter_toggled();
            let q = t.todos_shown()[t.todo_sel].1;
            &&& 0 <= t.todo_sel < t.todos_shown().len()
            &&& q.date == p.date
            &&& q.line == p.line
        }),
{
    let p = s.todos_shown()[s.todo_sel];
    let a = AppView { todo_open_only: !s.todo_open_only, ..s };
    lemma_chosen(s);
    lemma_unfinished(s.todos, s.todo_open_only, p);
    lemma_unfinished(s.todos, !s.todo_open_only, p);
    lemma_kept(a, p);
    let kept = a.todo_kept(s.todo_mark());
    let t = s.filter_toggled();
    assert(t.todos_shown() == kept.todos_shown());
}

} // verus!
