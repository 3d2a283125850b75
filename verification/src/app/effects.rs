//! What each message does to the state, and what it asks for.

use vstd::prelude::*;

use crate::app::jobs::JobView;
use crate::app::reading;
use crate::app::state::AppView;
use crate::app::todos;
use crate::app::types;
use crate::app::types::{Focus, Move, Msg, View};
use crate::calendar::Moment;

verus! {

// --------------------------------------------------------------------------- moving

/// The lesser of two numbers.
pub open spec fn min(a: int, b: int) -> int {
    if a <= b {
        a
    } else {
        b
    }
}

/// A cursor goes one line, half a page or a page up or down, or to an end, and stops at the
/// ends of its list. Half a page is at least one line.
pub proof fn law_cursor_moves(at: int, last: int, page: int)
    requires
        0 <= at <= last,
        1 <= page,
    ensures
        types::moved(at, Move::Down, last, page) == at + min(1, last - at),
        types::moved(at, Move::Up, last, page) == at - min(1, at),
        types::moved(at, Move::PageDown, last, page) == at + min(page, last - at),
        types::moved(at, Move::PageUp, last, page) == at - min(page, at),
        types::moved(at, Move::Top, last, page) == 0,
        types::moved(at, Move::Bottom, last, page) == last,
        ({
            let half = if page == 1 {
                1
            } else {
                page / 2
            };
            &&& types::moved(at, Move::HalfDown, last, page) == at + min(half, last - at)
            &&& types::moved(at, Move::HalfUp, last, page) == at - min(half, at)
        }),
{
}

/// The lists that a cursor can stand in.
pub enum Pane {
    Notes,
    Entries,
    Body,
    Days,
    Todos,
    Projects,
    Tasks,
    Hits,
}

/// The list that the keys for moving act on.
pub open spec fn pane(s: AppView) -> Pane {
    match s.view {
        View::Notes => match s.focus {
            Focus::List => Pane::Notes,
            Focus::Entries => Pane::Entries,
            Focus::Detail => Pane::Body,
        },
        View::Todo => if s.focus is Detail {
            Pane::Todos
        } else {
            Pane::Days
        },
        View::Projects => if s.focus is Detail {
            Pane::Tasks
        } else {
            Pane::Projects
        },
        View::Search => Pane::Hits,
    }
}

/// The place of a cursor after a move in a list of this length.
pub open spec fn place_after(sel: int, m: Move, len: int, page: int) -> int {
    if len == 0 {
        0
    } else {
        types::moved(sel, m, len - 1, page)
    }
}

/// A move changes the cursor of the list in focus and no other; the cursors of the lists that
/// depend on it go back to their beginning. Nothing else changes but how far the body is
/// scrolled.
#[verifier::spinoff_prover]
#[verifier::rlimit(60)]
pub proof fn law_move_changes_one_cursor(s: AppView, m: Move)
    requires
        s.mode !is Help,
    ensures
        ({
            let t = s.stepped(m);
            let p = pane(s);
            let page = s.viewport;
            let notes = s.notes_shown();
            let entries = s.entry_count();
            let days = s.days_shown().len() as int;
            let projects = s.projects_shown().len() as int;
            let spots = s.spots().len() as int;
            &&& t.note_sel == if p is Notes {
                place_after(s.note_sel, m, notes, page)
            } else {
                s.note_sel
            }
            &&& t.entry_sel == if p is Entries {
                place_after(s.entry_sel, m, entries, page)
            } else if p is Notes && notes != 0 {
                0
            } else {
                s.entry_sel
            }
            &&& t.note_task_sel == if p is Body && spots != 0 {
                place_after(s.note_task_sel, m, spots, page)
            } else if (p is Notes && notes != 0) || (p is Entries && entries != 0) {
                0
            } else {
                s.note_task_sel
            }
            &&& t.todo_date_sel == if p is Days {
                place_after(s.todo_date_sel, m, days, page)
            } else {
                s.todo_date_sel
            }
            &&& t.todo_sel == if p is Todos {
                place_after(s.todo_sel, m, s.todos_shown().len() as int, page)
            } else if p is Days && days != 0 {
                0
            } else {
                s.todo_sel
            }
            &&& t.project_sel == if p is Projects {
                place_after(s.project_sel, m, projects, page)
            } else {
                s.project_sel
            }
            &&& t.task_sel == if p is Tasks {
                place_after(s.task_sel, m, s.tasks_shown().len() as int, page)
            } else if p is Projects && projects != 0 {
                0
            } else {
                s.task_sel
            }
            &&& t.search_sel == if p is Hits {
                place_after(s.search_sel, m, s.hits.len() as int, page)
            } else {
                s.search_sel
            }
            &&& t == (AppView {
                note_sel: t.note_sel,
                entry_sel: t.entry_sel,
                detail_scroll: t.detail_scroll,
                note_task_sel: t.note_task_sel,
                todo_date_sel: t.todo_date_sel,
                todo_sel: t.todo_sel,
                project_sel: t.project_sel,
                task_sel: t.task_sel,
                search_sel: t.search_sel,
                ..s
            })
        }),
{
}

/// The body is scrolled no further than needed for the task that is chosen in it to be on the
/// screen. A body without tasks is scrolled itself, and one that is newly chosen is shown from
/// its beginning.
#[verifier::spinoff_prover]
#[verifier::rlimit(40)]
pub proof fn law_chosen_task_is_on_the_screen(s: AppView, m: Move)
    requires
        s.mode !is Help,
        s.viewport >= 1,
        s.view is Notes,
        0 <= s.note_task_sel,
        s.note_task_sel < s.spots().len() || s.spots().len() == 0,
        s.detail_scroll >= 0,
    ensures
        ({
            let t = s.stepped(m);
            let spots = s.spots();
            if s.focus is Detail && spots.len() > 0 {
                let at = spots[t.note_task_sel];
                &&& t.detail_scroll <= at < t.detail_scroll + s.viewport
                &&& s.detail_scroll <= at < s.detail_scroll + s.viewport ==> t.detail_scroll
                    == s.detail_scroll
                &&& at < s.detail_scroll ==> t.detail_scroll == at
                &&& at >= s.detail_scroll + s.viewport ==> t.detail_scroll + s.viewport == at + 1
            } else if s.focus is Detail {
                t.detail_scroll == types::moved(
                    s.detail_scroll,
                    m,
                    if s.detail().len() == 0 {
                        0
                    } else {
                        s.detail().len() - 1
                    },
                    s.viewport,
                )
            } else if (s.focus is List && s.notes_shown() != 0) || (s.focus is Entries
                && s.entry_count() != 0) {
                t.detail_scroll == 0
            } else {
                t.detail_scroll == s.detail_scroll
            }
        }),
{
    let t = s.stepped(m);
    if s.focus is Detail && s.spots().len() > 0 {
        let u = AppView {
            note_task_sel: s.placed(s.note_task_sel, m, s.spots().len() as int),
            ..s
        };
        assert(u.detail() == s.detail());
        assert(u.spots() == s.spots());
        crate::app::state::lemma_task_spots(s.detail());
    }
}

// -------------------------------------------------------------------------- switches

/// Each switch turns what it is for and leaves the data alone; turned twice it is as it was.
pub proof fn law_switches_turn(s: AppView, now: Moment)
    ensures
        ({
            let filter = s.told(Msg::ToggleTodoFilter, now).0;
            let archived = s.told(Msg::ToggleArchived, now).0;
            let notes = s.told(Msg::ToggleAllNotes, now).0;
            let order = s.told(Msg::CycleTodoSort, now).0;
            &&& filter.todo_open_only == !s.todo_open_only && filter.todos == s.todos
            &&& filter.show_archived == s.show_archived && filter.show_all_notes
                == s.show_all_notes && filter.todo_sort == s.todo_sort
            &&& archived.show_archived == !s.show_archived && archived.todo_open_only
                == s.todo_open_only && archived.show_all_notes == s.show_all_notes
            &&& notes.show_all_notes == !s.show_all_notes && notes.show_archived
                == s.show_archived && notes.todo_open_only == s.todo_open_only
            &&& order.todo_sort != s.todo_sort && order.todo_open_only == s.todo_open_only
            &&& order.todo_sort is Date == s.todo_sort is Project
            &&& order.todo_sort is Status == s.todo_sort is Date
        }),
{
}

// --------------------------------------------------------------------------- search

/// Whether a state shows what its query finds, the first hit chosen.
pub open spec fn shows_hits(t: AppView) -> bool {
    t.hits == reading::hits_of(t.notes, t.query) && t.search_sel == 0
}

/// What is typed goes to the end of the query, the last character is taken away, or all of
/// them; each time the notes are searched again.
pub proof fn law_query_is_searched(s: AppView, c: char, now: Moment)
    ensures
        ({
            let typed = s.told(Msg::SearchInput(c), now).0;
            let back = s.told(Msg::SearchBackspace, now).0;
            let clear = s.told(Msg::SearchClear, now).0;
            &&& typed.query == s.query.push(c) && shows_hits(typed)
            &&& s.query.len() > 0 ==> back.query == s.query.take(s.query.len() - 1)
            &&& s.query.len() == 0 ==> back.query == s.query
            &&& shows_hits(back)
            &&& clear.query.len() == 0 && shows_hits(clear)
            &&& typed.notes == s.notes && back.notes == s.notes && clear.notes == s.notes
        }),
{
    assert(s.query.len() > 0 ==> s.query.drop_last() =~= s.query.take(s.query.len() - 1));
}

/// Going to a hit shows its entry: the note and the entry that it points to are chosen, the body
/// is in focus, and the note is among those that are listed.
pub proof fn law_hit_is_gone_to(s: AppView, now: Moment)
    requires
        0 <= s.search_sel < s.hits.len(),
        0 <= s.hits[s.search_sel].note_idx < s.notes.len(),
    ensures
        ({
            let t = s.told(Msg::SearchCommit, now).0;
            let h = s.hits[s.search_sel];
            &&& t.view is Notes && t.mode is Normal && t.focus is Detail
            &&& t.note_sel == h.note_idx && t.entry_sel == h.entry_idx
            &&& t.note_sel < t.notes_shown()
            &&& t.detail_scroll == 0 && t.note_task_sel == 0
            &&& t.notes == s.notes && t.query == s.query && t.hits == s.hits
        }),
{
}

// --------------------------------------------------------------------- other screens

/// Another screen is the one that was asked for, with its list in focus. The search remembers
/// the screen that it was opened from and takes what is typed; the other screens do not.
pub proof fn law_screens_are_switched(s: AppView, view: View, now: Moment)
    ensures
        ({
            let t = s.told(Msg::SwitchView(view), now).0;
            &&& t.view == view && t.focus is List
            &&& view is Search ==> t.mode is Search
            &&& view is Search && s.view !is Search ==> t.return_view == s.view
            &&& !(view is Search && s.view !is Search) ==> t.return_view == s.return_view
            &&& view !is Search && s.mode is Search ==> t.mode is Normal
            &&& view !is Search && s.mode !is Search ==> t.mode == s.mode
            &&& t.note_sel == s.note_sel && t.entry_sel == s.entry_sel && t.todo_sel == s.todo_sel
            &&& t.project_sel == s.project_sel && t.query == s.query && t.hits == s.hits
        }),
{
}

/// The focus goes from the list to the body; on the screen of notes over the entries. To the
/// right it stops at the body, to the left at the list.
pub proof fn law_focus_moves(s: AppView, now: Moment)
    ensures
        ({
            let r = s.told(Msg::FocusRight, now).0.focus;
            let l = s.told(Msg::FocusLeft, now).0.focus;
            &&& s.view is Notes ==> match s.focus {
                Focus::List => r is Entries && l is List,
                Focus::Entries => r is Detail && l is List,
                Focus::Detail => r is Detail && l is Entries,
            }
            &&& s.view !is Notes && s.focus is List ==> r is Detail && l is List
            &&& s.view !is Notes && s.focus is Detail ==> r is Detail && l is List
        }),
{
}

// ----------------------------------------------------------------------------- rest

/// While the help is shown, moves scroll it, by five rows a page, and nothing else changes.
pub proof fn law_help_is_scrolled(s: AppView, m: Move, now: Moment)
    requires
        s.mode is Help,
        s.help_scroll >= 0,
    ensures
        ({
            let t = s.told(Msg::Move(m), now).0;
            &&& t == (AppView { help_scroll: t.help_scroll, status: None, ..s })
            &&& m is Up ==> t.help_scroll == s.help_scroll - min(1, s.help_scroll)
            &&& m is Down && s.help_scroll < usize::MAX - 1 ==> t.help_scroll == s.help_scroll + 1
            &&& m is PageUp ==> t.help_scroll == s.help_scroll - min(5, s.help_scroll)
            &&& m is PageDown && s.help_scroll < usize::MAX - 6 ==> t.help_scroll == s.help_scroll
                + 5
            &&& m is Top ==> t.help_scroll == 0
        }),
{
    let t = s.told(Msg::Move(m), now).0;
    assert(t =~= (AppView { help_scroll: t.help_scroll, status: None, ..s }));
}

/// The focus goes round: from the list over the entries to the body on the screen of notes, from
/// the list to the body on the others, and from the body back to the list.
pub proof fn law_focus_goes_on(s: AppView, now: Moment)
    ensures
        ({
            let t = s.told(Msg::FocusCycle, now).0;
            &&& t == s.told(Msg::ToggleFocus, now).0
            &&& s.focus is List && s.view is Notes ==> t.focus is Entries
            &&& s.focus is List && s.view !is Notes ==> t.focus is Detail
            &&& s.focus is Entries && s.view is Notes ==> t.focus is Detail
            &&& s.focus is Detail ==> t.focus is List
            &&& t.view == s.view && t.mode == s.mode && t.note_sel == s.note_sel && t.entry_sel
                == s.entry_sel
        }),
{
}

/// Where fewer notes or projects are listed than before, the place that is chosen still lies in
/// its list.
pub proof fn law_switches_keep_places(s: AppView, now: Moment)
    requires
        0 <= s.note_sel,
        0 <= s.project_sel,
    ensures
        ({
            let notes = s.told(Msg::ToggleAllNotes, now).0;
            let projects = s.told(Msg::ToggleArchived, now).0;
            &&& notes.notes_shown() > 0 ==> 0 <= notes.note_sel < notes.notes_shown()
            &&& s.note_sel < notes.notes_shown() ==> notes.note_sel == s.note_sel
                && notes.detail_scroll == s.detail_scroll
            &&& projects.projects_shown().len() > 0 ==> 0 <= projects.project_sel
                < projects.projects_shown().len()
            &&& s.project_sel < projects.projects_shown().len() ==> projects.project_sel
                == s.project_sel
            &&& projects.task_sel == 0
        }),
{
}

/// The task list of the chosen day is copied as Markdown, on its own screen and where it has
/// tasks; else nothing is.
pub proof fn law_task_list_is_copied(s: AppView, now: Moment)
    ensures
        ({
            let step = s.told(Msg::CopyTodo, now);
            if s.view is Todo && s.day() is Some && s.todos_shown().len() > 0 {
                step.1 == Some(
                    JobView::Copy { text: todos::markdown_of(s.day()->0, s.todos_shown()) },
                )
            } else {
                step.1 is None && step.0.wait == s.wait
            }
        }),
{
    let a = AppView { status: None, ..s };
    assert(a.todos_shown() == s.todos_shown());
    assert(a.day() == s.day());
}

/// The program ends when that is asked for; a message is put away when that is, and nothing else
/// changes.
pub proof fn law_quit_and_dismiss(s: AppView, now: Moment)
    ensures
        s.told(Msg::Quit, now).0 == (AppView { status: None, should_quit: true, ..s }),
        s.told(Msg::DismissStatus, now).0 == (AppView { status: None, ..s }),
        s.told(Msg::ConfirmNo, now).0.confirm is None,
        s.told(Msg::Reload, now).1 == Some(JobView::LoadAll),
        s.told(Msg::SearchStart, now).0.view is Search,
        s.told(Msg::SearchCancel, now).0.view == s.return_view,
{
}

} // verus!
