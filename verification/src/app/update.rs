//! Messages that change nothing but the screen.

use vstd::prelude::*;
use vstd::slice::slice_subrange;
use vstd::view::View as _;

use crate::app::reading::search;
use crate::app::state;
use crate::app::state::{App, AppView};
use crate::app::steps;
use crate::app::todos;
use crate::app::todos::{collect_todos, Placed};
use crate::app::types;
use crate::app::types::{clamp, shift, Focus, Mode, Move, View};
use crate::number;
use crate::number::push_number;
use crate::text;
use crate::text::{chars_of, same_string, string_of};

verus! {

/// A text, a number and a text.
pub(crate) fn counted(before: &str, n: usize, after: &str) -> (r: String)
    ensures
        r@ == before@ + number::decimal(n as nat) + after@,
{
    let mut s: String = before.to_owned();
    push_number(&mut s, n as u64);
    s.append(after);
    assert(s@ =~= before@ + number::decimal(n as nat) + after@);
    s
}

/// Two texts as one.
pub(crate) fn concat(a: &str, b: &str) -> (r: String)
    ensures
        r@ == a@ + b@,
{
    let mut s: String = a.to_owned();
    s.append(b);
    s
}

/// What an optional day and line hold.
pub closed spec fn mark_view(m: Option<(String, usize)>) -> Option<(Seq<char>, int)> {
    match m {
        Some((day, line)) => Some((day@, line as int)),
        None => None,
    }
}

/// Finds a task by its day and line.
fn find_todo(list: &Vec<&Placed>, day: &str, line: usize) -> (r: usize)
    ensures
        r == steps::same_todo(todos::placed_refs(list@), day@, line as int, 0),
        r <= list@.len(),
{
    let ghost all = todos::placed_refs(list@);
    let mut i: usize = 0;
    while i < list.len() && !(same_string(list[i].1.date.as_str(), day) && list[i].1.line == line)
        invariant
            i <= list.len(),
            all == todos::placed_refs(list@),
            steps::same_todo(all, day@, line as int, 0) == steps::same_todo(
                all,
                day@,
                line as int,
                i as int,
            ),
        decreases list.len() - i,
    {
        assert(all[i as int] == todos::placed_view(*list@[i as int]));
        i += 1;
    }
    if i < list.len() {
        assert(all[i as int] == todos::placed_view(*list@[i as int]));
    }
    i
}

/// Finds a text in a list.
pub(crate) fn find_text(list: &Vec<String>, s: &str) -> (r: usize)
    ensures
        r == steps::text_at(text::texts(list@), s@, 0),
        r <= list@.len(),
{
    let ghost all = text::texts(list@);
    let mut i: usize = 0;
    while i < list.len() && !same_string(list[i].as_str(), s)
        invariant
            i <= list.len(),
            all == text::texts(list@),
            steps::text_at(all, s@, 0) == steps::text_at(all, s@, i as int),
        decreases list.len() - i,
    {
        assert(all[i as int] == list@[i as int]@);
        i += 1;
    }
    if i < list.len() {
        assert(all[i as int] == list@[i as int]@);
    }
    i
}

impl App {
    /// Shows a message at the bottom.
    pub fn report(&mut self, message: String)
        ensures
            final(self)@ == old(self)@.said(message@),
    {
        self.status = Some(message);
        assert(self@ =~= old(self)@.said(message@));
    }

    /// Shows a message at the bottom.
    pub(crate) fn say(&mut self, message: &str)
        ensures
            final(self)@ == old(self)@.said(message@),
    {
        self.report(message.to_owned());
    }

    /// Whether the logo is shown at a moment, in milliseconds.
    pub fn splash_visible(&self, now_ms: u64) -> (r: bool)
        ensures
            r == match self.splash {
                Some(until) => now_ms < until,
                None => false,
            },
    {
        match self.splash {
            Some(until) => now_ms < until,
            None => false,
        }
    }

    /// Closes the logo.
    pub fn dismiss_splash(&mut self)
        ensures
            final(self)@ == (AppView { splash: None, ..old(self)@ }),
    {
        self.splash = None;
        assert(self@ =~= (AppView { splash: None, ..old(self)@ }));
    }

    /// Takes the request for the editor, if there is one.
    pub fn take_edit_request(&mut self) -> (r: Option<crate::editor::EditRequest>)
        ensures
            state::request_view(r) == old(self)@.pending_edit,
            final(self)@ == (AppView { pending_edit: None, ..old(self)@ }),
    {
        let r = self.pending_edit.take();
        assert(self@ =~= (AppView { pending_edit: None, ..old(self)@ }));
        r
    }

    /// Collects the tasks again.
    pub fn rebuild_todos(&mut self)
        requires
            old(self)@.is_sound(),
        ensures
            final(self)@ == old(self)@.rebuilt(),
    {
        assert forall|i: int| 0 <= i < self.notes@.len() implies (#[trigger] self.notes@[i])@.fits() by {
            assert(self@.notes[i] == self.notes@[i]@);
        }
        self.todos = collect_todos(&self.notes);
        let ghost s = AppView { todos: todos::all_todos(old(self)@.notes), ..old(self)@ };
        assert(self@ =~= s);
        let count: usize = self.todo_count();
        clamp(&mut self.todo_sel, count);
        assert(self@ =~= old(self)@.rebuilt());
    }

    /// Makes the search again.
    pub(crate) fn run_search(&mut self)
        requires
            old(self)@.is_sound(),
        ensures
            final(self)@ == old(self)@.searched(),
    {
        assert forall|i: int| 0 <= i < self.notes@.len() implies (#[trigger] self.notes@[i])@.fits() by {
            assert(self@.notes[i] == self.notes@[i]@);
        }
        self.search_sel = 0;
        self.hits = search(&self.notes, self.query.as_str());
        assert(self@ =~= old(self)@.searched());
    }

    /// Puts all places into their lists.
    pub(crate) fn clamp_all(&mut self)
        ensures
            final(self)@ == old(self)@.all_clamped(),
    {
        let ghost s = old(self)@;
        let shown: usize = self.visible_notes();
        clamp(&mut self.note_sel, shown);
        let ghost a = AppView { note_sel: types::clamped(s.note_sel, s.notes_shown()), ..s };
        assert(self@ =~= a);
        let entries: usize = self.entry_total();
        clamp(&mut self.entry_sel, entries);
        let ghost b = AppView { entry_sel: types::clamped(a.entry_sel, a.entry_count()), ..a };
        assert(self@ =~= b);
        let count: usize = self.todo_count();
        clamp(&mut self.todo_sel, count);
        let projects: usize = self.projects.len();
        clamp(&mut self.project_sel, projects);
        let hits: usize = self.hits.len();
        clamp(&mut self.search_sel, hits);
        self.detail_scroll = 0;
        assert(self@.projects.len() == projects && self@.hits.len() == hits);
        assert(self@ =~= s.all_clamped());
    }

    /// Goes to a screen.
    pub(crate) fn switch_view(&mut self, view: View)
        ensures
            final(self)@ == old(self)@.switched(view),
    {
        if view == View::Search && self.view != View::Search {
            self.return_view = self.view;
        }
        self.view = view;
        self.focus = Focus::List;
        if view == View::Search {
            self.mode = Mode::Search;
        } else if self.mode == Mode::Search {
            self.mode = Mode::Normal;
        }
        assert(self@ =~= old(self)@.switched(view));
    }

    /// Goes to the next screen in the circle.
    pub(crate) fn next_view(&mut self)
        ensures
            final(self)@ == old(self)@.turned(1),
    {
        let next: View = match self.view {
            View::Notes => View::Todo,
            View::Todo => View::Projects,
            View::Projects => View::Search,
            View::Search => View::Notes,
        };
        assert(next == View::at((self.view.place() + 1) % 4));
        self.switch_view(next);
    }

    /// Goes to the screen before in the circle.
    pub(crate) fn prev_view(&mut self)
        ensures
            final(self)@ == old(self)@.turned(-1),
    {
        let next: View = match self.view {
            View::Notes => View::Search,
            View::Todo => View::Notes,
            View::Projects => View::Todo,
            View::Search => View::Projects,
        };
        assert(next == View::at((self.view.place() - 1) % 4));
        self.switch_view(next);
    }

    /// Moves the focus one to the right.
    pub(crate) fn move_focus_right(&mut self)
        ensures
            final(self)@ == old(self)@.focus_right(),
    {
        let notes: bool = self.view == View::Notes;
        self.focus = match self.focus {
            Focus::List => if notes {
                Focus::Entries
            } else {
                Focus::Detail
            },
            _ => Focus::Detail,
        };
        assert(self@ =~= old(self)@.focus_right());
    }

    /// Moves the focus one to the left.
    pub(crate) fn move_focus_left(&mut self)
        ensures
            final(self)@ == old(self)@.focus_left(),
    {
        let notes: bool = self.view == View::Notes;
        self.focus = match self.focus {
            Focus::Detail => if notes {
                Focus::Entries
            } else {
                Focus::List
            },
            _ => Focus::List,
        };
        assert(self@ =~= old(self)@.focus_left());
    }

    /// Moves the focus one to the right, and from the end to the beginning.
    pub(crate) fn cycle_focus(&mut self)
        ensures
            final(self)@ == old(self)@.focus_on(),
    {
        let notes: bool = self.view == View::Notes;
        self.focus = match self.focus {
            Focus::List => if notes {
                Focus::Entries
            } else {
                Focus::Detail
            },
            Focus::Entries => Focus::Detail,
            Focus::Detail => Focus::List,
        };
        assert(self@ =~= old(self)@.focus_on());
    }

    /// Scrolls the body so that the task that is chosen is on the screen.
    pub(crate) fn scroll_to_note_task(&mut self)
        requires
            old(self)@.is_sound(),
        ensures
            final(self)@ == old(self)@.scrolled(),
    {
        let spots: Vec<usize> = self.note_task_positions();
        assert(spots@.len() == state::places(spots@).len());
        if self.note_task_sel < spots.len() {
            let at: usize = spots[self.note_task_sel];
            assert(state::places(spots@)[self.note_task_sel as int] == at);
            let height: usize = if self.viewport < 1 {
                1
            } else {
                self.viewport
            };
            if at < self.detail_scroll {
                self.detail_scroll = at;
            } else if at - self.detail_scroll >= height {
                proof {
                    state::lemma_task_spots(old(self)@.detail());
                }
                self.detail_scroll = at - (height - 1);
            }
        }
        assert(self@ =~= old(self)@.scrolled());
    }

    /// Moves a cursor.
    pub(crate) fn apply_move(&mut self, m: Move)
        requires
            old(self)@.is_sound(),
        ensures
            final(self)@ == old(self)@.stepped(m),
    {
        let ghost s = old(self)@;
        if self.mode == Mode::Help {
            self.help_scroll = shift(self.help_scroll, m, usize::MAX - 1, 5);
            assert(self@ =~= s.stepped(m));
            return;
        }
        if self.view == View::Notes && self.focus == Focus::Entries {
            let len: usize = self.entry_total();
            if len == 0 {
                self.entry_sel = 0;
            } else {
                self.entry_sel = shift(self.entry_sel, m, len - 1, self.viewport);
                self.detail_scroll = 0;
                self.note_task_sel = 0;
            }
            assert(self@ =~= s.stepped(m));
            return;
        }
        if self.view == View::Notes && self.focus == Focus::Detail {
            self.move_in_body(m);
            return;
        }
        if self.view == View::Projects && self.focus == Focus::Detail {
            let len: usize = self.task_count();
            self.task_sel = self.place(self.task_sel, m, len);
            assert(self@ =~= s.stepped(m));
            return;
        }
        if self.view == View::Todo && self.focus == Focus::Detail {
            let len: usize = self.todo_count();
            self.todo_sel = self.place(self.todo_sel, m, len);
            assert(self@ =~= s.stepped(m));
            return;
        }
        self.move_in_list(m);
    }

    /// A place after a move in a list.
    fn place(&self, sel: usize, m: Move, len: usize) -> (r: usize)
        ensures
            r == self@.placed(sel as int, m, len as int),
    {
        if len == 0 {
            0
        } else {
            shift(sel, m, len - 1, self.viewport)
        }
    }

    /// Moves the cursor in the body: over its tasks, or where it has none, over its lines.
    fn move_in_body(&mut self, m: Move)
        requires
            old(self)@.is_sound(),
            old(self)@.view is Notes,
            old(self)@.focus is Detail,
            old(self)@.mode !is Help,
        ensures
            final(self)@ == old(self)@.stepped(m),
    {
        let ghost s = old(self)@;
        let spots: Vec<usize> = self.note_task_positions();
        assert(spots@.len() == state::places(spots@).len());
        let count: usize = spots.len();
        if count == 0 {
            let lines = self.detail_lines();
            assert(lines@.len() == types::detail_views(lines@).len());
            let max: usize = if lines.len() < 1 {
                0
            } else {
                lines.len() - 1
            };
            self.detail_scroll = shift(self.detail_scroll, m, max, self.viewport);
            assert(self@ =~= s.stepped(m));
        } else {
            self.note_task_sel = self.place(self.note_task_sel, m, count);
            let ghost t = AppView {
                note_task_sel: s.placed(s.note_task_sel, m, count as int),
                ..s
            };
            assert(self@ =~= t);
            self.scroll_to_note_task();
            assert(self@ == s.stepped(m));
        }
    }

    /// Moves the cursor in the list of a screen.
    fn move_in_list(&mut self, m: Move)
        requires
            old(self)@.mode !is Help,
            !(old(self)@.view is Notes && old(self)@.focus !is List),
            !(old(self)@.view is Projects && old(self)@.focus is Detail),
            !(old(self)@.view is Todo && old(self)@.focus is Detail),
        ensures
            final(self)@ == old(self)@.stepped(m),
    {
        let ghost s = old(self)@;
        match self.view {
            View::Notes => {
                let len: usize = self.visible_notes();
                let to: usize = self.place(self.note_sel, m, len);
                self.note_sel = to;
                if len > 0 {
                    self.entry_sel = 0;
                    self.detail_scroll = 0;
                    self.note_task_sel = 0;
                }
            },
            View::Todo => {
                let list: Vec<String> = self.visible_todo_dates();
                assert(list@.len() == text::texts(list@).len());
                let len: usize = list.len();
                let to: usize = self.place(self.todo_date_sel, m, len);
                self.todo_date_sel = to;
                if len > 0 {
                    self.todo_sel = 0;
                }
            },
            View::Projects => {
                let list: Vec<usize> = self.visible_projects();
                assert(list@.len() == state::places(list@).len());
                let len: usize = list.len();
                let to: usize = self.place(self.project_sel, m, len);
                self.project_sel = to;
                if len > 0 {
                    self.task_sel = 0;
                }
            },
            View::Search => {
                let len: usize = self.hits.len();
                assert(self@.hits.len() == len);
                let to: usize = self.place(self.search_sel, m, len);
                self.search_sel = to;
            },
        }
        assert(self@ =~= s.stepped(m));
    }

    /// The day and the line of the task that is chosen.
    fn current_todo(&self) -> (r: Option<(String, usize)>)
        ensures
            mark_view(r) == self@.todo_mark(),
    {
        let list: Vec<&Placed> = self.visible_todos();
        assert(list@.len() == todos::placed_refs(list@).len());
        if self.todo_sel < list.len() {
            let p: &Placed = list[self.todo_sel];
            assert(todos::placed_refs(list@)[self.todo_sel as int] == todos::placed_view(*p));
            Some((p.1.date.clone(), p.1.line))
        } else {
            None
        }
    }

    /// The place in the task list of a task.
    fn todo_position(&self, mark: &Option<(String, usize)>) -> (r: usize)
        ensures
            r == self@.todo_found(mark_view(*mark)),
    {
        let list: Vec<&Placed> = self.visible_todos();
        assert(list@.len() == todos::placed_refs(list@).len());
        match mark {
            Some((day, line)) => {
                let at: usize = find_todo(&list, day.as_str(), *line);
                if at < list.len() {
                    at
                } else {
                    0
                }
            },
            None => 0,
        }
    }

    /// Keeps a task chosen, if it is still shown.
    pub(crate) fn keep_todo_selection(&mut self, current: Option<(String, usize)>)
        ensures
            final(self)@ == old(self)@.todo_kept(mark_view(current)),
    {
        let ghost s = old(self)@;
        let ghost mark = mark_view(current);
        let dates: Vec<String> = self.visible_todo_dates();
        let ghost days = s.days_shown();
        assert(dates@.len() == text::texts(dates@).len());
        let at: usize = match &current {
            Some((day, _)) => find_text(&dates, day.as_str()),
            None => dates.len(),
        };
        if at < dates.len() {
            self.todo_date_sel = at;
        } else if self.todo_date_sel >= dates.len() {
            self.todo_date_sel = if dates.len() < 1 {
                0
            } else {
                dates.len() - 1
            };
        }
        let ghost t = AppView {
            todo_date_sel: if at < days.len() {
                at as int
            } else {
                AppView::pulled(s.todo_date_sel, days.len() as int)
            },
            ..s
        };
        assert(self@ =~= t);
        self.todo_sel = self.todo_position(&current);
        assert(self@ =~= s.todo_kept(mark));
    }

    /// Puts the task list in the next order.
    pub(crate) fn cycle_todo_sort(&mut self)
        ensures
            final(self)@ == old(self)@.sort_cycled(),
    {
        let ghost s = old(self)@;
        let current: Option<(String, usize)> = self.current_todo();
        self.todo_sort = self.todo_sort.next();
        assert(self@ =~= (AppView { todo_sort: s.todo_sort.after(), ..s }));
        self.keep_todo_selection(current);
        let mut words: String = concat("ToDo を", self.todo_sort.label());
        words.append("に並べます");
        self.report(words);
    }

    /// Shows all tasks, or those that are not done.
    pub(crate) fn toggle_todo_filter(&mut self)
        ensures
            final(self)@ == old(self)@.filter_toggled(),
    {
        let ghost s = old(self)@;
        let current: Option<(String, usize)> = self.current_todo();
        self.todo_open_only = !self.todo_open_only;
        assert(self@ =~= (AppView { todo_open_only: !s.todo_open_only, ..s }));
        self.keep_todo_selection(current);
        let count: usize = self.todo_count();
        let words: String = if self.todo_open_only {
            counted("未完の ", count, " 件だけ表示")
        } else {
            counted("すべての ", count, " 件を表示")
        };
        self.report(words);
    }

    /// Shows archived projects, or not.
    pub(crate) fn toggle_archived(&mut self)
        ensures
            final(self)@ == old(self)@.archived_toggled(),
    {
        let ghost s = old(self)@;
        self.show_archived = !self.show_archived;
        let ghost a = AppView { show_archived: !s.show_archived, ..s };
        assert(self@ =~= a);
        let shown: Vec<usize> = self.visible_projects();
        assert(shown@.len() == state::places(shown@).len());
        let len: usize = shown.len();
        if self.project_sel >= len {
            self.project_sel = if len < 1 {
                0
            } else {
                len - 1
            };
        }
        self.task_sel = 0;
        assert(self@ =~= (AppView {
            project_sel: AppView::pulled(a.project_sel, len as int),
            task_sel: 0,
            ..a
        }));
        let count: usize = self.projects.len();
        assert(self@.projects.len() == count);
        let words: String = if self.show_archived {
            counted("アーカイブ済みも表示（", count, " 件）")
        } else {
            counted("アーカイブ済みを除外（", len, " 件）")
        };
        self.report(words);
    }

    /// Lists all notes, or the recent ones.
    pub(crate) fn toggle_all_notes(&mut self)
        ensures
            final(self)@ == old(self)@.all_notes_toggled(),
    {
        let ghost s = old(self)@;
        self.show_all_notes = !self.show_all_notes;
        let ghost a = AppView { show_all_notes: !s.show_all_notes, ..s };
        assert(self@ =~= a);
        let len: usize = self.visible_notes();
        if self.note_sel >= len {
            self.note_sel = if len < 1 {
                0
            } else {
                len - 1
            };
            self.detail_scroll = 0;
        }
        let count: usize = self.notes.len();
        assert(self@.notes.len() == count);
        let words: String = if self.show_all_notes {
            counted("全 ", count, " 件を表示")
        } else {
            counted("直近 ", len, " 件を表示")
        };
        self.report(words);
        assert(self@ =~= s.all_notes_toggled());
    }

    /// Opens or closes the help.
    pub(crate) fn toggle_help(&mut self)
        ensures
            final(self)@ == old(self)@.help_toggled(),
    {
        self.mode = if self.mode == Mode::Help {
            Mode::Normal
        } else {
            Mode::Help
        };
        self.help_scroll = 0;
        assert(self@ =~= old(self)@.help_toggled());
    }

    /// Adds a character to the query.
    pub(crate) fn search_input(&mut self, c: char)
        requires
            old(self)@.is_sound(),
        ensures
            final(self)@ == (AppView {
                query: old(self)@.query.push(c),
                ..old(self)@
            }).searched(),
    {
        self.query.push(c);
        assert(self@ =~= (AppView { query: old(self)@.query.push(c), ..old(self)@ }));
        self.run_search();
    }

    /// Takes the last character off the query.
    pub(crate) fn search_backspace(&mut self)
        requires
            old(self)@.is_sound(),
        ensures
            final(self)@ == (AppView {
                query: if old(self)@.query.len() > 0 {
                    old(self)@.query.drop_last()
                } else {
                    old(self)@.query
                },
                ..old(self)@
            }).searched(),
    {
        let v: Vec<char> = chars_of(self.query.as_str());
        if v.len() > 0 {
            let part = slice_subrange(v.as_slice(), 0, v.len() - 1);
            assert(part@ =~= v@.drop_last());
            self.query = string_of(part);
        }
        assert(self@ =~= (AppView {
            query: if old(self)@.query.len() > 0 {
                old(self)@.query.drop_last()
            } else {
                old(self)@.query
            },
            ..old(self)@
        }));
        self.run_search();
    }

    /// Empties the query.
    pub(crate) fn search_clear(&mut self)
        requires
            old(self)@.is_sound(),
        ensures
            final(self)@ == (AppView { query: Seq::empty(), ..old(self)@ }).searched(),
    {
        self.query = String::new();
        assert(self@ =~= (AppView { query: Seq::empty(), ..old(self)@ }));
        self.run_search();
    }

    /// Goes to the hit that is chosen.
    pub(crate) fn commit_search(&mut self)
        ensures
            final(self)@ == old(self)@.search_committed(),
    {
        let ghost s = old(self)@;
        assert(self@.hits.len() == self.hits@.len());
        if self.search_sel < self.hits.len() {
            let note_idx: usize = self.hits[self.search_sel].note_idx;
            let entry_idx: usize = self.hits[self.search_sel].entry_idx;
            assert(s.hits[s.search_sel] == self.hits@[self.search_sel as int]@);
            let shown: usize = self.visible_notes();
            self.view = View::Notes;
            self.mode = Mode::Normal;
            self.focus = Focus::Detail;
            if note_idx >= shown {
                self.show_all_notes = true;
            }
            self.note_sel = note_idx;
            self.entry_sel = entry_idx;
            self.detail_scroll = 0;
            self.note_task_sel = 0;
        } else {
            self.mode = Mode::Normal;
        }
        assert(self@ =~= s.search_committed());
    }

    /// Leaves the search.
    pub(crate) fn cancel_search(&mut self)
        ensures
            final(self)@ == old(self)@.search_cancelled(),
    {
        self.mode = Mode::Normal;
        self.view = self.return_view;
        self.focus = Focus::List;
        assert(self@ =~= old(self)@.search_cancelled());
    }
}

} // verus!
