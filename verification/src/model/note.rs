//! A daily note.

use vstd::prelude::*;

use crate::model::entry;
use crate::model::entry::{parse_entries, Entry, EntryView};
use crate::model::line;
use crate::model::line::{parse_group_line, parse_task_line, set_marker};
use crate::model::status::TaskStatus;
use crate::text;
use crate::text::{
    blank, chars_of, drop_leading, drop_trailing, eq_ignore_case, join, lowercase, normalize, split,
    starts_with, string_of, trim_start,
};

verus! {

/// The tag of entries that hold tasks.
pub const TODO_TAG: &'static str = "ToDo";

/// One daily note.
#[derive(Debug)]
pub struct DailyNote {
    pub date: String,
    pub path: String,
    /// The lines of the file. A file that ends with a newline ends with an empty line
    /// here, so that joining the lines gives the text back.
    pub lines: Vec<String>,
    pub entries: Vec<Entry>,
}

/// The contents of a note.
#[verifier::ext_equal]
pub struct NoteView {
    pub date: Seq<char>,
    pub path: Seq<char>,
    pub lines: Seq<Seq<char>>,
    pub entries: Seq<EntryView>,
}

impl View for DailyNote {
    type V = NoteView;

    open spec fn view(&self) -> NoteView {
        NoteView {
            date: self.date@,
            path: self.path@,
            lines: text::texts(self.lines@),
            entries: entry::entry_views(self.entries@),
        }
    }
}

impl Clone for DailyNote {
    fn clone(&self) -> (r: DailyNote)
        ensures
            r@ == self@,
    {
        let mut entries: Vec<Entry> = Vec::new();
        let mut i: usize = 0;
        while i < self.entries.len()
            invariant
                i <= self.entries.len(),
                entry::entry_views(entries@) == entry::entry_views(self.entries@).take(i as int),
            decreases self.entries.len() - i,
        {
            let ghost done = entries@;
            let e: Entry = self.entries[i].clone();
            entries.push(e);
            assert(entry::entry_views(entries@) == entry::entry_views(done).push(e@));
            assert(entry::entry_views(self.entries@).take(i + 1) == entry::entry_views(
                self.entries@,
            ).take(i as int).push(e@));
            i += 1;
        }
        let r = DailyNote {
            date: self.date.clone(),
            path: self.path.clone(),
            lines: self.lines.clone(),
            entries,
        };
        assert(r.lines@ =~= self.lines@);
        assert(r@ =~= self@);
        r
    }
}

/// One task line of an entry.
#[derive(Debug)]
pub struct TodoItem {
    pub date: String,
    pub note_path: String,
    /// The position among the note's lines.
    pub line: usize,
    pub group: String,
    pub title: String,
    pub status: TaskStatus,
}

/// The contents of a task line.
#[verifier::ext_equal]
pub struct TodoView {
    pub date: Seq<char>,
    pub note_path: Seq<char>,
    pub line: int,
    pub group: Seq<char>,
    pub title: Seq<char>,
    pub status: TaskStatus,
}

impl View for TodoItem {
    type V = TodoView;

    open spec fn view(&self) -> TodoView {
        TodoView {
            date: self.date@,
            note_path: self.note_path@,
            line: self.line as int,
            group: self.group@,
            title: self.title@,
            status: self.status,
        }
    }
}

impl Clone for TodoItem {
    fn clone(&self) -> (r: TodoItem)
        ensures
            r@ == self@,
    {
        TodoItem {
            date: self.date.clone(),
            note_path: self.note_path.clone(),
            line: self.line,
            group: self.group.clone(),
            title: self.title.clone(),
            status: self.status,
        }
    }
}

/// The contents of a list of task lines.
pub open spec fn todo_views(v: Seq<TodoItem>) -> Seq<TodoView> {
    v.map_values(|t: TodoItem| t@)
}

/// The contents of a list of notes.
pub open spec fn note_views(v: Seq<DailyNote>) -> Seq<NoteView> {
    v.map_values(|n: DailyNote| n@)
}

/// A task as group, title and state.
pub type RowView = (Seq<char>, Seq<char>, TaskStatus);

/// The contents of a list of group, title and state.
pub open spec fn row_views(v: Seq<(String, String, TaskStatus)>) -> Seq<RowView> {
    v.map_values(|r: (String, String, TaskStatus)| (r.0@, r.1@, r.2))
}

// ------------------------------------------------------------ specification

/// Whether the lines of an entry are where they can be: an opening line, data, the
/// end of the data, a body and a closing line, all among `n` lines.
pub open spec fn entry_fits(e: EntryView, n: int) -> bool {
    &&& 0 <= e.block.0
    &&& e.block.0 + 2 <= e.body.0
    &&& e.body.0 <= e.body.1
    &&& e.body.1 + 1 == e.block.1
    &&& e.block.1 <= n
}

impl NoteView {
    /// The entries lie inside the lines, one behind the other.
    pub open spec fn fits(self) -> bool {
        &&& forall|k: int|
            0 <= k < self.entries.len() ==> entry_fits(
                #[trigger] self.entries[k],
                self.lines.len() as int,
            )
        &&& forall|j: int, k: int|
            0 <= j < k < self.entries.len() ==> (#[trigger] self.entries[j]).block.1 <= (
            #[trigger] self.entries[k]).block.0
    }

    /// The entries are what the lines say.
    pub open spec fn is_parsed(self) -> bool {
        self.entries == entry::entries_of(self.lines, self.date)
    }

    /// The text of the note.
    pub open spec fn text(self) -> Seq<char> {
        text::joined(self.lines, seq!['\n'])
    }

    /// The note with other lines, parsed again.
    pub open spec fn with_lines(self, lines: Seq<Seq<char>>) -> NoteView {
        NoteView { lines, entries: entry::entries_of(lines, self.date), ..self }
    }

    /// The lines of an entry's body.
    pub open spec fn body(self, e: EntryView) -> Seq<Seq<char>> {
        self.lines.subrange(e.body.0, e.body.1)
    }

    /// Whether an entry holds tasks: it is tagged so, or its body begins with a heading that
    /// says so.
    pub open spec fn holds_todo(self, e: EntryView) -> bool {
        ||| has_todo_tag(e)
        ||| e.body.0 < e.body.1 && is_todo_heading(self.lines[e.body.0])
    }

    /// Whether the first line of an entry's body, where it begins plainly, is known for a
    /// heading of tasks by its letters.
    pub open spec fn todo_is_plain(self, e: EntryView) -> bool {
        e.body.0 < e.body.1 && begins_plainly(self.lines[e.body.0]) ==> self.holds_todo(e) == (
        has_todo_tag(e) || spells_todo(self.lines[e.body.0]))
    }

    /// The group in force at line `i` of a body that begins at line `from`.
    pub open spec fn group_at(self, from: int, i: int) -> Seq<char>
        decreases i - from,
    {
        if i <= from {
            Seq::empty()
        } else if line::task_of(self.lines[i - 1]) is None && line::group_of(
            self.lines[i - 1],
        ) is Some {
            line::group_of(self.lines[i - 1])->0
        } else {
            self.group_at(from, i - 1)
        }
    }

    /// The task lines from `from` up to `to` in a body that begins at line `from`.
    pub open spec fn tasks_in(self, from: int, to: int) -> Seq<TodoView>
        decreases to - from,
    {
        if to <= from {
            Seq::empty()
        } else {
            let before = self.tasks_in(from, to - 1);
            match line::task_of(self.lines[to - 1]) {
                Some((status, title)) => before.push(
                    TodoView {
                        date: self.date,
                        note_path: self.path,
                        line: to - 1,
                        group: self.group_at(from, to - 1),
                        title,
                        status,
                    },
                ),
                None => before,
            }
        }
    }

    /// The task lines of the first `k` entries.
    pub open spec fn tasks_of_first(self, k: int) -> Seq<TodoView>
        decreases k,
    {
        if k <= 0 {
            Seq::empty()
        } else {
            let e = self.entries[k - 1];
            self.tasks_of_first(k - 1) + if self.holds_todo(e) {
                self.tasks_in(e.body.0, e.body.1)
            } else {
                Seq::empty()
            }
        }
    }

    /// The task lines of the note.
    pub open spec fn tasks(self) -> Seq<TodoView> {
        self.tasks_of_first(self.entries.len() as int)
    }

    /// The task lines with a title, as group, title and state.
    pub open spec fn rows_in(self, from: int, to: int) -> Seq<RowView>
        decreases to - from,
    {
        if to <= from {
            Seq::empty()
        } else {
            let before = self.rows_in(from, to - 1);
            match line::task_of(self.lines[to - 1]) {
                Some((status, title)) => if title.len() > 0 {
                    before.push((self.group_at(from, to - 1), title, status))
                } else {
                    before
                },
                None => before,
            }
        }
    }

    /// The rows of one entry; none where it does not hold tasks or does not exist.
    pub open spec fn rows_of(self, k: int) -> Seq<RowView> {
        if 0 <= k < self.entries.len() && self.holds_todo(self.entries[k]) {
            self.rows_in(self.entries[k].body.0, self.entries[k].body.1)
        } else {
            Seq::empty()
        }
    }

    /// The note with another body in entry `k`.
    pub open spec fn with_body(self, k: int, body: Seq<char>) -> NoteView {
        let e = self.entries[k];
        self.with_lines(self.lines.take(e.body.0) + body_lines(body) + self.lines.skip(e.body.1))
    }

    /// The first data line between `i` and `end` that holds the tags, or `end`.
    pub open spec fn tag_line_at(self, i: int, end: int) -> int
        decreases end - i,
    {
        if i >= end || is_tag_line(self.lines[i]) {
            i
        } else {
            self.tag_line_at(i + 1, end)
        }
    }

    /// The note with other tags on entry `k`: the tag line is replaced, or added
    /// behind the other data.
    pub open spec fn with_tags(self, k: int, tags: Seq<Seq<char>>) -> NoteView {
        let e = self.entries[k];
        let end = e.body.0 - 1;
        let at = self.tag_line_at(e.block.0 + 1, end);
        self.with_lines(
            if at < end {
                self.lines.update(at, tag_line(tags))
            } else {
                self.lines.insert(end, tag_line(tags))
            },
        )
    }

    /// The first line from `i` on that is not blank, or the number of lines.
    pub open spec fn past_blank(self, i: int) -> int
        decreases self.lines.len() - i,
    {
        if 0 <= i < self.lines.len() && text::is_blank(self.lines[i]) {
            self.past_blank(i + 1)
        } else {
            i
        }
    }

    /// The note without entry `k` and the blank lines behind it. Where nothing is
    /// left behind it, the text still ends with a newline.
    pub open spec fn without_entry(self, k: int) -> NoteView {
        let e = self.entries[k];
        let end = self.past_blank(e.block.1);
        self.with_lines(
            if end < self.lines.len() {
                self.lines.take(e.block.0) + self.lines.skip(end)
            } else {
                self.lines.take(e.block.0).push(Seq::empty())
            },
        )
    }

    /// The note with a block behind it, at least one blank line apart.
    pub open spec fn with_block(self, block: Seq<char>) -> NoteView {
        self.with_lines(text::split_on(text::normalized(closed_text(self.text()) + block), '\n'))
    }

    /// The note with the mark of a line set. The entries are kept as they are.
    pub open spec fn with_status(self, at: int, status: TaskStatus) -> NoteView {
        NoteView { lines: self.lines.update(at, line::with_mark(self.lines[at], status)), ..self }
    }

    /// Whether a line exists and has a check box.
    pub open spec fn has_checkbox(self, at: int) -> bool {
        0 <= at < self.lines.len() && line::mark_at(self.lines[at]) is Some
    }
}

/// Whether an entry has the tag of task lists, in capitals or not.
pub open spec fn has_todo_tag(e: EntryView) -> bool {
    exists|i: int| 0 <= i < e.tags.len() && text::same_but_case(#[trigger] e.tags[i], TODO_TAG@)
}

/// Whether a line is a heading.
pub open spec fn is_heading(l: Seq<char>) -> bool {
    text::trimmed_start(l).len() > 0 && text::trimmed_start(l)[0] == '#'
}

/// The words of a heading.
pub open spec fn heading_words(l: Seq<char>) -> Seq<char> {
    text::trimmed_start(text::without_leading(text::trimmed_start(l), '#', '#'))
}

/// Whether a line is a heading that begins with "todo", in capitals or not.
pub open spec fn is_todo_heading(l: Seq<char>) -> bool {
    is_heading(l) && text::begins(text::lowercased(heading_words(l)), "todo"@)
}

/// Whether the words of a heading begin with characters whose small letters are known.
pub open spec fn begins_plainly(l: Seq<char>) -> bool {
    text::all_plain(text::first_chars(heading_words(l), 4))
}

/// Whether a line is a heading whose first four letters are those of "todo", in capitals or
/// not.
pub open spec fn spells_todo(l: Seq<char>) -> bool {
    is_heading(l) && text::small(text::first_chars(heading_words(l), 4)) == "todo"@
}

/// Whether a data line holds the tags.
pub open spec fn is_tag_line(l: Seq<char>) -> bool {
    text::begins(text::trimmed_start(l), "tags:"@)
}

/// The data line that holds the tags.
pub open spec fn tag_line(tags: Seq<Seq<char>>) -> Seq<char> {
    "tags: "@ + text::joined(tags, ", "@)
}

/// The lines of a new body: newlines at its end are dropped.
pub open spec fn body_lines(body: Seq<char>) -> Seq<Seq<char>> {
    text::split_on(text::without_trailing(text::normalized(body), '\n'), '\n')
}

/// A text that is not empty, made to end with a blank line.
pub open spec fn closed_text(t: Seq<char>) -> Seq<char> {
    if t.len() == 0 || text::ends(t, seq!['\n', '\n']) {
        t
    } else if text::ends(t, seq!['\n']) {
        t.push('\n')
    } else {
        t.push('\n').push('\n')
    }
}

/// The note that a text is read as.
pub open spec fn note_of(date: Seq<char>, path: Seq<char>, t: Seq<char>) -> NoteView {
    let lines = text::split_on(text::normalized(t), '\n');
    NoteView { date, path, lines, entries: entry::entries_of(lines, date) }
}

// ------------------------------------------------------------------- lemmas

/// Parsed entries lie inside the lines, one behind the other.
pub proof fn lemma_entries_fit(lines: Seq<Seq<char>>, date: Seq<char>, i: int)
    requires
        0 <= i,
    ensures
        forall|k: int|
            #![trigger entry::entries_from(lines, date, i)[k]]
            0 <= k < entry::entries_from(lines, date, i).len() ==> {
                let e = entry::entries_from(lines, date, i)[k];
                entry_fits(e, lines.len() as int) && i <= e.block.0
            },
        forall|j: int, k: int|
            0 <= j < k < entry::entries_from(lines, date, i).len() ==> (
            #[trigger] entry::entries_from(lines, date, i)[j]).block.1 <= (
            #[trigger] entry::entries_from(lines, date, i)[k]).block.0,
    decreases lines.len() - i,
{
    let open = entry::first_marker(lines, i, entry::Marker::Open);
    let mid = entry::first_marker(lines, open + 1, entry::Marker::MetaEnd);
    let close = entry::first_marker(lines, mid + 1, entry::Marker::Close);
    if i <= open < mid < close < lines.len() {
        lemma_entries_fit(lines, date, close + 1);
        let first = entry::entry_at(lines, date, open, mid, close);
        let rest = entry::entries_from(lines, date, close + 1);
        let all = entry::entries_from(lines, date, i);
        assert(all == seq![first] + rest);
        assert(first.block == (open, close + 1) && first.body == (mid + 1, close));
        assert forall|k: int| #![trigger all[k]] 0 <= k < all.len() implies entry_fits(
            all[k],
            lines.len() as int,
        ) && i <= all[k].block.0 by {
            if k > 0 {
                assert(all[k] == rest[k - 1]);
            }
        }
        assert forall|j: int, k: int|
            0 <= j < k < all.len() implies (#[trigger] all[j]).block.1 <= (
        #[trigger] all[k]).block.0 by {
            assert(all[k] == rest[k - 1]);
            if j > 0 {
                assert(all[j] == rest[j - 1]);
            }
        }
    }
}

/// A parsed note fits.
pub proof fn lemma_parsed_fits(n: NoteView)
    requires
        n.is_parsed(),
    ensures
        n.fits(),
{
    lemma_entries_fit(n.lines, n.date, 0);
}

/// The lines of a split text hold no newline, and joining them gives the text back.
pub proof fn lemma_split_text(t: Seq<char>)
    ensures
        text::joined(text::split_on(t, '\n'), seq!['\n']) == t,
{
    text::lemma_split_joined(t, '\n');
}

// --------------------------------------------------------------------- code

/// Copies lines from `from` up to `to` behind `out`.
fn copy_lines(lines: &Vec<String>, from: usize, to: usize, out: &mut Vec<String>)
    requires
        from <= to <= lines@.len(),
    ensures
        text::texts(final(out)@) == text::texts(old(out)@) + text::texts(lines@).subrange(
            from as int,
            to as int,
        ),
{
    let ghost all = text::texts(lines@);
    let ghost start = text::texts(out@);
    let mut i: usize = from;
    assert(start + all.subrange(from as int, from as int) == start);
    while i < to
        invariant
            from <= i <= to <= lines@.len(),
            all == text::texts(lines@),
            text::texts(out@) == start + all.subrange(from as int, i as int),
        decreases to - i,
    {
        let ghost done = out@;
        out.push(lines[i].clone());
        assert(text::texts(out@) == text::texts(done).push(all[i as int]));
        assert(all.subrange(from as int, i + 1) == all.subrange(from as int, i as int).push(
            all[i as int],
        ));
        assert(start + all.subrange(from as int, i + 1) == (start + all.subrange(
            from as int,
            i as int,
        )).push(all[i as int]));
        i += 1;
    }
}

impl DailyNote {
    /// Reads a note. Lines that are not understood are kept too.
    pub fn parse(date: String, path: String, text: &str) -> (r: DailyNote)
        ensures
            r@ == note_of(date@, path@, text@),
            r@.is_parsed(),
            r@.fits(),
            r@.text() == text::normalized(text@),
    {
        let plain: Vec<char> = normalize(text);
        let lines: Vec<String> = split(plain.as_slice(), '\n');
        let entries: Vec<Entry> = parse_entries(&lines, date.as_str());
        let r = DailyNote { date, path, lines, entries };
        proof {
            assert(r@ =~= note_of(date@, path@, text@));
            lemma_parsed_fits(r@);
            lemma_split_text(plain@);
        }
        r
    }

    /// The text of the note.
    pub fn to_text(&self) -> (r: String)
        ensures
            r@ == self@.text(),
    {
        proof {
            reveal_strlit("\n");
            assert("\n"@ == seq!['\n']);
        }
        join(&self.lines, "\n")
    }

    /// The lines of an entry's body.
    pub fn body_of(&self, entry: &Entry) -> (r: Vec<&str>)
        requires
            entry.body.start <= entry.body.end <= self.lines.len(),
        ensures
            r@.map_values(|s: &str| s@) == self@.body(entry@),
    {
        let mut out: Vec<&str> = Vec::new();
        let mut i: usize = entry.body.start;
        let ghost all = text::texts(self.lines@);
        while i < entry.body.end
            invariant
                entry.body.start <= i <= entry.body.end <= self.lines.len(),
                all == text::texts(self.lines@),
                out@.map_values(|s: &str| s@) == all.subrange(entry.body.start as int, i as int),
            decreases entry.body.end - i,
        {
            let ghost done = out@;
            out.push(self.lines[i].as_str());
            assert(out@.map_values(|s: &str| s@) == done.map_values(|s: &str| s@).push(
                all[i as int],
            ));
            assert(all.subrange(entry.body.start as int, i + 1) == all.subrange(
                entry.body.start as int,
                i as int,
            ).push(all[i as int]));
            i += 1;
        }
        out
    }

    /// Whether an entry holds tasks.
    pub fn is_todo(&self, entry: &Entry) -> (r: bool)
        requires
            entry.body.start <= entry.body.end <= self.lines.len(),
        ensures
            r == self@.holds_todo(entry@),
            self@.todo_is_plain(entry@),
    {
        let mut i: usize = 0;
        while i < entry.tags.len()
            invariant
                i <= entry.tags.len(),
                forall|j: int|
                    0 <= j < i ==> !text::same_but_case(#[trigger] entry@.tags[j], TODO_TAG@),
            decreases entry.tags.len() - i,
        {
            if eq_ignore_case(entry.tags[i].as_str(), TODO_TAG) {
                assert(text::same_but_case(entry@.tags[i as int], TODO_TAG@));
                return true;
            }
            i += 1;
        }
        let first: usize = entry.body.start;
        assert(first < entry.body.end ==> self@.lines[first as int] == self.lines@[first as int]@);
        first < entry.body.end && todo_heading_line(self.lines[first].as_str())
    }

    /// The task lines of the note.
    pub fn todo_items(&self) -> (r: Vec<TodoItem>)
        requires
            self@.fits(),
        ensures
            todo_views(r@) == self@.tasks(),
            forall|k: int|
                0 <= k < self@.entries.len() ==> self@.todo_is_plain(#[trigger] self@.entries[k]),
    {
        let mut out: Vec<TodoItem> = Vec::new();
        let mut k: usize = 0;
        assert(todo_views(out@) == self@.tasks_of_first(0));
        while k < self.entries.len()
            invariant
                k <= self.entries.len(),
                self@.fits(),
                todo_views(out@) == self@.tasks_of_first(k as int),
                forall|j: int| 0 <= j < k ==> self@.todo_is_plain(#[trigger] self@.entries[j]),
            decreases self.entries.len() - k,
        {
            let entry: &Entry = &self.entries[k];
            assert(self@.entries[k as int] == entry@);
            let ghost before = todo_views(out@);
            if self.is_todo(entry) {
                self.collect_tasks(entry.body.start, entry.body.end, &mut out);
            } else {
                assert(before + Seq::<TodoView>::empty() == before);
            }
            k += 1;
        }
        out
    }

    /// Collects the task lines of one body.
    fn collect_tasks(&self, from: usize, to: usize, out: &mut Vec<TodoItem>)
        requires
            from <= to <= self.lines.len(),
        ensures
            todo_views(final(out)@) == todo_views(old(out)@) + self@.tasks_in(
                from as int,
                to as int,
            ),
    {
        let mut group = String::new();
        let mut i: usize = from;
        let ghost start = todo_views(out@);
        assert(start + self@.tasks_in(from as int, from as int) == start);
        while i < to
            invariant
                from <= i <= to <= self.lines.len(),
                group@ == self@.group_at(from as int, i as int),
                todo_views(out@) == start + self@.tasks_in(from as int, i as int),
            decreases to - i,
        {
            assert(self@.lines[i as int] == self.lines@[i as int]@);
            match parse_task_line(self.lines[i].as_str()) {
                Some((status, title)) => {
                    let ghost done = out@;
                    let item = TodoItem {
                        date: self.date.clone(),
                        note_path: self.path.clone(),
                        line: i,
                        group: group.clone(),
                        title,
                        status,
                    };
                    out.push(item);
                    assert(todo_views(out@) == todo_views(done).push(item@));
                    assert(todo_views(out@) == start + self@.tasks_in(from as int, i + 1));
                },
                None => match parse_group_line(self.lines[i].as_str()) {
                    Some(name) => {
                        group = name;
                    },
                    None => {},
                },
            }
            i += 1;
        }
    }

    /// The task lines of one entry as group, title and state.
    pub fn entry_todo_rows(&self, entry_idx: usize) -> (r: Vec<(String, String, TaskStatus)>)
        requires
            self@.fits(),
        ensures
            row_views(r@) == self@.rows_of(entry_idx as int),
    {
        let mut out: Vec<(String, String, TaskStatus)> = Vec::new();
        assert(row_views(out@) == Seq::<RowView>::empty());
        if entry_idx >= self.entries.len() {
            return out;
        }
        let entry: &Entry = &self.entries[entry_idx];
        assert(self@.entries[entry_idx as int] == entry@);
        if !self.is_todo(entry) {
            return out;
        }
        let mut group = String::new();
        let from: usize = entry.body.start;
        let mut i: usize = from;
        while i < entry.body.end
            invariant
                from <= i <= entry.body.end <= self.lines.len(),
                group@ == self@.group_at(from as int, i as int),
                row_views(out@) == self@.rows_in(from as int, i as int),
            decreases entry.body.end - i,
        {
            assert(self@.lines[i as int] == self.lines@[i as int]@);
            match parse_task_line(self.lines[i].as_str()) {
                Some((status, title)) => {
                    if !title.as_str().is_empty() {
                        let ghost done = out@;
                        let row = (group.clone(), title, status);
                        out.push(row);
                        assert(row_views(out@) == row_views(done).push((row.0@, row.1@, row.2)));
                    }
                },
                None => match parse_group_line(self.lines[i].as_str()) {
                    Some(name) => {
                        group = name;
                    },
                    None => {},
                },
            }
            i += 1;
        }
        out
    }

    /// Reads the entries again after the lines have changed.
    fn reparse(&mut self)
        ensures
            final(self)@ == old(self)@.with_lines(old(self)@.lines),
            final(self)@.is_parsed(),
            final(self)@.fits(),
    {
        self.entries = parse_entries(&self.lines, self.date.as_str());
        proof {
            assert(self@ =~= old(self)@.with_lines(old(self)@.lines));
            lemma_parsed_fits(self@);
        }
    }

    /// Replaces the body of an entry. Its data and markers are not touched.
    pub fn replace_entry_body(&mut self, entry_idx: usize, body: &str) -> (found: bool)
        requires
            old(self)@.fits(),
        ensures
            found == (entry_idx < old(self)@.entries.len()),
            found ==> final(self)@ == old(self)@.with_body(entry_idx as int, body@),
            found ==> final(self)@.is_parsed(),
            !found ==> *final(self) == *old(self),
            final(self)@.fits(),
    {
        if entry_idx >= self.entries.len() {
            return false;
        }
        assert(self@.entries[entry_idx as int] == self.entries@[entry_idx as int]@);
        let from: usize = self.entries[entry_idx].body.start;
        let to: usize = self.entries[entry_idx].body.end;
        let plain: Vec<char> = normalize(body);
        let new: Vec<String> = split(drop_trailing(plain.as_slice(), '\n'), '\n');
        let mut out: Vec<String> = Vec::new();
        copy_lines(&self.lines, 0, from, &mut out);
        copy_lines(&new, 0, new.len(), &mut out);
        copy_lines(&self.lines, to, self.lines.len(), &mut out);
        proof {
            let l = self@.lines;
            assert(text::texts(new@).subrange(0, new@.len() as int) == text::texts(new@));
            assert(l.subrange(0, from as int) == l.take(from as int));
            assert(l.subrange(to as int, l.len() as int) == l.skip(to as int));
            assert(text::texts(out@) == l.take(from as int) + body_lines(body@) + l.skip(
                to as int,
            ));
        }
        self.lines = out;
        self.reparse();
        true
    }

    /// Replaces the tags of an entry. Without a tag line, one is added to its data.
    pub fn set_entry_tags(&mut self, entry_idx: usize, tags: &[String]) -> (found: bool)
        requires
            old(self)@.fits(),
        ensures
            found == (entry_idx < old(self)@.entries.len()),
            found ==> final(self)@ == old(self)@.with_tags(entry_idx as int, text::texts(tags@)),
            found ==> final(self)@.is_parsed(),
            !found ==> *final(self) == *old(self),
            final(self)@.fits(),
    {
        if entry_idx >= self.entries.len() {
            return false;
        }
        assert(self@.entries[entry_idx as int] == self.entries@[entry_idx as int]@);
        let start: usize = self.entries[entry_idx].block.start + 1;
        let end: usize = self.entries[entry_idx].body.start - 1;
        let mut line = String::new();
        line.append("tags: ");
        line.append(join(tags, ", ").as_str());
        assert(line@ == tag_line(text::texts(tags@)));
        let mut at: usize = start;
        while at < end && !tags_line(self.lines[at].as_str())
            invariant
                start <= at <= end <= self.lines.len(),
                self@.tag_line_at(start as int, end as int) == self@.tag_line_at(
                    at as int,
                    end as int,
                ),
            decreases end - at,
        {
            assert(self@.lines[at as int] == self.lines@[at as int]@);
            at += 1;
        }
        assert(at < end ==> self@.lines[at as int] == self.lines@[at as int]@);
        let ghost before = self@.lines;
        if at < end {
            self.lines.set(at, line);
            assert(text::texts(self.lines@) == before.update(at as int, line@));
        } else {
            self.lines.insert(end, line);
            assert(text::texts(self.lines@) == before.insert(end as int, line@));
        }
        self.reparse();
        true
    }

    /// Deletes an entry and the blank lines behind it.
    pub fn delete_entry(&mut self, entry_idx: usize) -> (found: bool)
        requires
            old(self)@.fits(),
        ensures
            found == (entry_idx < old(self)@.entries.len()),
            found ==> final(self)@ == old(self)@.without_entry(entry_idx as int),
            found ==> final(self)@.is_parsed(),
            !found ==> *final(self) == *old(self),
            final(self)@.fits(),
    {
        if entry_idx >= self.entries.len() {
            return false;
        }
        assert(self@.entries[entry_idx as int] == self.entries@[entry_idx as int]@);
        let start: usize = self.entries[entry_idx].block.start;
        let first: usize = self.entries[entry_idx].block.end;
        let mut end: usize = first;
        while end < self.lines.len() && blank(self.lines[end].as_str())
            invariant
                first <= end <= self.lines.len(),
                self@.past_blank(first as int) == self@.past_blank(end as int),
            decreases self.lines.len() - end,
        {
            assert(self@.lines[end as int] == self.lines@[end as int]@);
            end += 1;
        }
        assert(end < self.lines.len() ==> self@.lines[end as int] == self.lines@[end as int]@);
        let mut out: Vec<String> = Vec::new();
        copy_lines(&self.lines, 0, start, &mut out);
        let ghost l = self@.lines;
        assert(l.subrange(0, start as int) == l.take(start as int));
        assert(text::texts(out@) == l.take(start as int));
        if end < self.lines.len() {
            copy_lines(&self.lines, end, self.lines.len(), &mut out);
            assert(l.subrange(end as int, l.len() as int) == l.skip(end as int));
        } else {
            let ghost done = out@;
            let empty = String::new();
            out.push(empty);
            assert(text::texts(out@) == text::texts(done).push(empty@));
        }
        self.lines = out;
        self.reparse();
        true
    }

    /// Adds a block behind the note, at least one blank line apart.
    pub fn append_entry_block(&mut self, block: &str)
        ensures
            final(self)@ == old(self)@.with_block(block@),
            final(self)@.is_parsed(),
            final(self)@.fits(),
    {
        let mut text: String = self.to_text();
        let chars: Vec<char> = chars_of(text.as_str());
        let n: usize = chars.len();
        proof {
            let t = text@;
            if n >= 1 {
                assert(t.skip(n - 1) == seq![t[n - 1]]);
                assert(seq!['\n'][0] == '\n');
            }
            if n >= 2 {
                assert(t.skip(n - 2) == seq![t[n - 2], t[n - 1]]);
                assert(seq!['\n', '\n'][0] == '\n' && seq!['\n', '\n'][1] == '\n');
            }
        }
        if n > 0 && !(n >= 2 && chars[n - 2] == '\n' && chars[n - 1] == '\n') {
            if chars[n - 1] != '\n' {
                text.push('\n');
            }
            text.push('\n');
        }
        assert(text@ == closed_text(self@.text()));
        text.append(block);
        let plain: Vec<char> = normalize(text.as_str());
        self.lines = split(plain.as_slice(), '\n');
        self.reparse();
    }

    /// Sets the mark of a task line. Nothing else on the line is touched.
    pub fn set_task_status(&mut self, line: usize, status: TaskStatus) -> (found: bool)
        ensures
            found == old(self)@.has_checkbox(line as int),
            found ==> final(self)@ == old(self)@.with_status(line as int, status),
            !found ==> *final(self) == *old(self),
            final(self)@.entries == old(self)@.entries,
            final(self)@.lines.len() == old(self)@.lines.len(),
    {
        if line >= self.lines.len() {
            return false;
        }
        let mut chars: Vec<char> = chars_of(self.lines[line].as_str());
        assert(self@.lines[line as int] == chars@);
        if !set_marker(&mut chars, status) {
            return false;
        }
        let ghost before = self@.lines;
        let new: String = string_of(chars.as_slice());
        self.lines.set(line, new);
        assert(text::texts(self.lines@) == before.update(line as int, new@));
        assert(self@ =~= old(self)@.with_status(line as int, status));
        true
    }
}

/// Whether a line is a heading that begins with "todo".
fn todo_heading_line(l: &str) -> (r: bool)
    ensures
        r == is_todo_heading(l@),
        begins_plainly(l@) ==> r == spells_todo(l@),
{
    let v: Vec<char> = chars_of(l);
    let t = trim_start(v.as_slice());
    if t.len() == 0 || t[0] != '#' {
        return false;
    }
    let rest: String = string_of(trim_start(drop_leading(t, '#', '#')));
    let low: Vec<char> = chars_of(lowercase(rest.as_str()).as_str());
    proof {
        lemma_todo_spelled(rest@, low@);
    }
    starts_with(low.as_slice(), "todo")
}

/// Words that begin plainly begin with "todo" in small letters where their letters are these.
proof fn lemma_todo_spelled(words: Seq<char>, low: Seq<char>)
    requires
        text::all_plain(words) ==> low == text::small(words),
        forall|k: int|
            0 <= k <= words.len() && text::all_plain(#[trigger] words.take(k)) ==> k <= low.len()
                && low.take(k) == text::small(words.take(k)),
    ensures
        text::all_plain(text::first_chars(words, 4)) ==> text::begins(low, "todo"@) == (
        text::small(text::first_chars(words, 4)) == "todo"@),
{
    reveal_strlit("todo");
    assert("todo"@.len() == 4);
    if text::all_plain(text::first_chars(words, 4)) {
        if words.len() <= 4 {
            assert(text::first_chars(words, 4) == words);
            if low.len() >= 4 {
                assert(low.take(4) == low);
            }
        } else {
            assert(words.take(4) == text::first_chars(words, 4));
        }
    }
}

/// Whether a data line holds the tags.
fn tags_line(l: &str) -> (r: bool)
    ensures
        r == is_tag_line(l@),
{
    let v: Vec<char> = chars_of(l);
    starts_with(trim_start(v.as_slice()), "tags:")
}

} // verus!
