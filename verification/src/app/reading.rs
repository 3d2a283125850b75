//! The body that is shown, the headings of entries, and the search.

use vstd::prelude::*;

use crate::app::types;
use crate::app::types::{
    short_time, DetailLine, DetailView, EntrySummary, HitView, LineKind, SearchHit, SummaryView,
};
use crate::model::entry::{Entry, EntryView};
use crate::model::note;
use crate::model::note::{DailyNote, NoteView, TodoItem, TodoView};
use crate::model::todo::copy_list;
use crate::text;
use crate::text::{
    blank, chars_of, contains, drop_leading, join, lowercase, split_words, starts_with, take_chars,
    trim, trim_start, trim_string,
};

verus! {

// --------------------------------------------------------------------------- body

/// Whether a line begins or ends a block of code.
pub open spec fn is_fence(l: Seq<char>) -> bool {
    text::begins(text::trimmed_start(l), "```"@)
}

/// Whether the line behind the first `k` lines stands in a block of code.
pub open spec fn in_code(lines: Seq<Seq<char>>, k: int) -> bool
    decreases k,
{
    if k <= 0 {
        false
    } else if is_fence(lines[k - 1]) {
        !in_code(lines, k - 1)
    } else {
        in_code(lines, k - 1)
    }
}

/// What a line outside of code is.
pub open spec fn plain_kind(l: Seq<char>) -> LineKind {
    let t = text::trimmed_start(l);
    if text::begins(t, "#"@) {
        LineKind::Heading
    } else if text::begins(t, "- "@) || text::begins(t, "* "@) {
        LineKind::ListItem
    } else if text::begins(t, ">"@) {
        LineKind::Quote
    } else {
        LineKind::Body
    }
}

/// A line of a body as it is shown. `first` is the line of the file that the body begins
/// at, and `tasks` are the lines of the file that are tasks; those in code are not.
pub open spec fn shown_line(
    lines: Seq<Seq<char>>,
    k: int,
    first: int,
    tasks: Seq<int>,
) -> DetailView {
    let l = lines[k];
    let code = in_code(lines, k);
    DetailView {
        text: l,
        kind: if code || is_fence(l) {
            LineKind::Code
        } else {
            plain_kind(l)
        },
        task_line: if !code && !is_fence(l) && tasks.contains(first + k) {
            Some(first + k)
        } else {
            None
        },
    }
}

/// The lines of a body as they are shown.
pub open spec fn shown_lines(
    lines: Seq<Seq<char>>,
    first: int,
    tasks: Seq<int>,
) -> Seq<DetailView> {
    Seq::new(lines.len(), |k: int| shown_line(lines, k, first, tasks))
}

/// The lines of the file that are tasks.
pub open spec fn task_lines(items: Seq<TodoView>) -> Seq<int> {
    items.map_values(|t: TodoView| t.line)
}

/// The body of an entry of a note as it is shown; nothing where there is no such entry.
pub open spec fn entry_detail(n: NoteView, k: int) -> Seq<DetailView> {
    if 0 <= k < n.entries.len() {
        shown_lines(n.body(n.entries[k]), n.entries[k].body.0, task_lines(n.tasks()))
    } else {
        Seq::empty()
    }
}

/// Whether a line of the file is among tasks.
fn is_task_line(items: &Vec<TodoItem>, at: usize) -> (r: bool)
    ensures
        r == task_lines(note::todo_views(items@)).contains(at as int),
{
    let ghost all = task_lines(note::todo_views(items@));
    let mut i: usize = 0;
    while i < items.len()
        invariant
            i <= items.len(),
            all == task_lines(note::todo_views(items@)),
            forall|j: int| 0 <= j < i ==> #[trigger] all[j] != at,
        decreases items.len() - i,
    {
        assert(all[i as int] == items@[i as int].line);
        if items[i].line == at {
            return true;
        }
        i += 1;
    }
    assert(all.len() == items@.len());
    false
}

/// What a line outside of code is.
fn kind_of(t: &[char], Ghost(l): Ghost<Seq<char>>) -> (r: LineKind)
    requires
        t@ == text::trimmed_start(l),
    ensures
        r == plain_kind(l),
{
    if starts_with(t, "#") {
        LineKind::Heading
    } else if starts_with(t, "- ") || starts_with(t, "* ") {
        LineKind::ListItem
    } else if starts_with(t, ">") {
        LineKind::Quote
    } else {
        LineKind::Body
    }
}

/// The body of an entry as it is shown.
pub fn detail_of(n: &DailyNote, k: usize) -> (r: Vec<DetailLine>)
    requires
        n@.fits(),
    ensures
        types::detail_views(r@) == entry_detail(n@, k as int),
{
    let mut out: Vec<DetailLine> = Vec::new();
    assert(types::detail_views(out@) == Seq::<DetailView>::empty());
    if k >= n.entries.len() {
        return out;
    }
    let e: &Entry = &n.entries[k];
    assert(n@.entries[k as int] == e@);
    assert(note::entry_fits(n@.entries[k as int], n@.lines.len() as int));
    let items: Vec<TodoItem> = n.todo_items();
    let ghost tasks = task_lines(note::todo_views(items@));
    let ghost lines = n@.body(e@);
    let first: usize = e.body.start;
    let last: usize = e.body.end;
    let mut code: bool = false;
    let mut i: usize = first;
    let ghost all = shown_lines(lines, first as int, tasks);
    assert(types::detail_views(out@) == all.take(0));
    while i < last
        invariant
            first <= i <= last <= n.lines@.len(),
            lines == n@.lines.subrange(first as int, last as int),
            tasks == task_lines(note::todo_views(items@)),
            all == shown_lines(lines, first as int, tasks),
            code == in_code(lines, i - first),
            types::detail_views(out@) == all.take(i - first),
        decreases last - i,
    {
        let ghost at = i - first;
        let l: &str = n.lines[i].as_str();
        assert(lines[at] == n@.lines[i as int]);
        assert(n@.lines[i as int] == l@);
        let v: Vec<char> = chars_of(l);
        let t = trim_start(v.as_slice());
        let fence: bool = starts_with(t, "```");
        let kind: LineKind = if fence || code {
            LineKind::Code
        } else {
            kind_of(t, Ghost(l@))
        };
        let task_line: Option<usize> = if !fence && !code && is_task_line(&items, i) {
            Some(i)
        } else {
            None
        };
        let d = DetailLine { text: l.to_owned(), kind, task_line };
        assert(d@ == shown_line(lines, at, first as int, tasks));
        let ghost done = out@;
        out.push(d);
        assert(types::detail_views(out@) =~= types::detail_views(done).push(d@));
        assert(all.take(at + 1) =~= all.take(at).push(d@));
        if fence {
            code = !code;
        }
        i += 1;
    }
    assert(all.take(i - first) == all);
    out
}

// ---------------------------------------------------------------------- summaries

/// A line without white space around it and hash signs in front.
pub open spec fn plain_line(l: Seq<char>) -> Seq<char> {
    text::trimmed(text::without_leading(text::trimmed(l), '#', '#'))
}

/// The first line from `i` on that has something besides hash signs, or the mark of an
/// empty body.
pub open spec fn title_from(lines: Seq<Seq<char>>, i: int) -> Seq<char>
    decreases lines.len() - i,
{
    if i >= lines.len() {
        "(空)"@
    } else if plain_line(lines[i]).len() > 0 {
        plain_line(lines[i])
    } else {
        title_from(lines, i + 1)
    }
}

/// The heading of an entry.
pub open spec fn summary_of(n: NoteView, e: EntryView) -> SummaryView {
    SummaryView {
        time: types::time_of(e.created),
        title: text::first_chars(title_from(n.body(e), 0), 80),
        tags: e.tags,
        todo: n.holds_todo(e),
    }
}

/// The headings of the entries of a note.
pub open spec fn summaries_of(n: NoteView) -> Seq<SummaryView> {
    n.entries.map_values(|e: EntryView| summary_of(n, e))
}

/// A line without white space around it and hash signs in front.
fn clean_line(l: &str) -> (r: String)
    ensures
        r@ == plain_line(l@),
{
    let v: Vec<char> = chars_of(l);
    crate::text::string_of(trim(drop_leading(trim(v.as_slice()), '#', '#')))
}

/// The title of an entry.
fn title_of(n: &DailyNote, e: &Entry) -> (r: String)
    requires
        note::entry_fits(e@, n@.lines.len() as int),
    ensures
        r@ == title_from(n@.body(e@), 0),
{
    let ghost lines = n@.body(e@);
    let first: usize = e.body.start;
    let last: usize = e.body.end;
    let mut i: usize = first;
    while i < last
        invariant
            first <= i <= last <= n.lines@.len(),
            lines == n@.body(e@),
            lines == n@.lines.subrange(first as int, last as int),
            title_from(lines, 0) == title_from(lines, i - first),
        decreases last - i,
    {
        assert(lines[i - first] == n@.lines[i as int]);
        assert(n@.lines[i as int] == n.lines@[i as int]@);
        let t: String = clean_line(n.lines[i].as_str());
        if !t.as_str().is_empty() {
            return t;
        }
        i += 1;
    }
    "(空)".to_owned()
}

/// The headings of the entries of a note.
pub fn summaries(n: &DailyNote) -> (r: Vec<EntrySummary>)
    requires
        n@.fits(),
    ensures
        types::summary_views(r@) == summaries_of(n@),
{
    let ghost all = summaries_of(n@);
    let mut out: Vec<EntrySummary> = Vec::new();
    let mut i: usize = 0;
    assert(types::summary_views(out@) == all.take(0));
    while i < n.entries.len()
        invariant
            i <= n.entries.len(),
            n@.fits(),
            all == summaries_of(n@),
            types::summary_views(out@) == all.take(i as int),
        decreases n.entries.len() - i,
    {
        let e: &Entry = &n.entries[i];
        assert(n@.entries[i as int] == e@);
        assert(note::entry_fits(n@.entries[i as int], n@.lines.len() as int));
        let title: String = title_of(n, e);
        let chars: Vec<char> = chars_of(title.as_str());
        let s = EntrySummary {
            time: short_time(e.created.as_str()),
            title: take_chars(chars.as_slice(), 80),
            tags: copy_list(&e.tags),
            todo: n.is_todo(e),
        };
        assert(s@ == summary_of(n@, e@));
        let ghost done = out@;
        out.push(s);
        assert(types::summary_views(out@) =~= types::summary_views(done).push(s@));
        assert(all.take(i + 1) =~= all.take(i as int).push(s@));
        i += 1;
    }
    assert(all.take(i as int) == all);
    out
}

// ------------------------------------------------------------------------- search

/// How many hits are shown at most.
pub const MAX_HITS: usize = 500;

/// The words that are searched for.
pub open spec fn terms_of(query: Seq<char>) -> Seq<Seq<char>> {
    text::words(text::lowercased(text::trimmed(query)))
}

/// The text that is searched of an entry: its body and its tags, in small letters.
pub open spec fn haystack(n: NoteView, e: EntryView) -> Seq<char> {
    text::lowercased(text::joined(n.body(e), seq!['\n'])) + seq!['\n'] + text::lowercased(
        text::joined(e.tags, seq![',']),
    )
}

/// Whether a text holds all of the words.
pub open spec fn has_all(s: Seq<char>, terms: Seq<Seq<char>>) -> bool {
    forall|i: int| 0 <= i < terms.len() ==> text::has(s, #[trigger] terms[i])
}

/// Whether a text holds one of the words.
pub open spec fn has_any(s: Seq<char>, terms: Seq<Seq<char>>) -> bool {
    exists|i: int| 0 <= i < terms.len() && text::has(s, #[trigger] terms[i])
}

/// The first line from `i` on that holds one of the words.
pub open spec fn hit_from(lines: Seq<Seq<char>>, terms: Seq<Seq<char>>, i: int) -> Option<Seq<char>>
    decreases lines.len() - i,
{
    if i >= lines.len() {
        None
    } else if has_any(text::lowercased(lines[i]), terms) {
        Some(lines[i])
    } else {
        hit_from(lines, terms, i + 1)
    }
}

/// The first line from `i` on that is not blank, or nothing.
pub open spec fn solid_from(lines: Seq<Seq<char>>, i: int) -> Seq<char>
    decreases lines.len() - i,
{
    if i >= lines.len() {
        Seq::empty()
    } else if !text::is_blank(lines[i]) {
        lines[i]
    } else {
        solid_from(lines, i + 1)
    }
}

/// The line that is shown of an entry: the first with one of the words, or the first that
/// is not blank.
pub open spec fn preview_of(n: NoteView, e: EntryView, terms: Seq<Seq<char>>) -> Seq<char> {
    let line = match hit_from(n.body(e), terms, 0) {
        Some(l) => l,
        None => solid_from(n.body(e), 0),
    };
    text::first_chars(plain_line(line), 120)
}

/// The hits among the first `k` entries of a note.
pub open spec fn note_hits(n: NoteView, idx: int, terms: Seq<Seq<char>>, k: int) -> Seq<HitView>
    decreases k,
{
    if k <= 0 {
        Seq::empty()
    } else {
        let before = note_hits(n, idx, terms, k - 1);
        let e = n.entries[k - 1];
        if has_all(haystack(n, e), terms) {
            before.push(
                HitView {
                    note_idx: idx,
                    entry_idx: k - 1,
                    date: n.date,
                    preview: preview_of(n, e, terms),
                },
            )
        } else {
            before
        }
    }
}

/// The hits in notes, note by note.
pub open spec fn all_hits(notes: Seq<NoteView>, terms: Seq<Seq<char>>) -> Seq<HitView>
    decreases notes.len(),
{
    if notes.len() == 0 {
        Seq::empty()
    } else {
        all_hits(notes.drop_last(), terms) + note_hits(
            notes.last(),
            notes.len() - 1,
            terms,
            notes.last().entries.len() as int,
        )
    }
}

/// The first hits.
pub open spec fn capped(hits: Seq<HitView>) -> Seq<HitView> {
    hits.take(types::least(hits.len() as int, MAX_HITS as int))
}

/// The hits of a query; none where nothing is searched for.
pub open spec fn hits_of(notes: Seq<NoteView>, query: Seq<char>) -> Seq<HitView> {
    if text::lowercased(text::trimmed(query)).len() == 0 {
        Seq::empty()
    } else {
        capped(all_hits(notes, terms_of(query)))
    }
}

/// Whether a text holds all of the words.
fn holds_all(s: &str, terms: &Vec<String>) -> (r: bool)
    ensures
        r == has_all(s@, text::texts(terms@)),
{
    let ghost all = text::texts(terms@);
    let v: Vec<char> = chars_of(s);
    let mut i: usize = 0;
    while i < terms.len()
        invariant
            i <= terms.len(),
            v@ == s@,
            all == text::texts(terms@),
            forall|k: int| 0 <= k < i ==> text::has(s@, #[trigger] all[k]),
        decreases terms.len() - i,
    {
        assert(all[i as int] == terms@[i as int]@);
        if !contains(v.as_slice(), terms[i].as_str()) {
            return false;
        }
        i += 1;
    }
    true
}

/// Whether a text holds one of the words.
fn holds_any(s: &str, terms: &Vec<String>) -> (r: bool)
    ensures
        r == has_any(s@, text::texts(terms@)),
{
    let ghost all = text::texts(terms@);
    let v: Vec<char> = chars_of(s);
    let mut i: usize = 0;
    while i < terms.len()
        invariant
            i <= terms.len(),
            v@ == s@,
            all == text::texts(terms@),
            forall|k: int| 0 <= k < i ==> !text::has(s@, #[trigger] all[k]),
        decreases terms.len() - i,
    {
        assert(all[i as int] == terms@[i as int]@);
        if contains(v.as_slice(), terms[i].as_str()) {
            return true;
        }
        i += 1;
    }
    false
}

/// The text that is searched of an entry.
fn haystack_text(n: &DailyNote, e: &Entry) -> (r: String)
    requires
        note::entry_fits(e@, n@.lines.len() as int),
    ensures
        r@ == haystack(n@, e@),
{
    let body: Vec<String> = body_list(n, e);
    proof {
        reveal_strlit("\n");
        reveal_strlit(",");
        assert("\n"@ == seq!['\n']);
        assert(","@ == seq![',']);
    }
    let mut s: String = lowercase(join(&body, "\n").as_str());
    s.push('\n');
    s.append(lowercase(join(&e.tags, ",").as_str()).as_str());
    assert(s@ =~= haystack(n@, e@));
    s
}

/// The lines of an entry's body.
pub fn body_list(n: &DailyNote, e: &Entry) -> (r: Vec<String>)
    requires
        note::entry_fits(e@, n@.lines.len() as int),
    ensures
        text::texts(r@) == n@.body(e@),
{
    let ghost lines = n@.body(e@);
    let first: usize = e.body.start;
    let last: usize = e.body.end;
    let mut out: Vec<String> = Vec::new();
    let mut i: usize = first;
    assert(text::texts(out@) == lines.take(0));
    while i < last
        invariant
            first <= i <= last <= n.lines@.len(),
            lines == n@.lines.subrange(first as int, last as int),
            text::texts(out@) == lines.take(i - first),
        decreases last - i,
    {
        let ghost done = out@;
        let l: String = n.lines[i].clone();
        assert(lines[i - first] == n@.lines[i as int]);
        assert(n@.lines[i as int] == l@);
        out.push(l);
        assert(text::texts(out@) =~= text::texts(done).push(l@));
        assert(lines.take(i - first + 1) =~= lines.take(i - first).push(l@));
        i += 1;
    }
    assert(lines.take(i - first) == lines);
    out
}

/// The line that is shown of an entry.
pub fn preview_line(n: &DailyNote, e: &Entry, terms: &Vec<String>) -> (r: String)
    requires
        note::entry_fits(e@, n@.lines.len() as int),
    ensures
        r@ == preview_of(n@, e@, text::texts(terms@)),
{
    let ghost lines = n@.body(e@);
    let ghost words = text::texts(terms@);
    let body: Vec<String> = body_list(n, e);
    let mut i: usize = 0;
    let mut found: Option<usize> = None;
    while i < body.len() && found.is_none()
        invariant
            i <= body.len(),
            lines == text::texts(body@),
            words == text::texts(terms@),
            match found {
                Some(at) => at < body.len() && hit_from(lines, words, 0) == Some(
                    lines[at as int],
                ),
                None => hit_from(lines, words, 0) == hit_from(lines, words, i as int),
            },
        decreases
            body.len() - i,
            if found is None {
                1int
            } else {
                0int
            },
    {
        assert(lines[i as int] == body@[i as int]@);
        if holds_any(lowercase(body[i].as_str()).as_str(), terms) {
            found = Some(i);
        } else {
            i += 1;
        }
    }
    let line: String = match found {
        Some(at) => {
            assert(lines[at as int] == body@[at as int]@);
            body[at].clone()
        },
        None => first_solid(&body),
    };
    let cleaned: String = clean_line(line.as_str());
    let chars: Vec<char> = chars_of(cleaned.as_str());
    take_chars(chars.as_slice(), 120)
}

/// The first line that is not blank, or nothing.
fn first_solid(body: &Vec<String>) -> (r: String)
    ensures
        r@ == solid_from(text::texts(body@), 0),
{
    let ghost lines = text::texts(body@);
    let mut i: usize = 0;
    while i < body.len()
        invariant
            i <= body.len(),
            lines == text::texts(body@),
            solid_from(lines, 0) == solid_from(lines, i as int),
        decreases body.len() - i,
    {
        assert(lines[i as int] == body@[i as int]@);
        if !blank(body[i].as_str()) {
            return body[i].clone();
        }
        i += 1;
    }
    String::new()
}

/// One more hit among the first ones.
proof fn lemma_capped_push(hits: Seq<HitView>, h: HitView)
    ensures
        capped(hits.push(h)) == if hits.len() < MAX_HITS {
            capped(hits).push(h)
        } else {
            capped(hits)
        },
{
    if hits.len() < MAX_HITS {
        assert(capped(hits) == hits);
        assert(capped(hits.push(h)) == hits.push(h));
    } else {
        assert(hits.push(h).take(MAX_HITS as int) == hits.take(MAX_HITS as int));
    }
}

/// Searches notes.
pub fn search(notes: &Vec<DailyNote>, query: &str) -> (r: Vec<SearchHit>)
    requires
        forall|i: int| 0 <= i < notes@.len() ==> (#[trigger] notes@[i])@.fits(),
    ensures
        types::hit_views(r@) == hits_of(note::note_views(notes@), query@),
{
    let mut out: Vec<SearchHit> = Vec::new();
    assert(types::hit_views(out@) == Seq::<HitView>::empty());
    let lower: String = lowercase(trim_string(query).as_str());
    if lower.as_str().is_empty() {
        return out;
    }
    let chars: Vec<char> = chars_of(lower.as_str());
    let terms: Vec<String> = split_words(chars.as_slice());
    let ghost words = text::texts(terms@);
    let ghost all = note::note_views(notes@);
    assert(capped(all_hits(all.take(0), words)) == Seq::<HitView>::empty());
    let mut i: usize = 0;
    while i < notes.len()
        invariant
            i <= notes.len(),
            all == note::note_views(notes@),
            words == text::texts(terms@),
            forall|k: int| 0 <= k < notes@.len() ==> (#[trigger] notes@[k])@.fits(),
            types::hit_views(out@) == capped(all_hits(all.take(i as int), words)),
        decreases notes.len() - i,
    {
        let n: &DailyNote = &notes[i];
        assert(all[i as int] == n@);
        assert(all.take(i + 1).drop_last() == all.take(i as int));
        let ghost before = all_hits(all.take(i as int), words);
        assert(before + note_hits(n@, i as int, words, 0) == before);
        let mut k: usize = 0;
        while k < n.entries.len()
            invariant
                k <= n.entries.len(),
                n@.fits(),
                words == text::texts(terms@),
                types::hit_views(out@) == capped(
                    before + note_hits(n@, i as int, words, k as int),
                ),
            decreases n.entries.len() - k,
        {
            let e: &Entry = &n.entries[k];
            assert(n@.entries[k as int] == e@);
            assert(note::entry_fits(n@.entries[k as int], n@.lines.len() as int));
            let ghost so_far = before + note_hits(n@, i as int, words, k as int);
            let ghost hit = HitView {
                note_idx: i as int,
                entry_idx: k as int,
                date: n@.date,
                preview: preview_of(n@, e@, words),
            };
            proof {
                lemma_capped_push(so_far, hit);
                if has_all(haystack(n@, e@), words) {
                    assert(before + note_hits(n@, i as int, words, k + 1) =~= so_far.push(hit));
                }
            }
            assert(out@.len() == types::hit_views(out@).len());
            if out.len() < MAX_HITS && holds_all(haystack_text(n, e).as_str(), &terms) {
                let h = SearchHit {
                    note_idx: i,
                    entry_idx: k,
                    date: n.date.clone(),
                    preview: preview_line(n, e, &terms),
                };
                let ghost done = out@;
                out.push(h);
                assert(types::hit_views(out@) =~= types::hit_views(done).push(h@));
            }
            k += 1;
        }
        i += 1;
    }
    assert(all.take(i as int) == all);
    out
}

// --------------------------------------------------------------------------- laws

/// Whether a hit points to an entry that exists.
pub open spec fn hit_fits(h: HitView, notes: Seq<NoteView>) -> bool {
    0 <= h.note_idx < notes.len() && 0 <= h.entry_idx < notes[h.note_idx].entries.len()
}

proof fn lemma_note_hits(n: NoteView, idx: int, terms: Seq<Seq<char>>, k: int)
    requires
        0 <= k <= n.entries.len(),
    ensures
        forall|i: int|
            0 <= i < note_hits(n, idx, terms, k).len() ==> {
                let h = #[trigger] note_hits(n, idx, terms, k)[i];
                &&& h.note_idx == idx
                &&& 0 <= h.entry_idx < k
                &&& has_all(haystack(n, n.entries[h.entry_idx]), terms)
                &&& h.date == n.date
            },
    decreases k,
{
    if k > 0 {
        lemma_note_hits(n, idx, terms, k - 1);
        let before = note_hits(n, idx, terms, k - 1);
        let all = note_hits(n, idx, terms, k);
        assert forall|i: int| 0 <= i < all.len() implies {
            let h = #[trigger] all[i];
            &&& h.note_idx == idx
            &&& 0 <= h.entry_idx < k
            &&& has_all(haystack(n, n.entries[h.entry_idx]), terms)
            &&& h.date == n.date
        } by {
            if i < before.len() {
                assert(all[i] == before[i]);
            }
        }
    }
}

proof fn lemma_all_hits(notes: Seq<NoteView>, terms: Seq<Seq<char>>)
    ensures
        forall|i: int|
            0 <= i < all_hits(notes, terms).len() ==> {
                let h = #[trigger] all_hits(notes, terms)[i];
                &&& hit_fits(h, notes)
                &&& has_all(
                    haystack(notes[h.note_idx], notes[h.note_idx].entries[h.entry_idx]),
                    terms,
                )
                &&& h.date == notes[h.note_idx].date
            },
    decreases notes.len(),
{
    if notes.len() > 0 {
        let head = notes.drop_last();
        let n = notes.last();
        lemma_all_hits(head, terms);
        lemma_note_hits(n, notes.len() - 1, terms, n.entries.len() as int);
        let all = all_hits(notes, terms);
        let before = all_hits(head, terms);
        assert forall|i: int| 0 <= i < all.len() implies {
            let h = #[trigger] all[i];
            &&& hit_fits(h, notes)
            &&& has_all(
                haystack(notes[h.note_idx], notes[h.note_idx].entries[h.entry_idx]),
                terms,
            )
            &&& h.date == notes[h.note_idx].date
        } by {
            if i < before.len() {
                assert(all[i] == before[i]);
                assert(notes[before[i].note_idx] == head[before[i].note_idx]);
            } else {
                assert(all[i] == note_hits(
                    n,
                    notes.len() - 1,
                    terms,
                    n.entries.len() as int,
                )[i - before.len()]);
            }
        }
    }
}

/// Every hit of a query points to an entry that exists and that holds all of its words, and
/// there are no more than the limit.
pub proof fn law_hits_hold_all_words(notes: Seq<NoteView>, query: Seq<char>)
    ensures
        hits_of(notes, query).len() <= MAX_HITS,
        forall|i: int|
            0 <= i < hits_of(notes, query).len() ==> {
                let h = #[trigger] hits_of(notes, query)[i];
                &&& hit_fits(h, notes)
                &&& has_all(
                    haystack(notes[h.note_idx], notes[h.note_idx].entries[h.entry_idx]),
                    terms_of(query),
                )
                &&& h.date == notes[h.note_idx].date
            },
{
    lemma_all_hits(notes, terms_of(query));
    let all = all_hits(notes, terms_of(query));
    let hits = hits_of(notes, query);
    assert forall|i: int| 0 <= i < hits.len() implies {
        let h = #[trigger] hits[i];
        &&& hit_fits(h, notes)
        &&& has_all(
            haystack(notes[h.note_idx], notes[h.note_idx].entries[h.entry_idx]),
            terms_of(query),
        )
        &&& h.date == notes[h.note_idx].date
    } by {
        assert(hits[i] == all[i]);
    }
}

} // verus!
