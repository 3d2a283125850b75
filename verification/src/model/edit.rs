//! What the operations on a note leave as it was.

use vstd::prelude::*;

use crate::model::block;
use crate::model::entry;
use crate::model::entry::{EntryView, Marker};
use crate::model::note;
use crate::model::note::NoteView;
use crate::text;

verus! {

/// Whether the data of an entry names its identifier.
pub open spec fn is_named(lines: Seq<Seq<char>>, e: EntryView) -> bool {
    entry::meta_of(lines.subrange(e.block.0 + 1, e.body.0 - 1)).contains_key("id"@)
}

/// Whether `f` is `e`, moved by `d` lines. An entry that is not named is known by its
/// position.
pub open spec fn is_moved(lines: Seq<Seq<char>>, e: EntryView, f: EntryView, d: int) -> bool {
    &&& is_named(lines, e) || d == 0 ==> f.id == e.id
    &&& f.created == e.created
    &&& f.created_ms == e.created_ms
    &&& f.tags == e.tags
    &&& f.body == (e.body.0 + d, e.body.1 + d)
    &&& f.block == (e.block.0 + d, e.block.1 + d)
}

/// Lines in front move the entries and change nothing else.
proof fn lemma_shift(a: Seq<Seq<char>>, y: Seq<Seq<char>>, date: Seq<char>, i: int)
    requires
        0 <= i,
    ensures
        ({
            let e = entry::entries_from(y, date, i);
            let f = entry::entries_from(a + y, date, a.len() + i);
            &&& e.len() == f.len()
            &&& forall|k: int|
                0 <= k < e.len() ==> is_moved(y, #[trigger] e[k], f[k], a.len() as int)
        }),
    decreases y.len() - i,
{
    let all = a + y;
    let n = a.len() as int;
    let open = entry::first_marker(y, i, Marker::Open);
    entry::lemma_first_marker(y, i, Marker::Open);
    block::lemma_marker_shift(a, y, i, Marker::Open);
    let mid = entry::first_marker(y, open + 1, Marker::MetaEnd);
    entry::lemma_first_marker(y, open + 1, Marker::MetaEnd);
    block::lemma_marker_shift(a, y, open + 1, Marker::MetaEnd);
    let close = entry::first_marker(y, mid + 1, Marker::Close);
    entry::lemma_first_marker(y, mid + 1, Marker::Close);
    block::lemma_marker_shift(a, y, mid + 1, Marker::Close);
    if i <= open < mid < close < y.len() {
        lemma_shift(a, y, date, close + 1);
        assert(all.subrange(n + open + 1, n + mid) == y.subrange(open + 1, mid));
        let first = entry::entry_at(y, date, open, mid, close);
        let moved = entry::entry_at(all, date, n + open, n + mid, n + close);
        assert(is_moved(y, first, moved, n));
        let e = entry::entries_from(y, date, i);
        let f = entry::entries_from(all, date, n + i);
        assert(e == seq![first] + entry::entries_from(y, date, close + 1));
        assert(f == seq![moved] + entry::entries_from(all, date, n + (close + 1)));
    }
}

/// The lines in front of entry `k` are settled and hold the entries in front of it.
#[verifier::spinoff_prover]
#[verifier::rlimit(40)]
proof fn lemma_front(lines: Seq<Seq<char>>, date: Seq<char>, i: int, k: int)
    requires
        0 <= i,
        0 <= k < entry::entries_from(lines, date, i).len(),
    ensures
        ({
            let es = entry::entries_from(lines, date, i);
            let o = es[k].block.0;
            &&& i <= o < lines.len()
            &&& block::settled_from(lines.take(o), i)
            &&& entry::entries_from(lines.take(o), date, i) == es.take(k)
            &&& entry::entries_from(lines, date, o) == es.skip(k)
            &&& entry::first_marker(lines, o, Marker::Open) == o
        }),
    decreases lines.len() - i,
{
    let es = entry::entries_from(lines, date, i);
    note::lemma_entries_fit(lines, date, i);
    let o = es[k].block.0;
    let a = lines.take(o);
    let b = lines.skip(o);
    assert(a + b == lines);
    let open = entry::first_marker(lines, i, Marker::Open);
    let mid = entry::first_marker(lines, open + 1, Marker::MetaEnd);
    let close = entry::first_marker(lines, mid + 1, Marker::Close);
    entry::lemma_first_marker(lines, i, Marker::Open);
    entry::lemma_first_marker(lines, o, Marker::Open);
    let first = entry::entry_at(lines, date, open, mid, close);
    let rest = entry::entries_from(lines, date, close + 1);
    assert(es == seq![first] + rest);
    entry::lemma_first_marker(a, i, Marker::Open);
    block::lemma_marker_concat(a, b, i, Marker::Open);
    if k == 0 {
        assert(o == open);
        assert(entry::first_marker(a, i, Marker::Open) >= a.len());
        assert(es.take(0) == Seq::<EntryView>::empty());
        assert(es.skip(0) == es);
        assert(entry::first_marker(lines, o, Marker::Open) == o);
        assert(entry::entries_from(lines, date, o) == es);
    } else {
        assert(es[k] == rest[k - 1]);
        lemma_front(lines, date, close + 1, k - 1);
        entry::lemma_first_marker(lines, open + 1, Marker::MetaEnd);
        entry::lemma_first_marker(lines, mid + 1, Marker::Close);
        entry::lemma_first_marker(lines, o, Marker::MetaEnd);
        entry::lemma_first_marker(lines, o, Marker::Close);
        block::lemma_marker_concat(a, b, open + 1, Marker::MetaEnd);
        block::lemma_marker_concat(a, b, mid + 1, Marker::Close);
        assert(entry::first_marker(a, i, Marker::Open) == open);
        assert(entry::first_marker(a, open + 1, Marker::MetaEnd) == mid);
        assert(entry::first_marker(a, mid + 1, Marker::Close) == close);
        assert(a.subrange(open + 1, mid) == lines.subrange(open + 1, mid));
        assert(entry::entry_at(a, date, open, mid, close) == first);
        assert(es.take(k) == seq![first] + rest.take(k - 1));
        assert(es.skip(k) == rest.skip(k - 1));
    }
}

/// Whether no line closes a block.
pub open spec fn no_close(lines: Seq<Seq<char>>) -> bool {
    forall|i: int| 0 <= i < lines.len() ==> !entry::is_marker(#[trigger] lines[i], Marker::Close)
}

/// A block whose data ends with `p`, whose body is `b` and which is closed by the first
/// line of `r`.
proof fn lemma_block_at(
    p: Seq<Seq<char>>,
    b: Seq<Seq<char>>,
    r: Seq<Seq<char>>,
    date: Seq<char>,
    o: int,
)
    requires
        0 <= o < p.len() - 1,
        entry::is_marker(p[o], Marker::Open),
        entry::first_marker(p, o + 1, Marker::MetaEnd) == p.len() - 1,
        no_close(b),
        r.len() > 0,
        entry::is_marker(r[0], Marker::Close),
    ensures
        ({
            let all = p + b + r;
            let mid = p.len() - 1;
            let close = (p.len() + b.len()) as int;
            &&& entry::entries_from(all, date, o) == seq![
                entry::entry_at(all, date, o, mid, close),
            ] + entry::entries_from(all, date, close + 1)
        }),
{
    let all = p + b + r;
    let mid = p.len() - 1;
    let close = (p.len() + b.len()) as int;
    assert(all[o] == p[o]);
    assert(entry::first_marker(all, o, Marker::Open) == o);
    assert(all == p + (b + r));
    block::lemma_marker_concat(p, b + r, o + 1, Marker::MetaEnd);
    assert(entry::first_marker(all, o + 1, Marker::MetaEnd) == mid);
    entry::lemma_first_marker(all, mid + 1, Marker::Close);
    let c = entry::first_marker(all, mid + 1, Marker::Close);
    assert(all[close] == r[0]);
    assert(c == close) by {
        if c < close {
            assert(all[c] == b[c - p.len()]);
        }
    }
}

/// Where the markers of entry `k` stand, and what follows it.
#[verifier::spinoff_prover]
#[verifier::rlimit(60)]
proof fn lemma_place(n: NoteView, k: int)
    requires
        n.is_parsed(),
        0 <= k < n.entries.len(),
    ensures
        ({
            let e = n.entries[k];
            let o = e.block.0;
            let mid = e.body.0 - 1;
            let close = e.body.1;
            &&& 0 <= o < mid < close < n.lines.len()
            &&& e.block.1 == close + 1
            &&& entry::first_marker(n.lines, o, Marker::Open) == o
            &&& entry::first_marker(n.lines, o + 1, Marker::MetaEnd) == mid
            &&& entry::first_marker(n.lines, mid + 1, Marker::Close) == close
            &&& e == entry::entry_at(n.lines, n.date, o, mid, close)
            &&& n.entries.skip(k + 1) == entry::entries_from(n.lines, n.date, close + 1)
        }),
{
    let e = n.entries[k];
    let o = e.block.0;
    lemma_front(n.lines, n.date, 0, k);
    let here = entry::entries_from(n.lines, n.date, o);
    assert(here == n.entries.skip(k));
    assert(here[0] == e);
    let mid = entry::first_marker(n.lines, o + 1, Marker::MetaEnd);
    let close = entry::first_marker(n.lines, mid + 1, Marker::Close);
    assert(here == seq![entry::entry_at(n.lines, n.date, o, mid, close)] + entry::entries_from(
        n.lines,
        n.date,
        close + 1,
    ));
    assert(n.entries.skip(k + 1) == here.skip(1));
    assert(here.skip(1) == entry::entries_from(n.lines, n.date, close + 1));
}

/// The parts of the lines around the body of entry `k`.
#[verifier::spinoff_prover]
#[verifier::rlimit(60)]
proof fn lemma_parts(n: NoteView, k: int)
    requires
        n.is_parsed(),
        0 <= k < n.entries.len(),
    ensures
        ({
            let e = n.entries[k];
            let o = e.block.0;
            let p = n.lines.take(e.body.0);
            let b = n.body(e);
            let r = n.lines.skip(e.body.1);
            &&& 0 <= o < p.len() - 1
            &&& p.len() == e.body.0
            &&& entry::is_marker(p[o], Marker::Open)
            &&& entry::first_marker(p, o + 1, Marker::MetaEnd) == p.len() - 1
            &&& no_close(b)
            &&& r.len() > 0
            &&& entry::is_marker(r[0], Marker::Close)
            &&& n.lines == p + b + r
            &&& e.block.1 == e.body.1 + 1
            &&& e == entry::entry_at(n.lines, n.date, o, e.body.0 - 1, e.body.1)
            &&& n.entries.skip(k + 1) == entry::entries_from(n.lines, n.date, e.block.1)
        }),
{
    let e = n.entries[k];
    let o = e.block.0;
    lemma_place(n, k);
    let mid = e.body.0 - 1;
    let close = e.body.1;
    entry::lemma_first_marker(n.lines, o, Marker::Open);
    entry::lemma_first_marker(n.lines, o + 1, Marker::MetaEnd);
    entry::lemma_first_marker(n.lines, mid + 1, Marker::Close);
    let p = n.lines.take(e.body.0);
    let b = n.body(e);
    let r = n.lines.skip(e.body.1);
    assert(n.lines == p + b + r);
    assert(p + (b + r) == n.lines);
    block::lemma_marker_concat(p, b + r, o + 1, Marker::MetaEnd);
    entry::lemma_first_marker(n.lines, p.len() as int, Marker::MetaEnd);
    assert forall|i: int| 0 <= i < b.len() implies !entry::is_marker(
        #[trigger] b[i],
        Marker::Close,
    ) by {
        assert(b[i] == n.lines[e.body.0 + i]);
    }
}

/// Whether the entries of `m` from `at` on are those of `n` from `from` on, moved by `d`
/// lines, with the same bodies.
pub open spec fn tail_moved(n: NoteView, from: int, m: NoteView, at: int, d: int) -> bool {
    &&& n.entries.len() - from == m.entries.len() - at
    &&& forall|j: int|
        #![trigger n.entries[from + j]]
        #![trigger m.entries[at + j]]
        0 <= j < n.entries.len() - from ==> is_moved(
            n.lines,
            n.entries[from + j],
            m.entries[at + j],
            d,
        ) && m.body(m.entries[at + j]) == n.body(n.entries[from + j])
}

/// The entries in the same last lines of two notes.
#[verifier::spinoff_prover]
#[verifier::rlimit(60)]
proof fn lemma_tails(
    x: Seq<Seq<char>>,
    y: Seq<Seq<char>>,
    r: Seq<Seq<char>>,
    date: Seq<char>,
    i: int,
)
    requires
        0 <= i,
    ensures
        ({
            let e = entry::entries_from(x + r, date, x.len() + i);
            let f = entry::entries_from(y + r, date, y.len() + i);
            let d = y.len() - x.len();
            &&& e.len() == f.len()
            &&& forall|k: int|
                #![trigger e[k]]
                #![trigger f[k]]
                0 <= k < e.len() ==> is_moved(x + r, e[k], f[k], d) && (y + r).subrange(
                    f[k].body.0,
                    f[k].body.1,
                ) == (x + r).subrange(e[k].body.0, e[k].body.1)
        }),
{
    let e = entry::entries_from(x + r, date, x.len() + i);
    let f = entry::entries_from(y + r, date, y.len() + i);
    let g = entry::entries_from(r, date, i);
    let d = y.len() - x.len();
    lemma_shift(x, r, date, i);
    lemma_shift(y, r, date, i);
    note::lemma_entries_fit(r, date, i);
    assert forall|k: int| 0 <= k < e.len() implies is_moved(x + r, #[trigger] e[k], f[k], d) && (y
        + r).subrange(f[k].body.0, f[k].body.1) == (x + r).subrange(e[k].body.0, e[k].body.1) by {
        let h = g[k];
        assert(is_moved(r, h, e[k], x.len() as int));
        assert(is_moved(r, h, f[k], y.len() as int));
        assert((x + r).subrange(e[k].body.0, e[k].body.1) == r.subrange(h.body.0, h.body.1));
        assert((y + r).subrange(f[k].body.0, f[k].body.1) == r.subrange(h.body.0, h.body.1));
        assert((x + r).subrange(e[k].block.0 + 1, e[k].body.0 - 1) == r.subrange(
            h.block.0 + 1,
            h.body.0 - 1,
        ));
        if d == 0 && !is_named(r, h) {
            assert((y + r).subrange(f[k].block.0 + 1, f[k].body.0 - 1) == r.subrange(
                h.block.0 + 1,
                h.body.0 - 1,
            ));
            lemma_position_id(x + r, date, x.len() + i, k);
            lemma_position_id(y + r, date, y.len() + i, k);
        }
    }
}

/// An entry that is not named is known by the date and its position.
proof fn lemma_position_id(lines: Seq<Seq<char>>, date: Seq<char>, i: int, k: int)
    requires
        0 <= i,
        0 <= k < entry::entries_from(lines, date, i).len(),
        !is_named(lines, entry::entries_from(lines, date, i)[k]),
    ensures
        ({
            let e = entry::entries_from(lines, date, i)[k];
            e.id == date + seq![':'] + crate::number::decimal(e.block.0 as nat)
        }),
    decreases k,
{
    let open = entry::first_marker(lines, i, Marker::Open);
    let mid = entry::first_marker(lines, open + 1, Marker::MetaEnd);
    let close = entry::first_marker(lines, mid + 1, Marker::Close);
    entry::lemma_first_marker(lines, i, Marker::Open);
    let first = entry::entry_at(lines, date, open, mid, close);
    let rest = entry::entries_from(lines, date, close + 1);
    assert(entry::entries_from(lines, date, i) == seq![first] + rest);
    if k > 0 {
        assert(entry::entries_from(lines, date, i)[k] == rest[k - 1]);
        lemma_position_id(lines, date, close + 1, k - 1);
    }
}

/// Entries in front of entry `k` stay where only lines from its first one on change.
#[verifier::spinoff_prover]
#[verifier::rlimit(60)]
proof fn lemma_front_kept(n: NoteView, k: int, y: Seq<Seq<char>>)
    requires
        n.is_parsed(),
        0 <= k < n.entries.len(),
    ensures
        ({
            let o = n.entries[k].block.0;
            let m = n.with_lines(n.lines.take(o) + y);
            &&& m.entries == n.entries.take(k) + entry::entries_from(m.lines, n.date, o)
            &&& m.entries.take(k) == n.entries.take(k)
            &&& forall|j: int|
                0 <= j < k ==> m.body(#[trigger] m.entries[j]) == n.body(n.entries[j])
        }),
{
    let o = n.entries[k].block.0;
    let a = n.lines.take(o);
    let m = n.with_lines(a + y);
    note::lemma_parsed_fits(n);
    lemma_front(n.lines, n.date, 0, k);
    block::lemma_entries_concat(a, y, n.date, 0);
    assert(a.len() == o);
    assert(m.entries.take(k) == n.entries.take(k));
    assert forall|j: int| 0 <= j < k implies m.body(#[trigger] m.entries[j]) == n.body(
        n.entries[j],
    ) by {
        let e = n.entries[j];
        assert(m.entries[j] == e);
        assert(e.block.1 <= n.entries[k].block.0);
        assert(note::entry_fits(e, n.lines.len() as int));
        assert(m.body(e) =~= n.body(e));
    }
}

/// Entries in the same last lines of two notes.
#[verifier::spinoff_prover]
#[verifier::rlimit(60)]
proof fn lemma_tail_moved(
    n: NoteView,
    from: int,
    m: NoteView,
    at: int,
    x: Seq<Seq<char>>,
    y: Seq<Seq<char>>,
    r: Seq<Seq<char>>,
    i: int,
)
    requires
        0 <= i,
        0 <= from <= n.entries.len(),
        0 <= at <= m.entries.len(),
        n.lines == x + r,
        m.lines == y + r,
        n.entries.skip(from) == entry::entries_from(x + r, n.date, x.len() + i),
        m.entries.skip(at) == entry::entries_from(y + r, n.date, y.len() + i),
    ensures
        tail_moved(n, from, m, at, y.len() - x.len()),
{
    let e = n.entries.skip(from);
    let f = m.entries.skip(at);
    lemma_tails(x, y, r, n.date, i);
    assert forall|j: int|
        #![trigger n.entries[from + j]]
        #![trigger m.entries[at + j]]
        0 <= j < n.entries.len() - from implies is_moved(
        n.lines,
        n.entries[from + j],
        m.entries[at + j],
        y.len() - x.len(),
    ) && m.body(m.entries[at + j]) == n.body(n.entries[from + j]) by {
        assert(e[j] == n.entries[from + j]);
        assert(f[j] == m.entries[at + j]);
    }
}

/// A new body for an entry is read back, the entry's other values stay, and so do the
/// other entries: those in front as they are, those behind moved with their lines. No
/// line of the new body closes the block.
#[verifier::spinoff_prover]
#[verifier::rlimit(60)]
pub proof fn law_body_replaced(n: NoteView, k: int, body: Seq<char>)
    requires
        n.is_parsed(),
        0 <= k < n.entries.len(),
        no_close(note::body_lines(body)),
    ensures
        ({
            let m = n.with_body(k, body);
            let e = n.entries[k];
            let f = m.entries[k];
            let d = note::body_lines(body).len() - (e.body.1 - e.body.0);
            &&& m.entries.len() == n.entries.len()
            &&& m.entries.take(k) == n.entries.take(k)
            &&& forall|j: int|
                0 <= j < k ==> m.body(#[trigger] m.entries[j]) == n.body(n.entries[j])
            &&& m.body(f) == note::body_lines(body)
            &&& f.id == e.id && f.created == e.created && f.created_ms == e.created_ms && f.tags
                == e.tags
            &&& tail_moved(n, k + 1, m, k + 1, d)
        }),
{
    let m = n.with_body(k, body);
    let e = n.entries[k];
    let o = e.block.0;
    let p = n.lines.take(e.body.0);
    let b = n.body(e);
    let c = note::body_lines(body);
    let r = n.lines.skip(e.body.1);
    note::lemma_parsed_fits(n);
    lemma_parts(n, k);
    assert(note::entry_fits(e, n.lines.len() as int));
    assert((p + b).len() == e.body.1);
    assert(m.lines == p + c + r);
    let y = m.lines.skip(o);
    assert(n.lines.take(o) + y == m.lines);
    lemma_front_kept(n, k, y);
    lemma_block_at(p, c, r, n.date, o);
    let close = (p.len() + c.len()) as int;
    assert(m.lines.subrange(o + 1, p.len() - 1) == n.lines.subrange(o + 1, p.len() - 1));
    let f = entry::entry_at(m.lines, n.date, o, p.len() - 1, close);
    let tail = entry::entries_from(m.lines, n.date, close + 1);
    assert(m.entries == n.entries.take(k) + (seq![f] + tail));
    assert(m.entries[k] == f);
    assert(m.body(f) == c);
    assert(m.entries.skip(k + 1) == tail);
    lemma_tail_moved(n, k + 1, m, k + 1, p + b, p + c, r, 1);
}

/// Whether a data line holds tags.
pub open spec fn holds_tags(l: Seq<char>) -> bool {
    entry::meta_line(l) matches Some((key, _)) && key == "tags"@
}

/// A line that begins with the label of the tags holds tags.
proof fn lemma_tag_line_holds(l: Seq<char>)
    requires
        note::is_tag_line(l),
    ensures
        holds_tags(l),
        text::first_index(l, ':') < l.len(),
        text::trimmed(l.take(text::first_index(l, ':') as int)) == "tags"@,
    decreases l.len(),
{
    let label = "tags:"@;
    reveal_strlit("tags:");
    reveal_strlit("tags");
    block::lemma_labels();
    if text::is_space(l[0]) {
        let rest = l.skip(1);
        lemma_tag_line_holds(rest);
        let k = text::first_index(rest, ':') as int;
        assert(text::first_index(l, ':') == k + 1);
        assert(l.take(k + 1).skip(1) == rest.take(k));
    } else {
        assert(l.take(5) == label);
        assert(l[4] == label[4]);
        assert forall|i: int| 0 <= i < 4 implies #[trigger] l[i] != ':' by {
            assert(l.take(5)[i] == label[i]);
        }
        text::lemma_first_index_unique(l, ':', 4);
        assert(l.take(4) == "tags"@) by {
            assert forall|i: int| 0 <= i < 4 implies l[i] == "tags"@[i] by {
                assert(l.take(5)[i] == label[i]);
            }
        }
        text::lemma_trimmed_solid("tags"@);
    }
}

/// The line of tags is not the end of the data.
proof fn lemma_tag_line_is_data(tags: Seq<Seq<char>>)
    ensures
        !entry::is_marker(note::tag_line(tags), Marker::MetaEnd),
{
    let l = note::tag_line(tags);
    reveal_strlit("tags: ");
    reveal_strlit("-->");
    assert(l[0] == 't');
    text::lemma_trimmed_end_front(l);
    assert("-->"@[0] == '-');
}

/// Where the last line that holds tags is replaced, the data is as it was but for the tags.
proof fn lemma_meta_set(lines: Seq<Seq<char>>, i: int, value: Seq<char>)
    requires
        0 <= i < lines.len(),
        holds_tags(lines[i]),
        forall|j: int| i < j < lines.len() ==> !holds_tags(#[trigger] lines[j]),
    ensures
        entry::meta_of(lines.update(i, "tags: "@ + value)) == entry::meta_of(lines).insert(
            "tags"@,
            text::trimmed(value),
        ),
    decreases lines.len(),
{
    block::lemma_labels();
    let new = "tags"@ + seq![':', ' '] + value;
    assert("tags: "@ + value == new);
    block::lemma_meta_line("tags"@, value);
    let front = lines.drop_last();
    let after = lines.update(i, new);
    if i == lines.len() - 1 {
        assert(after.drop_last() == front);
        assert(entry::meta_of(after) =~= entry::meta_of(lines).insert(
            "tags"@,
            text::trimmed(value),
        ));
    } else {
        assert forall|j: int| i < j < front.len() implies !holds_tags(#[trigger] front[j]) by {
            assert(front[j] == lines[j]);
        }
        lemma_meta_set(front, i, value);
        assert(after.drop_last() == front.update(i, new));
        assert(after.last() == lines[lines.len() - 1]);
        assert(!holds_tags(lines[lines.len() - 1]));
        assert(entry::meta_of(after) =~= entry::meta_of(lines).insert(
            "tags"@,
            text::trimmed(value),
        ));
    }
}

/// Where the line of tags is found.
proof fn lemma_tag_line_at(n: NoteView, i: int, end: int)
    requires
        i <= end,
    ensures
        i <= n.tag_line_at(i, end) <= end,
        n.tag_line_at(i, end) < end ==> note::is_tag_line(n.lines[n.tag_line_at(i, end)]),
    decreases end - i,
{
    if i < end && !note::is_tag_line(n.lines[i]) {
        lemma_tag_line_at(n, i + 1, end);
    }
}

/// The data of an entry with other tags.
proof fn lemma_tags_set(n: NoteView, k: int, tags: Seq<Seq<char>>)
    requires
        n.is_parsed(),
        0 <= k < n.entries.len(),
        ({
            let e = n.entries[k];
            let end = e.body.0 - 1;
            forall|j: int|
                n.tag_line_at(e.block.0 + 1, end) < j < end ==> !holds_tags(#[trigger] n.lines[j])
        }),
    ensures
        ({
            let e = n.entries[k];
            let o = e.block.0;
            let end = e.body.0 - 1;
            let at = n.tag_line_at(o + 1, end);
            let l = note::tag_line(tags);
            let p = n.lines.take(e.body.0);
            let q = if at < end {
                p.update(at, l)
            } else {
                p.insert(end, l)
            };
            &&& entry::is_marker(q[o], Marker::Open)
            &&& entry::first_marker(q, o + 1, Marker::MetaEnd) == q.len() - 1
            &&& q.take(o) == n.lines.take(o)
            &&& entry::meta_of(q.subrange(o + 1, q.len() - 1)) == entry::meta_of(
                n.lines.subrange(o + 1, end),
            ).insert("tags"@, text::trimmed(text::joined(tags, ", "@)))
            &&& n.with_tags(k, tags).lines == q + n.body(e) + n.lines.skip(e.body.1)
        }),
{
    let e = n.entries[k];
    let o = e.block.0;
    let end = e.body.0 - 1;
    let at = n.tag_line_at(o + 1, end);
    let l = note::tag_line(tags);
    let value = text::joined(tags, ", "@);
    lemma_parts(n, k);
    let p = n.lines.take(e.body.0);
    lemma_tag_line_at(n, o + 1, end);
    let q = if at < end {
        p.update(at, l)
    } else {
        p.insert(end, l)
    };
    let data = n.lines.subrange(o + 1, end);
    lemma_tag_line_is_data(tags);
    entry::lemma_first_marker(p, o + 1, Marker::MetaEnd);
    entry::lemma_first_marker(q, o + 1, Marker::MetaEnd);
    let c = entry::first_marker(q, o + 1, Marker::MetaEnd);
    assert(q[q.len() - 1] == p[end]);
    assert(c == q.len() - 1) by {
        if c < q.len() - 1 {
            if at < end {
                assert(c != at ==> q[c] == p[c]);
            } else {
                assert(c < end ==> q[c] == p[c]);
            }
        }
    }
    assert(q[o] == p[o]);
    assert(q.take(o) =~= n.lines.take(o));
    if at < end {
        let i = at - (o + 1);
        lemma_tag_line_holds(n.lines[at]);
        assert(data[i] == n.lines[at]);
        assert forall|j: int| i < j < data.len() implies !holds_tags(#[trigger] data[j]) by {
            assert(data[j] == n.lines[o + 1 + j]);
        }
        lemma_meta_set(data, i, value);
        assert(q.subrange(o + 1, q.len() - 1) =~= data.update(i, l));
        assert(n.with_tags(k, tags).lines =~= q + n.body(e) + n.lines.skip(e.body.1));
    } else {
        block::lemma_labels();
        block::lemma_meta_push(data, "tags"@, value);
        assert(q.subrange(o + 1, q.len() - 1) =~= data.push(l));
        assert(n.with_tags(k, tags).lines =~= q + n.body(e) + n.lines.skip(e.body.1));
    }
}

/// New tags for an entry are read back, the entry's other values and its body stay, and so
/// do the other entries: those in front as they are, those behind moved with their lines,
/// by one where a line of tags was added. The tags are read as they are, and no line of data
/// behind the first line of tags holds tags too.
#[verifier::spinoff_prover]
#[verifier::rlimit(60)]
pub proof fn law_tags_replaced(n: NoteView, k: int, tags: Seq<Seq<char>>)
    requires
        n.is_parsed(),
        0 <= k < n.entries.len(),
        entry::tags_of(text::joined(tags, ", "@)) == tags,
        ({
            let e = n.entries[k];
            let end = e.body.0 - 1;
            forall|j: int|
                n.tag_line_at(e.block.0 + 1, end) < j < end ==> !holds_tags(#[trigger] n.lines[j])
        }),
    ensures
        ({
            let m = n.with_tags(k, tags);
            let e = n.entries[k];
            let f = m.entries[k];
            let end = e.body.0 - 1;
            let d: int = if n.tag_line_at(e.block.0 + 1, end) < end {
                0
            } else {
                1
            };
            &&& m.entries.len() == n.entries.len()
            &&& m.entries.take(k) == n.entries.take(k)
            &&& forall|j: int|
                0 <= j < k ==> m.body(#[trigger] m.entries[j]) == n.body(n.entries[j])
            &&& f.tags == tags
            &&& f.id == e.id && f.created == e.created && f.created_ms == e.created_ms
            &&& m.body(f) == n.body(e)
            &&& tail_moved(n, k + 1, m, k + 1, d)
        }),
{
    let m = n.with_tags(k, tags);
    let e = n.entries[k];
    let o = e.block.0;
    let end = e.body.0 - 1;
    let at = n.tag_line_at(o + 1, end);
    let l = note::tag_line(tags);
    let p = n.lines.take(e.body.0);
    let b = n.body(e);
    let r = n.lines.skip(e.body.1);
    let q = if at < end {
        p.update(at, l)
    } else {
        p.insert(end, l)
    };
    block::law_read_tags_are_plain(tags);
    block::law_tags_read_back(tags);
    lemma_parts(n, k);
    lemma_tag_line_at(n, o + 1, end);
    lemma_tags_set(n, k, tags);
    note::lemma_parsed_fits(n);
    assert(note::entry_fits(e, n.lines.len() as int));
    assert((p + b).len() == e.body.1);
    let y = m.lines.skip(o);
    assert(n.lines.take(o) + y == m.lines) by {
        assert(m.lines.take(o) =~= q.take(o));
    }
    lemma_front_kept(n, k, y);
    lemma_block_at(q, b, r, n.date, o);
    let close = (q.len() + b.len()) as int;
    assert(m.lines.subrange(o + 1, q.len() - 1) == q.subrange(o + 1, q.len() - 1));
    let f = entry::entry_at(m.lines, n.date, o, q.len() - 1, close);
    let tail = entry::entries_from(m.lines, n.date, close + 1);
    assert(m.entries == n.entries.take(k) + (seq![f] + tail));
    assert(m.entries[k] == f);
    assert(m.body(f) == b);
    assert(m.entries.skip(k + 1) == tail);
    lemma_other_keys();
    lemma_tail_moved(n, k + 1, m, k + 1, p + b, q + b, r, 1);
}

/// The other keys of the data are not that of the tags.
proof fn lemma_other_keys()
    ensures
        "id"@ != "tags"@,
        "created"@ != "tags"@,
        "created_ms"@ != "tags"@,
{
    block::lemma_labels();
}

/// A blank line is no marker.
proof fn lemma_blank_is_no_marker(l: Seq<char>, m: Marker)
    requires
        text::is_blank(l),
    ensures
        !entry::is_marker(l, m),
{
    reveal_strlit("<!-- acta:comment");
    reveal_strlit("-->");
    reveal_strlit("<!-- /acta:comment -->");
    assert("-->"@.len() == 3);
    assert("<!-- /acta:comment -->"@.len() == 22);
    assert("<!-- acta:comment"@.len() == 17);
}

/// Blank lines hold no entry.
proof fn lemma_past_blank(n: NoteView, i: int)
    requires
        0 <= i,
    ensures
        entry::entries_from(n.lines, n.date, n.past_blank(i)) == entry::entries_from(
            n.lines,
            n.date,
            i,
        ),
        n.past_blank(i) >= i,
        i <= n.lines.len() ==> n.past_blank(i) <= n.lines.len(),
    decreases n.lines.len() - i,
{
    if i < n.lines.len() && text::is_blank(n.lines[i]) {
        lemma_past_blank(n, i + 1);
        lemma_blank_is_no_marker(n.lines[i], Marker::Open);
        entry::lemma_first_marker(n.lines, i + 1, Marker::Open);
        assert(entry::entries_from(n.lines, n.date, i) == entry::entries_from(
            n.lines,
            n.date,
            i + 1,
        ));
    }
}

/// An entry with lines behind it is deleted.
#[verifier::spinoff_prover]
proof fn lemma_deleted_inside(n: NoteView, k: int, end: int)
    requires
        n.is_parsed(),
        0 <= k < n.entries.len(),
        0 <= end < n.lines.len(),
        n.entries[k].block.0 <= n.lines.len(),
        n.entries.skip(k + 1) == entry::entries_from(n.lines, n.date, end),
    ensures
        ({
            let o = n.entries[k].block.0;
            let m = n.with_lines(n.lines.take(o) + n.lines.skip(end));
            &&& m.entries.take(k) == n.entries.take(k)
            &&& m.entries.len() >= k
            &&& forall|j: int|
                0 <= j < k ==> m.body(#[trigger] m.entries[j]) == n.body(n.entries[j])
            &&& tail_moved(n, k + 1, m, k, o - end)
        }),
{
    let o = n.entries[k].block.0;
    let a = n.lines.take(o);
    let x = n.lines.take(end);
    let r = n.lines.skip(end);
    let m = n.with_lines(a + r);
    note::lemma_parsed_fits(n);
    assert(note::entry_fits(n.entries[k], n.lines.len() as int));
    assert(x + r == n.lines);
    lemma_front_kept(n, k, r);
    assert(m.entries.skip(k) == entry::entries_from(m.lines, n.date, o));
    lemma_tail_moved(n, k + 1, m, k, x, a, r, 0);
}

/// The last entry is deleted.
#[verifier::spinoff_prover]
proof fn lemma_deleted_last(n: NoteView, k: int)
    requires
        n.is_parsed(),
        0 <= k < n.entries.len(),
        n.entries.len() == k + 1,
    ensures
        ({
            let o = n.entries[k].block.0;
            let m = n.with_lines(n.lines.take(o).push(Seq::empty()));
            &&& m.entries == n.entries.take(k)
            &&& forall|j: int|
                0 <= j < k ==> m.body(#[trigger] m.entries[j]) == n.body(n.entries[j])
        }),
{
    let o = n.entries[k].block.0;
    let a = n.lines.take(o);
    let y = seq![Seq::<char>::empty()];
    assert(a.push(Seq::empty()) == a + y);
    lemma_front_kept(n, k, y);
    lemma_front(n.lines, n.date, 0, k);
    block::lemma_entries_push_empty(a, n.date, 0);
}

/// Where an entry is deleted, the others stay: those in front as they are, those behind
/// moved with their lines.
#[verifier::spinoff_prover]
pub proof fn law_entry_deleted(n: NoteView, k: int)
    requires
        n.is_parsed(),
        0 <= k < n.entries.len(),
    ensures
        ({
            let m = n.without_entry(k);
            let e = n.entries[k];
            &&& m.entries.len() == n.entries.len() - 1
            &&& m.entries.take(k) == n.entries.take(k)
            &&& forall|j: int|
                0 <= j < k ==> m.body(#[trigger] m.entries[j]) == n.body(n.entries[j])
            &&& tail_moved(n, k + 1, m, k, e.block.0 - n.past_blank(e.block.1))
        }),
{
    let m = n.without_entry(k);
    let e = n.entries[k];
    let end = n.past_blank(e.block.1);
    lemma_place(n, k);
    lemma_past_blank(n, e.block.1);
    if end < n.lines.len() {
        lemma_deleted_inside(n, k, end);
    } else {
        entry::lemma_first_marker(n.lines, end, Marker::Open);
        assert(entry::entries_from(n.lines, n.date, end) == Seq::<EntryView>::empty());
        assert(n.entries.skip(k + 1).len() == 0);
        lemma_deleted_last(n, k);
    }
}

} // verus!
