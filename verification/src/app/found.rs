//! What a search finds, and what is shown of an entry.

use vstd::prelude::*;

use crate::app::reading;
use crate::app::types;
use crate::app::types::HitView;
use crate::model::entry::EntryView;
use crate::model::note::NoteView;
use crate::pick;
use crate::text;

verus! {

// ------------------------------------------------------------------------- search

/// Whether a text stands somewhere in another.
pub open spec fn stands_in(s: Seq<char>, w: Seq<char>) -> bool {
    exists|p: int| 0 <= p <= s.len() - w.len() && #[trigger] s.subrange(p, p + w.len()) == w
}

/// Whether each word of a query stands in the body of an entry or in its tags, all in small
/// letters.
pub open spec fn is_found(n: NoteView, e: EntryView, query: Seq<char>) -> bool {
    let body = text::lowercased(text::joined(n.lines.subrange(e.body.0, e.body.1), seq!['\n']));
    let tags = text::lowercased(text::joined(e.tags, seq![',']));
    let words = text::words(text::lowercased(text::trimmed(query)));
    forall|i: int|
        0 <= i < words.len() ==> stands_in(body, #[trigger] words[i]) || stands_in(tags, words[i])
}

/// Whether an entry comes before another: in an earlier note, or earlier in the same one.
pub open spec fn comes_before(a: (int, int), b: (int, int)) -> bool {
    a.0 < b.0 || (a.0 == b.0 && a.1 < b.1)
}

/// The entry that a hit points to.
pub open spec fn place_of(h: HitView) -> (int, int) {
    (h.note_idx, h.entry_idx)
}

/// Whether one of the words stands in a line, in small letters.
pub open spec fn shows_word(l: Seq<char>, words: Seq<Seq<char>>) -> bool {
    exists|i: int| 0 <= i < words.len() && stands_in(text::lowercased(l), #[trigger] words[i])
}

/// Whether a text begins with just `k` hash signs.
pub open spec fn has_hashes(t: Seq<char>, k: int) -> bool {
    &&& 0 <= k <= t.len()
    &&& forall|i: int| 0 <= i < k ==> #[trigger] t[i] == '#'
    &&& k < t.len() ==> t[k] != '#'
}

/// Whether a text is what is shown of a line: up to `n` characters, without white space
/// around it and hash signs in front.
pub open spec fn is_bare(s: Seq<char>, l: Seq<char>, n: int) -> bool {
    exists|k: int| #[trigger]
        has_hashes(text::trimmed(l), k) && {
            let rest = text::trimmed(text::trimmed(l).skip(k));
            &&& s.len() <= n && s.len() <= rest.len()
            &&& s == rest.take(s.len() as int)
            &&& s.len() < n ==> s.len() == rest.len()
        }
}

/// Whether a text is the preview of a body: it shows the first line with one of the words; in
/// a body without such a line the first that is not blank; else nothing.
pub open spec fn is_preview(s: Seq<char>, lines: Seq<Seq<char>>, words: Seq<Seq<char>>) -> bool {
    ||| exists|j: int|
        {
            &&& 0 <= j < lines.len()
            &&& is_bare(s, #[trigger] lines[j], 120)
            &&& shows_word(lines[j], words)
            &&& forall|i: int| 0 <= i < j ==> !shows_word(#[trigger] lines[i], words)
        }
    ||| {
        &&& forall|i: int| 0 <= i < lines.len() ==> !shows_word(#[trigger] lines[i], words)
        &&& exists|j: int|
            {
                &&& 0 <= j < lines.len()
                &&& is_bare(s, #[trigger] lines[j], 120)
                &&& text::trimmed(lines[j]).len() > 0
                &&& forall|i: int| 0 <= i < j ==> text::trimmed(#[trigger] lines[i]).len() == 0
            }
    }
    ||| {
        &&& forall|i: int| 0 <= i < lines.len() ==> !shows_word(#[trigger] lines[i], words)
        &&& forall|i: int| 0 <= i < lines.len() ==> text::trimmed(#[trigger] lines[i]).len() == 0
        &&& s.len() == 0
    }
}

/// A text stands in another where it stands at some position.
proof fn lemma_has(s: Seq<char>, w: Seq<char>)
    ensures
        text::has(s, w) == stands_in(s, w),
{
    if text::has(s, w) {
        let i = choose|i: int| text::stands_at(s, w, i);
        assert(s.subrange(i, i + w.len()) == w);
    }
    if stands_in(s, w) {
        let p = choose|p: int|
            0 <= p <= s.len() - w.len() && #[trigger] s.subrange(p, p + w.len()) == w;
        assert(text::stands_at(s, w, p));
    }
}

/// A text without a newline stands in two texts with a newline between them where it stands in
/// one of the two.
proof fn lemma_has_in_one(a: Seq<char>, b: Seq<char>, w: Seq<char>)
    requires
        !w.contains('\n'),
    ensures
        text::has(a + seq!['\n'] + b, w) == (stands_in(a, w) || stands_in(b, w)),
{
    let all = a + seq!['\n'] + b;
    if stands_in(a, w) {
        let p = choose|p: int|
            0 <= p <= a.len() - w.len() && #[trigger] a.subrange(p, p + w.len()) == w;
        assert(all.subrange(p, p + w.len()) =~= a.subrange(p, p + w.len()));
        assert(text::stands_at(all, w, p));
    }
    if stands_in(b, w) {
        let p = choose|p: int|
            0 <= p <= b.len() - w.len() && #[trigger] b.subrange(p, p + w.len()) == w;
        let q = p + a.len() + 1;
        assert(all.subrange(q, q + w.len()) =~= b.subrange(p, p + w.len()));
        assert(text::stands_at(all, w, q));
    }
    if text::has(all, w) {
        let i = choose|i: int| text::stands_at(all, w, i);
        let part = all.subrange(i, i + w.len());
        if i + w.len() <= a.len() {
            assert(a.subrange(i, i + w.len()) =~= part);
        } else if i > a.len() {
            let p = i - a.len() - 1;
            assert(b.subrange(p, p + w.len()) =~= part);
        } else {
            assert(part[a.len() - i] == all[a.len() as int]);
            assert(w[a.len() - i] == '\n');
            assert(w.contains('\n'));
        }
    }
}

/// What is found has all of the words.
proof fn lemma_found(n: NoteView, e: EntryView, query: Seq<char>)
    ensures
        is_found(n, e, query) == reading::has_all(
            reading::haystack(n, e),
            reading::terms_of(query),
        ),
{
    let words = text::words(text::lowercased(text::trimmed(query)));
    let body = text::lowercased(text::joined(n.lines.subrange(e.body.0, e.body.1), seq!['\n']));
    let tags = text::lowercased(text::joined(e.tags, seq![',']));
    text::lemma_words(text::lowercased(text::trimmed(query)));
    assert(reading::haystack(n, e) == body + seq!['\n'] + tags);
    assert forall|i: int| 0 <= i < words.len() implies text::has(
        reading::haystack(n, e),
        #[trigger] words[i],
    ) == (stands_in(body, words[i]) || stands_in(tags, words[i])) by {
        assert(text::is_word(words[i]));
        if words[i].contains('\n') {
            let j = choose|j: int| 0 <= j < words[i].len() && words[i][j] == '\n';
            assert(!text::is_space(words[i][j]));
        }
        lemma_has_in_one(body, tags, words[i]);
    }
}

proof fn lemma_bare(l: Seq<char>, n: nat)
    ensures
        is_bare(text::first_chars(reading::plain_line(l), n), l, n as int),
{
    let t = text::trimmed(l);
    let s = text::first_chars(reading::plain_line(l), n);
    let k = lemma_leading(t, '#');
    let whole = text::trimmed(t.skip(k));
    assert(has_hashes(t, k));
    assert(reading::plain_line(l) == whole);
    assert(s =~= whole.take(s.len() as int));
}

/// What is left of a text without leading characters begins where they stop.
proof fn lemma_leading(t: Seq<char>, c: char) -> (k: int)
    ensures
        0 <= k <= t.len(),
        forall|i: int| 0 <= i < k ==> #[trigger] t[i] == c,
        k < t.len() ==> t[k] != c,
        text::without_leading(t, c, c) == t.skip(k),
    decreases t.len(),
{
    if t.len() > 0 && t[0] == c {
        let rest = t.skip(1);
        let j = lemma_leading(rest, c);
        assert(rest.skip(j) =~= t.skip(j + 1));
        assert forall|i: int| 0 <= i < j + 1 implies #[trigger] t[i] == c by {
            if i > 0 {
                assert(rest[i - 1] == t[i]);
            }
        }
        if j < rest.len() {
            assert(rest[j] == t[j + 1]);
        }
        j + 1
    } else {
        assert(t.skip(0) =~= t);
        0
    }
}

proof fn lemma_hit_from(lines: Seq<Seq<char>>, words: Seq<Seq<char>>, i: int)
    requires
        0 <= i <= lines.len(),
        forall|j: int| 0 <= j < i ==> !shows_word(#[trigger] lines[j], words),
    ensures
        match reading::hit_from(lines, words, i) {
            Some(l) => exists|j: int|
                {
                    &&& 0 <= j < lines.len()
                    &&& l == #[trigger] lines[j]
                    &&& shows_word(lines[j], words)
                    &&& forall|m: int| 0 <= m < j ==> !shows_word(#[trigger] lines[m], words)
                },
            None => forall|j: int|
                0 <= j < lines.len() ==> !shows_word(#[trigger] lines[j], words),
        },
    decreases lines.len() - i,
{
    if i < lines.len() {
        let low = text::lowercased(lines[i]);
        assert(reading::has_any(low, words) == shows_word(lines[i], words)) by {
            assert forall|m: int| 0 <= m < words.len() implies text::has(low, #[trigger] words[m])
                == stands_in(low, words[m]) by {
                lemma_has(low, words[m]);
            }
        }
        if !shows_word(lines[i], words) {
            lemma_hit_from(lines, words, i + 1);
        }
    }
}

proof fn lemma_solid_from(lines: Seq<Seq<char>>, i: int)
    requires
        0 <= i <= lines.len(),
        forall|j: int| 0 <= j < i ==> text::trimmed(#[trigger] lines[j]).len() == 0,
    ensures
        ({
            let s = reading::solid_from(lines, i);
            ||| exists|j: int|
                {
                    &&& 0 <= j < lines.len()
                    &&& s == #[trigger] lines[j]
                    &&& text::trimmed(lines[j]).len() > 0
                    &&& forall|m: int| 0 <= m < j ==> text::trimmed(#[trigger] lines[m]).len() == 0
                }
            ||| {
                &&& forall|j: int|
                    0 <= j < lines.len() ==> text::trimmed(#[trigger] lines[j]).len() == 0
                &&& s.len() == 0
            }
        }),
    decreases lines.len() - i,
{
    if i < lines.len() && text::is_blank(lines[i]) {
        lemma_solid_from(lines, i + 1);
    }
}

proof fn lemma_preview(n: NoteView, e: EntryView, words: Seq<Seq<char>>)
    ensures
        is_preview(
            reading::preview_of(n, e, words),
            n.lines.subrange(e.body.0, e.body.1),
            words,
        ),
{
    let lines = n.lines.subrange(e.body.0, e.body.1);
    let s = reading::preview_of(n, e, words);
    lemma_hit_from(lines, words, 0);
    lemma_solid_from(lines, 0);
    match reading::hit_from(lines, words, 0) {
        Some(l) => {
            lemma_bare(l, 120);
            let j = choose|j: int|
                {
                    &&& 0 <= j < lines.len()
                    &&& l == #[trigger] lines[j]
                    &&& shows_word(lines[j], words)
                    &&& forall|m: int| 0 <= m < j ==> !shows_word(#[trigger] lines[m], words)
                };
            assert(is_bare(s, lines[j], 120));
        },
        None => {
            let l = reading::solid_from(lines, 0);
            lemma_bare(l, 120);
            assert(is_bare(s, l, 120));
            if forall|j: int| 0 <= j < lines.len() ==> text::trimmed(#[trigger] lines[j]).len()
                == 0 {
                assert(l.len() == 0);
                assert(text::trimmed(l) =~= Seq::<char>::empty());
                assert(s.len() == 0) by {
                    let t = text::trimmed(l);
                    assert(text::without_leading(t, '#', '#') == t);
                    assert(text::trimmed(t).len() == 0);
                }
            }
        },
    }
}

/// The hits among the first entries of a note rise, and nothing that is found is missing.
proof fn lemma_note_hits(n: NoteView, idx: int, query: Seq<char>, k: int)
    requires
        0 <= k <= n.entries.len(),
    ensures
        ({
            let words = text::words(text::lowercased(text::trimmed(query)));
            let hits = reading::note_hits(n, idx, words, k);
            &&& forall|x: int|
                0 <= x < hits.len() ==> {
                    let h = #[trigger] hits[x];
                    let e = n.entries[h.entry_idx];
                    &&& h.note_idx == idx
                    &&& 0 <= h.entry_idx < k
                    &&& h.date == n.date
                    &&& is_found(n, e, query)
                    &&& is_preview(h.preview, n.lines.subrange(e.body.0, e.body.1), words)
                }
            &&& forall|x: int, y: int|
                0 <= x < y < hits.len() ==> (#[trigger] hits[x]).entry_idx < (
                #[trigger] hits[y]).entry_idx
            &&& forall|j: int|
                0 <= j < k && is_found(n, #[trigger] n.entries[j], query) ==> exists|x: int|
                    0 <= x < hits.len() && (#[trigger] hits[x]).entry_idx == j
        }),
    decreases k,
{
    if k > 0 {
        let words = text::words(text::lowercased(text::trimmed(query)));
        lemma_note_hits(n, idx, query, k - 1);
        let before = reading::note_hits(n, idx, words, k - 1);
        let hits = reading::note_hits(n, idx, words, k);
        lemma_found(n, n.entries[k - 1], query);
        lemma_preview(n, n.entries[k - 1], words);
        assert forall|x: int| 0 <= x < hits.len() implies {
            let h = #[trigger] hits[x];
            let e = n.entries[h.entry_idx];
            &&& h.note_idx == idx
            &&& 0 <= h.entry_idx < k
            &&& h.date == n.date
            &&& is_found(n, e, query)
            &&& is_preview(h.preview, n.lines.subrange(e.body.0, e.body.1), words)
        } by {
            if x < before.len() {
                assert(hits[x] == before[x]);
            }
        }
        assert forall|x: int, y: int| 0 <= x < y < hits.len() implies (
        #[trigger] hits[x]).entry_idx < (#[trigger] hits[y]).entry_idx by {
            assert(hits[x] == before[x]);
            if y < before.len() {
                assert(hits[y] == before[y]);
            }
        }
        assert forall|j: int|
            0 <= j < k && is_found(n, #[trigger] n.entries[j], query) implies exists|x: int|
            0 <= x < hits.len() && (#[trigger] hits[x]).entry_idx == j by {
            if j < k - 1 {
                let x = choose|x: int|
                    0 <= x < before.len() && (#[trigger] before[x]).entry_idx == j;
                assert(hits[x] == before[x]);
            } else {
                assert(hits[hits.len() - 1].entry_idx == j);
            }
        }
    }
}

/// The hits in notes rise, and nothing that is found is missing.
proof fn lemma_all_hits(notes: Seq<NoteView>, query: Seq<char>)
    ensures
        ({
            let words = text::words(text::lowercased(text::trimmed(query)));
            let hits = reading::all_hits(notes, words);
            &&& forall|x: int|
                0 <= x < hits.len() ==> {
                    let h = #[trigger] hits[x];
                    let n = notes[h.note_idx];
                    let e = n.entries[h.entry_idx];
                    &&& 0 <= h.note_idx < notes.len()
                    &&& 0 <= h.entry_idx < n.entries.len()
                    &&& h.date == n.date
                    &&& is_found(n, e, query)
                    &&& is_preview(h.preview, n.lines.subrange(e.body.0, e.body.1), words)
                }
            &&& forall|x: int, y: int|
                0 <= x < y < hits.len() ==> comes_before(
                    place_of(#[trigger] hits[x]),
                    place_of(#[trigger] hits[y]),
                )
            &&& forall|i: int, j: int|
                0 <= i < notes.len() && 0 <= j < notes[i].entries.len() && is_found(
                    notes[i],
                    #[trigger] notes[i].entries[j],
                    query,
                ) ==> exists|x: int|
                    0 <= x < hits.len() && place_of(#[trigger] hits[x]) == (i, j)
        }),
    decreases notes.len(),
{
    if notes.len() > 0 {
        let words = text::words(text::lowercased(text::trimmed(query)));
        let head = notes.drop_last();
        let n = notes.last();
        let last = notes.len() - 1;
        let count = n.entries.len() as int;
        lemma_all_hits(head, query);
        lemma_note_hits(n, last, query, count);
        let before = reading::all_hits(head, words);
        let new = reading::note_hits(n, last, words, count);
        let hits = reading::all_hits(notes, words);
        assert(hits == before + new);
        assert forall|x: int| 0 <= x < hits.len() implies {
            let h = #[trigger] hits[x];
            let n = notes[h.note_idx];
            let e = n.entries[h.entry_idx];
            &&& 0 <= h.note_idx < notes.len()
            &&& 0 <= h.entry_idx < n.entries.len()
            &&& h.date == n.date
            &&& is_found(n, e, query)
            &&& is_preview(h.preview, n.lines.subrange(e.body.0, e.body.1), words)
        } by {
            if x < before.len() {
                assert(hits[x] == before[x]);
                assert(notes[before[x].note_idx] == head[before[x].note_idx]);
            } else {
                assert(hits[x] == new[x - before.len()]);
            }
        }
        assert forall|x: int, y: int| 0 <= x < y < hits.len() implies comes_before(
            place_of(#[trigger] hits[x]),
            place_of(#[trigger] hits[y]),
        ) by {
            if y < before.len() {
                assert(hits[x] == before[x] && hits[y] == before[y]);
            } else if x < before.len() {
                assert(hits[x] == before[x] && hits[y] == new[y - before.len()]);
            } else {
                assert(hits[x] == new[x - before.len()] && hits[y] == new[y - before.len()]);
            }
        }
        assert forall|i: int, j: int|
            0 <= i < notes.len() && 0 <= j < notes[i].entries.len() && is_found(
                notes[i],
                #[trigger] notes[i].entries[j],
                query,
            ) implies exists|x: int|
            0 <= x < hits.len() && place_of(#[trigger] hits[x]) == (i, j) by {
            if i < last {
                assert(head[i] == notes[i]);
                assert(is_found(head[i], head[i].entries[j], query));
                let x = choose|x: int|
                    0 <= x < before.len() && place_of(#[trigger] before[x]) == (i, j);
                assert(hits[x] == before[x]);
            } else {
                let x = choose|x: int|
                    0 <= x < new.len() && (#[trigger] new[x]).entry_idx == j;
                assert(hits[x + before.len()] == new[x]);
            }
        }
    }
}

/// A search finds every entry whose body and tags hold all words of the query, and no other:
/// each once, in the order of the notes and of their entries, up to five hundred hits. An entry
/// that is found is only missing where five hundred come before it. A hit bears the date of its
/// note and a preview of its entry.
pub proof fn law_search_finds_all(notes: Seq<NoteView>, query: Seq<char>)
    requires
        text::words(text::lowercased(text::trimmed(query))).len() > 0,
    ensures
        ({
            let words = text::words(text::lowercased(text::trimmed(query)));
            let hits = reading::hits_of(notes, query);
            &&& hits.len() <= 500
            &&& forall|x: int|
                0 <= x < hits.len() ==> {
                    let h = #[trigger] hits[x];
                    let n = notes[h.note_idx];
                    let e = n.entries[h.entry_idx];
                    &&& 0 <= h.note_idx < notes.len()
                    &&& 0 <= h.entry_idx < n.entries.len()
                    &&& h.date == n.date
                    &&& is_found(n, e, query)
                    &&& is_preview(h.preview, n.lines.subrange(e.body.0, e.body.1), words)
                }
            &&& forall|x: int, y: int|
                0 <= x < y < hits.len() ==> comes_before(
                    place_of(#[trigger] hits[x]),
                    place_of(#[trigger] hits[y]),
                )
            &&& forall|i: int, j: int|
                0 <= i < notes.len() && 0 <= j < notes[i].entries.len() && is_found(
                    notes[i],
                    #[trigger] notes[i].entries[j],
                    query,
                ) ==> {
                    ||| exists|x: int|
                        0 <= x < hits.len() && place_of(#[trigger] hits[x]) == (i, j)
                    ||| {
                        &&& hits.len() == 500
                        &&& forall|x: int|
                            0 <= x < hits.len() ==> comes_before(
                                place_of(#[trigger] hits[x]),
                                (i, j),
                            )
                    }
                }
        }),
{
    let words = text::words(text::lowercased(text::trimmed(query)));
    let low = text::lowercased(text::trimmed(query));
    if low.len() == 0 {
        assert(text::words(low).len() == 0);
    }
    lemma_all_hits(notes, query);
    let all = reading::all_hits(notes, words);
    let hits = reading::hits_of(notes, query);
    assert(forall|x: int| 0 <= x < hits.len() ==> #[trigger] hits[x] == all[x]);
    assert forall|i: int, j: int|
        0 <= i < notes.len() && 0 <= j < notes[i].entries.len() && is_found(
            notes[i],
            #[trigger] notes[i].entries[j],
            query,
        ) implies {
        ||| exists|x: int| 0 <= x < hits.len() && place_of(#[trigger] hits[x]) == (i, j)
        ||| {
            &&& hits.len() == 500
            &&& forall|x: int|
                0 <= x < hits.len() ==> comes_before(place_of(#[trigger] hits[x]), (i, j))
        }
    } by {
        let y = choose|y: int| 0 <= y < all.len() && place_of(#[trigger] all[y]) == (i, j);
        if y < hits.len() {
            assert(hits[y] == all[y]);
        } else {
            assert forall|x: int| 0 <= x < hits.len() implies comes_before(
                place_of(#[trigger] hits[x]),
                (i, j),
            ) by {
                assert(hits[x] == all[x]);
                assert(comes_before(place_of(all[x]), place_of(all[y])));
            }
        }
    }
}

/// A query without letters finds nothing.
pub proof fn law_nothing_finds_nothing(notes: Seq<NoteView>, query: Seq<char>)
    requires
        text::lowercased(text::trimmed(query)).len() == 0,
    ensures
        reading::hits_of(notes, query).len() == 0,
{
}

// --------------------------------------------------------------------------- body

/// Whether a line begins with three backquotes behind its indent.
pub open spec fn has_backquotes(l: Seq<char>) -> bool {
    let t = text::trimmed_start(l);
    t.len() >= 3 && t[0] == '`' && t[1] == '`' && t[2] == '`'
}

/// The places of lines with backquotes before line `k`.
pub open spec fn are_fences(at: Seq<int>, lines: Seq<Seq<char>>, k: int) -> bool {
    &&& pick::rising(at, k)
    &&& forall|i: int|
        0 <= i < k ==> #[trigger] at.contains(i) == has_backquotes(lines[i])
}

proof fn lemma_fence(l: Seq<char>)
    ensures
        reading::is_fence(l) == has_backquotes(l),
{
    reveal_strlit("```");
    let t = text::trimmed_start(l);
    if t.len() >= 3 && t[0] == '`' && t[1] == '`' && t[2] == '`' {
        assert(t.take(3) =~= "```"@);
    }
    if text::begins(t, "```"@) {
        assert(t.take(3)[0] == t[0] && t.take(3)[1] == t[1] && t.take(3)[2] == t[2]);
    }
}

/// A line stands in code where an odd number of lines with backquotes come before it.
proof fn lemma_in_code(lines: Seq<Seq<char>>, k: int) -> (at: Seq<int>)
    requires
        0 <= k <= lines.len(),
    ensures
        are_fences(at, lines, k),
        reading::in_code(lines, k) == (at.len() % 2 == 1),
    decreases k,
{
    if k <= 0 {
        Seq::empty()
    } else {
        let head = lemma_in_code(lines, k - 1);
        lemma_fence(lines[k - 1]);
        let at = if has_backquotes(lines[k - 1]) {
            head.push(k - 1)
        } else {
            head
        };
        assert forall|i: int| 0 <= i < k implies #[trigger] at.contains(i) == has_backquotes(
            lines[i],
        ) by {
            if i < k - 1 {
                assert(head.contains(i) == has_backquotes(lines[i]));
                if head.contains(i) {
                    let x = choose|x: int| 0 <= x < head.len() && head[x] == i;
                    assert(at[x] == i);
                }
                if at.contains(i) {
                    let x = choose|x: int| 0 <= x < at.len() && at[x] == i;
                    assert(head[x] == i);
                }
            } else {
                if has_backquotes(lines[k - 1]) {
                    assert(at[head.len() as int] == k - 1);
                } else if at.contains(i) {
                    let x = choose|x: int| 0 <= x < at.len() && at[x] == i;
                    assert(head[x] < k - 1);
                }
            }
        }
        at
    }
}

/// The texts of the lines that are shown of an entry are the lines of its body, in order.
pub proof fn law_detail_shows_the_body(n: NoteView, k: int)
    requires
        n.fits(),
        0 <= k < n.entries.len(),
    ensures
        ({
            let first = n.entries[k].body.0;
            let shown = reading::entry_detail(n, k);
            &&& shown.len() == n.entries[k].body.1 - first
            &&& forall|i: int| 0 <= i < shown.len() ==> (#[trigger] shown[i]).text == n.lines[first
                + i]
        }),
{
    assert(crate::model::note::entry_fits(n.entries[k], n.lines.len() as int));
}

/// A line that is shown of an entry is code where it begins with backquotes or where an odd
/// number of such lines come before it. Else its first characters behind the indent say what
/// it is, and it can be chosen as a task where its line of the file is one.
pub proof fn law_detail_kinds(n: NoteView, k: int, i: int, at: Seq<int>)
    requires
        n.fits(),
        0 <= k < n.entries.len(),
        0 <= i < n.entries[k].body.1 - n.entries[k].body.0,
        are_fences(at, n.lines.subrange(n.entries[k].body.0, n.entries[k].body.1), i),
    ensures
        ({
            let line = n.entries[k].body.0 + i;
            let t = text::trimmed_start(n.lines[line]);
            let shown = reading::entry_detail(n, k)[i];
            let is_task = exists|j: int|
                0 <= j < n.tasks().len() && (#[trigger] n.tasks()[j]).line == line;
            if has_backquotes(n.lines[line]) || at.len() % 2 == 1 {
                shown.kind is Code && shown.task_line is None
            } else {
                &&& shown.task_line == if is_task {
                    Some(line)
                } else {
                    None
                }
                &&& shown.kind is Heading == (t.len() > 0 && t[0] == '#')
                &&& shown.kind is ListItem == (t.len() > 1 && (t[0] == '-' || t[0] == '*') && t[1]
                    == ' ')
                &&& shown.kind is Quote == (t.len() > 0 && t[0] == '>')
                &&& shown.kind !is Code
            }
        }),
{
    let e = n.entries[k];
    assert(crate::model::note::entry_fits(e, n.lines.len() as int));
    let lines = n.lines.subrange(e.body.0, e.body.1);
    let line = e.body.0 + i;
    assert(lines[i] == n.lines[line]);
    let other = lemma_in_code(lines, i);
    assert forall|j: int| 0 <= j < i implies at.contains(j) == #[trigger] other.contains(j) by {
        assert(at.contains(j) == has_backquotes(lines[j]));
        assert(other.contains(j) == has_backquotes(lines[j]));
    }
    pick::lemma_rising_unique(at, other, i);
    lemma_fence(lines[i]);
    let t = text::trimmed_start(n.lines[line]);
    reveal_strlit("#");
    reveal_strlit("- ");
    reveal_strlit("* ");
    reveal_strlit(">");
    if t.len() > 0 {
        assert(t.take(1)[0] == t[0]);
        assert(t[0] == '#' ==> t.take(1) =~= "#"@);
        assert(t[0] == '>' ==> t.take(1) =~= ">"@);
    }
    if t.len() > 1 {
        assert(t.take(2)[0] == t[0] && t.take(2)[1] == t[1]);
        assert(t[0] == '-' && t[1] == ' ' ==> t.take(2) =~= "- "@);
        assert(t[0] == '*' && t[1] == ' ' ==> t.take(2) =~= "* "@);
    }
    let marks = reading::task_lines(n.tasks());
    assert(marks.len() == n.tasks().len());
    assert(forall|j: int| 0 <= j < marks.len() ==> #[trigger] marks[j] == n.tasks()[j].line);
    let is_task = exists|j: int|
        0 <= j < n.tasks().len() && (#[trigger] n.tasks()[j]).line == line;
    if is_task {
        let j = choose|j: int| 0 <= j < n.tasks().len() && (#[trigger] n.tasks()[j]).line == line;
        assert(marks[j] == line);
    }
    if marks.contains(line) {
        let j = choose|j: int| 0 <= j < marks.len() && marks[j] == line;
        assert(n.tasks()[j].line == line);
    }
}

// ------------------------------------------------------------------------- heading

proof fn lemma_title_from(lines: Seq<Seq<char>>, i: int)
    requires
        0 <= i <= lines.len(),
        forall|j: int| 0 <= j < i ==> is_bare(Seq::empty(), #[trigger] lines[j], 1),
    ensures
        ({
            let s = text::first_chars(reading::title_from(lines, i), 80);
            ||| exists|j: int|
                {
                    &&& 0 <= j < lines.len()
                    &&& s.len() > 0
                    &&& is_bare(s, #[trigger] lines[j], 80)
                    &&& forall|m: int|
                        0 <= m < j ==> is_bare(Seq::empty(), #[trigger] lines[m], 1)
                }
            ||| {
                &&& forall|j: int|
                    0 <= j < lines.len() ==> is_bare(Seq::empty(), #[trigger] lines[j], 1)
                &&& s == "(空)"@
            }
        }),
    decreases lines.len() - i,
{
    if i < lines.len() {
        let bare = reading::plain_line(lines[i]);
        lemma_bare(lines[i], 80);
        lemma_bare(lines[i], 1);
        if bare.len() == 0 {
            assert(text::first_chars(bare, 1) =~= Seq::<char>::empty());
            lemma_title_from(lines, i + 1);
        }
    } else {
        reveal_strlit("(空)");
    }
}

/// The list of entries names each entry once, in order, with its time, its tags, whether it holds
/// tasks, and up to eighty characters of the first line of its body that has something besides
/// hash signs.
pub proof fn law_entries_are_listed(n: NoteView, k: int)
    requires
        n.fits(),
        0 <= k < n.entries.len(),
    ensures
        reading::summaries_of(n).len() == n.entries.len(),
        ({
            let e = n.entries[k];
            let lines = n.lines.subrange(e.body.0, e.body.1);
            let s = reading::summaries_of(n)[k];
            &&& s.tags == e.tags
            &&& s.todo == n.holds_todo(e)
            &&& s.time == types::time_of(e.created)
            &&& {
                ||| exists|j: int|
                    {
                        &&& 0 <= j < lines.len()
                        &&& s.title.len() > 0
                        &&& is_bare(s.title, #[trigger] lines[j], 80)
                        &&& forall|m: int|
                            0 <= m < j ==> is_bare(Seq::empty(), #[trigger] lines[m], 1)
                    }
                ||| {
                    &&& forall|j: int|
                        0 <= j < lines.len() ==> is_bare(Seq::empty(), #[trigger] lines[j], 1)
                    &&& s.title == "(空)"@
                }
            }
        }),
{
    lemma_title_from(n.lines.subrange(n.entries[k].body.0, n.entries[k].body.1), 0);
}

} // verus!
