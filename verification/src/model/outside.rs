//! What an edit of a note leaves as it is, and how texts are put into it.

use vstd::prelude::*;

use crate::model::block;
use crate::model::entry;
use crate::model::note;
use crate::model::note::NoteView;
use crate::pick;
use crate::text;

verus! {

// ------------------------------------------------------------------------- texts

/// Whether all characters of a text are the same.
pub open spec fn is_all(s: Seq<char>, c: char) -> bool {
    forall|i: int| 0 <= i < s.len() ==> #[trigger] s[i] == c
}

proof fn lemma_trailing(s: Seq<char>, c: char) -> (k: int)
    ensures
        0 <= k <= s.len(),
        text::without_trailing(s, c) == s.take(k),
        is_all(s.skip(k), c),
        k > 0 ==> s[k - 1] != c,
    decreases s.len(),
{
    if s.len() > 0 && s.last() == c {
        let front = s.drop_last();
        let k = lemma_trailing(front, c);
        assert(front.take(k) =~= s.take(k));
        assert forall|i: int| 0 <= i < s.skip(k).len() implies #[trigger] s.skip(k)[i] == c by {
            if i < front.skip(k).len() {
                assert(front.skip(k)[i] == s.skip(k)[i]);
            }
        }
        if k > 0 {
            assert(front[k - 1] == s[k - 1]);
        }
        k
    } else {
        assert(s.take(s.len() as int) =~= s);
        s.len() as int
    }
}

/// The lines of a new body are those of its text, without the newlines at its end: with
/// newlines between them, and those that were dropped, they are the text again.
pub proof fn law_body_lines(body: Seq<char>)
    ensures
        ({
            let lines = note::body_lines(body);
            let kept = text::joined(lines, seq!['\n']);
            let t = text::normalized(body);
            &&& lines.len() > 0
            &&& forall|i: int| 0 <= i < lines.len() ==> !(#[trigger] lines[i]).contains('\n')
            &&& kept.len() <= t.len()
            &&& kept == t.take(kept.len() as int)
            &&& is_all(t.skip(kept.len() as int), '\n')
            &&& kept.len() > 0 ==> kept.last() != '\n'
        }),
{
    let t = text::normalized(body);
    let k = lemma_trailing(t, '\n');
    let kept = t.take(k);
    text::lemma_split_pieces(kept, '\n');
    text::lemma_split_joined(kept, '\n');
}

/// A text that is not empty is closed by as few newlines as it takes to end with a blank line.
pub proof fn law_closed_text(t: Seq<char>)
    ensures
        ({
            let c = note::closed_text(t);
            let n = t.len() as int;
            &&& n == 0 ==> c.len() == 0
            &&& n > 0 ==> {
                &&& c.len() >= 2 && n <= c.len() <= n + 2
                &&& c.take(n) == t
                &&& c[c.len() - 1] == '\n' && c[c.len() - 2] == '\n'
                &&& c.len() > n ==> !(n >= 2 && t[n - 1] == '\n' && t[n - 2] == '\n')
                &&& c.len() == n + 2 ==> t[n - 1] != '\n'
            }
        }),
{
    let n = t.len() as int;
    let c = note::closed_text(t);
    if n > 0 {
        assert(t.skip(n - 1)[0] == t[n - 1]);
        assert(t[n - 1] == '\n' ==> t.skip(n - 1) =~= seq!['\n']);
        if n >= 2 {
            assert(t.skip(n - 2)[0] == t[n - 2] && t.skip(n - 2)[1] == t[n - 1]);
            assert(t[n - 2] == '\n' && t[n - 1] == '\n' ==> t.skip(n - 2) =~= seq!['\n', '\n']);
        }
        assert(c.take(n) =~= t);
    }
}

/// The tags that are written are the given ones without white space around them and hash signs
/// in front, in order; only those of which nothing is left are left out.
pub proof fn law_written_tags(tags: Seq<Seq<char>>)
    ensures
        exists|at: Seq<int>|
            {
                let out = block::written_tags(tags);
                &&& #[trigger] pick::rising(at, tags.len() as int)
                &&& forall|i: int|
                    0 <= i < tags.len() ==> #[trigger] at.contains(i) == !is_hashes(
                        text::trimmed(tags[i]),
                    )
                &&& out.len() == at.len()
                &&& forall|x: int|
                    0 <= x < out.len() ==> is_behind_hashes(
                        #[trigger] out[x],
                        text::trimmed(tags[at[x]]),
                    )
            },
{
    let n = tags.len() as int;
    let out = block::written_tags(tags);
    let grown = |k: int| block::written_tags(tags.take(k));
    let keep = |k: int| !is_hashes(text::trimmed(tags[k]));
    let item = |k: int| block::written_tag(tags[k]);
    assert forall|k: int| #![trigger keep(k)] 0 <= k < n implies {
        &&& keep(k) ==> grown(k + 1) == grown(k).push(item(k))
        &&& !keep(k) ==> grown(k + 1) == grown(k)
    } by {
        assert(tags.take(k + 1).drop_last() == tags.take(k));
        assert(tags.take(k + 1).last() == tags[k]);
        lemma_behind_hashes(text::trimmed(tags[k]));
    }
    pick::lemma_collected(grown, n, keep, item);
    pick::lemma_places(n, keep);
    assert(tags.take(n) == tags);
    let at = pick::places(n, keep);
    assert(pick::rising(at, n));
    assert forall|x: int| 0 <= x < out.len() implies is_behind_hashes(
        #[trigger] out[x],
        text::trimmed(tags[at[x]]),
    ) by {
        assert(grown(n)[x] == item(at[x]));
        lemma_behind_hashes(text::trimmed(tags[at[x]]));
    }
}

/// Whether a text is made of hash signs of either width.
pub open spec fn is_hashes(t: Seq<char>) -> bool {
    forall|i: int| 0 <= i < t.len() ==> #[trigger] t[i] == '#' || t[i] == '＃'
}

/// Whether a text is what stands behind the hash signs of another.
pub open spec fn is_behind_hashes(s: Seq<char>, t: Seq<char>) -> bool {
    exists|k: int|
        {
            &&& 0 <= k <= t.len()
            &&& is_hashes(t.take(k))
            &&& k < t.len() ==> t[k] != '#' && t[k] != '＃'
            &&& s == #[trigger] t.skip(k)
        }
}

proof fn lemma_behind_hashes(t: Seq<char>)
    ensures
        is_behind_hashes(text::without_leading(t, '#', '＃'), t),
        is_hashes(t) == (text::without_leading(t, '#', '＃').len() == 0),
    decreases t.len(),
{
    if t.len() > 0 && (t[0] == '#' || t[0] == '＃') {
        let rest = t.skip(1);
        lemma_behind_hashes(rest);
        let s = text::without_leading(rest, '#', '＃');
        let k = choose|k: int|
            {
                &&& 0 <= k <= rest.len()
                &&& is_hashes(rest.take(k))
                &&& k < rest.len() ==> rest[k] != '#' && rest[k] != '＃'
                &&& s == #[trigger] rest.skip(k)
            };
        assert(rest.skip(k) =~= t.skip(k + 1));
        assert forall|i: int| 0 <= i < t.take(k + 1).len() implies #[trigger] t.take(k + 1)[i]
            == '#' || t.take(k + 1)[i] == '＃' by {
            if i > 0 {
                assert(rest.take(k)[i - 1] == t[i]);
            }
        }
        if is_hashes(rest) {
            assert forall|i: int| 0 <= i < t.len() implies #[trigger] t[i] == '#' || t[i]
                == '＃' by {
                if i > 0 {
                    assert(rest[i - 1] == t[i]);
                }
            }
        }
        if is_hashes(t) {
            assert forall|i: int| 0 <= i < rest.len() implies #[trigger] rest[i] == '#' || rest[i]
                == '＃' by {
                assert(t[i + 1] == rest[i]);
            }
        }
    } else {
        assert(t.skip(0) =~= t);
        if t.len() > 0 && is_hashes(t) {
            assert(t[0] == '#' || t[0] == '＃');
        }
    }
}

// ------------------------------------------------------------------------- lines

/// A new body takes the place of the old one, and every line in front of it and behind it stays.
pub proof fn law_new_body_keeps_other_lines(n: NoteView, k: int, body: Seq<char>)
    requires
        n.fits(),
        0 <= k < n.entries.len(),
    ensures
        ({
            let e = n.entries[k];
            let m = n.with_body(k, body);
            let new = note::body_lines(body);
            &&& m.date == n.date && m.path == n.path
            &&& m.lines.len() == n.lines.len() - (e.body.1 - e.body.0) + new.len()
            &&& forall|i: int| 0 <= i < e.body.0 ==> #[trigger] m.lines[i] == n.lines[i]
            &&& forall|i: int| 0 <= i < new.len() ==> m.lines[e.body.0 + i] == #[trigger] new[i]
            &&& forall|i: int|
                e.body.1 <= i < n.lines.len() ==> m.lines[i - e.body.1 + e.body.0 + new.len()]
                    == #[trigger] n.lines[i]
        }),
{
    let e = n.entries[k];
    assert(note::entry_fits(e, n.lines.len() as int));
    let m = n.with_body(k, body);
    let new = note::body_lines(body);
    assert forall|i: int| 0 <= i < new.len() implies m.lines[e.body.0 + i]
        == #[trigger] new[i] by {}
    assert forall|i: int| e.body.1 <= i < n.lines.len() implies m.lines[i - e.body.1 + e.body.0
        + new.len()] == #[trigger] n.lines[i] by {}
}

/// Whether a line begins with the word that tags stand behind.
pub open spec fn is_tags(l: Seq<char>) -> bool {
    let t = text::trimmed_start(l);
    t.len() >= 5 && t[0] == 't' && t[1] == 'a' && t[2] == 'g' && t[3] == 's' && t[4] == ':'
}

proof fn lemma_is_tags(l: Seq<char>)
    ensures
        note::is_tag_line(l) == is_tags(l),
{
    reveal_strlit("tags:");
    let t = text::trimmed_start(l);
    if t.len() >= 5 {
        assert(t.take(5)[0] == t[0] && t.take(5)[1] == t[1] && t.take(5)[2] == t[2] && t.take(5)[3]
            == t[3] && t.take(5)[4] == t[4]);
        if is_tags(l) {
            assert(t.take(5) =~= "tags:"@);
        }
    }
}

proof fn lemma_tag_line_at(n: NoteView, i: int, end: int)
    requires
        0 <= i <= end <= n.lines.len(),
    ensures
        ({
            let at = n.tag_line_at(i, end);
            &&& i <= at <= end
            &&& at < end ==> is_tags(n.lines[at])
            &&& forall|j: int| i <= j < at ==> !is_tags(#[trigger] n.lines[j])
        }),
    decreases end - i,
{
    if i < end {
        lemma_is_tags(n.lines[i]);
        if !note::is_tag_line(n.lines[i]) {
            lemma_tag_line_at(n, i + 1, end);
        }
    }
}

/// Whether the tags of an entry stand in line `at`: it is the first line of tags in the data of
/// the entry, or the line behind the data where there is none.
pub open spec fn is_tag_place(n: NoteView, k: int, at: int) -> bool {
    let e = n.entries[k];
    &&& e.block.0 < at <= e.body.0 - 1
    &&& forall|j: int| e.block.0 < j < at ==> !is_tags(#[trigger] n.lines[j])
    &&& at < e.body.0 - 1 ==> is_tags(n.lines[at])
}

/// New tags take the place of the first line of tags in the data of an entry; where there is
/// none, a line is added at the end of the data. Every other line stays.
pub proof fn law_new_tags_keep_other_lines(n: NoteView, k: int, tags: Seq<Seq<char>>)
    requires
        n.fits(),
        0 <= k < n.entries.len(),
    ensures
        exists|at: int| #[trigger]
            is_tag_place(n, k, at) && n.with_tags(k, tags).lines == if at < n.entries[k].body.0
                - 1 {
                n.lines.update(at, "tags: "@ + text::joined(tags, ", "@))
            } else {
                n.lines.insert(at, "tags: "@ + text::joined(tags, ", "@))
            },
{
    let e = n.entries[k];
    assert(note::entry_fits(e, n.lines.len() as int));
    let end = e.body.0 - 1;
    let at = n.tag_line_at(e.block.0 + 1, end);
    lemma_tag_line_at(n, e.block.0 + 1, end);
    assert(is_tag_place(n, k, at));
}

proof fn lemma_past_blank(n: NoteView, i: int)
    requires
        0 <= i <= n.lines.len(),
    ensures
        ({
            let at = n.past_blank(i);
            &&& i <= at <= n.lines.len()
            &&& at < n.lines.len() ==> text::trimmed(n.lines[at]).len() > 0
            &&& forall|j: int| i <= j < at ==> text::trimmed(#[trigger] n.lines[j]).len() == 0
        }),
    decreases n.lines.len() - i,
{
    if i < n.lines.len() && text::is_blank(n.lines[i]) {
        lemma_past_blank(n, i + 1);
    }
}

/// Whether line `end` is the first from `from` on that is not blank, or the end of the lines.
pub open spec fn is_next_solid(n: NoteView, from: int, end: int) -> bool {
    &&& from <= end <= n.lines.len()
    &&& forall|j: int| from <= j < end ==> text::trimmed(#[trigger] n.lines[j]).len() == 0
    &&& end < n.lines.len() ==> text::trimmed(n.lines[end]).len() > 0
}

/// Where an entry is deleted, its lines go, and with them the blank lines up to the next line
/// that is not blank. Every line in front of the entry and every line from there on stays;
/// where none does, an empty line ends the text.
pub proof fn law_deleting_keeps_other_lines(n: NoteView, k: int)
    requires
        n.fits(),
        0 <= k < n.entries.len(),
    ensures
        n.without_entry(k).date == n.date,
        n.without_entry(k).path == n.path,
        exists|end: int| #[trigger]
            is_next_solid(n, n.entries[k].block.1, end) && n.without_entry(k).lines == if end
                < n.lines.len() {
                n.lines.take(n.entries[k].block.0) + n.lines.skip(end)
            } else {
                n.lines.take(n.entries[k].block.0) + seq![Seq::empty()]
            },
{
    let e = n.entries[k];
    assert(note::entry_fits(e, n.lines.len() as int));
    let end = n.past_blank(e.block.1);
    lemma_past_blank(n, e.block.1);
    assert(is_next_solid(n, e.block.1, end));
    if end >= n.lines.len() {
        assert(n.without_entry(k).lines =~= n.lines.take(e.block.0) + seq![Seq::empty()]);
    }
}

/// The tag in a piece is made of the words behind its hash signs, with single spaces between
/// them.
pub proof fn law_tag_of_a_piece(piece: Seq<char>)
    ensures
        exists|rest: Seq<char>| #[trigger]
            is_behind_hashes(rest, text::trimmed(piece)) && entry::tag_of(piece) == text::joined(
                text::words(rest),
                seq![' '],
            ),
{
    let rest = text::without_leading(text::trimmed(piece), '#', '＃');
    lemma_behind_hashes(text::trimmed(piece));
    assert(is_behind_hashes(rest, text::trimmed(piece)));
}

} // verus!
