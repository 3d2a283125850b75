//! Writing entry blocks, and what reading gives back of them.

use vstd::prelude::*;

use crate::model::entry;
use crate::model::entry::{EntryView, Marker};
use crate::model::note;
use crate::model::note::NoteView;
use crate::number;
use crate::number::integer_text;
use crate::text;
use crate::text::{chars_of, drop_leading, join, normalize, string_of, trim, trim_end};

verus! {

/// A tag as it is written: without white space around it and hash signs in front.
pub open spec fn written_tag(tag: Seq<char>) -> Seq<char> {
    text::without_leading(text::trimmed(tag), '#', '＃')
}

/// The tags that are written: empty ones are left out.
pub open spec fn written_tags(tags: Seq<Seq<char>>) -> Seq<Seq<char>>
    decreases tags.len(),
{
    if tags.len() == 0 {
        Seq::empty()
    } else {
        let before = written_tags(tags.drop_last());
        let tag = written_tag(tags.last());
        if tag.len() == 0 {
            before
        } else {
            before.push(tag)
        }
    }
}

/// The lines above the body of a block.
pub open spec fn block_head(
    id: Seq<char>,
    created: Seq<char>,
    created_ms: int,
    tags: Seq<char>,
) -> Seq<Seq<char>> {
    seq![
        "<!-- acta:comment"@,
        "id: "@ + id,
        "created: "@ + created,
        "created_ms: "@ + number::signed_decimal(created_ms),
        "tags: "@ + tags,
        "-->"@,
    ]
}

/// The lines below the body of a block. The text ends with a blank line.
pub open spec fn block_foot() -> Seq<Seq<char>> {
    seq!["<!-- /acta:comment -->"@, Seq::empty(), Seq::empty()]
}

/// The body as it is written: newlines alone end its lines, no white space is at its end.
pub open spec fn written_body(body: Seq<char>) -> Seq<char> {
    text::trimmed_end(text::normalized(body))
}

/// The text of an entry block.
pub open spec fn block_text(
    id: Seq<char>,
    created: Seq<char>,
    created_ms: int,
    tags: Seq<Seq<char>>,
    body: Seq<char>,
) -> Seq<char> {
    let tag_line = text::joined(written_tags(tags), ", "@);
    text::joined(
        block_head(id, created, created_ms, tag_line) + seq![written_body(body)] + block_foot(),
        seq!['\n'],
    )
}

/// Puts a label in front of a text.
fn labelled(label: &str, value: &str) -> (r: String)
    ensures
        r@ == label@ + value@,
{
    let mut s = String::new();
    s.append(label);
    s.append(value);
    assert(s@ == label@ + value@);
    s
}

/// Writes an entry block.
pub fn format_entry_block(
    id: &str,
    created: &str,
    created_ms: i64,
    tags: &[String],
    body: &str,
) -> (r: String)
    ensures
        r@ == block_text(id@, created@, created_ms as int, text::texts(tags@), body@),
{
    let ghost all = text::texts(tags@);
    let mut kept: Vec<String> = Vec::new();
    let mut i: usize = 0;
    while i < tags.len()
        invariant
            i <= tags.len(),
            all == text::texts(tags@),
            text::texts(kept@) == written_tags(all.take(i as int)),
        decreases tags.len() - i,
    {
        let v: Vec<char> = chars_of(tags[i].as_str());
        assert(all[i as int] == v@);
        assert(all.take(i + 1).drop_last() == all.take(i as int));
        let tag: String = string_of(drop_leading(trim(v.as_slice()), '#', '＃'));
        if !tag.as_str().is_empty() {
            let ghost done = kept@;
            kept.push(tag);
            assert(text::texts(kept@) == text::texts(done).push(tag@));
        }
        i += 1;
    }
    assert(all.take(i as int) == all);
    let tag_line: String = join(&kept, ", ");
    let plain: Vec<char> = normalize(body);
    let mut out: Vec<String> = Vec::new();
    out.push("<!-- acta:comment".to_owned());
    out.push(labelled("id: ", id));
    out.push(labelled("created: ", created));
    out.push(labelled("created_ms: ", integer_text(created_ms).as_str()));
    out.push(labelled("tags: ", tag_line.as_str()));
    out.push("-->".to_owned());
    out.push(string_of(trim_end(plain.as_slice())));
    out.push("<!-- /acta:comment -->".to_owned());
    out.push(String::new());
    out.push(String::new());
    proof {
        reveal_strlit("\n");
        assert("\n"@ == seq!['\n']);
        assert(text::texts(out@) =~= block_head(id@, created@, created_ms as int, tag_line@)
            + seq![written_body(body@)] + block_foot());
    }
    join(&out, "\n")
}

/// The text a new daily note begins with.
pub open spec fn initial_text(date: Seq<char>) -> Seq<char> {
    seq!['#', ' '] + date + seq!['\n', '\n']
}

/// The text a new daily note begins with: a heading with the date.
pub fn initial_note_text(date: &str) -> (r: String)
    ensures
        r@ == initial_text(date@),
{
    let mut s = String::new();
    s.push('#');
    s.push(' ');
    s.append(date);
    s.push('\n');
    s.push('\n');
    assert(s@ == initial_text(date@));
    s
}

// -------------------------------------------------------- reading it back

/// Whether every block that is opened from line `i` on is also closed.
pub open spec fn settled_from(lines: Seq<Seq<char>>, i: int) -> bool
    decreases lines.len() - i,
{
    let open = entry::first_marker(lines, i, Marker::Open);
    let mid = entry::first_marker(lines, open + 1, Marker::MetaEnd);
    let close = entry::first_marker(lines, mid + 1, Marker::Close);
    if i <= open < mid < close < lines.len() {
        settled_from(lines, close + 1)
    } else {
        open >= lines.len()
    }
}

/// Whether every block that is opened is also closed.
pub open spec fn settled(lines: Seq<Seq<char>>) -> bool {
    settled_from(lines, 0)
}

/// A marker in the front part of the lines is found there; otherwise the search goes
/// on in the rest.
pub proof fn lemma_marker_concat(a: Seq<Seq<char>>, b: Seq<Seq<char>>, i: int, m: Marker)
    requires
        0 <= i <= a.len(),
    ensures
        entry::first_marker(a, i, m) < a.len() ==> entry::first_marker(a + b, i, m)
            == entry::first_marker(a, i, m),
        entry::first_marker(a, i, m) >= a.len() ==> entry::first_marker(a + b, i, m)
            == entry::first_marker(a + b, a.len() as int, m),
    decreases a.len() - i,
{
    if i < a.len() {
        assert((a + b)[i] == a[i]);
        if !entry::is_marker(a[i], m) {
            lemma_marker_concat(a, b, i + 1, m);
        }
    }
}

/// The search in the rest does not look at the front part.
pub proof fn lemma_marker_shift(a: Seq<Seq<char>>, b: Seq<Seq<char>>, i: int, m: Marker)
    requires
        0 <= i,
    ensures
        entry::first_marker(a + b, a.len() + i, m) == a.len() + entry::first_marker(b, i, m),
    decreases b.len() - i,
{
    if i < b.len() {
        assert((a + b)[a.len() + i] == b[i]);
        if !entry::is_marker(b[i], m) {
            lemma_marker_shift(a, b, i + 1, m);
        }
    }
}

/// Lines behind settled ones leave the entries in front of them as they are.
pub proof fn lemma_entries_concat(a: Seq<Seq<char>>, b: Seq<Seq<char>>, date: Seq<char>, i: int)
    requires
        0 <= i <= a.len(),
        settled_from(a, i),
    ensures
        entry::entries_from(a + b, date, i) == entry::entries_from(a, date, i)
            + entry::entries_from(a + b, date, a.len() as int),
        settled_from(a + b, i) == settled_from(a + b, a.len() as int),
    decreases a.len() - i,
{
    let n = a.len() as int;
    let open = entry::first_marker(a, i, Marker::Open);
    let mid = entry::first_marker(a, open + 1, Marker::MetaEnd);
    let close = entry::first_marker(a, mid + 1, Marker::Close);
    entry::lemma_first_marker(a, i, Marker::Open);
    lemma_marker_concat(a, b, i, Marker::Open);
    if i <= open < mid < close < a.len() {
        entry::lemma_first_marker(a, open + 1, Marker::MetaEnd);
        entry::lemma_first_marker(a, mid + 1, Marker::Close);
        lemma_marker_concat(a, b, open + 1, Marker::MetaEnd);
        lemma_marker_concat(a, b, mid + 1, Marker::Close);
        lemma_entries_concat(a, b, date, close + 1);
        assert((a + b).subrange(open + 1, mid) == a.subrange(open + 1, mid));
        let first = entry::entry_at(a, date, open, mid, close);
        assert(entry::entry_at(a + b, date, open, mid, close) == first);
        let tail = entry::entries_from(a + b, date, n);
        assert(seq![first] + (entry::entries_from(a, date, close + 1) + tail) == (seq![first]
            + entry::entries_from(a, date, close + 1)) + tail);
    } else {
        let o = entry::first_marker(a + b, n, Marker::Open);
        entry::lemma_first_marker(a + b, n, Marker::Open);
        assert(entry::entries_from(a, date, i) == Seq::<EntryView>::empty());
        assert(entry::first_marker(a + b, i, Marker::Open) == o);
        assert(entry::entries_from(a + b, date, i) == entry::entries_from(a + b, date, n));
        assert(Seq::<EntryView>::empty() + entry::entries_from(a + b, date, n)
            == entry::entries_from(a + b, date, n));
    }
}

/// An empty line is no marker.
proof fn lemma_empty_is_no_marker(m: Marker)
    ensures
        !entry::is_marker(Seq::empty(), m),
{
    reveal_strlit("<!-- acta:comment");
    reveal_strlit("-->");
    reveal_strlit("<!-- /acta:comment -->");
    assert(text::trimmed(Seq::<char>::empty()) == Seq::<char>::empty());
    assert("-->"@.len() == 3);
    assert("<!-- /acta:comment -->"@.len() == 22);
    assert("<!-- acta:comment"@.len() == 17);
}

/// An empty line at the end changes no marker's position.
proof fn lemma_marker_push_empty(a: Seq<Seq<char>>, i: int, m: Marker)
    requires
        0 <= i,
    ensures
        entry::first_marker(a, i, m) < a.len() ==> entry::first_marker(a.push(Seq::empty()), i, m)
            == entry::first_marker(a, i, m),
        entry::first_marker(a, i, m) >= a.len() ==> entry::first_marker(a.push(Seq::empty()), i, m)
            == a.len() + 1,
    decreases a.len() - i,
{
    let x = a.push(Seq::empty());
    lemma_empty_is_no_marker(m);
    if i < a.len() {
        assert(x[i] == a[i]);
        if !entry::is_marker(a[i], m) {
            lemma_marker_push_empty(a, i + 1, m);
        }
    } else if i == a.len() {
        assert(x[i] == Seq::<char>::empty());
        assert(entry::first_marker(x, i + 1, m) == x.len());
    }
}

/// An empty line at the end changes no entry.
pub proof fn lemma_entries_push_empty(a: Seq<Seq<char>>, date: Seq<char>, i: int)
    requires
        0 <= i,
    ensures
        entry::entries_from(a.push(Seq::empty()), date, i) == entry::entries_from(a, date, i),
        settled_from(a.push(Seq::empty()), i) == settled_from(a, i),
    decreases a.len() - i,
{
    let x = a.push(Seq::<char>::empty());
    let open = entry::first_marker(a, i, Marker::Open);
    let mid = entry::first_marker(a, open + 1, Marker::MetaEnd);
    let close = entry::first_marker(a, mid + 1, Marker::Close);
    entry::lemma_first_marker(a, i, Marker::Open);
    entry::lemma_first_marker(a, open + 1, Marker::MetaEnd);
    entry::lemma_first_marker(a, mid + 1, Marker::Close);
    lemma_marker_push_empty(a, i, Marker::Open);
    lemma_marker_push_empty(a, open + 1, Marker::MetaEnd);
    lemma_marker_push_empty(a, mid + 1, Marker::Close);
    if i <= open < mid < close < a.len() {
        lemma_entries_push_empty(a, date, close + 1);
        assert(x.subrange(open + 1, mid) == a.subrange(open + 1, mid));
    } else {
        entry::lemma_first_marker(x, entry::first_marker(x, i, Marker::Open) + 1, Marker::MetaEnd);
        entry::lemma_first_marker(
            x,
            entry::first_marker(
                x,
                entry::first_marker(x, i, Marker::Open) + 1,
                Marker::MetaEnd,
            ) + 1,
            Marker::Close,
        );
    }
}

/// Whether a text can stand on a data line and be read back as it is.
pub open spec fn is_value(s: Seq<char>) -> bool {
    !s.contains('\n') && !s.contains('\r') && text::trimmed(s) == s
}

/// A key with its value is read back.
pub proof fn lemma_meta_line(key: Seq<char>, value: Seq<char>)
    requires
        key.len() > 0,
        entry::is_key(key),
    ensures
        entry::meta_line(key + seq![':', ' '] + value) == Some((key, text::trimmed(value))),
{
    let l = key + seq![':', ' '] + value;
    let k = key.len() as int;
    assert(l[k] == ':');
    assert forall|i: int| 0 <= i < k implies #[trigger] l[i] != ':' by {
        assert(l[i] == key[i]);
    }
    text::lemma_first_index_unique(l, ':', k);
    assert(l.take(k) == key);
    text::lemma_trimmed_solid(key);
    assert(l.skip(k + 1) == seq![' '] + value);
    text::lemma_trimmed_space(value);
}

/// The labels of the data lines are keys with a colon and a space behind them.
pub proof fn lemma_labels()
    ensures
        "id: "@ == "id"@ + seq![':', ' '],
        "created: "@ == "created"@ + seq![':', ' '],
        "created_ms: "@ == "created_ms"@ + seq![':', ' '],
        "tags: "@ == "tags"@ + seq![':', ' '],
        "id"@.len() == 2,
        "created"@.len() == 7,
        "created_ms"@.len() == 10,
        "tags"@.len() == 4,
        entry::is_key("id"@),
        entry::is_key("created"@),
        entry::is_key("created_ms"@),
        entry::is_key("tags"@),
{
    reveal_strlit("id");
    reveal_strlit("id: ");
    reveal_strlit("created");
    reveal_strlit("created: ");
    reveal_strlit("created_ms");
    reveal_strlit("created_ms: ");
    reveal_strlit("tags");
    reveal_strlit("tags: ");
}

/// The data of a written block is read back.
proof fn lemma_head_meta(id: Seq<char>, created: Seq<char>, ms: i64, tags: Seq<char>)
    ensures
        ({
            let meta = entry::meta_of(block_head(id, created, ms as int, tags).subrange(1, 5));
            &&& meta.contains_key("id"@) && meta["id"@] == text::trimmed(id)
            &&& meta.contains_key("created"@) && meta["created"@] == text::trimmed(created)
            &&& meta.contains_key("created_ms"@) && number::parsed_i64(meta["created_ms"@])
                == Some(ms)
            &&& meta.contains_key("tags"@) && meta["tags"@] == text::trimmed(tags)
        }),
{
    let digits = number::signed_decimal(ms as int);
    let d = block_head(id, created, ms as int, tags).subrange(1, 5);
    lemma_labels();
    number::lemma_decimal_round_trip(ms);
    lemma_digits_solid(ms);
    text::lemma_trimmed_solid(digits);
    let d0 = Seq::<Seq<char>>::empty();
    let d1 = d0.push("id"@ + seq![':', ' '] + id);
    let d2 = d1.push("created"@ + seq![':', ' '] + created);
    let d3 = d2.push("created_ms"@ + seq![':', ' '] + digits);
    lemma_meta_push(d0, "id"@, id);
    lemma_meta_push(d1, "created"@, created);
    lemma_meta_push(d2, "created_ms"@, digits);
    lemma_meta_push(d3, "tags"@, tags);
    assert(d == d3.push("tags"@ + seq![':', ' '] + tags));
}

/// A data line adds its key and value to the data.
pub proof fn lemma_meta_push(lines: Seq<Seq<char>>, key: Seq<char>, value: Seq<char>)
    requires
        key.len() > 0,
        entry::is_key(key),
    ensures
        entry::meta_of(lines.push(key + seq![':', ' '] + value)) == entry::meta_of(lines).insert(
            key,
            text::trimmed(value),
        ),
{
    lemma_meta_line(key, value);
    assert(lines.push(key + seq![':', ' '] + value).drop_last() == lines);
}

/// The decimal notation of an integer holds no white space.
proof fn lemma_digits_solid(n: i64)
    ensures
        forall|i: int|
            0 <= i < number::signed_decimal(n as int).len() ==> !text::is_space(
                #[trigger] number::signed_decimal(n as int)[i],
            ),
        !number::signed_decimal(n as int).contains('\n'),
        !number::signed_decimal(n as int).contains('\r'),
{
    let s = number::signed_decimal(n as int);
    let m: nat = if n < 0 {
        (-n) as nat
    } else {
        n as nat
    };
    number::lemma_decimal(m);
    assert forall|i: int| 0 <= i < s.len() implies !text::is_space(#[trigger] s[i]) && s[i] != '\n'
        && s[i] != '\r' by {
        if n < 0 {
            if i > 0 {
                assert(s[i] == number::decimal(m)[i - 1]);
            }
        } else {
            assert(s[i] == number::decimal(m)[i]);
        }
    }
}

/// The markers of a written block are markers, and its data lines are none.
proof fn lemma_head_markers(id: Seq<char>, created: Seq<char>, ms: i64, tags: Seq<char>)
    ensures
        ({
            let h = block_head(id, created, ms as int, tags);
            &&& entry::is_marker(h[0], Marker::Open)
            &&& !entry::is_marker(h[1], Marker::MetaEnd)
            &&& !entry::is_marker(h[2], Marker::MetaEnd)
            &&& !entry::is_marker(h[3], Marker::MetaEnd)
            &&& !entry::is_marker(h[4], Marker::MetaEnd)
            &&& entry::is_marker(h[5], Marker::MetaEnd)
        }),
        entry::is_marker("<!-- /acta:comment -->"@, Marker::Close),
{
    let h = block_head(id, created, ms as int, tags);
    reveal_strlit("<!-- acta:comment");
    reveal_strlit("-->");
    reveal_strlit("<!-- /acta:comment -->");
    reveal_strlit("id: ");
    reveal_strlit("created: ");
    reveal_strlit("created_ms: ");
    reveal_strlit("tags: ");
    let o = "<!-- acta:comment"@;
    assert(o.len() == 17);
    assert(text::trimmed(o) == o);
    assert(o.take(17) == o);
    assert forall|i: int| 0 <= i < 17 implies #[trigger] o[i] != '>' by {
        assert(o[0] == '<' && o[1] == '!' && o[2] == '-' && o[3] == '-' && o[4] == ' ' && o[5]
            == 'a' && o[6] == 'c' && o[7] == 't' && o[8] == 'a' && o[9] == ':' && o[10] == 'c'
            && o[11] == 'o' && o[12] == 'm' && o[13] == 'm' && o[14] == 'e' && o[15] == 'n'
            && o[16] == 't');
    }
    assert(!text::has(o, "-->"@)) by {
        if text::has(o, "-->"@) {
            let i = choose|i: int| text::stands_at(o, "-->"@, i);
            assert(o.subrange(i, i + 3)[2] == o[i + 2]);
            assert("-->"@[2] == '>');
        }
    }
    assert(text::trimmed("-->"@) == "-->"@);
    assert(text::trimmed("<!-- /acta:comment -->"@) == "<!-- /acta:comment -->"@);
    assert("-->"@[0] == '-');
    assert(h[1][0] == 'i' && h[2][0] == 'c' && h[3][0] == 'c' && h[4][0] == 't');
    text::lemma_trimmed_end_front(h[1]);
    text::lemma_trimmed_end_front(h[2]);
    text::lemma_trimmed_end_front(h[3]);
    text::lemma_trimmed_end_front(h[4]);
}

/// Whether a text can be the body of an entry: none of its lines closes the block.
pub open spec fn is_body(body: Seq<char>) -> bool {
    let lines = text::split_on(written_body(body), '\n');
    forall|i: int| 0 <= i < lines.len() ==> !entry::is_marker(#[trigger] lines[i], Marker::Close)
}

/// The lines of a written block.
pub open spec fn block_rows(
    id: Seq<char>,
    created: Seq<char>,
    ms: i64,
    tags: Seq<char>,
    body: Seq<char>,
) -> Seq<Seq<char>> {
    block_head(id, created, ms as int, tags) + text::split_on(written_body(body), '\n')
        + block_foot()
}

/// Where the markers of a written block stand.
proof fn lemma_block_markers(
    id: Seq<char>,
    created: Seq<char>,
    ms: i64,
    tags: Seq<char>,
    body: Seq<char>,
)
    requires
        is_body(body),
    ensures
        ({
            let rows = block_rows(id, created, ms, tags, body);
            let k = text::split_on(written_body(body), '\n').len() as int;
            &&& rows.len() == 9 + k
            &&& entry::first_marker(rows, 0, Marker::Open) == 0
            &&& entry::first_marker(rows, 1, Marker::MetaEnd) == 5
            &&& entry::first_marker(rows, 6, Marker::Close) == 6 + k
            &&& entry::first_marker(rows, 7 + k, Marker::Open) == 9 + k
            &&& rows.subrange(1, 5) == block_head(id, created, ms as int, tags).subrange(1, 5)
        }),
{
    let rows = block_rows(id, created, ms, tags, body);
    let h = block_head(id, created, ms as int, tags);
    let b = text::split_on(written_body(body), '\n');
    let k = b.len() as int;
    lemma_head_markers(id, created, ms, tags);
    assert(rows[0] == h[0] && rows[1] == h[1] && rows[2] == h[2] && rows[3] == h[3] && rows[4]
        == h[4] && rows[5] == h[5]);
    entry::lemma_first_marker(rows, 0, Marker::Open);
    entry::lemma_first_marker(rows, 1, Marker::MetaEnd);
    assert(rows[6 + k] == "<!-- /acta:comment -->"@);
    entry::lemma_first_marker(rows, 6, Marker::Close);
    let c = entry::first_marker(rows, 6, Marker::Close);
    assert(c == 6 + k) by {
        if c < 6 + k {
            assert(rows[c] == b[c - 6]);
        }
    }
    lemma_empty_is_no_marker(Marker::Open);
    entry::lemma_first_marker(rows, 7 + k, Marker::Open);
    assert(rows[7 + k] == Seq::<char>::empty() && rows[8 + k] == Seq::<char>::empty());
    assert(rows.subrange(1, 5) == h.subrange(1, 5));
}

/// Lines with a written block behind them hold one entry more, the one written.
proof fn lemma_block_entry(
    a: Seq<Seq<char>>,
    date: Seq<char>,
    id: Seq<char>,
    created: Seq<char>,
    ms: i64,
    tags: Seq<char>,
    body: Seq<char>,
)
    requires
        is_body(body),
    ensures
        ({
            let rows = block_rows(id, created, ms, tags, body);
            let n = a.len() as int;
            let k = text::split_on(written_body(body), '\n').len() as int;
            let got = entry::entries_from(a + rows, date, n);
            &&& got.len() == 1
            &&& got[0].id == text::trimmed(id)
            &&& got[0].created == text::trimmed(created)
            &&& got[0].created_ms == ms
            &&& got[0].tags == entry::tags_of(text::trimmed(tags))
            &&& got[0].body == (n + 6, n + 6 + k)
            &&& got[0].block == (n, n + 7 + k)
            &&& settled_from(a + rows, n)
        }),
{
    let rows = block_rows(id, created, ms, tags, body);
    let n = a.len() as int;
    let k = text::split_on(written_body(body), '\n').len() as int;
    let all = a + rows;
    lemma_block_markers(id, created, ms, tags, body);
    lemma_head_meta(id, created, ms, tags);
    lemma_marker_shift(a, rows, 0, Marker::Open);
    lemma_marker_shift(a, rows, 1, Marker::MetaEnd);
    lemma_marker_shift(a, rows, 6, Marker::Close);
    lemma_marker_shift(a, rows, 7 + k, Marker::Open);
    assert(all.subrange(n + 1, n + 5) == rows.subrange(1, 5));
    assert(all.len() == n + 9 + k);
    let at = n + 7 + k;
    entry::lemma_first_marker(all, all.len() as int + 1, Marker::MetaEnd);
    assert(entry::entries_from(all, date, at) == Seq::<EntryView>::empty());
    assert(settled_from(all, at));
    assert(entry::entries_from(all, date, n) == seq![
        entry::entry_at(all, date, n, n + 5, n + 6 + k),
    ]);
}

/// Whether a text holds no line break.
pub open spec fn is_line(s: Seq<char>) -> bool {
    !s.contains('\n') && !s.contains('\r')
}

/// Whether each of the texts holds no line break.
pub open spec fn all_lines(s: Seq<Seq<char>>) -> bool {
    forall|i: int| 0 <= i < s.len() ==> is_line(#[trigger] s[i])
}

/// Written tags hold no line break where the tags hold none.
proof fn lemma_written_tags_lines(tags: Seq<Seq<char>>)
    requires
        all_lines(tags),
    ensures
        all_lines(written_tags(tags)),
    decreases tags.len(),
{
    if tags.len() > 0 {
        let head = tags.drop_last();
        assert forall|i: int| 0 <= i < head.len() implies is_line(#[trigger] head[i]) by {
            assert(head[i] == tags[i]);
        }
        lemma_written_tags_lines(head);
        let tag = tags.last();
        assert(is_line(tags[tags.len() - 1]));
        text::lemma_trimmed_lacks(tag, '\n');
        text::lemma_trimmed_lacks(tag, '\r');
        text::lemma_without_leading_lacks(text::trimmed(tag), '#', '＃', '\n');
        text::lemma_without_leading_lacks(text::trimmed(tag), '#', '＃', '\r');
    }
}

/// The tag line holds no line break where the tags hold none.
proof fn lemma_tag_line(tags: Seq<Seq<char>>)
    requires
        all_lines(tags),
    ensures
        is_line(text::joined(written_tags(tags), ", "@)),
{
    lemma_written_tags_lines(tags);
    reveal_strlit(", ");
    let w = written_tags(tags);
    assert(is_line(", "@));
    assert forall|i: int| 0 <= i < w.len() implies !(#[trigger] w[i]).contains('\n')
        && !w[i].contains('\r') by {
        assert(is_line(w[i]));
    }
    text::lemma_joined_lacks(w, ", "@, '\n');
    text::lemma_joined_lacks(w, ", "@, '\r');
}

/// The lines above and below the body hold no line break.
proof fn lemma_frame_lines(id: Seq<char>, created: Seq<char>, ms: i64, tags: Seq<char>)
    requires
        is_line(id),
        is_line(created),
        is_line(tags),
    ensures
        all_lines(block_head(id, created, ms as int, tags)),
        all_lines(block_foot()),
{
    reveal_strlit("<!-- acta:comment");
    reveal_strlit("-->");
    reveal_strlit("<!-- /acta:comment -->");
    reveal_strlit("id: ");
    reveal_strlit("created: ");
    reveal_strlit("created_ms: ");
    reveal_strlit("tags: ");
    assert(is_line("<!-- acta:comment"@));
    assert(is_line("-->"@));
    assert(is_line("<!-- /acta:comment -->"@));
    assert(is_line("id: "@));
    assert(is_line("created: "@));
    assert(is_line("created_ms: "@));
    assert(is_line("tags: "@));
    lemma_digits_solid(ms);
    lemma_line_concat("id: "@, id);
    lemma_line_concat("created: "@, created);
    lemma_line_concat("created_ms: "@, number::signed_decimal(ms as int));
    lemma_line_concat("tags: "@, tags);
}

proof fn lemma_line_concat(a: Seq<char>, b: Seq<char>)
    requires
        is_line(a),
        is_line(b),
    ensures
        is_line(a + b),
{
    text::lemma_concat_lacks(a, b, '\n');
    text::lemma_concat_lacks(a, b, '\r');
}

/// A written block splits into its lines and holds no carriage return.
proof fn lemma_block_split(
    id: Seq<char>,
    created: Seq<char>,
    ms: i64,
    tags: Seq<Seq<char>>,
    body: Seq<char>,
)
    requires
        is_line(id),
        is_line(created),
        all_lines(tags),
    ensures
        text::split_on(block_text(id, created, ms as int, tags, body), '\n') == block_rows(
            id,
            created,
            ms,
            text::joined(written_tags(tags), ", "@),
            body,
        ),
        !block_text(id, created, ms as int, tags, body).contains('\r'),
{
    let tag_line = text::joined(written_tags(tags), ", "@);
    let h = block_head(id, created, ms as int, tag_line);
    let x = written_body(body);
    let f = block_foot();
    lemma_tag_line(tags);
    lemma_frame_lines(id, created, ms, tag_line);
    assert forall|i: int| 0 <= i < h.len() implies !(#[trigger] h[i]).contains('\n') by {
        assert(is_line(h[i]));
    }
    assert forall|i: int| 0 <= i < f.len() implies !(#[trigger] f[i]).contains('\n') by {
        assert(is_line(f[i]));
    }
    text::lemma_split_around(h, x, f, '\n');
    text::lemma_normalized_clean(body);
    text::lemma_trimmed_lacks(text::normalized(body), '\r');
    let all = h + seq![x] + f;
    assert forall|i: int| 0 <= i < all.len() implies !(#[trigger] all[i]).contains('\r') by {
        if i < h.len() {
            assert(is_line(h[i]));
        } else if i > h.len() {
            assert(is_line(f[i - h.len() - 1]));
        }
    }
    text::lemma_joined_lacks(all, seq!['\n'], '\r');
}

/// The lines in front of an appended block hold the entries of the note.
proof fn lemma_closed_lines(t: Seq<char>, date: Seq<char>, b: Seq<char>) -> (a: Seq<Seq<char>>)
    requires
        settled(text::split_on(t, '\n')),
    ensures
        text::split_on(note::closed_text(t) + b, '\n') == a + text::split_on(b, '\n'),
        settled(a),
        entry::entries_of(a, date) == entry::entries_of(text::split_on(t, '\n'), date),
{
    let lines = text::split_on(t, '\n');
    let c = note::closed_text(t);
    let nl = seq!['\n'];
    if t.len() == 0 {
        assert(lines == Seq::<Seq<char>>::empty().push(Seq::<char>::empty()));
        lemma_entries_push_empty(Seq::empty(), date, 0);
        assert(c + b == b);
        assert(Seq::<Seq<char>>::empty() + text::split_on(b, '\n') == text::split_on(b, '\n'));
        Seq::empty()
    } else if text::ends(t, seq!['\n', '\n']) {
        let u = t.drop_last();
        assert(t.last() == '\n');
        assert(c + b == u + nl + b);
        text::lemma_split_concat(u, b, '\n');
        let a = text::split_on(u, '\n');
        assert(lines == a.push(Seq::empty()));
        lemma_entries_push_empty(a, date, 0);
        a
    } else if text::ends(t, nl) {
        assert(c + b == t + nl + b);
        text::lemma_split_concat(t, b, '\n');
        lines
    } else {
        let u = t.push('\n');
        assert(c + b == u + nl + b);
        text::lemma_split_concat(u, b, '\n');
        assert(u.drop_last() == t);
        lemma_entries_push_empty(lines, date, 0);
        text::split_on(u, '\n')
    }
}

// --------------------------------------------------------------------- tags

/// Whether a text is a tag in its plain form: without a comma or a line break, without
/// white space around it and hash signs in front, with single spaces between its words.
pub open spec fn is_tag(tag: Seq<char>) -> bool {
    &&& tag.len() > 0
    &&& !tag.contains(',') && !tag.contains('、')
    &&& is_line(tag)
    &&& text::trimmed(tag) == tag
    &&& text::without_leading(tag, '#', '＃') == tag
    &&& text::joined(text::words(tag), seq![' ']) == tag
}

/// Whether texts are tags in their plain form, none of them twice.
pub open spec fn are_tags(tags: Seq<Seq<char>>) -> bool {
    &&& tags.no_duplicates()
    &&& forall|i: int| 0 <= i < tags.len() ==> is_tag(#[trigger] tags[i])
}

/// The pieces between the commas of a tag line.
spec fn spaced(tags: Seq<Seq<char>>) -> Seq<Seq<char>> {
    Seq::new(
        tags.len(),
        |i: int|
            if i == 0 {
                tags[0]
            } else {
                seq![' '] + tags[i]
            },
    )
}

proof fn lemma_spaced_joined(tags: Seq<Seq<char>>)
    ensures
        text::joined(spaced(tags), seq![',']) == text::joined(tags, ", "@),
    decreases tags.len(),
{
    reveal_strlit(", ");
    assert(", "@ == seq![',', ' ']);
    if tags.len() > 1 {
        let head = tags.drop_last();
        lemma_spaced_joined(head);
        assert(spaced(tags).drop_last() == spaced(head));
        let j = text::joined(head, ", "@);
        assert(j + seq![','] + (seq![' '] + tags.last()) == j + ", "@ + tags.last());
    }
}

proof fn lemma_spaced_list(tags: Seq<Seq<char>>)
    requires
        are_tags(tags),
    ensures
        entry::tag_list(spaced(tags)) == tags,
    decreases tags.len(),
{
    if tags.len() > 0 {
        let head = tags.drop_last();
        assert forall|i: int| 0 <= i < head.len() implies is_tag(#[trigger] head[i]) by {
            assert(head[i] == tags[i]);
        }
        assert(head.no_duplicates()) by {
            assert forall|i: int, j: int| 0 <= i < head.len() && 0 <= j < head.len() && i != j implies head[i]
                != head[j] by {
                assert(head[i] == tags[i] && head[j] == tags[j]);
            }
        }
        lemma_spaced_list(head);
        assert(spaced(tags).drop_last() == spaced(head));
        let t = tags.last();
        assert(is_tag(tags[tags.len() - 1]));
        text::lemma_trimmed_space(t);
        assert(entry::tag_of(spaced(tags).last()) == t);
        assert(!head.contains(t)) by {
            if head.contains(t) {
                let k = choose|k: int| 0 <= k < head.len() && head[k] == t;
                assert(tags[k] == tags[tags.len() - 1]);
            }
        }
        assert(head.push(t) == tags);
    }
}

/// The pieces of a line of tags without commas in them.
proof fn lemma_tag_pieces(tags: Seq<Seq<char>>)
    requires
        tags.len() > 0,
        forall|i: int|
            0 <= i < tags.len() ==> !(#[trigger] tags[i]).contains(',') && !tags[i].contains('、'),
    ensures
        entry::tag_pieces(text::joined(tags, ", "@)) == spaced(tags),
{
    let line = text::joined(tags, ", "@);
    let p = spaced(tags);
    lemma_spaced_joined(tags);
    reveal_strlit(", ");
    assert(!", "@.contains('、'));
    text::lemma_joined_lacks(tags, ", "@, '、');
    let plain = line.map_values(|c: char| entry::plain_comma(c));
    assert(plain == line) by {
        assert forall|i: int| 0 <= i < line.len() implies plain[i] == line[i] by {
            assert(line.contains(line[i]));
        }
    }
    assert forall|i: int| 0 <= i < p.len() implies !(#[trigger] p[i]).contains(',') by {
        assert(!tags[i].contains(','));
        text::lemma_concat_lacks(seq![' '], tags[i], ',');
    }
    text::lemma_joined_split(p, ',');
}

/// Tags in their plain form are read back from the line they are written on.
pub proof fn law_tags_read_back(tags: Seq<Seq<char>>)
    requires
        are_tags(tags),
    ensures
        entry::tags_of(text::joined(tags, ", "@)) == tags,
        written_tags(tags) == tags,
        text::trimmed(text::joined(tags, ", "@)) == text::joined(tags, ", "@),
        all_lines(tags),
{
    let line = text::joined(tags, ", "@);
    lemma_written_tags_same(tags);
    lemma_tag_line_trimmed(tags);
    assert forall|i: int| 0 <= i < tags.len() implies is_line(#[trigger] tags[i])
        && !tags[i].contains(',') && !tags[i].contains('、') by {
        assert(is_tag(tags[i]));
    }
    if tags.len() == 0 {
        let plain = line.map_values(|c: char| entry::plain_comma(c));
        assert(plain == line);
        assert(line == Seq::<char>::empty());
        assert(entry::tag_pieces(line) == seq![Seq::<char>::empty()]);
        let one = seq![Seq::<char>::empty()];
        assert(one.drop_last() == Seq::<Seq<char>>::empty());
        assert(text::trimmed(Seq::<char>::empty()) == Seq::<char>::empty());
        assert(text::words(Seq::<char>::empty()) == Seq::<Seq<char>>::empty());
        assert(entry::tag_of(one.last()) == Seq::<char>::empty());
        assert(entry::tag_list(one.drop_last()) == Seq::<Seq<char>>::empty());
        assert(entry::tag_list(one) == Seq::<Seq<char>>::empty());
    } else {
        lemma_tag_pieces(tags);
        lemma_spaced_list(tags);
    }
}

/// A tag that is read comes from one of the pieces.
proof fn lemma_tag_list_from(pieces: Seq<Seq<char>>, k: int) -> (j: int)
    requires
        0 <= k < entry::tag_list(pieces).len(),
    ensures
        0 <= j < pieces.len(),
        entry::tag_list(pieces)[k] == entry::tag_of(pieces[j]),
    decreases pieces.len(),
{
    let before = entry::tag_list(pieces.drop_last());
    if k < before.len() {
        let j = lemma_tag_list_from(pieces.drop_last(), k);
        assert(pieces.drop_last()[j] == pieces[j]);
        j
    } else {
        pieces.len() - 1
    }
}

/// There are no more tags than pieces.
proof fn lemma_tag_list_shorter(pieces: Seq<Seq<char>>)
    ensures
        entry::tag_list(pieces).len() <= pieces.len(),
    decreases pieces.len(),
{
    if pieces.len() > 0 {
        lemma_tag_list_shorter(pieces.drop_last());
    }
}

/// Where there are as many tags as pieces, each piece gives its tag.
proof fn lemma_tag_list_full(pieces: Seq<Seq<char>>)
    requires
        entry::tag_list(pieces).len() == pieces.len(),
    ensures
        forall|i: int|
            0 <= i < pieces.len() ==> #[trigger] entry::tag_list(pieces)[i] == entry::tag_of(
                pieces[i],
            ),
    decreases pieces.len(),
{
    if pieces.len() > 0 {
        let front = pieces.drop_last();
        lemma_tag_list_shorter(front);
        lemma_tag_list_full(front);
        assert forall|i: int| 0 <= i < pieces.len() implies #[trigger] entry::tag_list(pieces)[i]
            == entry::tag_of(pieces[i]) by {
            if i < front.len() {
                assert(entry::tag_list(pieces)[i] == entry::tag_list(front)[i]);
                assert(front[i] == pieces[i]);
            }
        }
    }
}

/// A tag that is read has no white space around it and no line break, and is no longer than
/// what it is read from.
proof fn lemma_tag_of(piece: Seq<char>)
    ensures
        ({
            let t = entry::tag_of(piece);
            let w = text::without_leading(text::trimmed(piece), '#', '＃');
            &&& t.len() <= w.len()
            &&& t.len() > 0 ==> text::trimmed(t) == t
            &&& is_line(t)
        }),
{
    let w = text::without_leading(text::trimmed(piece), '#', '＃');
    let parts = text::words(w);
    let t = entry::tag_of(piece);
    text::lemma_words(w);
    if parts.len() > 0 {
        text::lemma_words_joined(parts);
    } else {
        assert(t == Seq::<char>::empty());
    }
    assert(text::is_space('\n') && text::is_space('\r'));
    assert forall|i: int| 0 <= i < parts.len() implies !(#[trigger] parts[i]).contains('\n')
        && !parts[i].contains('\r') by {
        assert(text::is_word(parts[i]));
    }
    assert(!seq![' '].contains('\n') && !seq![' '].contains('\r'));
    text::lemma_joined_lacks(parts, seq![' '], '\n');
    text::lemma_joined_lacks(parts, seq![' '], '\r');
}

/// A tag that is read holds no character that its piece does not hold, but for a space.
proof fn lemma_tag_of_lacks(piece: Seq<char>, c: char)
    requires
        !piece.contains(c),
        c != ' ',
    ensures
        !entry::tag_of(piece).contains(c),
{
    let w = text::without_leading(text::trimmed(piece), '#', '＃');
    text::lemma_trimmed_lacks(piece, c);
    text::lemma_without_leading_lacks(text::trimmed(piece), '#', '＃', c);
    text::lemma_words_lack(w, c);
    assert(!seq![' '].contains(c));
    text::lemma_joined_lacks(text::words(w), seq![' '], c);
}

/// The pieces of a line hold no comma.
proof fn lemma_pieces_lack(raw: Seq<char>)
    ensures
        forall|i: int|
            0 <= i < entry::tag_pieces(raw).len() ==> !(#[trigger] entry::tag_pieces(
                raw,
            )[i]).contains(',') && !entry::tag_pieces(raw)[i].contains('、'),
{
    let plain = raw.map_values(|c: char| entry::plain_comma(c));
    assert(!plain.contains('、'));
    text::lemma_split_pieces(plain, ',');
    text::lemma_split_lacks(plain, ',', '、');
}

/// Tags that are read back as they are from a line are in their plain form.
pub proof fn law_read_tags_are_plain(tags: Seq<Seq<char>>)
    requires
        entry::tags_of(text::joined(tags, ", "@)) == tags,
    ensures
        are_tags(tags),
{
    let line = text::joined(tags, ", "@);
    let pieces = entry::tag_pieces(line);
    entry::law_tags_distinct(line);
    lemma_pieces_lack(line);
    assert forall|i: int| 0 <= i < tags.len() implies !(#[trigger] tags[i]).contains(',')
        && !tags[i].contains('、') && is_line(tags[i]) && text::trimmed(tags[i]) == tags[i] by {
        let j = lemma_tag_list_from(pieces, i);
        assert(!pieces[j].contains(','));
        lemma_tag_of_lacks(pieces[j], ',');
        lemma_tag_of_lacks(pieces[j], '、');
        lemma_tag_of(pieces[j]);
        assert(tags[i].len() > 0);
    }
    if tags.len() > 0 {
        lemma_tag_pieces(tags);
        let p = spaced(tags);
        lemma_tag_list_full(p);
        assert forall|i: int| 0 <= i < tags.len() implies is_tag(#[trigger] tags[i]) by {
            let t = tags[i];
            text::lemma_trimmed_space(t);
            assert(entry::tag_list(p)[i] == entry::tag_of(p[i]));
            assert(text::trimmed(p[i]) == text::trimmed(t));
            assert(entry::tag_of(t) == t);
            lemma_tag_of(t);
            text::lemma_without_leading_shorter(t, '#', '＃');
        }
    }
}

proof fn lemma_written_tags_same(tags: Seq<Seq<char>>)
    requires
        forall|i: int| 0 <= i < tags.len() ==> is_tag(#[trigger] tags[i]),
    ensures
        written_tags(tags) == tags,
    decreases tags.len(),
{
    if tags.len() > 0 {
        let head = tags.drop_last();
        assert forall|i: int| 0 <= i < head.len() implies is_tag(#[trigger] head[i]) by {
            assert(head[i] == tags[i]);
        }
        lemma_written_tags_same(head);
        assert(is_tag(tags[tags.len() - 1]));
        assert(head.push(tags.last()) == tags);
    }
}

/// A line of tags has no white space at either end.
proof fn lemma_tag_line_trimmed(tags: Seq<Seq<char>>)
    requires
        forall|i: int| 0 <= i < tags.len() ==> is_tag(#[trigger] tags[i]),
    ensures
        text::trimmed(text::joined(tags, ", "@)) == text::joined(tags, ", "@),
        tags.len() > 0 ==> text::joined(tags, ", "@).len() > 0 && !text::is_space(
            text::joined(tags, ", "@)[0],
        ),
    decreases tags.len(),
{
    let line = text::joined(tags, ", "@);
    if tags.len() > 0 {
        let t = tags.last();
        assert(is_tag(tags[tags.len() - 1]));
        text::lemma_trimmed_ends(t);
        if tags.len() > 1 {
            let head = tags.drop_last();
            assert forall|i: int| 0 <= i < head.len() implies is_tag(#[trigger] head[i]) by {
                assert(head[i] == tags[i]);
            }
            lemma_tag_line_trimmed(head);
            assert(line[0] == text::joined(head, ", "@)[0]);
        }
        assert(line.last() == t.last());
    }
}

// ------------------------------------------------------------------ appending

/// The lines of a note that was read hold no line break.
pub proof fn law_read_lines_are_lines(date: Seq<char>, path: Seq<char>, t: Seq<char>)
    ensures
        all_lines(note::note_of(date, path, t).lines),
{
    let plain = text::normalized(t);
    let lines = text::split_on(plain, '\n');
    text::lemma_normalized_clean(t);
    text::lemma_split_pieces(plain, '\n');
    text::lemma_split_lacks(plain, '\n', '\r');
    assert forall|i: int| 0 <= i < lines.len() implies is_line(#[trigger] lines[i]) by {
        assert(!lines[i].contains('\r'));
    }
}

/// A block that is appended to a note is read: the note has the entries it had and one
/// more, with the values and the body that were written and the tags as they are read from
/// the line they were written on. The note's own blocks are closed, the values fit on one
/// line, and no line of the body closes the block.
pub proof fn law_append_cleans_tags(
    n: NoteView,
    id: Seq<char>,
    created: Seq<char>,
    ms: i64,
    tags: Seq<Seq<char>>,
    body: Seq<char>,
)
    requires
        n.is_parsed(),
        all_lines(n.lines),
        settled(n.lines),
        is_value(id),
        is_value(created),
        all_lines(tags),
        is_body(body),
    ensures
        ({
            let b = block_text(id, created, ms as int, tags, body);
            let m = n.with_block(b);
            let e = m.entries.last();
            &&& text::begins(m.text(), n.text())
            &&& text::ends(m.text(), b)
            &&& m.text() == note::closed_text(n.text()) + b
            &&& m.entries.len() == n.entries.len() + 1
            &&& m.entries.drop_last() == n.entries
            &&& e.id == id
            &&& e.created == created
            &&& e.created_ms == ms
            &&& e.tags == entry::tags_of(
                text::trimmed(text::joined(written_tags(tags), ", "@)),
            )
            &&& m.body(e) == text::split_on(written_body(body), '\n')
            &&& settled(m.lines)
        }),
{
    let b = block_text(id, created, ms as int, tags, body);
    let tag_line = text::joined(written_tags(tags), ", "@);
    let rows = block_rows(id, created, ms, tag_line, body);
    let m = n.with_block(b);
    let plain = n.text();
    let lines = text::split_on(plain, '\n');
    assert forall|i: int| 0 <= i < n.lines.len() implies !(#[trigger] n.lines[i]).contains('\n')
        && !n.lines[i].contains('\r') by {
        assert(is_line(n.lines[i]));
    }
    text::lemma_joined_lacks(n.lines, seq!['\n'], '\r');
    if n.lines.len() > 0 {
        text::lemma_joined_split(n.lines, '\n');
    } else {
        assert(lines == n.lines.push(Seq::<char>::empty()));
        lemma_entries_push_empty(n.lines, n.date, 0);
    }
    lemma_block_split(id, created, ms, tags, body);
    let c = note::closed_text(plain);
    assert(!c.contains('\r')) by {
        text::lemma_concat_lacks(plain, seq!['\n'], '\r');
        text::lemma_concat_lacks(plain, seq!['\n', '\n'], '\r');
        assert(plain.push('\n') == plain + seq!['\n']);
        assert(plain.push('\n').push('\n') == plain + seq!['\n', '\n']);
    }
    text::lemma_concat_lacks(c, b, '\r');
    text::lemma_normalized_same(c + b);
    text::lemma_split_joined(c + b, '\n');
    assert(m.text() == c + b);
    assert(m.text().take(plain.len() as int) == plain);
    assert(m.text().skip(m.text().len() - b.len()) == b);
    let a = lemma_closed_lines(plain, n.date, b);
    assert(m.lines == a + rows);
    lemma_entries_concat(a, rows, n.date, 0);
    lemma_block_entry(a, n.date, id, created, ms, tag_line, body);
    let k = text::split_on(written_body(body), '\n').len() as int;
    assert(m.entries.drop_last() == n.entries);
    assert((a + rows).subrange(a.len() as int + 6, a.len() as int + 6 + k) == text::split_on(
        written_body(body),
        '\n',
    ));
}

/// A block that is appended to a note is read back: the note has the entries it had and one
/// more, with the values, the tags and the body that were written, and its text is the text
/// it was, a blank line where one is missing, and the block. The note's own blocks are
/// closed, the values fit on one line, the tags are read as they are, and no line of the
/// body closes the block.
pub proof fn law_append_reads_back(
    n: NoteView,
    id: Seq<char>,
    created: Seq<char>,
    ms: i64,
    tags: Seq<Seq<char>>,
    body: Seq<char>,
)
    requires
        n.is_parsed(),
        all_lines(n.lines),
        settled(n.lines),
        is_value(id),
        is_value(created),
        entry::tags_of(text::joined(tags, ", "@)) == tags,
        is_body(body),
    ensures
        ({
            let b = block_text(id, created, ms as int, tags, body);
            let m = n.with_block(b);
            let e = m.entries.last();
            &&& text::begins(m.text(), n.text())
            &&& text::ends(m.text(), b)
            &&& m.text() == note::closed_text(n.text()) + b
            &&& m.entries.len() == n.entries.len() + 1
            &&& m.entries.drop_last() == n.entries
            &&& e.id == id
            &&& e.created == created
            &&& e.created_ms == ms
            &&& e.tags == tags
            &&& m.body(e) == text::split_on(written_body(body), '\n')
            &&& settled(m.lines)
        }),
{
    law_read_tags_are_plain(tags);
    law_tags_read_back(tags);
    law_append_cleans_tags(n, id, created, ms, tags, body);
}

} // verus!
