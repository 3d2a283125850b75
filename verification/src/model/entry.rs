//! The entries of a note: comment blocks with a few lines of data and a body.

use std::ops::Range;

use vstd::prelude::*;
use vstd::slice::slice_subrange;

use crate::number;
use crate::number::parse_i64;
use crate::text;
use crate::text::{
    alphanumeric, chars_of, contains, drop_leading, find_char, join, list_has, same_text, split, split_words, starts_with, string_of, trim,
};

verus! {

/// One comment block of a note.
#[derive(Debug)]
pub struct Entry {
    pub id: String,
    pub created: String,
    pub created_ms: i64,
    pub tags: Vec<String>,
    /// The lines of the body, as positions in the note's lines.
    pub body: Range<usize>,
    /// The lines from the opening to the closing marker.
    pub block: Range<usize>,
}

/// The contents of an entry.
#[verifier::ext_equal]
pub struct EntryView {
    pub id: Seq<char>,
    pub created: Seq<char>,
    pub created_ms: i64,
    pub tags: Seq<Seq<char>>,
    pub body: (int, int),
    pub block: (int, int),
}

impl View for Entry {
    type V = EntryView;

    open spec fn view(&self) -> EntryView {
        EntryView {
            id: self.id@,
            created: self.created@,
            created_ms: self.created_ms,
            tags: text::texts(self.tags@),
            body: (self.body.start as int, self.body.end as int),
            block: (self.block.start as int, self.block.end as int),
        }
    }
}

impl Clone for Entry {
    fn clone(&self) -> (r: Entry)
        ensures
            r@ == self@,
    {
        let r = Entry {
            id: self.id.clone(),
            created: self.created.clone(),
            created_ms: self.created_ms,
            tags: self.tags.clone(),
            body: self.body.start..self.body.end,
            block: self.block.start..self.block.end,
        };
        assert(r.tags@ =~= self.tags@);
        r
    }
}

/// The contents of a list of entries.
pub open spec fn entry_views(v: Seq<Entry>) -> Seq<EntryView> {
    v.map_values(|e: Entry| e@)
}

// --------------------------------------------------------------------- tags

/// The pieces of a tag line: they stand between commas, of either width.
pub open spec fn tag_pieces(raw: Seq<char>) -> Seq<Seq<char>> {
    text::split_on(raw.map_values(|c: char| plain_comma(c)), ',')
}

/// The ideographic comma counts as a comma.
pub open spec fn plain_comma(c: char) -> char {
    if c == '、' {
        ','
    } else {
        c
    }
}

/// The tag in a piece: no hash signs in front, single spaces between words.
pub open spec fn tag_of(piece: Seq<char>) -> Seq<char> {
    text::joined(text::words(text::without_leading(text::trimmed(piece), '#', '＃')), seq![' '])
}

/// The tags of the pieces in order, without empty ones and repetitions.
pub open spec fn tag_list(pieces: Seq<Seq<char>>) -> Seq<Seq<char>>
    decreases pieces.len(),
{
    if pieces.len() == 0 {
        Seq::empty()
    } else {
        let before = tag_list(pieces.drop_last());
        let tag = tag_of(pieces.last());
        if tag.len() == 0 || before.contains(tag) {
            before
        } else {
            before.push(tag)
        }
    }
}

/// The tags written on a line.
pub open spec fn tags_of(raw: Seq<char>) -> Seq<Seq<char>> {
    tag_list(tag_pieces(raw))
}

/// Reads the tags on a line.
pub fn parse_tags(raw: &str) -> (r: Vec<String>)
    ensures
        text::texts(r@) == tags_of(raw@),
{
    let v: Vec<char> = chars_of(raw);
    let mut plain: Vec<char> = Vec::new();
    let mut i: usize = 0;
    let ghost mapped = raw@.map_values(|c: char| plain_comma(c));
    while i < v.len()
        invariant
            i <= v.len(),
            v@ == raw@,
            mapped == raw@.map_values(|c: char| plain_comma(c)),
            plain@ == mapped.take(i as int),
        decreases v.len() - i,
    {
        let c: char = v[i];
        plain.push(
            if c == '、' {
                ','
            } else {
                c
            },
        );
        assert(mapped.take(i + 1) == mapped.take(i as int).push(mapped[i as int]));
        i += 1;
    }
    assert(mapped.take(i as int) == mapped);
    let pieces: Vec<String> = split(plain.as_slice(), ',');
    let ghost all = text::texts(pieces@);
    let mut out: Vec<String> = Vec::new();
    let mut k: usize = 0;
    while k < pieces.len()
        invariant
            k <= pieces.len(),
            all == text::texts(pieces@),
            text::texts(out@) == tag_list(all.take(k as int)),
        decreases pieces.len() - k,
    {
        let piece: Vec<char> = chars_of(pieces[k].as_str());
        assert(all[k as int] == piece@);
        let words: Vec<String> = split_words(drop_leading(trim(piece.as_slice()), '#', '＃'));
        let tag: String = join(&words, " ");
        proof {
            reveal_strlit(" ");
            assert(" "@ == seq![' ']);
            assert(all.take(k + 1).drop_last() == all.take(k as int));
        }
        if !tag.as_str().is_empty() && !list_has(&out, tag.as_str()) {
            let ghost done = out@;
            out.push(tag);
            assert(text::texts(out@) == text::texts(done).push(tag@));
        }
        k += 1;
    }
    assert(all.take(k as int) == all);
    out
}

/// No tag is empty and none occurs twice.
pub proof fn law_tags_distinct(raw: Seq<char>)
    ensures
        tags_of(raw).no_duplicates(),
        forall|i: int| 0 <= i < tags_of(raw).len() ==> (#[trigger] tags_of(raw)[i]).len() > 0,
{
    lemma_tag_list_distinct(tag_pieces(raw));
}

proof fn lemma_tag_list_distinct(pieces: Seq<Seq<char>>)
    ensures
        tag_list(pieces).no_duplicates(),
        forall|i: int| 0 <= i < tag_list(pieces).len() ==> (#[trigger] tag_list(pieces)[i]).len() > 0,
    decreases pieces.len(),
{
    if pieces.len() > 0 {
        lemma_tag_list_distinct(pieces.drop_last());
    }
}

// ----------------------------------------------------------- data of a block

/// The key and value on a line of data.
pub open spec fn meta_line(line: Seq<char>) -> Option<(Seq<char>, Seq<char>)> {
    let at = text::first_index(line, ':') as int;
    let key = text::trimmed(line.take(at));
    if at < line.len() && key.len() > 0 && is_key(key) {
        Some((key, text::trimmed(line.skip(at + 1))))
    } else {
        None
    }
}

/// Whether a text is made of ASCII letters, digits and underscores.
pub open spec fn is_key(key: Seq<char>) -> bool {
    forall|i: int|
        0 <= i < key.len() ==> text::is_alphanumeric(#[trigger] key[i]) || key[i] == '_'
}

/// The data on the lines; of lines with the same key the last one counts.
pub open spec fn meta_of(lines: Seq<Seq<char>>) -> Map<Seq<char>, Seq<char>>
    decreases lines.len(),
{
    if lines.len() == 0 {
        Map::empty()
    } else {
        let before = meta_of(lines.drop_last());
        match meta_line(lines.last()) {
            Some((key, value)) => before.insert(key, value),
            None => before,
        }
    }
}

/// The data lines of a block, in the order in which they were read.
pub struct Meta {
    pairs: Vec<(String, String)>,
}

/// The map that pairs build up when they are inserted in order.
pub closed spec fn pairs_map(pairs: Seq<(String, String)>) -> Map<Seq<char>, Seq<char>>
    decreases pairs.len(),
{
    if pairs.len() == 0 {
        Map::empty()
    } else {
        pairs_map(pairs.drop_last()).insert(pairs.last().0@, pairs.last().1@)
    }
}

impl View for Meta {
    type V = Map<Seq<char>, Seq<char>>;

    closed spec fn view(&self) -> Map<Seq<char>, Seq<char>> {
        pairs_map(self.pairs@)
    }
}

impl Meta {
    fn new() -> (r: Meta)
        ensures
            r@ == Map::<Seq<char>, Seq<char>>::empty(),
    {
        Meta { pairs: Vec::new() }
    }

    fn insert(&mut self, key: String, value: String)
        ensures
            final(self)@ == old(self)@.insert(key@, value@),
    {
        let ghost before = self.pairs@;
        self.pairs.push((key, value));
        assert(self.pairs@.drop_last() == before);
    }

    /// The value of a key.
    fn get(&self, key: &str) -> (r: Option<&str>)
        ensures
            match r {
                Some(value) => self@.contains_key(key@) && self@[key@] == value@,
                None => !self@.contains_key(key@),
            },
    {
        let mut n: usize = self.pairs.len();
        assert(self.pairs@.take(n as int) == self.pairs@);
        while n > 0
            invariant
                n <= self.pairs.len(),
                pairs_map(self.pairs@).contains_key(key@) == pairs_map(
                    self.pairs@.take(n as int),
                ).contains_key(key@),
                pairs_map(self.pairs@).contains_key(key@) ==> pairs_map(self.pairs@)[key@]
                    == pairs_map(self.pairs@.take(n as int))[key@],
            decreases n,
        {
            assert(self.pairs@.take(n as int).drop_last() == self.pairs@.take(n - 1));
            let pair = &self.pairs[n - 1];
            if text::same_string(pair.0.as_str(), key) {
                return Some(pair.1.as_str());
            }
            n -= 1;
        }
        None
    }
}

/// Reads the data lines from `from` up to `to`.
fn parse_meta(lines: &Vec<String>, from: usize, to: usize) -> (r: Meta)
    requires
        from <= to <= lines@.len(),
    ensures
        r@ == meta_of(text::texts(lines@).subrange(from as int, to as int)),
{
    let mut out: Meta = Meta::new();
    let ghost all = text::texts(lines@);
    let mut i: usize = from;
    assert(all.subrange(from as int, from as int) == Seq::<Seq<char>>::empty());
    while i < to
        invariant
            from <= i <= to <= lines@.len(),
            all == text::texts(lines@),
            out@ == meta_of(all.subrange(from as int, i as int)),
        decreases to - i,
    {
        let line: Vec<char> = chars_of(lines[i].as_str());
        proof {
            assert(all[i as int] == line@);
            assert(all.subrange(from as int, i + 1).drop_last() == all.subrange(
                from as int,
                i as int,
            ));
        }
        match find_char(line.as_slice(), ':') {
            Some(at) => {
                let count: usize = line.len();
                assert(at < count);
                let head = slice_subrange(line.as_slice(), 0, at);
                let tail = slice_subrange(line.as_slice(), at + 1, count);
                assert(head@ == line@.take(at as int));
                assert(tail@ == line@.skip(at + 1));
                let key = trim(head);
                if key.len() > 0 && key_chars(key) {
                    out.insert(string_of(key), string_of(trim(tail)));
                }
            },
            None => {},
        }
        i += 1;
    }
    out
}

/// Whether the text is made of ASCII letters, digits and underscores.
fn key_chars(key: &[char]) -> (r: bool)
    ensures
        r == is_key(key@),
{
    let mut i: usize = 0;
    while i < key.len()
        invariant
            i <= key.len(),
            forall|j: int|
                0 <= j < i ==> text::is_alphanumeric(#[trigger] key@[j]) || key@[j] == '_',
        decreases key.len() - i,
    {
        if !alphanumeric(key[i]) && key[i] != '_' {
            return false;
        }
        i += 1;
    }
    true
}

// ------------------------------------------------------------------ markers

/// The lines that delimit a block.
pub enum Marker {
    /// Opens a block; its data lines follow.
    Open,
    /// Ends the data lines; the body follows.
    MetaEnd,
    /// Closes the block.
    Close,
}

/// Whether a line is the given marker.
pub open spec fn is_marker(line: Seq<char>, m: Marker) -> bool {
    let t = text::trimmed(line);
    match m {
        Marker::Open => text::begins(t, "<!-- acta:comment"@) && !text::has(t, "-->"@),
        Marker::MetaEnd => t == "-->"@,
        Marker::Close => t == "<!-- /acta:comment -->"@,
    }
}

/// The first line from `i` on that is the marker, or the number of lines.
pub open spec fn first_marker(lines: Seq<Seq<char>>, i: int, m: Marker) -> int
    decreases lines.len() - i,
{
    if i >= lines.len() {
        lines.len() as int
    } else if is_marker(lines[i], m) {
        i
    } else {
        first_marker(lines, i + 1, m)
    }
}

/// The entry whose block opens at line `open`, whose data ends at line `mid` and
/// whose block closes at line `close`. A block without an identifier gets one from
/// the date and its position; one without a creation time gets the date.
pub open spec fn entry_at(
    lines: Seq<Seq<char>>,
    date: Seq<char>,
    open: int,
    mid: int,
    close: int,
) -> EntryView {
    let meta = meta_of(lines.subrange(open + 1, mid));
    EntryView {
        id: if meta.contains_key("id"@) {
            meta["id"@]
        } else {
            date + seq![':'] + number::decimal(open as nat)
        },
        created: if meta.contains_key("created"@) {
            meta["created"@]
        } else {
            date
        },
        created_ms: if meta.contains_key("created_ms"@) && number::parsed_i64(
            meta["created_ms"@],
        ) is Some {
            number::parsed_i64(meta["created_ms"@])->0
        } else {
            0
        },
        tags: if meta.contains_key("tags"@) {
            tags_of(meta["tags"@])
        } else {
            Seq::empty()
        },
        body: (mid + 1, close),
        block: (open, close + 1),
    }
}

/// The entries from line `i` on. A block runs from an opening marker over the next
/// end of its data to the next closing marker; where one of these is missing, no
/// entry follows.
pub open spec fn entries_from(lines: Seq<Seq<char>>, date: Seq<char>, i: int) -> Seq<EntryView>
    decreases lines.len() - i,
{
    let open = first_marker(lines, i, Marker::Open);
    let mid = first_marker(lines, open + 1, Marker::MetaEnd);
    let close = first_marker(lines, mid + 1, Marker::Close);
    if i <= open < mid < close < lines.len() {
        seq![entry_at(lines, date, open, mid, close)] + entries_from(lines, date, close + 1)
    } else {
        Seq::empty()
    }
}

/// The entries of a note's lines.
pub open spec fn entries_of(lines: Seq<Seq<char>>, date: Seq<char>) -> Seq<EntryView> {
    entries_from(lines, date, 0)
}

/// The first marker is not before the start of the search, it is one where it is in
/// range, and no line before it is.
pub proof fn lemma_first_marker(lines: Seq<Seq<char>>, i: int, m: Marker)
    requires
        0 <= i,
    ensures
        i <= lines.len() ==> i <= first_marker(lines, i, m) <= lines.len(),
        i > lines.len() ==> first_marker(lines, i, m) == lines.len(),
        first_marker(lines, i, m) < lines.len() ==> i <= first_marker(lines, i, m) && is_marker(
            lines[first_marker(lines, i, m)],
            m,
        ),
        forall|j: int|
            i <= j < first_marker(lines, i, m) && j < lines.len() ==> !is_marker(
                #[trigger] lines[j],
                m,
            ),
    decreases lines.len() - i,
{
    if i < lines.len() && !is_marker(lines[i], m) {
        lemma_first_marker(lines, i + 1, m);
    }
}

fn is_open(line: &str) -> (r: bool)
    ensures
        r == is_marker(line@, Marker::Open),
{
    let v: Vec<char> = chars_of(line);
    let t = trim(v.as_slice());
    starts_with(t, "<!-- acta:comment") && !contains(t, "-->")
}

fn is_meta_end(line: &str) -> (r: bool)
    ensures
        r == is_marker(line@, Marker::MetaEnd),
{
    let v: Vec<char> = chars_of(line);
    same_text(trim(v.as_slice()), "-->")
}

fn is_close(line: &str) -> (r: bool)
    ensures
        r == is_marker(line@, Marker::Close),
{
    let v: Vec<char> = chars_of(line);
    same_text(trim(v.as_slice()), "<!-- /acta:comment -->")
}

/// Finds the first marker from line `from` on.
fn find_marker(lines: &Vec<String>, from: usize, m: Marker) -> (r: usize)
    requires
        from <= lines@.len(),
    ensures
        r == first_marker(text::texts(lines@), from as int, m),
        from <= r <= lines@.len(),
{
    let ghost all = text::texts(lines@);
    let mut i: usize = from;
    while i < lines.len()
        invariant
            from <= i <= lines@.len(),
            all == text::texts(lines@),
            first_marker(all, from as int, m) == first_marker(all, i as int, m),
        decreases lines.len() - i,
    {
        assert(all[i as int] == lines@[i as int]@);
        let hit: bool = match m {
            Marker::Open => is_open(lines[i].as_str()),
            Marker::MetaEnd => is_meta_end(lines[i].as_str()),
            Marker::Close => is_close(lines[i].as_str()),
        };
        if hit {
            return i;
        }
        i += 1;
    }
    i
}

/// Reads one entry whose markers have been found.
fn read_entry(lines: &Vec<String>, date: &str, open: usize, mid: usize, close: usize) -> (r: Entry)
    requires
        open < mid < close < lines.len(),
    ensures
        r@ == entry_at(text::texts(lines@), date@, open as int, mid as int, close as int),
{
    let meta: Meta = parse_meta(lines, open + 1, mid);
    let created: String = match meta.get("created") {
        Some(v) => v.to_owned(),
        None => date.to_owned(),
    };
    let created_ms: i64 = match meta.get("created_ms") {
        Some(v) => match parse_i64(v) {
            Some(n) => n,
            None => 0,
        },
        None => 0,
    };
    let id: String = match meta.get("id") {
        Some(v) => v.to_owned(),
        None => {
            let mut s: String = date.to_owned();
            s.push(':');
            number::push_number(&mut s, open as u64);
            assert(s@ == date@ + seq![':'] + number::decimal(open as nat));
            s
        },
    };
    let tags: Vec<String> = match meta.get("tags") {
        Some(v) => parse_tags(v),
        None => Vec::new(),
    };
    let e = Entry { id, created, created_ms, tags, body: mid + 1..close, block: open..close + 1 };
    assert(e@ =~= entry_at(text::texts(lines@), date@, open as int, mid as int, close as int));
    e
}

/// Reads the entries of a note's lines.
pub fn parse_entries(lines: &Vec<String>, date: &str) -> (r: Vec<Entry>)
    ensures
        entry_views(r@) == entries_of(text::texts(lines@), date@),
{
    let ghost all = text::texts(lines@);
    let mut out: Vec<Entry> = Vec::new();
    let mut i: usize = 0;
    assert(entry_views(out@) + entries_from(all, date@, 0) == entries_of(all, date@));
    while i < lines.len()
        invariant
            i <= lines@.len(),
            all == text::texts(lines@),
            entry_views(out@) + entries_from(all, date@, i as int) == entries_of(all, date@),
        ensures
            entry_views(out@) == entries_of(all, date@),
        decreases lines.len() - i,
    {
        let open: usize = find_marker(lines, i, Marker::Open);
        if open >= lines.len() {
            assert(entries_from(all, date@, i as int) == Seq::<EntryView>::empty());
            assert(entry_views(out@) + Seq::<EntryView>::empty() == entry_views(out@));
            break;
        }
        let mid: usize = find_marker(lines, open + 1, Marker::MetaEnd);
        if mid >= lines.len() {
            assert(entries_from(all, date@, i as int) == Seq::<EntryView>::empty());
            assert(entry_views(out@) + Seq::<EntryView>::empty() == entry_views(out@));
            break;
        }
        let close: usize = find_marker(lines, mid + 1, Marker::Close);
        if close >= lines.len() {
            assert(entries_from(all, date@, i as int) == Seq::<EntryView>::empty());
            assert(entry_views(out@) + Seq::<EntryView>::empty() == entry_views(out@));
            break;
        }
        let ghost done = out@;
        let e: Entry = read_entry(lines, date, open, mid, close);
        out.push(e);
        proof {
            let rest = entries_from(all, date@, close + 1);
            assert(entry_views(out@) == entry_views(done).push(e@));
            assert(entry_views(done) + (seq![e@] + rest) == entry_views(done).push(e@) + rest);
        }
        i = close + 1;
        if i >= lines.len() {
            assert(entries_from(all, date@, i as int) == Seq::<EntryView>::empty());
            assert(entry_views(out@) + Seq::<EntryView>::empty() == entry_views(out@));
        }
    }
    out
}

} // verus!
