//! What the lines of a note are read as.

use vstd::prelude::*;

use crate::model::entry;
use crate::model::entry::{EntryView, Marker};
use crate::model::line;
use crate::model::note::NoteView;
use crate::model::status::TaskStatus;
use crate::number;
use crate::text;

verus! {

// ----------------------------------------------------------------------- task lines

/// Whether a character between brackets stands for a state.
pub open spec fn stands_for(c: char, status: TaskStatus) -> bool {
    match status {
        TaskStatus::Backlog => c == ' ',
        TaskStatus::InProgress => c == '-',
        TaskStatus::Done => c == 'x' || c == 'X',
    }
}

/// Whether a line is a task with a state: white space up to position `k`, then a bullet and a
/// check box.
pub open spec fn is_task_at(l: Seq<char>, k: int, status: TaskStatus) -> bool {
    &&& 0 <= k && k + 5 <= l.len()
    &&& forall|i: int| 0 <= i < k ==> text::is_space(#[trigger] l[i])
    &&& l[k] == '-' || l[k] == '*'
    &&& l[k + 1] == ' ' && l[k + 2] == '[' && l[k + 4] == ']'
    &&& stands_for(l[k + 3], status)
}

/// A line is read as a task just where it is white space, a bullet and a check box with a known
/// mark; the mark is its state, and what stands behind, without white space around it, is its
/// title.
pub proof fn law_task_lines(l: Seq<char>, k: int, status: TaskStatus)
    ensures
        is_task_at(l, k, status) ==> line::task_of(l) == Some(
            (status, text::trimmed(l.skip(k + 5))),
        ),
        line::task_of(l) is Some ==> exists|j: int, s: TaskStatus| #[trigger] is_task_at(l, j, s),
{
    line::lemma_indent(l);
    let n = line::indent(l) as int;
    let t = text::trimmed_start(l);
    if is_task_at(l, k, status) {
        line::lemma_indent_unique(l, k as nat);
        assert(t == l.skip(k));
        assert(t[0] == l[k] && t[1] == l[k + 1] && t[2] == l[k + 2] && t[3] == l[k + 3] && t[4]
            == l[k + 4]);
        assert(t.skip(5) =~= l.skip(k + 5));
    }
    if line::task_of(l) is Some {
        let s = (line::task_of(l)->0).0;
        assert(t[0] == l[n] && t[1] == l[n + 1] && t[2] == l[n + 2] && t[3] == l[n + 3] && t[4]
            == l[n + 4]);
        assert(is_task_at(l, n, s));
    }
}

/// A line names a group just where it begins with a bullet and something follows that does not
/// begin with a bracket; the name is what follows, without white space around it.
pub proof fn law_group_lines(l: Seq<char>, name: Seq<char>)
    ensures
        line::group_of(l) == Some(name) <==> {
            &&& l.len() > 2
            &&& l[0] == '-' || l[0] == '*'
            &&& l[1] == ' '
            &&& name == text::trimmed(l.skip(2))
            &&& name.len() > 0
            &&& name[0] != '['
        },
{
    if l.len() == 2 {
        assert(l.skip(2) =~= Seq::<char>::empty());
        assert(text::trimmed(l.skip(2)).len() == 0);
    }
}

/// Whether a mark that is known stands between brackets at position `p`.
pub open spec fn is_mark(l: Seq<char>, p: int) -> bool {
    &&& 0 < p && p + 1 < l.len()
    &&& l[p - 1] == '[' && l[p + 1] == ']'
    &&& l[p] == ' ' || l[p] == '-' || l[p] == 'x' || l[p] == 'X'
}

/// Setting the state of a line sets the first mark in it and nothing else; a line without a
/// mark stays as it is.
pub proof fn law_first_mark_is_set(l: Seq<char>, status: TaskStatus)
    ensures
        ({
            ||| exists|p: int| #[trigger]
                is_mark(l, p) && (forall|q: int| 0 <= q < p ==> !(#[trigger] is_mark(l, q)))
                    && line::with_mark(l, status) == l.update(
                    p,
                    match status {
                        TaskStatus::Backlog => ' ',
                        TaskStatus::InProgress => '-',
                        TaskStatus::Done => 'x',
                    },
                )
            ||| (forall|q: int| !(#[trigger] is_mark(l, q))) && line::with_mark(l, status) == l
        }),
{
    line::lemma_checkbox_from(l, 0);
    match line::checkbox_from(l, 0) {
        Some(i) => {
            assert(is_mark(l, i + 1));
            assert forall|q: int| 0 <= q < i + 1 implies !(#[trigger] is_mark(l, q)) by {
                if q > 0 {
                    assert(!line::checkbox_at(l, q - 1));
                }
            }
        },
        None => {
            assert forall|q: int| !(#[trigger] is_mark(l, q)) by {
                if q > 0 {
                    assert(!line::checkbox_at(l, q - 1));
                }
            }
        },
    }
}

// ------------------------------------------------------------------------------ data

/// Whether a line gives a key a value: the key stands before the first colon, made of ASCII
/// letters, digits and underscores, and the value behind it.
pub open spec fn gives(l: Seq<char>, key: Seq<char>, value: Seq<char>) -> bool {
    exists|c: int|
        {
            &&& 0 <= c < l.len()
            &&& #[trigger] l[c] == ':'
            &&& forall|i: int| 0 <= i < c ==> #[trigger] l[i] != ':'
            &&& key == text::trimmed(l.take(c))
            &&& value == text::trimmed(l.skip(c + 1))
            &&& key.len() > 0
            &&& forall|i: int|
                0 <= i < key.len() ==> {
                    let k = #[trigger] key[i];
                    'a' <= k <= 'z' || 'A' <= k <= 'Z' || '0' <= k <= '9' || k == '_'
                }
        }
}

/// Whether a line gives a key some value.
pub open spec fn gives_some(l: Seq<char>, key: Seq<char>) -> bool {
    exists|value: Seq<char>| #[trigger] gives(l, key, value)
}

/// Whether a value is the one that the last of some lines with a key gives it.
pub open spec fn is_value(lines: Seq<Seq<char>>, key: Seq<char>, value: Seq<char>) -> bool {
    exists|i: int|
        {
            &&& 0 <= i < lines.len()
            &&& gives(#[trigger] lines[i], key, value)
            &&& forall|j: int| i < j < lines.len() ==> !gives_some(#[trigger] lines[j], key)
        }
}

/// Whether none of some lines gives a key a value.
pub open spec fn is_unset(lines: Seq<Seq<char>>, key: Seq<char>) -> bool {
    forall|i: int| 0 <= i < lines.len() ==> !gives_some(#[trigger] lines[i], key)
}

proof fn lemma_meta_line(l: Seq<char>, key: Seq<char>, value: Seq<char>)
    ensures
        gives(l, key, value) == (entry::meta_line(l) == Some((key, value))),
{
    text::lemma_first_index(l, ':');
    let at = text::first_index(l, ':') as int;
    if gives(l, key, value) {
        let c = choose|c: int|
            {
                &&& 0 <= c < l.len()
                &&& #[trigger] l[c] == ':'
                &&& forall|i: int| 0 <= i < c ==> #[trigger] l[i] != ':'
                &&& key == text::trimmed(l.take(c))
                &&& value == text::trimmed(l.skip(c + 1))
                &&& key.len() > 0
                &&& forall|i: int|
                    0 <= i < key.len() ==> {
                        let k = #[trigger] key[i];
                        'a' <= k <= 'z' || 'A' <= k <= 'Z' || '0' <= k <= '9' || k == '_'
                    }
            };
        assert(at == c);
        assert(entry::is_key(key));
    }
    if entry::meta_line(l) == Some((key, value)) {
        assert(l[at] == ':');
        assert forall|i: int| 0 <= i < key.len() implies {
            let k = #[trigger] key[i];
            'a' <= k <= 'z' || 'A' <= k <= 'Z' || '0' <= k <= '9' || k == '_'
        } by {}
    }
}

proof fn lemma_gives_some(l: Seq<char>, key: Seq<char>)
    ensures
        gives_some(l, key) == (entry::meta_line(l) is Some && (entry::meta_line(l)->0).0 == key),
{
    match entry::meta_line(l) {
        Some((k, v)) => {
            lemma_meta_line(l, k, v);
            if gives_some(l, key) {
                let value = choose|value: Seq<char>| #[trigger] gives(l, key, value);
                lemma_meta_line(l, key, value);
            }
        },
        None => {
            if gives_some(l, key) {
                let value = choose|value: Seq<char>| #[trigger] gives(l, key, value);
                lemma_meta_line(l, key, value);
            }
        },
    }
}

/// The data on lines has a key just where a line gives it a value, and the last such line
/// counts.
pub proof fn law_last_value_counts(lines: Seq<Seq<char>>, key: Seq<char>)
    ensures
        ({
            let meta = entry::meta_of(lines);
            if meta.contains_key(key) {
                is_value(lines, key, meta[key])
            } else {
                is_unset(lines, key)
            }
        }),
    decreases lines.len(),
{
    if lines.len() > 0 {
        let head = lines.drop_last();
        let n = lines.len() - 1;
        law_last_value_counts(head, key);
        lemma_gives_some(lines[n], key);
        let before = entry::meta_of(head);
        let meta = entry::meta_of(lines);
        if gives_some(lines[n], key) {
            lemma_meta_line(lines[n], key, (entry::meta_line(lines[n])->0).1);
            assert(is_value(lines, key, meta[key]));
        } else if before.contains_key(key) {
            let i = choose|i: int|
                {
                    &&& 0 <= i < head.len()
                    &&& gives(#[trigger] head[i], key, before[key])
                    &&& forall|j: int| i < j < head.len() ==> !gives_some(#[trigger] head[j], key)
                };
            assert(lines[i] == head[i]);
            assert forall|j: int| i < j < lines.len() implies !gives_some(
                #[trigger] lines[j],
                key,
            ) by {
                if j < n {
                    assert(lines[j] == head[j]);
                }
            }
            assert(is_value(lines, key, meta[key]));
        } else {
            assert forall|j: int| 0 <= j < lines.len() implies !gives_some(
                #[trigger] lines[j],
                key,
            ) by {
                if j < n {
                    assert(lines[j] == head[j]);
                }
            }
        }
    }
}

// --------------------------------------------------------------------------- entries

/// Whether a line opens a block: it begins with the words that do, and no comment ends in it.
pub open spec fn opens(l: Seq<char>) -> bool {
    let t = text::trimmed(l);
    let words = "<!-- acta:comment"@;
    &&& t.len() >= words.len()
    &&& forall|i: int| 0 <= i < words.len() ==> #[trigger] t[i] == words[i]
    &&& forall|i: int|
        0 <= i && i + 2 < t.len() ==> !(#[trigger] t[i] == '-' && t[i + 1] == '-' && t[i + 2]
            == '>')
}

/// Whether a line ends the data of a block.
pub open spec fn ends_data(l: Seq<char>) -> bool {
    text::trimmed(l) == seq!['-', '-', '>']
}

/// Whether a line closes a block.
pub open spec fn closes(l: Seq<char>) -> bool {
    text::trimmed(l) == "<!-- /acta:comment -->"@
}

/// Whether a block from line `from` on opens at line `o`, has its data up to line `m` and
/// closes at line `c`, each being the first that does.
pub open spec fn is_block(lines: Seq<Seq<char>>, from: int, o: int, m: int, c: int) -> bool {
    &&& from <= o < m < c < lines.len()
    &&& opens(lines[o]) && ends_data(lines[m]) && closes(lines[c])
    &&& forall|i: int| from <= i < o ==> !opens(#[trigger] lines[i])
    &&& forall|i: int| o < i < m ==> !ends_data(#[trigger] lines[i])
    &&& forall|i: int| m < i < c ==> !closes(#[trigger] lines[i])
}

/// Whether no block opens from line `from` on, has its data and closes.
pub open spec fn is_no_block(lines: Seq<Seq<char>>, from: int) -> bool {
    forall|o: int, m: int, c: int|
        from <= o < m < c < lines.len() ==> !(opens(#[trigger] lines[o]) && ends_data(
            #[trigger] lines[m],
        ) && closes(#[trigger] lines[c]))
}

/// Whether an entry is what its block from line `from` on says. Its data gives it its name, the
/// time at which it was made and its tags. Without a name it has one made of the day and its
/// line, without a time that of the day.
pub open spec fn is_entry(
    e: EntryView,
    lines: Seq<Seq<char>>,
    day: Seq<char>,
    from: int,
) -> bool {
    let data = lines.subrange(e.block.0 + 1, e.body.0 - 1);
    &&& is_block(lines, from, e.block.0, e.body.0 - 1, e.body.1)
    &&& e.block.1 == e.body.1 + 1
    &&& is_value(data, "id"@, e.id) || (is_unset(data, "id"@) && e.id == day + seq![':']
        + number::decimal(e.block.0 as nat))
    &&& is_value(data, "created"@, e.created) || (is_unset(data, "created"@) && e.created == day)
    &&& (exists|v: Seq<char>| #[trigger] is_value(data, "tags"@, v) && e.tags == entry::tags_of(v))
        || (is_unset(data, "tags"@) && e.tags.len() == 0)
    &&& (exists|v: Seq<char>| #[trigger]
        is_value(data, "created_ms"@, v) && number::parsed_i64(v) == Some(e.created_ms))
        || e.created_ms == 0
    &&& forall|v: Seq<char>| #[trigger]
        is_value(data, "created_ms"@, v) && number::parsed_i64(v) is Some ==> e.created_ms
            == number::parsed_i64(v)->0
}

/// The line that an entry is looked for from: the first, or that behind the entry before it.
pub open spec fn from_of(entries: Seq<EntryView>, k: int, from: int) -> int {
    if k <= 0 {
        from
    } else {
        entries[k - 1].block.1
    }
}

proof fn lemma_markers(l: Seq<char>)
    ensures
        entry::is_marker(l, Marker::Open) == opens(l),
        entry::is_marker(l, Marker::MetaEnd) == ends_data(l),
        entry::is_marker(l, Marker::Close) == closes(l),
{
    let t = text::trimmed(l);
    let words = "<!-- acta:comment"@;
    reveal_strlit("-->");
    assert("-->"@ =~= seq!['-', '-', '>']);
    if text::begins(t, words) {
        assert forall|i: int| 0 <= i < words.len() implies #[trigger] t[i] == words[i] by {
            assert(t.take(words.len() as int)[i] == t[i]);
        }
    }
    if t.len() >= words.len() && (forall|i: int|
        0 <= i < words.len() ==> #[trigger] t[i] == words[i]) {
        assert(t.take(words.len() as int) =~= words);
    }
    if text::has(t, "-->"@) {
        let i = choose|i: int| text::stands_at(t, "-->"@, i);
        let part = t.subrange(i, i + 3);
        assert(part[0] == t[i] && part[1] == t[i + 1] && part[2] == t[i + 2]);
        assert(t[i] == '-' && t[i + 1] == '-' && t[i + 2] == '>');
    } else {
        assert forall|i: int| 0 <= i && i + 2 < t.len() implies !(#[trigger] t[i] == '-' && t[i + 1]
            == '-' && t[i + 2] == '>') by {
            if t[i] == '-' && t[i + 1] == '-' && t[i + 2] == '>' {
                assert(t.subrange(i, i + 3) =~= "-->"@);
                assert(text::stands_at(t, "-->"@, i));
            }
        }
    }
}

proof fn lemma_first(lines: Seq<Seq<char>>, from: int)
    requires
        0 <= from,
    ensures
        ({
            let o = entry::first_marker(lines, from, Marker::Open);
            let m = entry::first_marker(lines, o + 1, Marker::MetaEnd);
            let c = entry::first_marker(lines, m + 1, Marker::Close);
            if from <= o < m < c < lines.len() {
                is_block(lines, from, o, m, c)
            } else {
                is_no_block(lines, from)
            }
        }),
{
    let o = entry::first_marker(lines, from, Marker::Open);
    entry::lemma_first_marker(lines, from, Marker::Open);
    let m = entry::first_marker(lines, o + 1, Marker::MetaEnd);
    entry::lemma_first_marker(lines, o + 1, Marker::MetaEnd);
    let c = entry::first_marker(lines, m + 1, Marker::Close);
    entry::lemma_first_marker(lines, m + 1, Marker::Close);
    assert forall|i: int| from <= i < o && i < lines.len() implies !opens(#[trigger] lines[i]) by {
        lemma_markers(lines[i]);
    }
    assert forall|i: int| o < i < m && i < lines.len() implies !ends_data(
        #[trigger] lines[i],
    ) by {
        lemma_markers(lines[i]);
    }
    assert forall|i: int| m < i < c && i < lines.len() implies !closes(#[trigger] lines[i]) by {
        lemma_markers(lines[i]);
    }
    if from <= o < m < c < lines.len() {
        lemma_markers(lines[o]);
        lemma_markers(lines[m]);
        lemma_markers(lines[c]);
    } else {
        assert forall|x: int, y: int, z: int| from <= x < y < z < lines.len() implies !(opens(
            #[trigger] lines[x],
        ) && ends_data(#[trigger] lines[y]) && closes(#[trigger] lines[z])) by {
            if opens(lines[x]) && ends_data(lines[y]) && closes(lines[z]) {
                assert(o <= x);
                assert(m <= y);
                assert(c <= z);
            }
        }
    }
}

proof fn lemma_entry(lines: Seq<Seq<char>>, day: Seq<char>, from: int, o: int, m: int, c: int)
    requires
        0 <= from,
        is_block(lines, from, o, m, c),
    ensures
        is_entry(entry::entry_at(lines, day, o, m, c), lines, day, from),
{
    let e = entry::entry_at(lines, day, o, m, c);
    let data = lines.subrange(o + 1, m);
    let meta = entry::meta_of(data);
    law_last_value_counts(data, "id"@);
    law_last_value_counts(data, "created"@);
    law_last_value_counts(data, "tags"@);
    law_last_value_counts(data, "created_ms"@);
    if meta.contains_key("tags"@) {
        assert(is_value(data, "tags"@, meta["tags"@]));
    }
    if meta.contains_key("created_ms"@) {
        assert(is_value(data, "created_ms"@, meta["created_ms"@]));
    }
    assert forall|v: Seq<char>| #[trigger]
        is_value(data, "created_ms"@, v) && number::parsed_i64(v) is Some implies e.created_ms
        == number::parsed_i64(v)->0 by {
        lemma_value_unique(data, "created_ms"@, v, meta["created_ms"@]);
    }
}

/// A key has one value.
proof fn lemma_value_unique(lines: Seq<Seq<char>>, key: Seq<char>, a: Seq<char>, b: Seq<char>)
    requires
        is_value(lines, key, a),
    ensures
        is_unset(lines, key) ==> false,
        is_value(lines, key, b) ==> a == b,
{
    let i = choose|i: int|
        {
            &&& 0 <= i < lines.len()
            &&& gives(#[trigger] lines[i], key, a)
            &&& forall|j: int| i < j < lines.len() ==> !gives_some(#[trigger] lines[j], key)
        };
    assert(gives_some(lines[i], key));
    lemma_meta_line(lines[i], key, a);
    if is_value(lines, key, b) {
        let k = choose|k: int|
            {
                &&& 0 <= k < lines.len()
                &&& gives(#[trigger] lines[k], key, b)
                &&& forall|j: int| k < j < lines.len() ==> !gives_some(#[trigger] lines[j], key)
            };
        assert(gives_some(lines[k], key));
        lemma_meta_line(lines[k], key, b);
        assert(i == k);
    }
}

proof fn lemma_entries(lines: Seq<Seq<char>>, day: Seq<char>, from: int)
    requires
        0 <= from,
    ensures
        ({
            let all = entry::entries_from(lines, day, from);
            &&& forall|k: int|
                0 <= k < all.len() ==> is_entry(
                    #[trigger] all[k],
                    lines,
                    day,
                    from_of(all, k, from),
                )
            &&& is_no_block(lines, from_of(all, all.len() as int, from))
        }),
    decreases lines.len() - from,
{
    lemma_first(lines, from);
    let o = entry::first_marker(lines, from, Marker::Open);
    let m = entry::first_marker(lines, o + 1, Marker::MetaEnd);
    let c = entry::first_marker(lines, m + 1, Marker::Close);
    let all = entry::entries_from(lines, day, from);
    if from <= o < m < c < lines.len() {
        lemma_entry(lines, day, from, o, m, c);
        lemma_entries(lines, day, c + 1);
        let rest = entry::entries_from(lines, day, c + 1);
        let one = entry::entry_at(lines, day, o, m, c);
        assert(all == seq![one] + rest);
        assert forall|k: int| 0 <= k < all.len() implies is_entry(
            #[trigger] all[k],
            lines,
            day,
            from_of(all, k, from),
        ) by {
            if k > 0 {
                assert(all[k] == rest[k - 1]);
                assert(from_of(all, k, from) == from_of(rest, k - 1, c + 1)) by {
                    if k > 1 {
                        assert(all[k - 1] == rest[k - 2]);
                    }
                }
            }
        }
        assert(from_of(all, all.len() as int, from) == from_of(rest, rest.len() as int, c + 1)) by {
            if rest.len() > 0 {
                assert(all[all.len() - 1] == rest[rest.len() - 1]);
            }
        }
    }
}

/// The entries of a note are its blocks, one behind the other: each begins at the first opening
/// line behind the one before, its data ends at the first line that ends data, and it closes at
/// the first closing line. Behind the last entry no block is left.
pub proof fn law_entries_are_the_blocks(lines: Seq<Seq<char>>, day: Seq<char>)
    ensures
        ({
            let all = entry::entries_of(lines, day);
            &&& forall|k: int|
                0 <= k < all.len() ==> is_entry(#[trigger] all[k], lines, day, from_of(all, k, 0))
            &&& is_no_block(lines, from_of(all, all.len() as int, 0))
        }),
{
    lemma_entries(lines, day, 0);
}

/// Whether a tag is that of task lists, in capitals or not.
pub open spec fn is_todo_word(tag: Seq<char>) -> bool {
    &&& tag.len() == 4
    &&& tag[0] == 't' || tag[0] == 'T'
    &&& tag[1] == 'o' || tag[1] == 'O'
    &&& tag[2] == 'd' || tag[2] == 'D'
    &&& tag[3] == 'o' || tag[3] == 'O'
}

/// An entry with the tag of task lists, in capitals or not, holds tasks. One without it holds
/// tasks only where the first line of its body is a heading.
pub proof fn law_tag_makes_a_task_list(n: NoteView, e: EntryView)
    ensures
        (exists|i: int| 0 <= i < e.tags.len() && is_todo_word(#[trigger] e.tags[i]))
            ==> n.holds_todo(e),
        n.holds_todo(e) ==> {
            ||| exists|i: int| 0 <= i < e.tags.len() && is_todo_word(#[trigger] e.tags[i])
            ||| {
                let t = text::trimmed_start(n.lines[e.body.0]);
                e.body.0 < e.body.1 && t.len() > 0 && t[0] == '#'
            }
        },
{
    reveal_strlit("ToDo");
    let word = crate::model::note::TODO_TAG@;
    assert(word =~= seq!['T', 'o', 'D', 'o']);
    assert forall|i: int| 0 <= i < e.tags.len() implies is_todo_word(#[trigger] e.tags[i])
        == text::same_but_case(e.tags[i], word) by {
        let tag = e.tags[i];
        if tag.len() == 4 {
            assert(text::ascii_lower(word[0]) == 't');
            assert(text::ascii_lower(word[1]) == 'o');
            assert(text::ascii_lower(word[2]) == 'd');
            assert(text::ascii_lower(word[3]) == 'o');
            if text::same_but_case(tag, word) {
                assert(text::ascii_lower(tag[0]) == 't');
                assert(text::ascii_lower(tag[1]) == 'o');
                assert(text::ascii_lower(tag[2]) == 'd');
                assert(text::ascii_lower(tag[3]) == 'o');
            }
        }
    }
}

} // verus!
