//! What is handed to the editor, and what its result stands for.

use vstd::prelude::*;
use vstd::slice::slice_subrange;

use crate::config;
use crate::model::block;
use crate::model::entry;
use crate::model::entry::parse_tags;
use crate::text;
use crate::text::{
    blank, chars_of, find_char, join, same_string, split_words, starts_with, string_of, trim_start,
};

verus! {

/// What is being edited.
#[derive(Debug, Clone, Copy, PartialEq, Eq, Structural)]
pub enum EditTarget {
    /// The tags and the body of an entry.
    EntryBody { note_idx: usize, entry_idx: usize },
    /// A new entry of today's note.
    NewEntry,
    /// The name of a new project.
    NewProject,
    /// The tasks of a project.
    ProjectTasks { project_idx: usize },
}

/// A request to open the editor.
#[derive(Debug)]
pub struct EditRequest {
    pub target: EditTarget,
    /// What the editor shows at first.
    pub initial: String,
}

/// What a request holds.
#[verifier::ext_equal]
pub struct RequestView {
    pub target: EditTarget,
    pub initial: Seq<char>,
}

impl View for EditRequest {
    type V = RequestView;

    open spec fn view(&self) -> RequestView {
        RequestView { target: self.target, initial: self.initial@ }
    }
}

// ---------------------------------------------------------------------- command

/// No editor is set.
#[derive(Debug, Clone, Copy)]
pub struct NoEditor;

impl NoEditor {
    /// What is to be done, in words.
    pub fn message(&self) -> (r: &'static str)
        ensures
            r@ == "エディタが設定されていません。EDITOR か VISUAL を設定してください（例: export EDITOR=nvim）"@,
    {
        "エディタが設定されていません。EDITOR か VISUAL を設定してください（例: export EDITOR=nvim）"
    }
}

/// The words of a setting; none where it is not set.
pub open spec fn setting_words(s: Option<Seq<char>>) -> Seq<Seq<char>> {
    match s {
        Some(t) => text::words(t),
        None => Seq::empty(),
    }
}

/// The words of a setting.
fn words_of(s: Option<&str>) -> (r: Vec<String>)
    ensures
        text::texts(r@) == setting_words(config::opt_ref(s)),
{
    match s {
        Some(t) => {
            let v: Vec<char> = chars_of(t);
            split_words(v.as_slice())
        },
        None => {
            let none: Vec<String> = Vec::new();
            assert(text::texts(none@) == Seq::<Seq<char>>::empty());
            none
        },
    }
}

/// The command that starts the editor, with its arguments: the first setting that is not
/// blank.
pub fn parse_editor(visual: Option<&str>, editor: Option<&str>) -> (r: Result<
    Vec<String>,
    NoEditor,
>)
    ensures
        ({
            let a = setting_words(config::opt_ref(visual));
            let b = setting_words(config::opt_ref(editor));
            match r {
                Ok(parts) => text::texts(parts@) == (if a.len() > 0 {
                    a
                } else {
                    b
                }) && parts@.len() > 0,
                Err(_) => a.len() == 0 && b.len() == 0,
            }
        }),
{
    let first: Vec<String> = words_of(visual);
    assert(first@.len() == text::texts(first@).len());
    if first.len() > 0 {
        return Ok(first);
    }
    let second: Vec<String> = words_of(editor);
    assert(second@.len() == text::texts(second@).len());
    if second.len() > 0 {
        Ok(second)
    } else {
        Err(NoEditor)
    }
}

/// The result of editing: nothing where the text did not change.
pub fn changed(initial: &str, edited: String) -> (r: Option<String>)
    ensures
        config::opt(r) == if edited@ == initial@ {
            None
        } else {
            Some(edited@)
        },
{
    if same_string(edited.as_str(), initial) {
        None
    } else {
        Some(edited)
    }
}

// ------------------------------------------------------------------- tags and body

/// The text that is edited of an entry: its tags on the first line, a blank line, its body.
pub open spec fn composed(tags: Seq<Seq<char>>, body: Seq<char>) -> Seq<char> {
    "tags: "@ + text::joined(tags, ", "@) + seq!['\n', '\n'] + body
}

/// Puts the tags and the body of an entry together for the editor.
pub fn compose(tags: &[String], body: &str) -> (r: String)
    ensures
        r@ == composed(text::texts(tags@), body@),
{
    let mut s: String = "tags: ".to_owned();
    s.append(join(tags, ", ").as_str());
    s.push('\n');
    s.push('\n');
    s.append(body);
    assert(s@ == composed(text::texts(tags@), body@));
    s
}

/// The first line of a text.
pub open spec fn first_line(s: Seq<char>) -> Seq<char> {
    s.take(text::first_index(s, '\n') as int)
}

/// What follows the first line of a text.
pub open spec fn below_first(s: Seq<char>) -> Seq<char> {
    let at = text::first_index(s, '\n') as int;
    if at < s.len() {
        s.skip(at + 1)
    } else {
        Seq::empty()
    }
}

/// The text without a blank line in front.
pub open spec fn without_blank_line(s: Seq<char>) -> Seq<char> {
    if text::is_blank(first_line(s)) {
        below_first(s)
    } else {
        s
    }
}

/// The tags and the body that an edited text stands for. Without a tag line in front there
/// are no tags and all of the text is the body; a blank line behind it belongs to neither.
pub open spec fn decomposed(s: Seq<char>) -> (Seq<Seq<char>>, Seq<char>) {
    let first = text::trimmed_start(first_line(s));
    if text::begins(first, "tags:"@) {
        (entry::tags_of(first.skip(5)), without_blank_line(below_first(s)))
    } else {
        (Seq::empty(), s)
    }
}

/// The part of a text up to the first newline, and what follows it.
fn cut_line(s: &[char]) -> (r: (&[char], &[char]))
    ensures
        r.0@ == first_line(s@),
        r.1@ == below_first(s@),
{
    proof {
        text::lemma_first_index(s@, '\n');
    }
    match find_char(s, '\n') {
        Some(at) => {
            let count: usize = s.len();
            assert(at < count);
            let head = slice_subrange(s, 0, at);
            let tail = slice_subrange(s, at + 1, count);
            assert(head@ == s@.take(at as int));
            assert(tail@ == s@.skip(at + 1));
            (head, tail)
        },
        None => {
            let count: usize = s.len();
            let head = slice_subrange(s, 0, count);
            let tail = slice_subrange(s, count, count);
            assert(head@ == s@);
            assert(s@.take(s@.len() as int) == s@);
            assert(tail@ == Seq::<char>::empty());
            (head, tail)
        },
    }
}

/// Takes the tags and the body of an entry out of an edited text.
pub fn decompose(edited: &str) -> (r: (Vec<String>, String))
    ensures
        (text::texts(r.0@), r.1@) == decomposed(edited@),
{
    let v: Vec<char> = chars_of(edited);
    let (line, rest) = cut_line(v.as_slice());
    let first = trim_start(line);
    proof {
        reveal_strlit("tags:");
        assert("tags:"@.len() == 5);
    }
    if starts_with(first, "tags:") {
        let count: usize = first.len();
        let raw: String = string_of(slice_subrange(first, 5, count));
        assert(raw@ == first@.skip(5));
        let (second, below) = cut_line(rest);
        let body: String = if blank(string_of(second).as_str()) {
            string_of(below)
        } else {
            string_of(rest)
        };
        (parse_tags(raw.as_str()), body)
    } else {
        let none: Vec<String> = Vec::new();
        assert(text::texts(none@) == Seq::<Seq<char>>::empty());
        (none, edited.to_owned())
    }
}

/// Tags in their plain form and a body come back out of the text that was put together of
/// them.
pub proof fn law_decompose_undoes_compose(tags: Seq<Seq<char>>, body: Seq<char>)
    requires
        block::are_tags(tags),
    ensures
        decomposed(composed(tags, body)) == (tags, body),
{
    let line = text::joined(tags, ", "@);
    let s = composed(tags, body);
    reveal_strlit("tags: ");
    reveal_strlit("tags:");
    reveal_strlit(", ");
    assert("tags: "@ == "tags:"@ + seq![' ']);
    block::law_tags_read_back(tags);
    assert forall|i: int| 0 <= i < tags.len() implies !(#[trigger] tags[i]).contains('\n') by {
        assert(block::is_tag(tags[i]));
    }
    text::lemma_joined_lacks(tags, ", "@, '\n');
    let head = "tags: "@ + line;
    text::lemma_concat_lacks("tags: "@, line, '\n');
    let k = head.len() as int;
    assert(s == head + seq!['\n', '\n'] + body);
    assert forall|i: int| 0 <= i < k implies #[trigger] s[i] != '\n' by {
        assert(s[i] == head[i]);
        assert(head.contains(head[i]));
    }
    assert(s[k] == '\n');
    text::lemma_first_index_unique(s, '\n', k);
    assert(s.take(k) == head);
    assert(head[0] == 't');
    assert(text::trimmed_start(head) == head);
    assert(head.take(5) == "tags:"@);
    assert(head.skip(5) == seq![' '] + line);
    lemma_tags_of_space(line);
    let rest = s.skip(k + 1);
    assert(rest == seq!['\n'] + body);
    text::lemma_first_index_unique(rest, '\n', 0);
    assert(rest.take(0) == Seq::<char>::empty());
    assert(text::is_blank(Seq::<char>::empty()));
    assert(rest.skip(1) == body);
}

/// A space in front makes no difference to the tags on a line.
proof fn lemma_tags_of_space(line: Seq<char>)
    ensures
        entry::tags_of(seq![' '] + line) == entry::tags_of(line),
{
    let a = line.map_values(|c: char| entry::plain_comma(c));
    let b = (seq![' '] + line).map_values(|c: char| entry::plain_comma(c));
    assert(b =~= seq![' '] + a);
    lemma_split_space(a);
    lemma_list_space(text::split_on(a, ','));
}

proof fn lemma_split_space(a: Seq<char>)
    ensures
        ({
            let p = text::split_on(a, ',');
            text::split_on(seq![' '] + a, ',') == p.update(0, seq![' '] + p[0])
        }),
    decreases a.len(),
{
    let s = seq![' '] + a;
    let p = text::split_on(a, ',');
    text::lemma_split_pieces(a, ',');
    if a.len() == 0 {
        assert(s == seq![' ']);
        assert(!s.contains(','));
        text::lemma_split_whole(s, ',');
        assert(seq![' '] + p[0] == s);
    } else {
        let h = a.drop_last();
        lemma_split_space(h);
        text::lemma_split_pieces(h, ',');
        assert(s.drop_last() == seq![' '] + h);
        assert(s.last() == a.last());
        let q = text::split_on(h, ',');
        if a.last() != ',' && q.len() == 1 {
            assert((seq![' '] + q[0]).push(a.last()) == seq![' '] + q[0].push(a.last()));
        }
        assert(text::split_on(s, ',') =~= p.update(0, seq![' '] + p[0]));
    }
}

proof fn lemma_list_space(p: Seq<Seq<char>>)
    requires
        p.len() > 0,
    ensures
        entry::tag_list(p.update(0, seq![' '] + p[0])) == entry::tag_list(p),
    decreases p.len(),
{
    let q = p.update(0, seq![' '] + p[0]);
    text::lemma_trimmed_space(p[0]);
    if p.len() == 1 {
        assert(q.drop_last() == p.drop_last());
    } else {
        let h = p.drop_last();
        lemma_list_space(h);
        assert(q.drop_last() == h.update(0, seq![' '] + h[0]));
        assert(q.last() == p.last());
    }
}

/// A text whose first line does not begin with the word that tags stand behind is all body, and
/// has no tags. Else the tags are what follows the word on that line, and the body is what
/// stands below; one blank line between them belongs to neither.
pub proof fn law_first_line_holds_the_tags(first: Seq<char>, rest: Seq<char>, gap: Seq<char>)
    requires
        !first.contains('\n'),
        !gap.contains('\n'),
    ensures
        ({
            let t = text::trimmed_start(first);
            let tagged = t.len() >= 5 && t[0] == 't' && t[1] == 'a' && t[2] == 'g' && t[3] == 's'
                && t[4] == ':';
            let whole = first + seq!['\n'] + gap + seq!['\n'] + rest;
            &&& !tagged ==> decomposed(whole) == (Seq::<Seq<char>>::empty(), whole) && decomposed(
                first,
            ) == (Seq::<Seq<char>>::empty(), first)
            &&& tagged ==> decomposed(whole).0 == entry::tags_of(t.skip(5))
            &&& tagged && text::trimmed(gap).len() == 0 ==> decomposed(whole).1 == rest
            &&& tagged && text::trimmed(gap).len() > 0 ==> decomposed(whole).1 == gap + seq!['\n']
                + rest
            &&& tagged ==> decomposed(first).0 == entry::tags_of(t.skip(5)) && decomposed(
                first,
            ).1.len() == 0
        }),
{
    let t = text::trimmed_start(first);
    let below = gap + seq!['\n'] + rest;
    let whole = first + seq!['\n'] + gap + seq!['\n'] + rest;
    assert(whole =~= first + seq!['\n'] + below);
    lemma_first_line(first, below);
    lemma_first_line(gap, rest);
    text::lemma_first_index(first, '\n');
    if text::first_index(first, '\n') < first.len() {
        assert(first.contains(first[text::first_index(first, '\n') as int]));
    }
    assert(first_line(first) =~= first);
    reveal_strlit("tags:");
    if t.len() >= 5 {
        assert(t.take(5)[0] == t[0] && t.take(5)[1] == t[1] && t.take(5)[2] == t[2] && t.take(5)[3]
            == t[3] && t.take(5)[4] == t[4]);
        if t[0] == 't' && t[1] == 'a' && t[2] == 'g' && t[3] == 's' && t[4] == ':' {
            assert(t.take(5) =~= "tags:"@);
        }
    }
    let none = Seq::<char>::empty();
    assert(below_first(first) == none);
    text::lemma_first_index(none, '\n');
    assert(below_first(none) =~= none);
}

/// The first line of a text ends at the first newline.
proof fn lemma_first_line(l: Seq<char>, rest: Seq<char>)
    requires
        !l.contains('\n'),
    ensures
        first_line(l + seq!['\n'] + rest) == l,
        below_first(l + seq!['\n'] + rest) == rest,
{
    let s = l + seq!['\n'] + rest;
    let k = l.len() as int;
    assert(s[k] == '\n');
    assert forall|i: int| 0 <= i < k implies #[trigger] s[i] != '\n' by {
        assert(s[i] == l[i]);
        assert(l.contains(l[i]));
    }
    text::lemma_first_index_unique(s, '\n', k);
    assert(s.take(k) =~= l);
    assert(s.skip(k + 1) =~= rest);
}

} // verus!
