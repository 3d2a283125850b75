//! The lines of a task list: check boxes and group headings.

use vstd::prelude::*;
use vstd::slice::slice_subrange;

use crate::model::status::TaskStatus;
use crate::text;
use crate::text::{chars_of, string_of, trim, trim_start};

verus! {

/// Whether the text begins with a list bullet, `- ` or `* `.
pub open spec fn is_bullet(s: Seq<char>) -> bool {
    s.len() >= 2 && (s[0] == '-' || s[0] == '*') && s[1] == ' '
}

/// Whether a check box with a known mark stands at position `i`.
pub open spec fn checkbox_at(s: Seq<char>, i: int) -> bool {
    0 <= i && i + 2 < s.len() && s[i] == '[' && s[i + 2] == ']' && TaskStatus::of_mark(
        s[i + 1],
    ) is Some
}

/// The state and title of a task line such as `  - [x] title`.
pub open spec fn task_of(line: Seq<char>) -> Option<(TaskStatus, Seq<char>)> {
    let t = text::trimmed_start(line);
    if is_bullet(t) && checkbox_at(t, 2) {
        Some((TaskStatus::of_mark(t[3])->0, text::trimmed(t.skip(5))))
    } else {
        None
    }
}

/// The name on a group line such as `- name`. It is not indented and no check box.
pub open spec fn group_of(line: Seq<char>) -> Option<Seq<char>> {
    let name = text::trimmed(line.skip(2));
    if is_bullet(line) && name.len() > 0 && name[0] != '[' {
        Some(name)
    } else {
        None
    }
}

/// The position of the first check box from `i` on.
pub open spec fn checkbox_from(s: Seq<char>, i: int) -> Option<int>
    decreases s.len() - i,
{
    if i + 2 >= s.len() || i < 0 {
        None
    } else if checkbox_at(s, i) {
        Some(i)
    } else {
        checkbox_from(s, i + 1)
    }
}

/// The position of the mark inside the first check box of a line.
pub open spec fn mark_at(s: Seq<char>) -> Option<int> {
    match checkbox_from(s, 0) {
        Some(i) => Some(i + 1),
        None => None,
    }
}

/// The line with the mark of its first check box set; a line without one is kept.
pub open spec fn with_mark(s: Seq<char>, status: TaskStatus) -> Seq<char> {
    match mark_at(s) {
        Some(p) => s.update(p, status.mark()),
        None => s,
    }
}

/// The first check box is one, and none stands before it.
pub proof fn lemma_checkbox_from(s: Seq<char>, i: int)
    requires
        0 <= i,
    ensures
        match checkbox_from(s, i) {
            Some(k) => i <= k && checkbox_at(s, k) && forall|j: int|
                i <= j < k ==> !checkbox_at(s, j),
            None => forall|j: int| i <= j ==> !checkbox_at(s, j),
        },
    decreases s.len() - i,
{
    if i + 2 < s.len() && !checkbox_at(s, i) {
        lemma_checkbox_from(s, i + 1);
    }
}

/// How many white-space characters stand in front.
pub open spec fn indent(s: Seq<char>) -> nat
    decreases s.len(),
{
    if s.len() > 0 && text::is_space(s[0]) {
        1 + indent(s.skip(1))
    } else {
        0
    }
}

/// Trimming the front drops the indent.
pub proof fn lemma_indent(s: Seq<char>)
    ensures
        indent(s) <= s.len(),
        text::trimmed_start(s) == s.skip(indent(s) as int),
        forall|i: int| 0 <= i < indent(s) ==> text::is_space(#[trigger] s[i]),
        indent(s) < s.len() ==> !text::is_space(s[indent(s) as int]),
    decreases s.len(),
{
    if s.len() > 0 && text::is_space(s[0]) {
        lemma_indent(s.skip(1));
        let k = indent(s.skip(1)) as int;
        assert(s.skip(1).skip(k) == s.skip(k + 1));
        assert forall|i: int| 0 <= i < indent(s) implies text::is_space(#[trigger] s[i]) by {
            if i > 0 {
                assert(s[i] == s.skip(1)[i - 1]);
            }
        }
    } else {
        assert(s.skip(0) == s);
    }
}

/// The indent is where white space stops.
pub proof fn lemma_indent_unique(s: Seq<char>, k: nat)
    requires
        k <= s.len(),
        forall|i: int| 0 <= i < k ==> text::is_space(#[trigger] s[i]),
        k < s.len() ==> !text::is_space(s[k as int]),
    ensures
        indent(s) == k,
{
    lemma_indent(s);
    if indent(s) < k {
        assert(text::is_space(s[indent(s) as int]));
    }
}

/// The first check box of a task line is the one that makes it a task line.
pub proof fn lemma_task_mark(line: Seq<char>)
    requires
        task_of(line) is Some,
    ensures
        mark_at(line) == Some(indent(line) as int + 3),
        indent(line) + 5 <= line.len(),
{
    let k = indent(line) as int;
    lemma_indent(line);
    let t = text::trimmed_start(line);
    assert(t[2] == line[k + 2] && t[3] == line[k + 3] && t[4] == line[k + 4]);
    assert(t[0] == line[k] && t[1] == line[k + 1]);
    assert(checkbox_at(line, k + 2));
    lemma_checkbox_from(line, 0);
    let at = checkbox_from(line, 0)->0;
    if at < k {
        assert(text::is_space(line[at]));
    }
}

/// Setting the mark of a task line changes its state and nothing else about it.
pub proof fn law_mark_sets_status(line: Seq<char>, status: TaskStatus)
    requires
        task_of(line) is Some,
    ensures
        task_of(with_mark(line, status)) == Some((status, (task_of(line)->0).1)),
        with_mark(line, status).len() == line.len(),
        exists|p: int|
            0 <= p < line.len() && with_mark(line, status) == #[trigger] line.update(
                p,
                status.mark(),
            ),
{
    let k = indent(line) as int;
    lemma_indent(line);
    lemma_task_mark(line);
    let new = with_mark(line, status);
    let t = text::trimmed_start(line);
    assert(t[2] == line[k + 2] && t[3] == line[k + 3] && t[4] == line[k + 4]);
    assert(t[0] == line[k] && t[1] == line[k + 1]);
    assert forall|i: int| 0 <= i < k implies text::is_space(#[trigger] new[i]) by {
        assert(new[i] == line[i]);
    }
    lemma_indent_unique(new, k as nat);
    lemma_indent(new);
    assert(text::trimmed_start(new) == new.skip(k));
    assert(new.skip(k).skip(5) == line.skip(k).skip(5));
    let u = text::trimmed_start(new);
    assert(u[0] == t[0] && u[1] == t[1] && u[2] == t[2] && u[4] == t[4]);
    assert(u[3] == status.mark());
}

/// Setting the mark keeps its place.
pub proof fn lemma_mark_kept(line: Seq<char>, a: TaskStatus)
    ensures
        mark_at(with_mark(line, a)) == mark_at(line),
        mark_at(line) matches Some(p) ==> 0 <= p < line.len(),
{
    lemma_checkbox_from(line, 0);
    if mark_at(line) is Some {
        let p = mark_at(line)->0;
        let once = with_mark(line, a);
        assert(checkbox_at(once, p - 1));
        lemma_checkbox_from(once, 0);
        let q = checkbox_from(once, 0)->0;
        if q < p - 1 {
            assert(!checkbox_at(line, q));
            assert(q + 1 != p);
            assert(once[q] == '[' && once[q + 2] == ']');
            assert(line[q + 1] == once[q + 1]);
            assert(checkbox_at(line, q));
        }
    }
}

/// Setting the mark twice leaves the second one.
pub proof fn law_mark_last_wins(line: Seq<char>, a: TaskStatus, b: TaskStatus)
    ensures
        with_mark(with_mark(line, a), b) == with_mark(line, b),
{
    lemma_mark_kept(line, a);
    if mark_at(line) is Some {
        let p = mark_at(line)->0;
        assert(with_mark(line, a).update(p, b.mark()) == line.update(p, b.mark()));
    }
}

/// Splits a task line into state and title. The indent does not matter.
pub fn parse_task_line(line: &str) -> (r: Option<(TaskStatus, String)>)
    ensures
        match r {
            Some((status, title)) => task_of(line@) == Some((status, title@)),
            None => task_of(line@) is None,
        },
{
    let v: Vec<char> = chars_of(line);
    let t = trim_start(v.as_slice());
    if t.len() < 5 {
        return None;
    }
    if !((t[0] == '-' || t[0] == '*') && t[1] == ' ' && t[2] == '[' && t[4] == ']') {
        return None;
    }
    match TaskStatus::from_marker(t[3]) {
        Some(status) => {
            let rest = slice_subrange(t, 5, t.len());
            assert(rest@ == t@.skip(5));
            Some((status, string_of(trim(rest))))
        },
        None => None,
    }
}

/// The name on a group line. Check-box lines are none.
pub fn parse_group_line(line: &str) -> (r: Option<String>)
    ensures
        match r {
            Some(name) => group_of(line@) == Some(name@),
            None => group_of(line@) is None,
        },
{
    let v: Vec<char> = chars_of(line);
    if v.len() < 2 || !((v[0] == '-' || v[0] == '*') && v[1] == ' ') {
        return None;
    }
    let rest = slice_subrange(v.as_slice(), 2, v.len());
    assert(rest@ == line@.skip(2));
    let name = trim(rest);
    if name.len() == 0 || name[0] == '[' {
        return None;
    }
    Some(string_of(name))
}

/// The position of the mark inside the first check box, in characters.
pub fn marker_position(line: &Vec<char>) -> (r: Option<usize>)
    ensures
        match r {
            Some(p) => mark_at(line@) == Some(p as int) && 0 < p < line@.len(),
            None => mark_at(line@) is None,
        },
{
    let mut i: usize = 0;
    while i < line.len() && line.len() - i > 2
        invariant
            i <= line.len(),
            checkbox_from(line@, 0) == checkbox_from(line@, i as int),
        decreases line.len() - i,
    {
        if line[i] == '[' && line[i + 2] == ']' && TaskStatus::from_marker(line[i + 1]).is_some() {
            return Some(i + 1);
        }
        i += 1;
    }
    None
}

/// Sets the mark of the first check box; tells whether there is one.
pub fn set_marker(line: &mut Vec<char>, status: TaskStatus) -> (found: bool)
    ensures
        final(line)@ == with_mark(old(line)@, status),
        found == (mark_at(old(line)@) is Some),
{
    match marker_position(line) {
        Some(p) => {
            line.set(p, status.marker());
            true
        },
        None => false,
    }
}

} // verus!
