//! What bringing a task list up to date does to its lines.

use vstd::prelude::*;

use crate::model::line;
use crate::model::status::TaskStatus;
use crate::model::todo;
use crate::model::todo::{Upsert, WantedView};
use crate::pick;
use crate::text;

verus! {

// ------------------------------------------------------------------------- groups

/// Whether line `s` is the first that names a group.
pub open spec fn is_head(lines: Seq<Seq<char>>, name: Seq<char>, s: int) -> bool {
    &&& 0 <= s < lines.len()
    &&& line::group_of(lines[s]) == Some(name)
    &&& forall|j: int| 0 <= j < s ==> line::group_of(#[trigger] lines[j]) != Some(name)
}

/// Whether a line is blank or indented.
pub open spec fn is_indented(l: Seq<char>) -> bool {
    text::trimmed(l).len() == 0 || text::is_space(l[0])
}

/// Whether line `i` stands below the name of a group: from the name on, all lines up to it are
/// blank or indented.
pub open spec fn is_below(lines: Seq<Seq<char>>, name: Seq<char>, i: int) -> bool {
    exists|s: int| #[trigger]
        is_head(lines, name, s) && s < i < lines.len() && forall|j: int|
            s < j <= i ==> is_indented(#[trigger] lines[j])
}

/// Whether line `i` is a task of a group with one of the titles.
pub open spec fn is_struck(
    lines: Seq<Seq<char>>,
    name: Seq<char>,
    dropped: Seq<Seq<char>>,
    i: int,
) -> bool {
    &&& is_below(lines, name, i)
    &&& line::task_of(lines[i]) is Some
    &&& exists|d: int| 0 <= d < dropped.len() && #[trigger] dropped[d] == (line::task_of(
        lines[i],
    )->0).1
}

/// Whether a group is named in line `s` and ends before line `end`: below its name all lines
/// are blank or indented, the last of them is not blank, and behind it blank lines lead to one
/// that is not indented, or to the end.
pub open spec fn is_group(lines: Seq<Seq<char>>, name: Seq<char>, s: int, end: int) -> bool {
    &&& is_head(lines, name, s)
    &&& s < end <= lines.len()
    &&& forall|j: int| s < j < end ==> is_indented(#[trigger] lines[j])
    &&& s + 1 < end ==> text::trimmed(lines[end - 1]).len() > 0
    &&& is_followed(lines, end)
}

/// Whether blank lines from `end` on lead to one that is not indented, or to the end.
pub open spec fn is_followed(lines: Seq<Seq<char>>, end: int) -> bool {
    ||| forall|j: int| end <= j < lines.len() ==> text::trimmed(#[trigger] lines[j]).len() == 0
    ||| exists|stop: int|
        {
            &&& end <= stop < lines.len()
            &&& !is_indented(#[trigger] lines[stop])
            &&& forall|j: int| end <= j < stop ==> text::trimmed(#[trigger] lines[j]).len() == 0
        }
}

/// Whether line `i` is the first task between two lines that has a title.
pub open spec fn is_row(
    lines: Seq<Seq<char>>,
    s: int,
    end: int,
    title: Seq<char>,
    i: int,
) -> bool {
    &&& s < i < end
    &&& title.len() > 0
    &&& line::task_of(lines[i]) is Some && (line::task_of(lines[i])->0).1 == title
    &&& forall|j: int|
        s < j < i ==> !(line::task_of(#[trigger] lines[j]) is Some && (line::task_of(
            lines[j],
        )->0).1 == title)
}

/// Whether a task line is another one with its state changed: one character is set, and the
/// title is the same.
pub open spec fn is_marked(new: Seq<char>, l: Seq<char>, status: TaskStatus) -> bool {
    &&& line::task_of(l) is Some
    &&& line::task_of(new) == Some((status, (line::task_of(l)->0).1))
    &&& exists|p: int| 0 <= p < l.len() && new == #[trigger] l.update(p, status.mark())
}

/// Whether task `k` is the last of the wanted ones whose row is line `i`.
pub open spec fn is_last_for(
    lines: Seq<Seq<char>>,
    s: int,
    end: int,
    wanted: Seq<WantedView>,
    i: int,
    k: int,
) -> bool {
    &&& 0 <= k < wanted.len()
    &&& is_row(lines, s, end, wanted[k].1, i)
    &&& forall|m: int| k < m < wanted.len() ==> !is_row(lines, s, end, (#[trigger] wanted[m]).1, i)
}

/// Whether a line is line `i` of a group as the wanted tasks leave it: the row of a task has
/// the state of the last such task, and all else is as it was.
pub open spec fn is_left(
    new: Seq<char>,
    lines: Seq<Seq<char>>,
    s: int,
    end: int,
    wanted: Seq<WantedView>,
    i: int,
) -> bool {
    ||| exists|k: int| #[trigger]
        is_last_for(lines, s, end, wanted, i, k) && is_marked(new, lines[i], wanted[k].0)
    ||| {
        &&& forall|k: int|
            0 <= k < wanted.len() ==> !is_row(lines, s, end, (#[trigger] wanted[k]).1, i)
        &&& new == lines[i]
    }
}

/// Whether rows are those of the wanted tasks that are to be added and have none between two
/// lines, in order, each indented by two.
pub open spec fn are_added(
    rows: Seq<Seq<char>>,
    lines: Seq<Seq<char>>,
    s: int,
    end: int,
    wanted: Seq<WantedView>,
) -> bool {
    exists|at: Seq<int>|
        {
            &&& #[trigger] pick::rising(at, wanted.len() as int)
            &&& forall|k: int|
                0 <= k < wanted.len() ==> #[trigger] at.contains(k) == (wanted[k].2 && forall|i: int|
                    !(#[trigger] is_row(lines, s, end, wanted[k].1, i)))
            &&& rows.len() == at.len()
            &&& forall|x: int|
                0 <= x < rows.len() ==> #[trigger] rows[x] == seq![
                    ' ',
                    ' ',
                    '-',
                    ' ',
                    '[',
                    wanted[at[x]].0.mark(),
                    ']',
                    ' ',
                ] + wanted[at[x]].1
        }
}

/// Whether the wanted tasks have different titles.
pub open spec fn are_apart(wanted: Seq<WantedView>) -> bool {
    forall|i: int, j: int|
        0 <= i < j < wanted.len() ==> (#[trigger] wanted[i]).1 != (#[trigger] wanted[j]).1
}

/// The places where two lists of lines differ.
pub open spec fn differing(a: Seq<Seq<char>>, b: Seq<Seq<char>>) -> Set<int> {
    Set::new(|i: int| 0 <= i < a.len() && a[i] != b[i])
}

/// Whether a group that is there is brought up to date: its rows have their states, new rows
/// stand behind its last line that is not blank, and all other lines are as they were.
pub open spec fn is_renewed(
    u: Upsert,
    lines: Seq<Seq<char>>,
    name: Seq<char>,
    wanted: Seq<WantedView>,
    s: int,
    end: int,
) -> bool {
    &&& is_group(lines, name, s, end)
    &&& u.lines.len() == lines.len() + u.added
    &&& forall|i: int|
        0 <= i < end ==> is_left(#[trigger] u.lines[i], lines, s, end, wanted, i)
    &&& forall|i: int| end <= i < lines.len() ==> u.lines[i + u.added] == #[trigger] lines[i]
    &&& are_added(u.lines.subrange(end, end + u.added), lines, s, end, wanted)
    &&& are_apart(wanted) ==> u.updated == differing(lines.take(end), u.lines.take(end)).len()
}

/// Whether a group that is not there is added: behind the last line that is not blank, with a
/// row for each task that is to be added. Where there is none, nothing changes.
pub open spec fn is_founded(
    u: Upsert,
    lines: Seq<Seq<char>>,
    name: Seq<char>,
    wanted: Seq<WantedView>,
    k: int,
) -> bool {
    &&& forall|s: int| !(#[trigger] is_head(lines, name, s))
    &&& 0 <= k <= lines.len()
    &&& k > 0 ==> text::trimmed(lines[k - 1]).len() > 0
    &&& forall|i: int| k <= i < lines.len() ==> text::trimmed(#[trigger] lines[i]).len() == 0
    &&& u.updated == 0
    &&& if u.added == 0 {
        &&& u.lines == lines
        &&& forall|w: int| 0 <= w < wanted.len() ==> !(#[trigger] wanted[w]).2
    } else {
        &&& u.lines.len() == k + 1 + u.added
        &&& u.lines.take(k) == lines.take(k)
        &&& u.lines[k] == seq!['-', ' '] + name
        &&& are_added(u.lines.skip(k + 1), lines, 0, 0, wanted)
    }
}

// ------------------------------------------------------------------------- proofs

proof fn lemma_is_group(lines: Seq<Seq<char>>, name: Seq<char>)
    ensures
        match todo::group_range(lines, name) {
            Some((s, end)) => is_group(lines, name, s, end),
            None => forall|s: int| !(#[trigger] is_head(lines, name, s)),
        },
{
    todo::lemma_group_range(lines, name);
    todo::lemma_group_parts(lines, name);
    match todo::group_range(lines, name) {
        Some((s, end)) => {
            assert(is_head(lines, name, s));
            let stop = todo::inner_end(lines, s + 1);
            assert forall|j: int| s < j < end implies is_indented(#[trigger] lines[j]) by {
                assert(todo::is_inner(lines[j]));
            }
            assert forall|j: int| end <= j < stop implies text::trimmed(#[trigger] lines[j]).len()
                == 0 by {
                assert(text::is_blank(lines[j]));
            }
            if stop < lines.len() {
                assert(!is_indented(lines[stop]));
            }
        },
        None => {},
    }
}

proof fn lemma_head_unique(lines: Seq<Seq<char>>, name: Seq<char>, a: int, b: int)
    requires
        is_head(lines, name, a),
        is_head(lines, name, b),
    ensures
        a == b,
{
    if a < b {
        assert(line::group_of(lines[a]) != Some(name));
    }
    if b < a {
        assert(line::group_of(lines[b]) != Some(name));
    }
}

/// The lines without those of a group that are dropped are all the others.
proof fn lemma_kept(lines: Seq<Seq<char>>, name: Seq<char>, dropped: Seq<Seq<char>>) -> (at: Seq<
    int,
>)
    ensures
        pick::is_picked(todo::without_rows(lines, name, dropped), lines, at),
        forall|i: int|
            0 <= i < lines.len() ==> #[trigger] at.contains(i) == !is_struck(
                lines,
                name,
                dropped,
                i,
            ),
{
    lemma_is_group(lines, name);
    let n = lines.len() as int;
    let keep = |k: int| !is_struck(lines, name, dropped, k);
    pick::lemma_places(n, keep);
    let at = pick::places(n, keep);
    match todo::group_range(lines, name) {
        Some((s, end)) => {
            assert forall|k: int| 0 <= k < n implies #[trigger] keep(k) == !(s < k < end
                && todo::is_dropped(lines[k], dropped)) by {
                lemma_struck(lines, name, dropped, s, end, k);
            }
            let inner = lines.subrange(s + 1, end);
            let grown = |k: int|
                if k <= s + 1 {
                    lines.take(k)
                } else if k <= end {
                    lines.take(s + 1) + todo::kept_lines(inner.take(k - s - 1), dropped)
                } else {
                    lines.take(s + 1) + todo::kept_lines(inner, dropped) + lines.subrange(end, k)
                };
            assert forall|k: int| #![trigger keep(k)] 0 <= k < n implies {
                &&& keep(k) ==> grown(k + 1) == grown(k).push(lines[k])
                &&& !keep(k) ==> grown(k + 1) == grown(k)
            } by {
                if k <= s {
                    assert(lines.take(k + 1) =~= lines.take(k).push(lines[k]));
                } else if k < end {
                    let m = k - s - 1;
                    assert(inner.take(m + 1).drop_last() =~= inner.take(m));
                    assert(inner.take(m + 1).last() == lines[k]);
                    if k == s + 1 {
                        assert(todo::kept_lines(inner.take(0), dropped) =~= Seq::<
                            Seq<char>,
                        >::empty());
                        assert(grown(k) =~= lines.take(s + 1) + todo::kept_lines(
                            inner.take(m),
                            dropped,
                        ));
                    }
                    let now = todo::kept_lines(inner.take(m), dropped);
                    assert(lines.take(s + 1) + now.push(lines[k]) =~= (lines.take(s + 1) + now).push(
                        lines[k],
                    ));
                } else {
                    assert(inner.take(end - s - 1) =~= inner);
                    if end == s + 1 {
                        assert(todo::kept_lines(inner, dropped) =~= Seq::<Seq<char>>::empty());
                    }
                    assert(lines.subrange(end, end) =~= Seq::<Seq<char>>::empty());
                    assert(lines.subrange(end, k + 1) =~= lines.subrange(end, k).push(lines[k]));
                    let front = lines.take(s + 1) + todo::kept_lines(inner, dropped);
                    assert(grown(k) =~= front + lines.subrange(end, k));
                    assert(grown(k + 1) =~= grown(k).push(lines[k]));
                }
            }
            assert(grown(0) =~= Seq::<Seq<char>>::empty());
            pick::lemma_collected(grown, n, keep, |k: int| lines[k]);
            assert(inner.take(end - s - 1) =~= inner);
            if end == s + 1 {
                assert(todo::kept_lines(inner, dropped) =~= Seq::<Seq<char>>::empty());
            }
            assert(lines.skip(end) =~= lines.subrange(end, n));
            assert(grown(n) =~= todo::without_rows(lines, name, dropped));
        },
        None => {
            let grown = |k: int| lines.take(k);
            assert forall|k: int| #![trigger keep(k)] 0 <= k < n implies {
                &&& keep(k) ==> grown(k + 1) == grown(k).push(lines[k])
                &&& !keep(k) ==> grown(k + 1) == grown(k)
            } by {
                if is_struck(lines, name, dropped, k) {
                    let s = choose|s: int| #[trigger]
                        is_head(lines, name, s) && s < k < lines.len() && forall|j: int|
                            s < j <= k ==> is_indented(#[trigger] lines[j]);
                    assert(is_head(lines, name, s));
                }
                assert(lines.take(k + 1) =~= lines.take(k).push(lines[k]));
            }
            assert(grown(0) =~= Seq::<Seq<char>>::empty());
            pick::lemma_collected(grown, n, keep, |k: int| lines[k]);
            assert(lines.take(n) =~= lines);
        },
    }
    at
}

/// A line is a task of a group that is dropped just where it lies in the group and is one.
proof fn lemma_struck(
    lines: Seq<Seq<char>>,
    name: Seq<char>,
    dropped: Seq<Seq<char>>,
    s: int,
    end: int,
    k: int,
)
    requires
        is_group(lines, name, s, end),
        0 <= k < lines.len(),
    ensures
        is_struck(lines, name, dropped, k) == (s < k < end && todo::is_dropped(lines[k], dropped)),
{
    if is_struck(lines, name, dropped, k) {
        let r = choose|r: int| #[trigger]
            is_head(lines, name, r) && r < k < lines.len() && forall|j: int|
                r < j <= k ==> is_indented(#[trigger] lines[j]);
        lemma_head_unique(lines, name, r, s);
        let d = choose|d: int|
            0 <= d < dropped.len() && #[trigger] dropped[d] == (line::task_of(lines[k])->0).1;
        assert(dropped.contains(dropped[d]));
        if k >= end {
            lemma_task_shows(lines[k]);
            if exists|stop: int|
                {
                    &&& end <= stop < lines.len()
                    &&& !is_indented(#[trigger] lines[stop])
                    &&& forall|j: int|
                        end <= j < stop ==> text::trimmed(#[trigger] lines[j]).len() == 0
                } {
                let stop = choose|stop: int|
                    {
                        &&& end <= stop < lines.len()
                        &&& !is_indented(#[trigger] lines[stop])
                        &&& forall|j: int|
                            end <= j < stop ==> text::trimmed(#[trigger] lines[j]).len() == 0
                    };
                if stop <= k {
                    assert(is_indented(lines[stop]));
                }
            }
        }
    }
    if s < k < end && todo::is_dropped(lines[k], dropped) {
        let title = (line::task_of(lines[k])->0).1;
        let d = choose|d: int| 0 <= d < dropped.len() && dropped[d] == title;
        assert(dropped[d] == title);
        assert(is_head(lines, name, s));
        assert(is_below(lines, name, k));
    }
}

/// A task line is not blank.
proof fn lemma_task_shows(l: Seq<char>)
    requires
        line::task_of(l) is Some,
    ensures
        text::trimmed(l).len() > 0,
{
    line::lemma_indent(l);
    text::lemma_trimmed_end_front(text::trimmed_start(l));
}

proof fn lemma_row(lines: Seq<Seq<char>>, s: int, end: int, title: Seq<char>)
    requires
        0 <= s < end <= lines.len(),
    ensures
        match todo::row_of(lines, s, end, title) {
            Some(at) => is_row(lines, s, end, title, at) && forall|i: int| #[trigger]
                is_row(lines, s, end, title, i) ==> i == at,
            None => forall|i: int| !(#[trigger] is_row(lines, s, end, title, i)),
        },
{
    todo::lemma_row_of(lines, s, end, title);
    match todo::row_of(lines, s, end, title) {
        Some(at) => {
            assert forall|j: int| s < j < at implies !(line::task_of(#[trigger] lines[j]) is Some
                && (line::task_of(lines[j])->0).1 == title) by {
                assert(!todo::has_title(lines[j], title));
            }
            assert forall|i: int| #[trigger] is_row(lines, s, end, title, i) implies i == at by {
                if i < at {
                    assert(!todo::has_title(lines[i], title));
                }
                if i > at {
                    assert(!(line::task_of(lines[at]) is Some && (line::task_of(lines[at])->0).1
                        == title));
                }
            }
        },
        None => {
            assert forall|i: int| !(#[trigger] is_row(lines, s, end, title, i)) by {
                if is_row(lines, s, end, title, i) {
                    assert(!todo::has_title(lines[i], title));
                }
            }
        },
    }
}

/// A line has the mark of the last wanted task whose row it is.
proof fn lemma_left(
    lines: Seq<Seq<char>>,
    s: int,
    end: int,
    wanted: Seq<WantedView>,
    i: int,
)
    requires
        0 <= s < end <= lines.len(),
        0 <= i < lines.len(),
    ensures
        todo::marked(lines, s, end, wanted).len() == lines.len(),
        ({
            let new = todo::marked(lines, s, end, wanted)[i];
            ||| exists|k: int| #[trigger]
                is_last_for(lines, s, end, wanted, i, k) && new == line::with_mark(
                    lines[i],
                    wanted[k].0,
                )
            ||| {
                &&& forall|k: int|
                    0 <= k < wanted.len() ==> !is_row(lines, s, end, (#[trigger] wanted[k]).1, i)
                &&& new == lines[i]
            }
        }),
    decreases wanted.len(),
{
    if wanted.len() > 0 {
        let head = wanted.drop_last();
        let w = wanted.last();
        let n = wanted.len() - 1;
        lemma_left(lines, s, end, head, i);
        lemma_row(lines, s, end, w.1);
        let before = todo::marked(lines, s, end, head);
        let new = todo::marked(lines, s, end, wanted)[i];
        assert(wanted[n] == w);
        if is_row(lines, s, end, w.1, i) {
            if exists|k: int| #[trigger]
                is_last_for(lines, s, end, head, i, k) && before[i] == line::with_mark(
                    lines[i],
                    head[k].0,
                ) {
                let k = choose|k: int| #[trigger]
                    is_last_for(lines, s, end, head, i, k) && before[i] == line::with_mark(
                        lines[i],
                        head[k].0,
                    );
                line::law_mark_last_wins(lines[i], head[k].0, w.0);
            }
            assert(is_last_for(lines, s, end, wanted, i, n));
            assert(new == line::with_mark(lines[i], w.0));
        } else {
            assert(new == before[i]);
            if exists|k: int| #[trigger]
                is_last_for(lines, s, end, head, i, k) && before[i] == line::with_mark(
                    lines[i],
                    head[k].0,
                ) {
                let k = choose|k: int| #[trigger]
                    is_last_for(lines, s, end, head, i, k) && before[i] == line::with_mark(
                        lines[i],
                        head[k].0,
                    );
                assert(wanted[k] == head[k]);
                assert forall|m: int| k < m < wanted.len() implies !is_row(
                    lines,
                    s,
                    end,
                    (#[trigger] wanted[m]).1,
                    i,
                ) by {
                    if m < n {
                        assert(wanted[m] == head[m]);
                    }
                }
                assert(is_last_for(lines, s, end, wanted, i, k));
            } else {
                assert forall|k: int| 0 <= k < wanted.len() implies !is_row(
                    lines,
                    s,
                    end,
                    (#[trigger] wanted[k]).1,
                    i,
                ) by {
                    if k < n {
                        assert(wanted[k] == head[k]);
                    }
                }
            }
        }
    }
}

proof fn lemma_is_left(lines: Seq<Seq<char>>, s: int, end: int, wanted: Seq<WantedView>, i: int)
    requires
        0 <= s < end <= lines.len(),
        0 <= i < lines.len(),
    ensures
        todo::marked(lines, s, end, wanted).len() == lines.len(),
        is_left(todo::marked(lines, s, end, wanted)[i], lines, s, end, wanted, i),
        !(s < i < end) ==> todo::marked(lines, s, end, wanted)[i] == lines[i],
{
    lemma_left(lines, s, end, wanted, i);
    let new = todo::marked(lines, s, end, wanted)[i];
    if exists|k: int| #[trigger]
        is_last_for(lines, s, end, wanted, i, k) && new == line::with_mark(
            lines[i],
            wanted[k].0,
        ) {
        let k = choose|k: int| #[trigger]
            is_last_for(lines, s, end, wanted, i, k) && new == line::with_mark(
                lines[i],
                wanted[k].0,
            );
        line::law_mark_sets_status(lines[i], wanted[k].0);
        assert(is_marked(new, lines[i], wanted[k].0));
    }
}

/// The rows that are added are those of the wanted tasks without one.
proof fn lemma_added(lines: Seq<Seq<char>>, s: int, end: int, wanted: Seq<WantedView>)
    requires
        0 <= s < end <= lines.len() || (s == 0 && end == 0),
    ensures
        are_added(todo::new_rows(lines, s, end, wanted), lines, s, end, wanted),
{
    let n = wanted.len() as int;
    let grown = |k: int| todo::new_rows(lines, s, end, wanted.take(k));
    let keep = |k: int|
        wanted[k].2 && forall|i: int| !(#[trigger] is_row(lines, s, end, wanted[k].1, i));
    let item = |k: int| todo::task_line(wanted[k].0, wanted[k].1);
    assert forall|k: int| #![trigger keep(k)] 0 <= k < n implies {
        &&& keep(k) ==> grown(k + 1) == grown(k).push(item(k))
        &&& !keep(k) ==> grown(k + 1) == grown(k)
    } by {
        assert(wanted.take(k + 1).drop_last() =~= wanted.take(k));
        assert(wanted.take(k + 1).last() == wanted[k]);
        if end > s {
            lemma_row(lines, s, end, wanted[k].1);
        }
    }
    pick::lemma_collected(grown, n, keep, item);
    pick::lemma_places(n, keep);
    let at = pick::places(n, keep);
    assert(wanted.take(n) =~= wanted);
    let rows = todo::new_rows(lines, s, end, wanted);
    assert(pick::rising(at, n));
    assert forall|x: int| 0 <= x < rows.len() implies #[trigger] rows[x] == seq![
        ' ',
        ' ',
        '-',
        ' ',
        '[',
        wanted[at[x]].0.mark(),
        ']',
        ' ',
    ] + wanted[at[x]].1 by {
        assert(grown(n)[x] == item(at[x]));
        assert(rows[x] =~= seq![' ', ' ', '-', ' ', '[', wanted[at[x]].0.mark(), ']', ' ']
            + wanted[at[x]].1);
    }
}

/// Where the wanted tasks have different titles, the number of marks that change is that of
/// lines that do.
proof fn lemma_changed(lines: Seq<Seq<char>>, s: int, end: int, wanted: Seq<WantedView>)
    requires
        0 <= s < end <= lines.len(),
        are_apart(wanted),
    ensures
        todo::marked(lines, s, end, wanted).len() == lines.len(),
        differing(lines, todo::marked(lines, s, end, wanted)).finite(),
        differing(lines, todo::marked(lines, s, end, wanted)).len() == todo::marks_changed(
            lines,
            s,
            end,
            wanted,
        ),
    decreases wanted.len(),
{
    let now = todo::marked(lines, s, end, wanted);
    if wanted.len() == 0 {
        assert(differing(lines, now) =~= Set::<int>::empty());
    } else {
        let head = wanted.drop_last();
        let w = wanted.last();
        let n = wanted.len() - 1;
        assert(are_apart(head)) by {
            assert forall|i: int, j: int| 0 <= i < j < head.len() implies (#[trigger] head[i]).1
                != (#[trigger] head[j]).1 by {
                assert(wanted[i].1 != wanted[j].1);
            }
        }
        lemma_changed(lines, s, end, head);
        let before = todo::marked(lines, s, end, head);
        lemma_row(lines, s, end, w.1);
        match todo::row_of(lines, s, end, w.1) {
            Some(at) => {
                lemma_left(lines, s, end, head, at);
                assert(before[at] == lines[at]) by {
                    assert forall|k: int| !(#[trigger] is_last_for(
                        lines,
                        s,
                        end,
                        head,
                        at,
                        k,
                    )) by {
                        if is_last_for(lines, s, end, head, at, k) {
                            assert(wanted[k] == head[k]);
                            assert(wanted[n] == w);
                            assert(wanted[k].1 != wanted[n].1);
                        }
                    }
                }
                if line::with_mark(before[at], w.0) != before[at] {
                    assert(differing(lines, now) =~= differing(lines, before).insert(at));
                } else {
                    assert(now =~= before);
                }
            },
            None => {},
        }
    }
}

proof fn lemma_renewed(base: Seq<Seq<char>>, name: Seq<char>, wanted: Seq<WantedView>, removed: nat)
    requires
        todo::group_range(base, name) is Some,
    ensures
        ({
            let (s, end) = todo::group_range(base, name)->0;
            let rows = todo::new_rows(base, s, end, wanted);
            let done = todo::marked(base, s, end, wanted);
            let u = Upsert {
                lines: done.take(end) + rows + done.skip(end),
                added: rows.len(),
                updated: todo::marks_changed(base, s, end, wanted),
                removed,
            };
            is_renewed(u, base, name, wanted, s, end)
        }),
{
    let (s, end) = todo::group_range(base, name)->0;
    let rows = todo::new_rows(base, s, end, wanted);
    let done = todo::marked(base, s, end, wanted);
    let all = done.take(end) + rows + done.skip(end);
    let n = rows.len() as int;
    lemma_is_group(base, name);
    lemma_is_left(base, s, end, wanted, s);
    assert forall|i: int| 0 <= i < end implies is_left(
        #[trigger] all[i],
        base,
        s,
        end,
        wanted,
        i,
    ) by {
        lemma_is_left(base, s, end, wanted, i);
        assert(all[i] == done[i]);
    }
    assert forall|i: int| end <= i < base.len() implies all[i + n] == #[trigger] base[i] by {
        lemma_is_left(base, s, end, wanted, i);
        assert(all[i + n] == done[i]);
    }
    lemma_added(base, s, end, wanted);
    assert(all.subrange(end, end + n) =~= rows);
    if are_apart(wanted) {
        lemma_changed(base, s, end, wanted);
        assert(differing(base, done) =~= differing(base.take(end), all.take(end))) by {
            assert forall|i: int| #[trigger] differing(base, done).contains(i) == differing(
                base.take(end),
                all.take(end),
            ).contains(i) by {
                if 0 <= i < base.len() {
                    lemma_is_left(base, s, end, wanted, i);
                }
                if 0 <= i < end {
                    assert(all.take(end)[i] == done[i]);
                }
            }
        }
    }
}

proof fn lemma_founded(base: Seq<Seq<char>>, name: Seq<char>, wanted: Seq<WantedView>, removed: nat)
    requires
        todo::group_range(base, name) is None,
    ensures
        ({
            let rows = todo::new_rows(base, 0, 0, wanted);
            let k = todo::solid_end(base, 0, base.len() as int);
            let u = Upsert {
                lines: if rows.len() == 0 {
                    base
                } else {
                    base.take(k).push(todo::group_line(name)) + rows
                },
                added: rows.len(),
                updated: 0,
                removed,
            };
            is_founded(u, base, name, wanted, k)
        }),
{
    let rows = todo::new_rows(base, 0, 0, wanted);
    let k = todo::solid_end(base, 0, base.len() as int);
    lemma_is_group(base, name);
    todo::lemma_solid_end(base, 0, base.len() as int);
    assert forall|i: int| k <= i < base.len() implies text::trimmed(#[trigger] base[i]).len()
        == 0 by {
        assert(text::is_blank(base[i]));
    }
    lemma_added(base, 0, 0, wanted);
    if rows.len() == 0 {
        let at = choose|at: Seq<int>|
            {
                &&& #[trigger] pick::rising(at, wanted.len() as int)
                &&& forall|w: int|
                    0 <= w < wanted.len() ==> #[trigger] at.contains(w) == (wanted[w].2
                        && forall|i: int| !(#[trigger] is_row(base, 0, 0, wanted[w].1, i)))
                &&& rows.len() == at.len()
            };
        assert forall|w: int| 0 <= w < wanted.len() implies !(#[trigger] wanted[w]).2 by {
            assert(!at.contains(w));
        }
    } else {
        let all = base.take(k).push(todo::group_line(name)) + rows;
        assert(all.skip(k + 1) =~= rows);
        assert(all.take(k) =~= base.take(k));
    }
}

// --------------------------------------------------------------------------- laws

/// Bringing a group up to date first removes the tasks of the group whose titles are dropped,
/// and nothing else: all other lines, in the group and outside, are kept in their order. Of
/// these lines the rows of wanted tasks get their states, and rows that are missing are added;
/// all other lines stay as they are. The numbers say how many lines were removed, added and
/// changed.
pub proof fn law_upsert_keeps_what_is_not_dropped(
    lines: Seq<Seq<char>>,
    name: Seq<char>,
    wanted: Seq<WantedView>,
    dropped: Seq<Seq<char>>,
)
    ensures
        exists|kept: Seq<Seq<char>>, at: Seq<int>|
            {
                let u = todo::upserted(lines, name, wanted, dropped);
                &&& #[trigger] pick::is_picked(kept, lines, at)
                &&& forall|i: int|
                    0 <= i < lines.len() ==> #[trigger] at.contains(i) == !is_struck(
                        lines,
                        name,
                        dropped,
                        i,
                    )
                &&& u.removed == lines.len() - at.len()
                &&& {
                    ||| exists|s: int, end: int| #[trigger]
                        is_renewed(u, kept, name, wanted, s, end)
                    ||| exists|k: int| #[trigger] is_founded(u, kept, name, wanted, k)
                }
            },
{
    let u = todo::upserted(lines, name, wanted, dropped);
    let kept = todo::without_rows(lines, name, dropped);
    let at = lemma_kept(lines, name, dropped);
    pick::lemma_rising_len(at, lines.len() as int);
    match todo::group_range(kept, name) {
        Some((s, end)) => {
            lemma_renewed(kept, name, wanted, u.removed);
            assert(is_renewed(u, kept, name, wanted, s, end));
        },
        None => {
            let k = todo::solid_end(kept, 0, kept.len() as int);
            lemma_founded(kept, name, wanted, u.removed);
            assert(is_founded(u, kept, name, wanted, k));
        },
    }
    assert(pick::is_picked(kept, lines, at));
}

/// A task of a group whose title is dropped is gone, and so is nothing else: where nothing is
/// wanted, what is left of the lines is what is not dropped.
pub proof fn law_upsert_removes_what_is_dropped(
    lines: Seq<Seq<char>>,
    name: Seq<char>,
    dropped: Seq<Seq<char>>,
)
    ensures
        exists|at: Seq<int>|
            {
                &&& #[trigger] pick::is_picked(
                    todo::upserted(lines, name, Seq::empty(), dropped).lines,
                    lines,
                    at,
                )
                &&& forall|i: int|
                    0 <= i < lines.len() ==> #[trigger] at.contains(i) == !is_struck(
                        lines,
                        name,
                        dropped,
                        i,
                    )
            },
{
    let kept = todo::without_rows(lines, name, dropped);
    let u = todo::upserted(lines, name, Seq::empty(), dropped);
    let at = lemma_kept(lines, name, dropped);
    match todo::group_range(kept, name) {
        Some((s, end)) => {
            todo::lemma_group_range(kept, name);
            assert(u.lines =~= kept);
        },
        None => {},
    }
    assert(pick::is_picked(u.lines, lines, at));
}

} // verus!
