//! What bringing a task list up to date changes, and that doing it again changes nothing.

use vstd::prelude::*;

use crate::calendar::CalendarDate;
use crate::model::line;
use crate::model::note::{NoteView, RowView};
use crate::model::project;
use crate::model::project::TaskView;
use crate::model::status::TaskStatus;
use crate::model::todo;
use crate::model::todo::WantedView;
use crate::text;

verus! {

/// Whether a text can be the name of a group.
pub open spec fn is_group_name(name: Seq<char>) -> bool {
    name.len() > 0 && text::trimmed(name) == name && name[0] != '['
}

/// Whether the titles of wanted tasks can be told apart and read back.
pub open spec fn are_wanted(wanted: Seq<WantedView>) -> bool {
    &&& forall|i: int| 0 <= i < wanted.len() ==> project::is_title(#[trigger] wanted[i].1)
    &&& forall|i: int, j: int|
        0 <= i < j < wanted.len() ==> (#[trigger] wanted[i]).1 != (#[trigger] wanted[j]).1
}

/// Whether the mark of line `i` was set for one of the wanted tasks.
pub open spec fn marked_for(
    base: Seq<Seq<char>>,
    start: int,
    end: int,
    wanted: Seq<WantedView>,
    i: int,
    k: int,
) -> bool {
    &&& 0 <= k < wanted.len()
    &&& todo::row_of(base, start, end, wanted[k].1) == Some(i)
    &&& todo::marked(base, start, end, wanted)[i] == line::with_mark(base[i], wanted[k].0)
}

/// A line keeps its text unless it is the row of a wanted task, whose mark it then gets.
proof fn lemma_marked_row(
    base: Seq<Seq<char>>,
    start: int,
    end: int,
    wanted: Seq<WantedView>,
    i: int,
)
    requires
        0 <= start < end <= base.len(),
        0 <= i < base.len(),
    ensures
        todo::marked(base, start, end, wanted).len() == base.len(),
        ({
            ||| exists|k: int| #[trigger] marked_for(base, start, end, wanted, i, k)
            ||| {
                &&& todo::marked(base, start, end, wanted)[i] == base[i]
                &&& forall|k: int|
                    0 <= k < wanted.len() ==> todo::row_of(
                        base,
                        start,
                        end,
                        (#[trigger] wanted[k]).1,
                    ) != Some(i)
            }
        }),
    decreases wanted.len(),
{
    if wanted.len() > 0 {
        let head = wanted.drop_last();
        let w = wanted.last();
        lemma_marked_row(base, start, end, head, i);
        todo::lemma_row_of(base, start, end, w.1);
        let before = todo::marked(base, start, end, head);
        let n = wanted.len() - 1;
        if todo::row_of(base, start, end, w.1) == Some(i) {
            if before[i] != base[i] {
                let k = choose|k: int| #[trigger] marked_for(base, start, end, head, i, k);
                line::law_mark_last_wins(base[i], head[k].0, w.0);
            }
            assert(wanted[n] == w);
            assert(marked_for(base, start, end, wanted, i, n));
        } else {
            assert(todo::marked(base, start, end, wanted)[i] == before[i]);
            if exists|k: int| #[trigger] marked_for(base, start, end, head, i, k) {
                let k = choose|k: int| #[trigger] marked_for(base, start, end, head, i, k);
                assert(wanted[k] == head[k]);
                assert(marked_for(base, start, end, wanted, i, k));
            } else {
                assert forall|k: int| 0 <= k < wanted.len() implies todo::row_of(
                    base,
                    start,
                    end,
                    (#[trigger] wanted[k]).1,
                ) != Some(i) by {
                    if k < n {
                        assert(wanted[k] == head[k]);
                    }
                }
            }
        }
    }
}

/// Setting marks leaves what matters about a line besides the mark.
proof fn lemma_marked_line(
    base: Seq<Seq<char>>,
    start: int,
    end: int,
    wanted: Seq<WantedView>,
    i: int,
    title: Seq<char>,
)
    requires
        0 <= start < end <= base.len(),
        0 <= i < base.len(),
        forall|j: int| start < j < end ==> todo::is_inner(#[trigger] base[j]),
    ensures
        ({
            let l = todo::marked(base, start, end, wanted)[i];
            &&& todo::has_title(l, title) == todo::has_title(base[i], title)
            &&& start < i < end ==> todo::is_inner(l)
            &&& text::is_blank(l) == text::is_blank(base[i])
            &&& !(start < i < end) ==> l == base[i]
        }),
{
    lemma_marked_row(base, start, end, wanted, i);
    let l = todo::marked(base, start, end, wanted)[i];
    if exists|k: int| #[trigger] marked_for(base, start, end, wanted, i, k) {
        let k = choose|k: int| #[trigger] marked_for(base, start, end, wanted, i, k);
        todo::lemma_row_of(base, start, end, wanted[k].1);
        line::law_mark_sets_status(base[i], wanted[k].0);
        lemma_task_is_solid(base[i]);
        lemma_task_is_solid(l);
        line::lemma_task_mark(base[i]);
        assert(todo::is_inner(base[i]));
        assert(l[0] == base[i][0]);
    }
}

/// A task line is not blank.
proof fn lemma_task_is_solid(l: Seq<char>)
    requires
        line::task_of(l) is Some,
    ensures
        !text::is_blank(l),
        l.len() > 0,
{
    line::lemma_indent(l);
    let t = text::trimmed_start(l);
    text::lemma_trimmed_end_front(t);
}

/// Whether a row is added for a wanted task.
pub open spec fn is_new(base: Seq<Seq<char>>, start: int, end: int, w: WantedView) -> bool {
    w.2 && todo::row_of(base, start, end, w.1) is None
}

/// The rows that are added are those of the wanted tasks that are new.
proof fn lemma_new_rows(
    base: Seq<Seq<char>>,
    start: int,
    end: int,
    wanted: Seq<WantedView>,
)
    ensures
        forall|j: int|
            0 <= j < todo::new_rows(base, start, end, wanted).len() ==> exists|k: int|
                0 <= k < wanted.len() && is_new(base, start, end, #[trigger] wanted[k])
                    && #[trigger] todo::new_rows(base, start, end, wanted)[j] == todo::task_line(
                    wanted[k].0,
                    wanted[k].1,
                ),
        forall|k: int|
            0 <= k < wanted.len() && is_new(base, start, end, #[trigger] wanted[k])
                ==> todo::new_rows(base, start, end, wanted).contains(
                todo::task_line(wanted[k].0, wanted[k].1),
            ),
    decreases wanted.len(),
{
    if wanted.len() > 0 {
        let head = wanted.drop_last();
        let w = wanted.last();
        let n = wanted.len() - 1;
        lemma_new_rows(base, start, end, head);
        let before = todo::new_rows(base, start, end, head);
        let rows = todo::new_rows(base, start, end, wanted);
        assert forall|j: int| 0 <= j < rows.len() implies exists|k: int|
            0 <= k < wanted.len() && is_new(base, start, end, #[trigger] wanted[k])
                && #[trigger] rows[j] == todo::task_line(wanted[k].0, wanted[k].1) by {
            if j < before.len() {
                assert(rows[j] == before[j]);
                let k = choose|k: int|
                    0 <= k < head.len() && is_new(base, start, end, #[trigger] head[k])
                        && before[j] == todo::task_line(head[k].0, head[k].1);
                assert(wanted[k] == head[k]);
            } else {
                assert(wanted[n] == w);
            }
        }
        assert forall|k: int|
            0 <= k < wanted.len() && is_new(base, start, end, #[trigger] wanted[k]) implies rows.contains(
        todo::task_line(wanted[k].0, wanted[k].1)) by {
            if k < n {
                assert(wanted[k] == head[k]);
                let row = todo::task_line(head[k].0, head[k].1);
                let j = choose|j: int| 0 <= j < before.len() && before[j] == row;
                assert(rows[j] == row);
            } else {
                assert(rows[before.len() as int] == todo::task_line(w.0, w.1));
            }
        }
    }
}

/// The line of a task below a group is read back, is indented, and carries its mark.
proof fn lemma_task_line(status: TaskStatus, title: Seq<char>)
    requires
        project::is_title(title),
    ensures
        line::task_of(todo::task_line(status, title)) == Some((status, title)),
        line::with_mark(todo::task_line(status, title), status) == todo::task_line(status, title),
        todo::is_inner(todo::task_line(status, title)),
        !text::is_blank(todo::task_line(status, title)),
{
    let l = todo::task_line(status, title);
    let lead = seq![' ', ' '];
    project::lemma_check_row(lead, status, title);
    line::lemma_task_mark(l);
    assert(l[0] == ' ' && l[1] == ' ' && l[2] == '-');
    line::lemma_indent_unique(l, 2);
    assert(l[5] == status.mark());
    assert(l.update(5, status.mark()) == l);
    lemma_task_is_solid(l);
}

// -------------------------------------------------------------- finding it again

proof fn lemma_group_start_unique(lines: Seq<Seq<char>>, name: Seq<char>, i: int, at: int)
    requires
        0 <= i <= at < lines.len(),
        line::group_of(lines[at]) == Some(name),
        forall|j: int| i <= j < at ==> line::group_of(#[trigger] lines[j]) != Some(name),
    ensures
        todo::group_start(lines, name, i) == at,
    decreases at - i,
{
    if i < at {
        lemma_group_start_unique(lines, name, i + 1, at);
    }
}

proof fn lemma_inner_end_unique(lines: Seq<Seq<char>>, i: int, at: int)
    requires
        0 <= i <= at <= lines.len(),
        forall|j: int| i <= j < at ==> todo::is_inner(#[trigger] lines[j]),
        at < lines.len() ==> !todo::is_inner(lines[at]),
    ensures
        todo::inner_end(lines, i) == at,
    decreases at - i,
{
    if i < at {
        lemma_inner_end_unique(lines, i + 1, at);
    }
}

proof fn lemma_solid_end_unique(lines: Seq<Seq<char>>, from: int, end: int, at: int)
    requires
        0 <= from <= at <= end <= lines.len(),
        at > from ==> !text::is_blank(lines[at - 1]),
        forall|j: int| at <= j < end ==> text::is_blank(#[trigger] lines[j]),
    ensures
        todo::solid_end(lines, from, end) == at,
    decreases end - from,
{
    if at < end {
        lemma_solid_end_unique(lines, from, end - 1, at);
    }
}

/// A group with rows added behind it is found again, with the rows in it.
proof fn lemma_group_grown(
    base: Seq<Seq<char>>,
    name: Seq<char>,
    wanted: Seq<WantedView>,
    start: int,
    end: int,
)
    requires
        todo::group_range(base, name) == Some((start, end)),
        are_wanted(wanted),
    ensures
        ({
            let rows = todo::new_rows(base, start, end, wanted);
            let done = todo::marked(base, start, end, wanted);
            let lines = done.take(end) + rows + done.skip(end);
            &&& todo::group_range(lines, name) == Some((start, end + rows.len()))
            &&& done.len() == base.len()
            &&& 0 <= start < end <= base.len()
        }),
{
    let rows = todo::new_rows(base, start, end, wanted);
    let done = todo::marked(base, start, end, wanted);
    let lines = done.take(end) + rows + done.skip(end);
    let n = rows.len() as int;
    todo::lemma_group_range(base, name);
    todo::lemma_group_parts(base, name);
    let stop = todo::inner_end(base, start + 1);
    lemma_marked_row(base, start, end, wanted, start);
    lemma_new_rows(base, start, end, wanted);
    assert forall|j: int| 0 <= j < base.len() implies {
        &&& start < j < end ==> todo::is_inner(#[trigger] done[j])
        &&& text::is_blank(done[j]) == text::is_blank(base[j])
        &&& !(start < j < end) ==> done[j] == base[j]
    } by {
        lemma_marked_line(base, start, end, wanted, j, Seq::empty());
    }
    assert forall|j: int| 0 <= j < n implies todo::is_inner(#[trigger] rows[j])
        && !text::is_blank(rows[j]) by {
        let k = choose|k: int|
            0 <= k < wanted.len() && is_new(base, start, end, #[trigger] wanted[k]) && rows[j]
                == todo::task_line(wanted[k].0, wanted[k].1);
        assert(project::is_title(wanted[k].1));
        lemma_task_line(wanted[k].0, wanted[k].1);
    }
    assert forall|j: int| 0 <= j < start implies line::group_of(#[trigger] lines[j]) != Some(
        name,
    ) by {
        assert(lines[j] == base[j]);
    }
    assert(lines[start] == base[start]);
    lemma_group_start_unique(lines, name, 0, start);
    assert forall|j: int| start + 1 <= j < stop + n implies todo::is_inner(#[trigger] lines[j]) by {
        if j < end {
            assert(lines[j] == done[j]);
        } else if j < end + n {
            assert(lines[j] == rows[j - end]);
        } else {
            assert(lines[j] == done[j - n]);
            assert(done[j - n] == base[j - n]);
            assert(text::is_blank(base[j - n]));
        }
    }
    if stop + n < lines.len() {
        assert(lines[stop + n] == done[stop]);
        assert(done[stop] == base[stop]);
    }
    lemma_inner_end_unique(lines, start + 1, stop + n);
    assert forall|j: int| end + n <= j < stop + n implies text::is_blank(#[trigger] lines[j]) by {
        assert(lines[j] == done[j - n]);
        assert(done[j - n] == base[j - n]);
    }
    if end + n > start + 1 {
        if n > 0 {
            assert(lines[end + n - 1] == rows[n - 1]);
        } else {
            assert(lines[end - 1] == done[end - 1]);
        }
    }
    lemma_solid_end_unique(lines, start + 1, stop + n, end + n);
}

// ------------------------------------------------------------------------- laws

/// Whether nothing is left to do for a wanted task.
spec fn is_settled(lines: Seq<Seq<char>>, start: int, end: int, w: WantedView) -> bool {
    match todo::row_of(lines, start, end, w.1) {
        Some(at) => line::with_mark(lines[at], w.0) == lines[at],
        None => !w.2,
    }
}

/// Where nothing is left to do, nothing is done.
proof fn lemma_settled(lines: Seq<Seq<char>>, start: int, end: int, wanted: Seq<WantedView>)
    requires
        0 <= start < end <= lines.len(),
        forall|k: int|
            0 <= k < wanted.len() ==> is_settled(lines, start, end, #[trigger] wanted[k]),
    ensures
        todo::marked(lines, start, end, wanted) == lines,
        todo::marks_changed(lines, start, end, wanted) == 0,
        todo::new_rows(lines, start, end, wanted).len() == 0,
    decreases wanted.len(),
{
    if wanted.len() > 0 {
        let head = wanted.drop_last();
        assert forall|k: int| 0 <= k < head.len() implies is_settled(
            lines,
            start,
            end,
            #[trigger] head[k],
        ) by {
            assert(head[k] == wanted[k]);
        }
        lemma_settled(lines, start, end, head);
        assert(is_settled(lines, start, end, wanted[wanted.len() - 1]));
        todo::lemma_row_of(lines, start, end, wanted.last().1);
    }
}

/// Nothing is removed where nothing is to be dropped.
proof fn lemma_nothing_dropped(lines: Seq<Seq<char>>, name: Seq<char>)
    ensures
        todo::without_rows(lines, name, Seq::empty()) == lines,
{
    todo::lemma_group_range(lines, name);
    match todo::group_range(lines, name) {
        Some((start, end)) => {
            lemma_all_kept(lines.subrange(start + 1, end));
            assert(lines.take(start + 1) + lines.subrange(start + 1, end) + lines.skip(end)
                == lines);
        },
        None => {},
    }
}

proof fn lemma_all_kept(lines: Seq<Seq<char>>)
    ensures
        todo::kept_lines(lines, Seq::empty()) == lines,
    decreases lines.len(),
{
    if lines.len() > 0 {
        lemma_all_kept(lines.drop_last());
        assert(lines.drop_last().push(lines.last()) == lines);
    }
}

/// After a group was brought up to date, nothing is left to do in it.
proof fn lemma_settled_after(
    base: Seq<Seq<char>>,
    name: Seq<char>,
    wanted: Seq<WantedView>,
    start: int,
    end: int,
    k: int,
)
    requires
        todo::group_range(base, name) == Some((start, end)),
        are_wanted(wanted),
        0 <= k < wanted.len(),
    ensures
        ({
            let rows = todo::new_rows(base, start, end, wanted);
            let done = todo::marked(base, start, end, wanted);
            let lines = done.take(end) + rows + done.skip(end);
            is_settled(lines, start, end + rows.len(), wanted[k])
        }),
{
    let rows = todo::new_rows(base, start, end, wanted);
    let done = todo::marked(base, start, end, wanted);
    let lines = done.take(end) + rows + done.skip(end);
    let n = rows.len() as int;
    let w = wanted[k];
    lemma_group_grown(base, name, wanted, start, end);
    todo::lemma_group_range(base, name);
    lemma_new_rows(base, start, end, wanted);
    todo::lemma_row_of(base, start, end, w.1);
    todo::lemma_row_of(lines, start, end + n, w.1);
    assert(project::is_title(w.1));
    assert forall|j: int| start < j < end implies todo::has_title(#[trigger] lines[j], w.1)
        == todo::has_title(base[j], w.1) by {
        lemma_marked_line(base, start, end, wanted, j, w.1);
        assert(lines[j] == done[j]);
    }
    // A row that was added belongs to exactly one wanted task.
    assert forall|j: int| end <= j < end + n && todo::has_title(#[trigger] lines[j], w.1) implies {
        &&& is_new(base, start, end, w)
        &&& lines[j] == todo::task_line(w.0, w.1)
    } by {
        assert(lines[j] == rows[j - end]);
        let q = choose|q: int|
            0 <= q < wanted.len() && is_new(base, start, end, #[trigger] wanted[q]) && rows[j - end]
                == todo::task_line(wanted[q].0, wanted[q].1);
        assert(project::is_title(wanted[q].1));
        lemma_task_line(wanted[q].0, wanted[q].1);
        assert(wanted[q].1 == wanted[k].1);
        assert(q == k);
    }
    match todo::row_of(base, start, end, w.1) {
        Some(at) => {
            assert(lines[at] == done[at]);
            assert(todo::has_title(lines[at], w.1));
            assert(todo::row_of(lines, start, end + n, w.1) == Some(at)) by {
                let found = todo::row_of(lines, start, end + n, w.1)->0;
                if found < at {
                    assert(todo::has_title(lines[found], w.1));
                }
            }
            lemma_marked_row(base, start, end, wanted, at);
            let q = choose|q: int| #[trigger] marked_for(base, start, end, wanted, at, q);
            todo::lemma_row_of(base, start, end, wanted[q].1);
            assert(wanted[q].1 == wanted[k].1);
            assert(q == k);
            line::law_mark_last_wins(base[at], w.0, w.0);
        },
        None => {
            lemma_task_line(w.0, w.1);
            match todo::row_of(lines, start, end + n, w.1) {
                Some(at) => {
                    assert(at >= end) by {
                        if at < end {
                            assert(todo::has_title(lines[at], w.1));
                        }
                    }
                    assert(lines[at] == todo::task_line(w.0, w.1));
                },
                None => {
                    if w.2 {
                        assert(is_new(base, start, end, wanted[k]));
                        let row = todo::task_line(w.0, w.1);
                        let j = choose|j: int| 0 <= j < n && rows[j] == row;
                        assert(lines[end + j] == row);
                        assert(todo::has_title(lines[end + j], w.1));
                    }
                },
            }
        },
    }
}

/// Once a group was brought up to date, doing it again changes nothing. The titles are
/// different from each other and can be read back, and so can the name of the group.
pub proof fn law_upsert_is_stable(
    lines: Seq<Seq<char>>,
    name: Seq<char>,
    wanted: Seq<WantedView>,
    dropped: Seq<Seq<char>>,
)
    requires
        are_wanted(wanted),
        is_group_name(name),
    ensures
        ({
            let once = todo::upserted(lines, name, wanted, dropped);
            let twice = todo::upserted(once.lines, name, wanted, Seq::empty());
            &&& twice.lines == once.lines
            &&& twice.added == 0 && twice.updated == 0 && twice.removed == 0
        }),
{
    let base = todo::without_rows(lines, name, dropped);
    let once = todo::upserted(lines, name, wanted, dropped);
    lemma_nothing_dropped(once.lines, name);
    match todo::group_range(base, name) {
        Some((start, end)) => {
            let rows = todo::new_rows(base, start, end, wanted);
            lemma_group_grown(base, name, wanted, start, end);
            assert forall|k: int| 0 <= k < wanted.len() implies is_settled(
                once.lines,
                start,
                end + rows.len(),
                #[trigger] wanted[k],
            ) by {
                lemma_settled_after(base, name, wanted, start, end, k);
            }
            todo::lemma_group_range(once.lines, name);
            lemma_settled(once.lines, start, end + rows.len(), wanted);
            let last = end + rows.len();
            assert(once.lines.take(last) + Seq::<Seq<char>>::empty() + once.lines.skip(last)
                == once.lines);
            assert(todo::new_rows(once.lines, start, last, wanted) == Seq::<Seq<char>>::empty());
        },
        None => {
            let rows = todo::new_rows(base, 0, 0, wanted);
            if rows.len() > 0 {
                lemma_group_added(base, name, wanted);
            }
        },
    }
}

/// A group that was added is found, and nothing is left to do in it.
proof fn lemma_group_added(base: Seq<Seq<char>>, name: Seq<char>, wanted: Seq<WantedView>)
    requires
        todo::group_range(base, name) is None,
        are_wanted(wanted),
        is_group_name(name),
        todo::new_rows(base, 0, 0, wanted).len() > 0,
    ensures
        ({
            let rows = todo::new_rows(base, 0, 0, wanted);
            let body = base.take(todo::solid_end(base, 0, base.len() as int));
            let all = body.push(todo::group_line(name)) + rows;
            let again = todo::upserted(all, name, wanted, Seq::empty());
            &&& todo::group_range(all, name) == Some((body.len() as int, all.len() as int))
            &&& again.lines == all
            &&& again.added == 0 && again.updated == 0 && again.removed == 0
        }),
{
    let rows = todo::new_rows(base, 0, 0, wanted);
    todo::lemma_group_range(base, name);
    todo::lemma_solid_end(base, 0, base.len() as int);
    let body = base.take(todo::solid_end(base, 0, base.len() as int));
    let all = body.push(todo::group_line(name)) + rows;
    let start = body.len() as int;
    let end = all.len() as int;
    let n = rows.len() as int;
    lemma_new_rows(base, 0, 0, wanted);
    assert(all[start] == todo::group_line(name));
    assert(todo::group_line(name).skip(2) == name);
    assert forall|j: int| 0 <= j < start implies line::group_of(#[trigger] all[j]) != Some(
        name,
    ) by {
        assert(all[j] == base[j]);
    }
    lemma_group_start_unique(all, name, 0, start);
    assert forall|j: int| start + 1 <= j < end implies {
        &&& todo::is_inner(#[trigger] all[j])
        &&& !text::is_blank(all[j])
        &&& exists|q: int|
            0 <= q < wanted.len() && is_new(base, 0, 0, #[trigger] wanted[q]) && all[j]
                == todo::task_line(wanted[q].0, wanted[q].1)
    } by {
        assert(all[j] == rows[j - start - 1]);
        let q = choose|q: int|
            0 <= q < wanted.len() && is_new(base, 0, 0, #[trigger] wanted[q]) && rows[j - start - 1]
                == todo::task_line(wanted[q].0, wanted[q].1);
        assert(project::is_title(wanted[q].1));
        lemma_task_line(wanted[q].0, wanted[q].1);
    }
    lemma_inner_end_unique(all, start + 1, end);
    assert(!text::is_blank(all[end - 1]));
    lemma_solid_end_unique(all, start + 1, end, end);
    assert forall|k: int| 0 <= k < wanted.len() implies is_settled(
        all,
        start,
        end,
        #[trigger] wanted[k],
    ) by {
        let w = wanted[k];
        assert(project::is_title(w.1));
        todo::lemma_row_of(all, start, end, w.1);
        lemma_task_line(w.0, w.1);
        match todo::row_of(all, start, end, w.1) {
            Some(at) => {
                assert(all[at] == rows[at - start - 1]);
                let q = choose|q: int|
                    0 <= q < wanted.len() && is_new(base, 0, 0, #[trigger] wanted[q]) && all[at]
                        == todo::task_line(wanted[q].0, wanted[q].1);
                assert(project::is_title(wanted[q].1));
                lemma_task_line(wanted[q].0, wanted[q].1);
                assert(wanted[q].1 == wanted[k].1);
                assert(q == k);
            },
            None => {
                if w.2 {
                    assert(is_new(base, 0, 0, wanted[k]));
                    let row = todo::task_line(w.0, w.1);
                    let j = choose|j: int| 0 <= j < n && rows[j] == row;
                    assert(all[start + 1 + j] == row);
                    assert(todo::has_title(all[start + 1 + j], w.1));
                }
            },
        }
    }
    lemma_settled(all, start, end, wanted);
    lemma_nothing_dropped(all, name);
    assert(todo::new_rows(all, start, end, wanted) == Seq::<Seq<char>>::empty());
    assert(all.take(end) + Seq::<Seq<char>>::empty() + all.skip(end) == all);
}

/// Bringing a group up to date touches no line but the rows of wanted tasks, and of those
/// nothing but the mark. What is added stands behind the rows of the group.
#[verifier::spinoff_prover]
#[verifier::rlimit(40)]
pub proof fn law_upsert_keeps_lines(
    lines: Seq<Seq<char>>,
    name: Seq<char>,
    wanted: Seq<WantedView>,
)
    ensures
        ({
            let u = todo::upserted(lines, name, wanted, Seq::empty());
            &&& u.removed == 0
            &&& match todo::group_range(lines, name) {
                Some((start, end)) => {
                    &&& u.lines.len() == lines.len() + u.added
                    &&& forall|i: int|
                        0 <= i < end ==> #[trigger] u.lines[i] == lines[i] || (start < i
                            && exists|k: int|
                            0 <= k < wanted.len() && todo::has_title(
                                lines[i],
                                (#[trigger] wanted[k]).1,
                            ) && u.lines[i] == line::with_mark(lines[i], wanted[k].0))
                    &&& forall|i: int|
                        end <= i < lines.len() ==> u.lines[i + u.added] == #[trigger] lines[i]
                },
                None => u.added == 0 ==> u.lines == lines,
            }
        }),
{
    let u = todo::upserted(lines, name, wanted, Seq::empty());
    lemma_nothing_dropped(lines, name);
    todo::lemma_group_range(lines, name);
    match todo::group_range(lines, name) {
        Some((start, end)) => {
            let done = todo::marked(lines, start, end, wanted);
            let rows = todo::new_rows(lines, start, end, wanted);
            lemma_marked_row(lines, start, end, wanted, start);
            assert forall|i: int| 0 <= i < end implies #[trigger] u.lines[i] == lines[i] || (start
                < i && exists|k: int|
                0 <= k < wanted.len() && todo::has_title(lines[i], (#[trigger] wanted[k]).1)
                    && u.lines[i] == line::with_mark(lines[i], wanted[k].0)) by {
                assert(u.lines[i] == done[i]);
                lemma_marked_row(lines, start, end, wanted, i);
                if exists|k: int| #[trigger] marked_for(lines, start, end, wanted, i, k) {
                    let k = choose|k: int| #[trigger] marked_for(lines, start, end, wanted, i, k);
                    todo::lemma_row_of(lines, start, end, wanted[k].1);
                }
            }
            assert forall|i: int| end <= i < lines.len() implies u.lines[i + u.added]
                == #[trigger] lines[i] by {
                lemma_marked_row(lines, start, end, wanted, i);
                if exists|k: int| #[trigger] marked_for(lines, start, end, wanted, i, k) {
                    let k = choose|k: int| #[trigger] marked_for(lines, start, end, wanted, i, k);
                    todo::lemma_row_of(lines, start, end, wanted[k].1);
                }
                assert(u.lines[i + u.added] == done[i]);
            }
        },
        None => {},
    }
}

// ------------------------------------------------------------- a new task list

/// The rows of one group.
pub open spec fn rows_below(name: Seq<char>, tasks: Seq<TaskView>) -> Seq<RowView> {
    tasks.map_values(|t: TaskView| (name, t.title, t.status))
}

/// The rows of groups, one group after the other.
pub open spec fn rows_of_groups(groups: Seq<(Seq<char>, Seq<TaskView>)>) -> Seq<RowView>
    decreases groups.len(),
{
    if groups.len() == 0 {
        Seq::empty()
    } else {
        rows_of_groups(groups.drop_last()) + rows_below(groups.last().0, groups.last().1)
    }
}

/// Whether the names and titles of groups can be read back.
pub open spec fn are_groups(groups: Seq<(Seq<char>, Seq<TaskView>)>) -> bool {
    forall|g: int, i: int|
        0 <= g < groups.len() && 0 <= i < groups[g].1.len() ==> is_group_name(groups[g].0)
            && project::is_title((#[trigger] groups[g].1[i]).title)
}

/// The rows below the name of a group.
proof fn lemma_rows_below(
    n: NoteView,
    from: int,
    p: int,
    name: Seq<char>,
    tasks: Seq<TaskView>,
    i: int,
)
    requires
        0 <= from <= p,
        0 <= i <= tasks.len(),
        p + 1 + tasks.len() <= n.lines.len(),
        is_group_name(name),
        forall|j: int| 0 <= j < tasks.len() ==> project::is_title(#[trigger] tasks[j].title),
        n.lines[p] == todo::group_line(name),
        forall|j: int|
            0 <= j < tasks.len() ==> n.lines[p + 1 + j] == todo::task_line(
                (#[trigger] tasks[j]).status,
                tasks[j].title,
            ),
    ensures
        n.group_at(from, p + 1 + i) == name,
        n.rows_in(from, p + 1 + i) == n.rows_in(from, p) + rows_below(name, tasks.take(i)),
    decreases i,
{
    let before = n.rows_in(from, p);
    if i == 0 {
        let l = n.lines[p];
        assert(l[0] == '-' && l[1] == ' ' && l[2] == name[0]);
        assert(l.skip(2) == name);
        assert(text::trimmed_start(l) == l);
        assert(line::task_of(l) is None);
        assert(line::group_of(l) == Some(name));
        assert(before + rows_below(name, tasks.take(0)) == before);
    } else {
        lemma_rows_below(n, from, p, name, tasks, i - 1);
        let t = tasks[i - 1];
        assert(n.lines[p + 1 + (i - 1)] == todo::task_line(t.status, t.title));
        assert(project::is_title(t.title));
        lemma_task_line(t.status, t.title);
        assert(rows_below(name, tasks.take(i)) == rows_below(name, tasks.take(i - 1)).push(
            (name, t.title, t.status),
        ));
        assert(before + rows_below(name, tasks.take(i)) == (before + rows_below(
            name,
            tasks.take(i - 1),
        )).push((name, t.title, t.status)));
    }
}

/// The rows of the lines of groups.
proof fn lemma_rows_of_groups(
    n: NoteView,
    from: int,
    groups: Seq<(Seq<char>, Seq<TaskView>)>,
)
    requires
        0 <= from,
        are_groups(groups),
        from + 1 + todo::group_lines(groups).len() <= n.lines.len(),
        n.lines[from].len() > 0,
        n.lines[from][0] == '#',
        n.lines.subrange(from + 1, from + 1 + todo::group_lines(groups).len())
            == todo::group_lines(groups),
    ensures
        n.rows_in(from, from + 1 + todo::group_lines(groups).len()) == rows_of_groups(groups),
    decreases groups.len(),
{
    let all = todo::group_lines(groups);
    if groups.len() == 0 {
        let l = n.lines[from];
        assert(text::trimmed_start(l) == l);
        assert(line::task_of(l) is None);
        assert(n.rows_in(from, from) == Seq::<RowView>::empty());
        assert(n.rows_in(from, from + 1) == Seq::<RowView>::empty());
    } else {
        let head = groups.drop_last();
        let before = todo::group_lines(head);
        let (name, tasks) = groups.last();
        let g = groups.len() - 1;
        assert forall|h: int, i: int|
            0 <= h < head.len() && 0 <= i < head[h].1.len() implies is_group_name(head[h].0)
            && project::is_title((#[trigger] head[h].1[i]).title) by {
            assert(head[h] == groups[h]);
            assert(project::is_title(groups[h].1[i].title));
        }
        let p = from + 1 + before.len();
        assert(n.lines.subrange(from + 1, p) == before) by {
            let part = n.lines.subrange(from + 1, from + 1 + all.len());
            assert(part.take(before.len() as int) == before);
            assert(part.take(before.len() as int) == n.lines.subrange(from + 1, p));
        }
        lemma_rows_of_groups(n, from, head);
        if tasks.len() == 0 {
            assert(rows_below(name, tasks) == Seq::<RowView>::empty());
            assert(rows_of_groups(head) + Seq::<RowView>::empty() == rows_of_groups(head));
        } else {
            assert(project::is_title(groups[g].1[0].title));
            let part = n.lines.subrange(from + 1, from + 1 + all.len());
            assert(part[before.len() as int] == n.lines[p]);
            assert(n.lines[p] == todo::group_line(name));
            assert forall|j: int| 0 <= j < tasks.len() implies n.lines[p + 1 + j]
                == todo::task_line((#[trigger] tasks[j]).status, tasks[j].title) by {
                assert(part[before.len() + 1 + j] == n.lines[p + 1 + j]);
                assert(todo::task_lines(tasks)[j] == todo::task_line(
                    tasks[j].status,
                    tasks[j].title,
                ));
            }
            assert forall|j: int| 0 <= j < tasks.len() implies project::is_title(
                #[trigger] tasks[j].title,
            ) by {
                assert(project::is_title(groups[g].1[j].title));
            }
            lemma_rows_below(n, from, p, name, tasks, tasks.len() as int);
            assert(tasks.take(tasks.len() as int) == tasks);
            assert(all.len() == before.len() + 1 + tasks.len());
        }
    }
}

/// A new task list is read back: its rows are the tasks of the groups it was written from.
pub proof fn law_new_list_reads_back(
    n: NoteView,
    from: int,
    date: CalendarDate,
    groups: Seq<(Seq<char>, Seq<TaskView>)>,
)
    requires
        0 <= from,
        are_groups(groups),
        from + todo::body_rows(date, groups).len() <= n.lines.len(),
        n.lines.subrange(from, from + todo::body_rows(date, groups).len()) == todo::body_rows(
            date,
            groups,
        ),
    ensures
        n.rows_in(from, from + todo::body_rows(date, groups).len()) == rows_of_groups(groups),
{
    let all = todo::body_rows(date, groups);
    let part = n.lines.subrange(from, from + all.len());
    assert(part[0] == n.lines[from]);
    assert(all[0] == seq!['#', ' '] + todo::heading_text(date));
    assert(n.lines.subrange(from + 1, from + all.len()) == part.skip(1));
    assert(all.skip(1) == todo::group_lines(groups));
    lemma_rows_of_groups(n, from, groups);
}

} // verus!
