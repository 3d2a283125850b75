//! What is chosen out of the tasks of projects and the lines of notes.

use vstd::prelude::*;

use crate::model::entry;
use crate::model::line;
use crate::model::note::{NoteView, TodoView};
use crate::model::project;
use crate::model::project::TaskView;
use crate::model::status::TaskStatus;
use crate::pick;
use crate::text;

verus! {

/// The tasks in a state are those tasks that have it: all of them, in their order, each once.
pub proof fn law_tasks_in_a_state(tasks: Seq<TaskView>, status: TaskStatus)
    ensures
        exists|at: Seq<int>|
            {
                &&& #[trigger] pick::is_picked(project::tasks_in(tasks, status), tasks, at)
                &&& forall|i: int|
                    0 <= i < tasks.len() ==> #[trigger] at.contains(i) == (tasks[i].status
                        == status)
            },
{
    let grown = |k: int| project::tasks_in(tasks.take(k), status);
    let keep = |k: int| tasks[k].status == status;
    assert forall|k: int| #![trigger keep(k)] 0 <= k < tasks.len() implies {
        &&& keep(k) ==> grown(k + 1) == grown(k).push(tasks[k])
        &&& !keep(k) ==> grown(k + 1) == grown(k)
    } by {
        assert(tasks.take(k + 1).drop_last() == tasks.take(k));
    }
    let at = pick::lemma_picked(grown, tasks, keep);
    assert(tasks.take(tasks.len() as int) == tasks);
    assert(pick::is_picked(project::tasks_in(tasks, status), tasks, at));
}

// ------------------------------------------------------------------ tasks of a note

/// Whether a line names a group and is no task.
pub open spec fn names_group(l: Seq<char>) -> bool {
    line::task_of(l) is None && line::group_of(l) is Some
}

/// Whether a group is the one that line `i` of a body stands below: that of the nearest line
/// before it that names one, or none where there is no such line.
pub open spec fn is_group_at(n: NoteView, from: int, i: int, group: Seq<char>) -> bool {
    ||| exists|h: int|
        {
            &&& from <= h < i
            &&& names_group(#[trigger] n.lines[h])
            &&& line::group_of(n.lines[h]) == Some(group)
            &&& forall|j: int| h < j < i ==> !names_group(#[trigger] n.lines[j])
        }
    ||| {
        &&& forall|j: int| from <= j < i ==> !names_group(#[trigger] n.lines[j])
        &&& group.len() == 0
    }
}

/// Whether line `i` of a note is a task in the body of entry `k`, and the entry holds tasks.
pub open spec fn is_task_line(n: NoteView, k: int, i: int) -> bool {
    &&& 0 <= k < n.entries.len()
    &&& n.holds_todo(n.entries[k])
    &&& n.entries[k].body.0 <= i < n.entries[k].body.1
    &&& line::task_of(n.lines[i]) is Some
}

/// Whether a task of a note is what its line in the body of entry `k` says.
pub open spec fn is_read(n: NoteView, k: int, t: TodoView) -> bool {
    &&& is_task_line(n, k, t.line)
    &&& t.date == n.date && t.note_path == n.path
    &&& line::task_of(n.lines[t.line]) == Some((t.status, t.title))
    &&& is_group_at(n, n.entries[k].body.0, t.line, t.group)
}

/// Whether a task of a note is what its line in the body of one of the first `k` entries says.
pub open spec fn is_read_in(n: NoteView, k: int, t: TodoView) -> bool {
    exists|e: int| 0 <= e < k && #[trigger] is_read(n, e, t)
}

proof fn lemma_group_at(n: NoteView, from: int, i: int)
    requires
        0 <= from <= i <= n.lines.len(),
    ensures
        is_group_at(n, from, i, n.group_at(from, i)),
    decreases i - from,
{
    if i > from {
        let l = n.lines[i - 1];
        if names_group(l) {
            assert(names_group(n.lines[i - 1]));
        } else {
            lemma_group_at(n, from, i - 1);
            let group = n.group_at(from, i - 1);
            if exists|h: int|
                {
                    &&& from <= h < i - 1
                    &&& names_group(#[trigger] n.lines[h])
                    &&& line::group_of(n.lines[h]) == Some(group)
                    &&& forall|j: int| h < j < i - 1 ==> !names_group(#[trigger] n.lines[j])
                } {
                let h = choose|h: int|
                    {
                        &&& from <= h < i - 1
                        &&& names_group(#[trigger] n.lines[h])
                        &&& line::group_of(n.lines[h]) == Some(group)
                        &&& forall|j: int| h < j < i - 1 ==> !names_group(#[trigger] n.lines[j])
                    };
                assert(names_group(n.lines[h]));
            }
        }
    }
}

proof fn lemma_tasks_in(n: NoteView, k: int, to: int)
    requires
        n.fits(),
        0 <= k < n.entries.len(),
        n.holds_todo(n.entries[k]),
        n.entries[k].body.0 <= to <= n.entries[k].body.1,
    ensures
        ({
            let from = n.entries[k].body.0;
            let all = n.tasks_in(from, to);
            &&& forall|x: int|
                0 <= x < all.len() ==> is_read(n, k, #[trigger] all[x]) && all[x].line < to
            &&& forall|x: int, y: int|
                0 <= x < y < all.len() ==> (#[trigger] all[x]).line < (#[trigger] all[y]).line
            &&& forall|i: int|
                from <= i < to && line::task_of(#[trigger] n.lines[i]) is Some ==> exists|x: int|
                    0 <= x < all.len() && (#[trigger] all[x]).line == i
        }),
    decreases to - n.entries[k].body.0,
{
    let from = n.entries[k].body.0;
    assert(crate::model::note::entry_fits(n.entries[k], n.lines.len() as int));
    if to > from {
        lemma_tasks_in(n, k, to - 1);
        lemma_group_at(n, from, to - 1);
        let before = n.tasks_in(from, to - 1);
        let all = n.tasks_in(from, to);
        assert forall|x: int| 0 <= x < all.len() implies is_read(n, k, #[trigger] all[x])
            && all[x].line < to by {
            if x < before.len() {
                assert(all[x] == before[x]);
            }
        }
        assert forall|x: int, y: int| 0 <= x < y < all.len() implies (#[trigger] all[x]).line < (
        #[trigger] all[y]).line by {
            assert(all[x] == before[x]);
            if y < before.len() {
                assert(all[y] == before[y]);
            }
        }
        assert forall|i: int|
            from <= i < to && line::task_of(#[trigger] n.lines[i]) is Some implies exists|x: int|
            0 <= x < all.len() && (#[trigger] all[x]).line == i by {
            if i < to - 1 {
                let x = choose|x: int| 0 <= x < before.len() && (#[trigger] before[x]).line == i;
                assert(all[x] == before[x]);
            } else {
                assert(all[all.len() - 1].line == i);
            }
        }
    }
}

proof fn lemma_tasks_of_first(n: NoteView, k: int)
    requires
        n.fits(),
        0 <= k <= n.entries.len(),
    ensures
        ({
            let all = n.tasks_of_first(k);
            &&& forall|x: int|
                0 <= x < all.len() ==> is_read_in(n, k, #[trigger] all[x])
            &&& forall|x: int, y: int|
                0 <= x < y < all.len() ==> (#[trigger] all[x]).line < (#[trigger] all[y]).line
            &&& forall|e: int, i: int|
                0 <= e < k && #[trigger] is_task_line(n, e, i) ==> exists|x: int|
                    0 <= x < all.len() && (#[trigger] all[x]).line == i
        }),
    decreases k,
{
    if k > 0 {
        lemma_tasks_of_first(n, k - 1);
        let e = n.entries[k - 1];
        assert(crate::model::note::entry_fits(e, n.lines.len() as int));
        let before = n.tasks_of_first(k - 1);
        let all = n.tasks_of_first(k);
        let new = if n.holds_todo(e) {
            n.tasks_in(e.body.0, e.body.1)
        } else {
            Seq::empty()
        };
        if n.holds_todo(e) {
            lemma_tasks_in(n, k - 1, e.body.1);
        }
        assert(all == before + new);
        assert forall|x: int| 0 <= x < all.len() implies is_read_in(n, k, #[trigger] all[x]) by {
            if x < before.len() {
                assert(all[x] == before[x]);
                let d = choose|d: int| 0 <= d < k - 1 && #[trigger] is_read(n, d, before[x]);
                assert(is_read(n, d, all[x]));
            } else {
                assert(all[x] == new[x - before.len()]);
                assert(is_read(n, k - 1, all[x]));
            }
        }
        assert forall|x: int, y: int| 0 <= x < y < all.len() implies (#[trigger] all[x]).line < (
        #[trigger] all[y]).line by {
            if y < before.len() {
                assert(all[x] == before[x] && all[y] == before[y]);
            } else if x >= before.len() {
                assert(all[x] == new[x - before.len()] && all[y] == new[y - before.len()]);
            } else {
                assert(all[x] == before[x] && all[y] == new[y - before.len()]);
                let d = choose|d: int| 0 <= d < k - 1 && #[trigger] is_read(n, d, before[x]);
                assert(crate::model::note::entry_fits(n.entries[d], n.lines.len() as int));
                assert(n.entries[d].block.1 <= n.entries[k - 1].block.0);
                assert(is_read(n, k - 1, new[y - before.len()]));
            }
        }
        assert forall|d: int, i: int| 0 <= d < k && #[trigger] is_task_line(n, d, i) implies exists|
            x: int,
        |
            0 <= x < all.len() && (#[trigger] all[x]).line == i by {
            if d < k - 1 {
                let x = choose|x: int| 0 <= x < before.len() && (#[trigger] before[x]).line == i;
                assert(all[x] == before[x]);
            } else {
                let x = choose|x: int| 0 <= x < new.len() && (#[trigger] new[x]).line == i;
                assert(all[before.len() + x] == new[x]);
            }
        }
    }
}

/// The tasks of a note are the task lines in the bodies of its entries that hold tasks: all of
/// them, in order, each once, with the date and the path of the note, and the nearest group
/// named before them in the same body.
pub proof fn law_tasks_of_a_note(n: NoteView)
    requires
        n.fits(),
    ensures
        forall|x: int|
            0 <= x < n.tasks().len() ==> is_read_in(
                n,
                n.entries.len() as int,
                #[trigger] n.tasks()[x],
            ),
        forall|x: int, y: int|
            0 <= x < y < n.tasks().len() ==> (#[trigger] n.tasks()[x]).line < (
            #[trigger] n.tasks()[y]).line,
        forall|k: int, i: int| #[trigger]
            is_task_line(n, k, i) ==> exists|x: int|
                0 <= x < n.tasks().len() && (#[trigger] n.tasks()[x]).line == i,
{
    lemma_tasks_of_first(n, n.entries.len() as int);
}

/// The rows of an entry that holds tasks are its task lines with a title, in order, each with
/// its group; an entry that holds none has no rows.
pub proof fn law_rows_of_an_entry(n: NoteView, k: int)
    requires
        n.fits(),
        0 <= k < n.entries.len(),
    ensures
        !n.holds_todo(n.entries[k]) ==> n.rows_of(k).len() == 0,
        n.holds_todo(n.entries[k]) ==> exists|at: Seq<int>|
            {
                let from = n.entries[k].body.0;
                let rows = n.rows_of(k);
                &&& #[trigger] pick::rising(at, n.entries[k].body.1)
                &&& forall|i: int| #[trigger]
                    at.contains(i) == (is_task_line(n, k, i) && (line::task_of(
                        n.lines[i],
                    )->0).1.len() > 0)
                &&& rows.len() == at.len()
                &&& forall|x: int|
                    0 <= x < rows.len() ==> line::task_of(n.lines[at[x]]) == Some(
                        ((#[trigger] rows[x]).2, rows[x].1),
                    ) && is_group_at(n, from, at[x], rows[x].0)
            },
{
    let e = n.entries[k];
    assert(crate::model::note::entry_fits(e, n.lines.len() as int));
    if n.holds_todo(e) {
        let from = e.body.0;
        let to = e.body.1;
        let rows = n.rows_of(k);
        let keep = |i: int| is_task_line(n, k, i) && (line::task_of(n.lines[i])->0).1.len() > 0;
        let grown = |i: int| n.rows_in(from, i);
        let item = |i: int|
            (
                n.group_at(from, i),
                (line::task_of(n.lines[i])->0).1,
                (line::task_of(n.lines[i])->0).0,
            );
        pick::lemma_collected(grown, to, keep, item);
        pick::lemma_places(to, keep);
        let at = pick::places(to, keep);
        assert(pick::rising(at, to));
        assert forall|x: int| 0 <= x < rows.len() implies line::task_of(n.lines[at[x]]) == Some(
            ((#[trigger] rows[x]).2, rows[x].1),
        ) && is_group_at(n, from, at[x], rows[x].0) by {
            assert(grown(to)[x] == item(at[x]));
            assert(at.contains(at[x]));
            lemma_group_at(n, from, at[x]);
        }
    }
}

// ------------------------------------------------------------------------ checklist

/// Whether a line of an edited checklist stands for a task: one with a check box and a title,
/// or any other line with a title behind its bullet that is no heading, which is a task that
/// has not been started.
pub open spec fn is_item(l: Seq<char>, status: TaskStatus, title: Seq<char>) -> bool {
    let t = text::trimmed(l);
    &&& title.len() > 0
    &&& match line::task_of(l) {
        Some(task) => task == (status, title),
        None => {
            &&& status is Backlog
            &&& t.len() > 0 && t[0] != '#'
            &&& title == if t.len() >= 2 && (t[0] == '-' || t[0] == '*') && t[1] == ' ' {
                text::trimmed(t.skip(2))
            } else {
                text::trimmed(t)
            }
        },
    }
}

/// Whether a line of an edited checklist stands for some task.
pub open spec fn is_some_item(l: Seq<char>) -> bool {
    exists|status: TaskStatus, title: Seq<char>| #[trigger] is_item(l, status, title)
}

proof fn lemma_checklist_row(l: Seq<char>)
    ensures
        match project::checklist_row(l) {
            Some((status, title)) => is_item(l, status, title),
            None => !is_some_item(l),
        },
        is_some_item(l) == (project::checklist_row(l) is Some),
{
    match project::checklist_row(l) {
        Some((status, title)) => {
            assert(is_item(l, status, title));
        },
        None => {},
    }
}

/// An edited checklist is read line by line: each line that stands for a task gives one, in
/// order, and no other line does.
pub proof fn law_checklist_rows(lines: Seq<Seq<char>>)
    ensures
        exists|at: Seq<int>|
            {
                let rows = project::checklist_rows(lines);
                &&& #[trigger] pick::rising(at, lines.len() as int)
                &&& forall|i: int|
                    0 <= i < lines.len() ==> #[trigger] at.contains(i) == is_some_item(lines[i])
                &&& rows.len() == at.len()
                &&& forall|x: int|
                    0 <= x < rows.len() ==> is_item(
                        lines[at[x]],
                        (#[trigger] rows[x]).0,
                        rows[x].1,
                    )
            },
{
    let n = lines.len() as int;
    let rows = project::checklist_rows(lines);
    let keep = |i: int| is_some_item(lines[i]);
    let grown = |i: int| project::checklist_rows(lines.take(i));
    let item = |i: int| project::checklist_row(lines[i])->0;
    assert forall|i: int| #![trigger keep(i)] 0 <= i < n implies {
        &&& keep(i) ==> grown(i + 1) == grown(i).push(item(i))
        &&& !keep(i) ==> grown(i + 1) == grown(i)
    } by {
        lemma_checklist_row(lines[i]);
        assert(lines.take(i + 1).drop_last() == lines.take(i));
        assert(lines.take(i + 1).last() == lines[i]);
    }
    pick::lemma_collected(grown, n, keep, item);
    pick::lemma_places(n, keep);
    assert(lines.take(n) == lines);
    let at = pick::places(n, keep);
    assert(pick::rising(at, n));
    assert forall|x: int| 0 <= x < rows.len() implies is_item(
        lines[at[x]],
        (#[trigger] rows[x]).0,
        rows[x].1,
    ) by {
        assert(grown(n)[x] == item(at[x]));
        assert(at.contains(at[x]));
        lemma_checklist_row(lines[at[x]]);
    }
}

// ------------------------------------------------------------------------------ tags

/// The tags of pieces: one for each piece that has a tag that no piece before it has, in order.
pub proof fn law_tag_list(pieces: Seq<Seq<char>>)
    ensures
        exists|at: Seq<int>|
            {
                let tags = entry::tag_list(pieces);
                &&& #[trigger] pick::rising(at, pieces.len() as int)
                &&& forall|i: int|
                    0 <= i < pieces.len() ==> #[trigger] at.contains(i) == (entry::tag_of(
                        pieces[i],
                    ).len() > 0 && forall|j: int|
                        0 <= j < i ==> entry::tag_of(#[trigger] pieces[j]) != entry::tag_of(
                            pieces[i],
                        ))
                &&& tags.len() == at.len()
                &&& forall|x: int|
                    0 <= x < tags.len() ==> #[trigger] tags[x] == entry::tag_of(pieces[at[x]])
            },
{
    let n = pieces.len() as int;
    let tags = entry::tag_list(pieces);
    let keep = |i: int|
        entry::tag_of(pieces[i]).len() > 0 && forall|j: int|
            0 <= j < i ==> entry::tag_of(#[trigger] pieces[j]) != entry::tag_of(pieces[i]);
    let grown = |i: int| entry::tag_list(pieces.take(i));
    let item = |i: int| entry::tag_of(pieces[i]);
    assert forall|i: int| #![trigger keep(i)] 0 <= i < n implies {
        &&& keep(i) ==> grown(i + 1) == grown(i).push(item(i))
        &&& !keep(i) ==> grown(i + 1) == grown(i)
    } by {
        assert(pieces.take(i + 1).drop_last() == pieces.take(i));
        assert(pieces.take(i + 1).last() == pieces[i]);
        lemma_tag_is_there(pieces.take(i), entry::tag_of(pieces[i]));
        let tag = entry::tag_of(pieces[i]);
        if tag.len() > 0 {
            if entry::tag_list(pieces.take(i)).contains(tag) {
                let j = choose|j: int|
                    0 <= j < pieces.take(i).len() && entry::tag_of(#[trigger] pieces.take(i)[j])
                        == tag;
                assert(entry::tag_of(pieces[j]) == tag);
                assert(!keep(i));
            } else {
                assert forall|j: int| 0 <= j < i implies entry::tag_of(#[trigger] pieces[j])
                    != tag by {
                    assert(pieces.take(i)[j] == pieces[j]);
                }
            }
        }
    }
    pick::lemma_collected(grown, n, keep, item);
    pick::lemma_places(n, keep);
    assert(pieces.take(n) == pieces);
    let at = pick::places(n, keep);
    assert(pick::rising(at, n));
    assert forall|x: int| 0 <= x < tags.len() implies #[trigger] tags[x] == entry::tag_of(
        pieces[at[x]],
    ) by {
        assert(grown(n)[x] == item(at[x]));
    }
}

/// A tag is in the list just where it is that of a piece.
proof fn lemma_tag_is_there(pieces: Seq<Seq<char>>, tag: Seq<char>)
    ensures
        tag.len() > 0 ==> entry::tag_list(pieces).contains(tag) == (exists|j: int|
            0 <= j < pieces.len() && entry::tag_of(#[trigger] pieces[j]) == tag),
    decreases pieces.len(),
{
    if pieces.len() > 0 && tag.len() > 0 {
        let head = pieces.drop_last();
        lemma_tag_is_there(head, tag);
        let before = entry::tag_list(head);
        let all = entry::tag_list(pieces);
        let last = entry::tag_of(pieces.last());
        if all.contains(tag) {
            let x = choose|x: int| 0 <= x < all.len() && all[x] == tag;
            if x < before.len() {
                assert(before[x] == tag);
                assert(before.contains(tag));
                let j = choose|j: int|
                    0 <= j < head.len() && entry::tag_of(#[trigger] head[j]) == tag;
                assert(entry::tag_of(pieces[j]) == tag);
            } else {
                assert(entry::tag_of(pieces[pieces.len() - 1]) == tag);
            }
        }
        if exists|j: int| 0 <= j < pieces.len() && entry::tag_of(#[trigger] pieces[j]) == tag {
            let j = choose|j: int|
                0 <= j < pieces.len() && entry::tag_of(#[trigger] pieces[j]) == tag;
            if j < head.len() {
                assert(entry::tag_of(head[j]) == tag);
                assert(before.contains(tag));
                let x = choose|x: int| 0 <= x < before.len() && before[x] == tag;
                assert(all[x] == tag);
            } else if before.contains(tag) {
                let x = choose|x: int| 0 <= x < before.len() && before[x] == tag;
                assert(all[x] == tag);
            } else {
                assert(all[before.len() as int] == tag);
            }
        }
    }
}

/// The pieces of a tag line hold no comma of either width, and with commas between them they
/// are the line again, up to the width of its commas.
pub proof fn law_tag_pieces(raw: Seq<char>)
    ensures
        ({
            let pieces = entry::tag_pieces(raw);
            let line = text::joined(pieces, seq![',']);
            &&& forall|i: int|
                0 <= i < pieces.len() ==> !(#[trigger] pieces[i]).contains(',')
                    && !pieces[i].contains('、')
            &&& line.len() == raw.len()
            &&& forall|i: int|
                0 <= i < raw.len() ==> #[trigger] line[i] == if raw[i] == '、' {
                    ','
                } else {
                    raw[i]
                }
        }),
{
    let plain = raw.map_values(|c: char| entry::plain_comma(c));
    let pieces = entry::tag_pieces(raw);
    text::lemma_split_pieces(plain, ',');
    text::lemma_split_joined(plain, ',');
    assert(!plain.contains('、'));
    text::lemma_split_lacks(plain, ',', '、');
}

} // verus!
