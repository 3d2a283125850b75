//! What setting the state of a task leaves as it was.

use vstd::prelude::*;

use crate::model::entry;
use crate::model::entry::{EntryView, Marker};
use crate::model::line;
use crate::model::note;
use crate::model::note::{NoteView, TodoView};
use crate::model::status::TaskStatus;
use crate::text;

verus! {

/// Whether a line neither bounds a block nor holds data.
spec fn is_plain(l: Seq<char>) -> bool {
    &&& !entry::is_marker(l, Marker::Open)
    &&& !entry::is_marker(l, Marker::MetaEnd)
    &&& !entry::is_marker(l, Marker::Close)
    &&& entry::meta_line(l) is None
    &&& !note::is_todo_heading(l)
}

/// Whether lines are the same but for one, which is plain in both.
spec fn differ_at(a: Seq<Seq<char>>, b: Seq<Seq<char>>, at: int) -> bool {
    &&& a.len() == b.len()
    &&& 0 <= at < a.len()
    &&& forall|i: int| 0 <= i < a.len() && i != at ==> #[trigger] a[i] == b[i]
    &&& is_plain(a[at])
    &&& is_plain(b[at])
}

/// A task line neither bounds a block nor holds data, and is no heading.
proof fn lemma_task_is_plain(l: Seq<char>)
    requires
        line::task_of(l) is Some,
    ensures
        is_plain(l),
{
    let t = text::trimmed_start(l);
    let k = line::indent(l) as int;
    line::lemma_indent(l);
    assert(t[0] == l[k]);
    text::lemma_trimmed_start_front(l);
    text::lemma_trimmed_end_front(t);
    let u = text::trimmed(l);
    assert(u.len() > 0 && u[0] == t[0]);
    reveal_strlit("<!-- acta:comment");
    reveal_strlit("-->");
    reveal_strlit("<!-- /acta:comment -->");
    assert(!text::begins(u, "<!-- acta:comment"@)) by {
        if text::begins(u, "<!-- acta:comment"@) {
            assert(u.take("<!-- acta:comment"@.len() as int)[0] == u[0]);
        }
    }
    assert(u != "-->"@) by {
        text::lemma_trimmed_end_last(t);
        if u == "-->"@ {
            assert(u == t.take(3));
            assert(u[1] == t[1]);
        }
    }
    assert(u != "<!-- /acta:comment -->"@);
    let at = text::first_index(l, ':') as int;
    text::lemma_first_index(l, ':');
    let key = text::trimmed(l.take(at));
    if at < l.len() && key.len() > 0 {
        if at <= k {
            assert(l[at] == ':');
            if at < k {
                assert(text::is_space(l[at]));
            }
        }
        let front = l.take(at);
        assert(front[k] == l[k]);
        assert forall|i: int| 0 <= i < k implies text::is_space(#[trigger] front[i]) by {
            assert(front[i] == l[i]);
        }
        line::lemma_indent_unique(front, k as nat);
        line::lemma_indent(front);
        let rest = text::trimmed_start(front);
        assert(rest[0] == l[k]);
        text::lemma_trimmed_end_front(rest);
        assert(key[0] == l[k]);
        assert(!(text::is_alphanumeric(key[0]) || key[0] == '_'));
    }
}

/// A plain line that differs makes no difference to where a marker is.
proof fn lemma_marker_same(a: Seq<Seq<char>>, b: Seq<Seq<char>>, at: int, i: int, m: Marker)
    requires
        differ_at(a, b, at),
        0 <= i,
    ensures
        entry::first_marker(a, i, m) == entry::first_marker(b, i, m),
    decreases a.len() - i,
{
    if i < a.len() {
        lemma_marker_same(a, b, at, i + 1, m);
        if i != at {
            assert(a[i] == b[i]);
        }
    }
}

/// A plain line that differs makes no difference to the data of a block.
proof fn lemma_meta_same(a: Seq<Seq<char>>, b: Seq<Seq<char>>, at: int, from: int, to: int)
    requires
        differ_at(a, b, at),
        0 <= from <= to <= a.len(),
    ensures
        entry::meta_of(a.subrange(from, to)) == entry::meta_of(b.subrange(from, to)),
    decreases to - from,
{
    if from < to {
        lemma_meta_same(a, b, at, from, to - 1);
        assert(a.subrange(from, to).drop_last() == a.subrange(from, to - 1));
        assert(b.subrange(from, to).drop_last() == b.subrange(from, to - 1));
        if to - 1 != at {
            assert(a[to - 1] == b[to - 1]);
        }
    } else {
        assert(a.subrange(from, to) == b.subrange(from, to));
    }
}

/// A plain line that differs makes no difference to the entries.
proof fn lemma_entries_same(
    a: Seq<Seq<char>>,
    b: Seq<Seq<char>>,
    date: Seq<char>,
    at: int,
    i: int,
)
    requires
        differ_at(a, b, at),
        0 <= i,
    ensures
        entry::entries_from(a, date, i) == entry::entries_from(b, date, i),
    decreases a.len() - i,
{
    let open = entry::first_marker(a, i, Marker::Open);
    let mid = entry::first_marker(a, open + 1, Marker::MetaEnd);
    let close = entry::first_marker(a, mid + 1, Marker::Close);
    lemma_marker_same(a, b, at, i, Marker::Open);
    entry::lemma_first_marker(a, i, Marker::Open);
    assert(0 <= open);
    lemma_marker_same(a, b, at, open + 1, Marker::MetaEnd);
    entry::lemma_first_marker(a, open + 1, Marker::MetaEnd);
    assert(0 <= mid);
    lemma_marker_same(a, b, at, mid + 1, Marker::Close);
    if i <= open < mid < close < a.len() {
        lemma_meta_same(a, b, at, open + 1, mid);
        assert(entry::entry_at(a, date, open, mid, close) == entry::entry_at(
            b,
            date,
            open,
            mid,
            close,
        ));
        lemma_entries_same(a, b, date, at, close + 1);
    }
}

/// A task with its state set, where it stands on a line.
pub open spec fn restated(t: TodoView, at: int, status: TaskStatus) -> TodoView {
    if t.line == at {
        TodoView { status, ..t }
    } else {
        t
    }
}

/// Tasks with the state of the one on a line set.
pub open spec fn all_restated(tasks: Seq<TodoView>, at: int, status: TaskStatus) -> Seq<TodoView> {
    tasks.map_values(|t: TodoView| restated(t, at, status))
}

/// Setting the state of a task keeps the groups.
proof fn lemma_group_same(n: NoteView, at: int, status: TaskStatus, from: int, i: int)
    requires
        0 <= at < n.lines.len(),
        line::task_of(n.lines[at]) is Some,
        0 <= from,
        i <= n.lines.len(),
    ensures
        n.with_status(at, status).group_at(from, i) == n.group_at(from, i),
    decreases i - from,
{
    if i > from {
        lemma_group_same(n, at, status, from, i - 1);
        line::law_mark_sets_status(n.lines[at], status);
        let m = n.with_status(at, status);
        if i - 1 != at {
            assert(m.lines[i - 1] == n.lines[i - 1]);
        }
    }
}

/// Setting the state of a task changes that task among those of a body, and no other.
proof fn lemma_tasks_in(n: NoteView, at: int, status: TaskStatus, from: int, to: int)
    requires
        0 <= at < n.lines.len(),
        line::task_of(n.lines[at]) is Some,
        0 <= from,
        to <= n.lines.len(),
    ensures
        n.with_status(at, status).tasks_in(from, to) == all_restated(
            n.tasks_in(from, to),
            at,
            status,
        ),
    decreases to - from,
{
    let m = n.with_status(at, status);
    if from < to {
        lemma_tasks_in(n, at, status, from, to - 1);
        lemma_group_same(n, at, status, from, to - 1);
        line::law_mark_sets_status(n.lines[at], status);
        let before = n.tasks_in(from, to - 1);
        if to - 1 != at {
            assert(m.lines[to - 1] == n.lines[to - 1]);
        }
        match line::task_of(n.lines[to - 1]) {
            Some((old_status, title)) => {
                let t = TodoView {
                    date: n.date,
                    note_path: n.path,
                    line: to - 1,
                    group: n.group_at(from, to - 1),
                    title,
                    status: old_status,
                };
                assert(n.tasks_in(from, to) == before.push(t));
                assert(m.tasks_in(from, to) == all_restated(before, at, status).push(
                    restated(t, at, status),
                ));
                assert(all_restated(before.push(t), at, status) =~= all_restated(
                    before,
                    at,
                    status,
                ).push(restated(t, at, status)));
            },
            None => {},
        }
    } else {
        assert(m.tasks_in(from, to) =~= all_restated(n.tasks_in(from, to), at, status));
    }
}

/// Setting the state of a task keeps whether an entry holds tasks.
proof fn lemma_holds_same(n: NoteView, at: int, status: TaskStatus, e: EntryView)
    requires
        0 <= at < n.lines.len(),
        line::task_of(n.lines[at]) is Some,
        note::entry_fits(e, n.lines.len() as int),
    ensures
        n.with_status(at, status).holds_todo(e) == n.holds_todo(e),
{
    let m = n.with_status(at, status);
    line::law_mark_sets_status(n.lines[at], status);
    lemma_task_is_plain(n.lines[at]);
    lemma_task_is_plain(m.lines[at]);
}

/// Setting the state of a task changes that task among those of the first entries.
proof fn lemma_tasks_of_first(n: NoteView, at: int, status: TaskStatus, k: int)
    requires
        n.fits(),
        0 <= at < n.lines.len(),
        line::task_of(n.lines[at]) is Some,
        k <= n.entries.len(),
    ensures
        n.with_status(at, status).tasks_of_first(k) == all_restated(
            n.tasks_of_first(k),
            at,
            status,
        ),
    decreases k,
{
    let m = n.with_status(at, status);
    if k > 0 {
        lemma_tasks_of_first(n, at, status, k - 1);
        let e = n.entries[k - 1];
        assert(m.entries[k - 1] == e);
        assert(note::entry_fits(n.entries[k - 1], n.lines.len() as int));
        lemma_holds_same(n, at, status, e);
        let part = if n.holds_todo(e) {
            n.tasks_in(e.body.0, e.body.1)
        } else {
            Seq::empty()
        };
        if n.holds_todo(e) {
            lemma_tasks_in(n, at, status, e.body.0, e.body.1);
        }
        assert(n.tasks_of_first(k) == n.tasks_of_first(k - 1) + part);
        assert(m.tasks_of_first(k) =~= all_restated(n.tasks_of_first(k - 1), at, status)
            + all_restated(part, at, status));
        assert(all_restated(n.tasks_of_first(k - 1) + part, at, status) =~= all_restated(
            n.tasks_of_first(k - 1),
            at,
            status,
        ) + all_restated(part, at, status));
    } else {
        assert(m.tasks_of_first(k) =~= all_restated(n.tasks_of_first(k), at, status));
    }
}

/// Setting the state of a task touches one character of one line. Read again, the note has
/// the entries that it had, and the tasks that it had but for the state of that one.
pub proof fn law_status_touches_one_mark(n: NoteView, at: int, status: TaskStatus)
    requires
        n.is_parsed(),
        0 <= at < n.lines.len(),
        line::task_of(n.lines[at]) is Some,
    ensures
        ({
            let m = n.with_status(at, status);
            &&& m.lines.len() == n.lines.len()
            &&& forall|i: int|
                0 <= i < n.lines.len() && i != at ==> #[trigger] m.lines[i] == n.lines[i]
            &&& exists|p: int|
                0 <= p < n.lines[at].len() && m.lines[at] == #[trigger] n.lines[at].update(
                    p,
                    status.mark(),
                )
            &&& m.is_parsed()
            &&& m.tasks() == all_restated(n.tasks(), at, status)
        }),
{
    let m = n.with_status(at, status);
    line::law_mark_sets_status(n.lines[at], status);
    lemma_task_is_plain(n.lines[at]);
    lemma_task_is_plain(m.lines[at]);
    lemma_entries_same(n.lines, m.lines, n.date, at, 0);
    note::lemma_parsed_fits(n);
    lemma_tasks_of_first(n, at, status, n.entries.len() as int);
}

} // verus!
