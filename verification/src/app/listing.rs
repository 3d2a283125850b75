//! What the lists on the screen hold.

use vstd::prelude::*;

use crate::app::state;
use crate::app::state::AppView;
use crate::app::todos;
use crate::app::todos::PlacedView;
use crate::app::types::{DetailView, RowKind, TodoSort};
use crate::model::chosen;
use crate::model::note::NoteView;
use crate::model::project;
use crate::model::project::{ProjectView, TaskView};
use crate::model::status::TaskStatus;
use crate::pick;
use crate::sort;
use crate::text;

verus! {

// ---------------------------------------------------------------------------- tasks

/// Whether a task of one of the notes comes before another: in an earlier note, or in an
/// earlier line of the same one.
pub open spec fn stands_before(a: PlacedView, b: PlacedView) -> bool {
    a.0 < b.0 || (a.0 == b.0 && a.1.line < b.1.line)
}

/// The tasks of all notes are the tasks of each of them: all of them, with the place of their
/// note, in the order of the notes and of their lines, each once.
pub proof fn law_tasks_of_all_notes(notes: Seq<NoteView>)
    requires
        forall|i: int| 0 <= i < notes.len() ==> (#[trigger] notes[i]).fits(),
    ensures
        ({
            let all = todos::all_todos(notes);
            &&& forall|x: int|
                0 <= x < all.len() ==> 0 <= (#[trigger] all[x]).0 < notes.len()
                    && notes[all[x].0].tasks().contains(all[x].1)
            &&& forall|x: int, y: int|
                0 <= x < y < all.len() ==> stands_before(#[trigger] all[x], #[trigger] all[y])
            &&& forall|i: int, k: int|
                0 <= i < notes.len() && 0 <= k < notes[i].tasks().len() ==> all.contains(
                    (i, #[trigger] notes[i].tasks()[k]),
                )
        }),
    decreases notes.len(),
{
    if notes.len() > 0 {
        let head = notes.drop_last();
        let last = notes.len() - 1;
        let n = notes.last();
        assert forall|i: int| 0 <= i < head.len() implies (#[trigger] head[i]).fits() by {
            assert(head[i] == notes[i]);
        }
        law_tasks_of_all_notes(head);
        assert(notes[last].fits());
        chosen::law_tasks_of_a_note(n);
        let before = todos::all_todos(head);
        let new = todos::placed_at(n.tasks(), last);
        let all = todos::all_todos(notes);
        assert(all == before + new);
        assert forall|x: int| 0 <= x < all.len() implies 0 <= (#[trigger] all[x]).0 < notes.len()
            && notes[all[x].0].tasks().contains(all[x].1) by {
            if x < before.len() {
                assert(all[x] == before[x]);
                assert(head[before[x].0] == notes[before[x].0]);
            } else {
                assert(all[x] == new[x - before.len()]);
                assert(n.tasks()[x - before.len()] == all[x].1);
            }
        }
        assert forall|x: int, y: int| 0 <= x < y < all.len() implies stands_before(
            #[trigger] all[x],
            #[trigger] all[y],
        ) by {
            if y < before.len() {
                assert(all[x] == before[x] && all[y] == before[y]);
            } else if x < before.len() {
                assert(all[x] == before[x] && all[y] == new[y - before.len()]);
            } else {
                assert(all[x] == new[x - before.len()] && all[y] == new[y - before.len()]);
                assert(n.tasks()[x - before.len()].line < n.tasks()[y - before.len()].line);
            }
        }
        assert forall|i: int, k: int|
            0 <= i < notes.len() && 0 <= k < notes[i].tasks().len() implies all.contains(
            (i, #[trigger] notes[i].tasks()[k]),
        ) by {
            if i < last {
                assert(head[i] == notes[i]);
                let p = (i, head[i].tasks()[k]);
                assert(before.contains(p));
                let x = choose|x: int| 0 <= x < before.len() && before[x] == p;
                assert(all[x] == p);
            } else {
                assert(new[k] == (i, n.tasks()[k]));
                assert(all[before.len() + k] == (i, n.tasks()[k]));
            }
        }
    }
}

/// The tasks that pass the filter are all of them, or those that are not done; they keep their
/// order.
pub proof fn law_filter_picks_open_tasks(list: Seq<PlacedView>, open_only: bool)
    ensures
        !open_only ==> todos::unfinished(list, open_only) == list,
        exists|at: Seq<int>|
            {
                &&& #[trigger] pick::is_picked(todos::unfinished(list, open_only), list, at)
                &&& forall|i: int|
                    0 <= i < list.len() ==> #[trigger] at.contains(i) == (!open_only
                        || list[i].1.status != TaskStatus::Done)
            },
{
    let grown = |k: int| todos::unfinished(list.take(k), open_only);
    let keep = |k: int| !open_only || list[k].1.status != TaskStatus::Done;
    assert forall|k: int| #![trigger keep(k)] 0 <= k < list.len() implies {
        &&& keep(k) ==> grown(k + 1) == grown(k).push(list[k])
        &&& !keep(k) ==> grown(k + 1) == grown(k)
    } by {
        assert(list.take(k + 1).drop_last() == list.take(k));
    }
    let at = pick::lemma_picked(grown, list, keep);
    assert(list.take(list.len() as int) == list);
    assert(pick::is_picked(todos::unfinished(list, open_only), list, at));
    if !open_only {
        let n = list.len() as int;
        let all = Seq::new(list.len(), |i: int| i);
        assert forall|k: int| 0 <= k < n implies at.contains(k) == #[trigger] all.contains(k) by {
            assert(all[k] == k);
        }
        pick::lemma_rising_unique(at, all, n);
        assert(todos::unfinished(list, open_only) =~= list);
    }
}

/// The number of tasks that are not done is that of such tasks.
pub proof fn law_open_tasks_are_counted(list: Seq<PlacedView>)
    ensures
        exists|at: Seq<int>|
            {
                &&& #[trigger] pick::rising(at, list.len() as int)
                &&& forall|i: int|
                    0 <= i < list.len() ==> #[trigger] at.contains(i) == (list[i].1.status
                        != TaskStatus::Done)
                &&& state::open_count(list) == at.len()
            },
{
    law_filter_picks_open_tasks(list, true);
    let at = choose|at: Seq<int>|
        {
            &&& #[trigger] pick::is_picked(todos::unfinished(list, true), list, at)
            &&& forall|i: int|
                0 <= i < list.len() ==> #[trigger] at.contains(i) == (list[i].1.status
                    != TaskStatus::Done)
        };
    assert(pick::rising(at, list.len() as int));
}

/// Whether a task is the first of its day.
pub open spec fn is_first_of_day(list: Seq<PlacedView>, i: int) -> bool {
    forall|j: int| 0 <= j < i ==> (#[trigger] list[j]).1.date != list[i].1.date
}

/// The days of tasks are listed each once, in the order of the first task of each, and no day
/// is left out.
pub proof fn law_each_day_once(list: Seq<PlacedView>)
    ensures
        exists|at: Seq<int>|
            {
                let days = todos::days(list);
                &&& #[trigger] pick::rising(at, list.len() as int)
                &&& forall|i: int|
                    0 <= i < list.len() ==> #[trigger] at.contains(i) == is_first_of_day(list, i)
                &&& days.len() == at.len()
                &&& forall|d: int| 0 <= d < days.len() ==> #[trigger] days[d] == list[at[d]].1.date
            },
        forall|i: int|
            0 <= i < list.len() ==> todos::days(list).contains((#[trigger] list[i]).1.date),
{
    let n = list.len() as int;
    let days = todos::days(list);
    let grown = |k: int| todos::days(list.take(k));
    let keep = |k: int| is_first_of_day(list, k);
    let item = |k: int| list[k].1.date;
    assert forall|k: int| #![trigger keep(k)] 0 <= k < n implies {
        &&& keep(k) ==> grown(k + 1) == grown(k).push(item(k))
        &&& !keep(k) ==> grown(k + 1) == grown(k)
    } by {
        let head = list.take(k);
        assert(list.take(k + 1).drop_last() == head);
        lemma_day_is_there(head, list[k].1.date);
        if todos::days(head).contains(list[k].1.date) {
            let j = choose|j: int| 0 <= j < head.len() && (#[trigger] head[j]).1.date == list[k].1.date;
            assert(list[j].1.date == list[k].1.date);
        } else {
            assert forall|j: int| 0 <= j < k implies (#[trigger] list[j]).1.date
                != list[k].1.date by {
                assert(head[j] == list[j]);
            }
        }
    }
    pick::lemma_collected(grown, n, keep, item);
    pick::lemma_places(n, keep);
    assert(list.take(n) == list);
    let at = pick::places(n, keep);
    assert(pick::rising(at, n));
    assert forall|d: int| 0 <= d < days.len() implies #[trigger] days[d] == list[at[d]].1.date by {
        assert(grown(n)[d] == item(at[d]));
    }
    assert forall|i: int| 0 <= i < list.len() implies todos::days(list).contains(
        (#[trigger] list[i]).1.date,
    ) by {
        lemma_day_is_there(list, list[i].1.date);
    }
}

proof fn lemma_day_is_there(list: Seq<PlacedView>, day: Seq<char>)
    ensures
        todos::days(list).contains(day) == (exists|j: int|
            0 <= j < list.len() && (#[trigger] list[j]).1.date == day),
    decreases list.len(),
{
    if list.len() > 0 {
        let head = list.drop_last();
        lemma_day_is_there(head, day);
        let before = todos::days(head);
        let all = todos::days(list);
        if all.contains(day) {
            let x = choose|x: int| 0 <= x < all.len() && all[x] == day;
            if x < before.len() {
                assert(before[x] == day);
                assert(before.contains(day));
                let j = choose|j: int| 0 <= j < head.len() && (#[trigger] head[j]).1.date == day;
                assert(list[j].1.date == day);
            } else {
                assert(list[list.len() - 1].1.date == day);
            }
        }
        if exists|j: int| 0 <= j < list.len() && (#[trigger] list[j]).1.date == day {
            let j = choose|j: int| 0 <= j < list.len() && (#[trigger] list[j]).1.date == day;
            if j < head.len() {
                assert(head[j].1.date == day);
                assert(before.contains(day));
            }
            if before.contains(day) {
                let x = choose|x: int| 0 <= x < before.len() && before[x] == day;
                assert(all[x] == day);
            } else {
                assert(all[before.len() as int] == day);
            }
        }
    }
}

/// The days that are shown are all days of tasks that pass the filter, or the first of them:
/// as many as notes are listed. Where all notes are listed, all days are shown.
pub proof fn law_days_shown(s: AppView)
    ensures
        ({
            let days = todos::days(s.open_todos());
            let limit = s.config.recent_notes as int;
            &&& s.show_all_notes || limit == 0 || days.len() <= limit ==> s.days_shown() == days
            &&& !s.show_all_notes && 0 < limit < days.len() ==> s.days_shown().len() == limit
                && forall|d: int| 0 <= d < limit ==> #[trigger] s.days_shown()[d] == days[d]
        }),
{
}

/// The tasks of a day are those with that day, in their order.
pub proof fn law_tasks_of_a_day(list: Seq<PlacedView>, day: Seq<char>)
    ensures
        exists|at: Seq<int>|
            {
                &&& #[trigger] pick::is_picked(todos::of_day(list, day), list, at)
                &&& forall|i: int|
                    0 <= i < list.len() ==> #[trigger] at.contains(i) == (list[i].1.date == day)
            },
{
    let grown = |k: int| todos::of_day(list.take(k), day);
    let keep = |k: int| list[k].1.date == day;
    assert forall|k: int| #![trigger keep(k)] 0 <= k < list.len() implies {
        &&& keep(k) ==> grown(k + 1) == grown(k).push(list[k])
        &&& !keep(k) ==> grown(k + 1) == grown(k)
    } by {
        assert(list.take(k + 1).drop_last() == list.take(k));
    }
    let at = pick::lemma_picked(grown, list, keep);
    assert(list.take(list.len() as int) == list);
    assert(pick::is_picked(todos::of_day(list, day), list, at));
}

/// Whether a task comes before another in an order.
pub open spec fn is_sorted_before(a: PlacedView, b: PlacedView, by: TodoSort) -> bool {
    match by {
        TodoSort::Date => false,
        TodoSort::Status => match (a.1.status, b.1.status) {
            (TaskStatus::Backlog, TaskStatus::InProgress) => true,
            (TaskStatus::Backlog, TaskStatus::Done) => true,
            (TaskStatus::InProgress, TaskStatus::Done) => true,
            _ => false,
        },
        TodoSort::Project => sort::reads_before(a.1.group, b.1.group),
    }
}

/// Characters are ordered as their numbers are.
proof fn lemma_char(a: char, b: char)
    ensures
        (a as u64 == b as u64) == (a == b),
        ((a as u64) < (b as u64)) == (a < b),
{
}

proof fn lemma_text_less(a: Seq<char>, b: Seq<char>)
    ensures
        sort::key_less(sort::text_key(a), sort::text_key(b)) == sort::reads_before(a, b),
{
    sort::law_keys_are_ordered(sort::text_key(a), sort::text_key(b));
    let x = sort::text_key(a);
    let y = sort::text_key(b);
    assert forall|i: int| 0 <= i < a.len() && i < b.len() implies {
        &&& (#[trigger] x[i] == #[trigger] y[i]) == (a[i] == b[i])
        &&& (x[i] < y[i]) == (a[i] < b[i])
    } by {
        lemma_char(a[i], b[i]);
    }
    if sort::reads_before(a, b) {
        let k = choose|k: int| #[trigger] sort::parts_at(a, b, k);
        assert forall|i: int| 0 <= i < k implies #[trigger] x[i] == y[i] by {
            assert(a[i] == b[i]);
        }
        assert(k < a.len() ==> x[k] < y[k]);
        assert(sort::differs_at(x, y, k));
    }
    if sort::key_less(x, y) {
        let k = choose|k: int| #[trigger] sort::differs_at(x, y, k);
        assert forall|i: int| 0 <= i < k implies #[trigger] a[i] == b[i] by {
            assert(x[i] == y[i]);
        }
        assert(k < a.len() ==> x[k] < y[k]);
        assert(sort::parts_at(a, b, k));
    }
}

proof fn lemma_key_less(a: PlacedView, b: PlacedView, by: TodoSort)
    ensures
        sort::key_less(todos::todo_key(a.1, by), todos::todo_key(b.1, by)) == is_sorted_before(
            a,
            b,
            by,
        ),
{
    let x = todos::todo_key(a.1, by);
    let y = todos::todo_key(b.1, by);
    match by {
        TodoSort::Date => {},
        TodoSort::Status => {
            sort::law_keys_are_ordered(x, y);
            if sort::key_less(x, y) {
                let k = choose|k: int| #[trigger] sort::differs_at(x, y, k);
                assert(k == 0);
            }
            if x[0] < y[0] {
                assert(sort::differs_at(x, y, 0));
            }
        },
        TodoSort::Project => {
            lemma_text_less(a.1.group, b.1.group);
        },
    }
}

/// Tasks that are put in an order are the same tasks, each at one place. None stands behind one
/// that it comes before, and of two that are equal in the order the one that came first stays
/// first.
pub proof fn law_tasks_are_sorted(list: Seq<PlacedView>, by: TodoSort)
    ensures
        exists|order: Seq<int>|
            {
                let all = todos::arranged(list, by);
                &&& #[trigger] order.no_duplicates()
                &&& order.len() == list.len() && all.len() == list.len()
                &&& forall|i: int|
                    0 <= i < all.len() ==> 0 <= #[trigger] order[i] < list.len() && all[i]
                        == list[order[i]]
                &&& forall|i: int, j: int|
                    0 <= i < j < all.len() ==> !is_sorted_before(
                        #[trigger] all[j],
                        #[trigger] all[i],
                        by,
                    ) && (is_sorted_before(all[i], all[j], by) || order[i] < order[j])
            },
{
    let all = todos::arranged(list, by);
    if by is Date {
        let order = Seq::new(list.len(), |i: int| i);
        assert(order.no_duplicates());
    } else {
        let keys = list.map_values(|p: PlacedView| todos::todo_key(p.1, by));
        let order = sort::order_of(keys);
        sort::law_order_is_stable(keys);
        assert forall|i: int, j: int| 0 <= i < j < all.len() implies !is_sorted_before(
            #[trigger] all[j],
            #[trigger] all[i],
            by,
        ) && (is_sorted_before(all[i], all[j], by) || order[i] < order[j]) by {
            let a = list[order[i]];
            let b = list[order[j]];
            lemma_key_less(b, a, by);
            lemma_key_less(a, b, by);
            assert(keys[order[i]] == todos::todo_key(a.1, by));
            assert(keys[order[j]] == todos::todo_key(b.1, by));
            assert(!sort::key_less(keys[order[j]], keys[order[i]]));
            if !sort::key_less(keys[order[i]], keys[order[j]]) {
                sort::lemma_less_total(keys[order[i]], keys[order[j]]);
                assert(order[i] < order[j]);
            }
        }
        assert(order.no_duplicates());
    }
}

// ----------------------------------------------------------------------------- rows

/// Whether a heading stands before a task: it has a project, and the task before it has not the
/// same.
pub open spec fn has_heading(list: Seq<PlacedView>, i: int) -> bool {
    list[i].1.group.len() > 0 && (i == 0 || list[i - 1].1.group != list[i].1.group)
}

/// The rows of the task list are its tasks in order, each once, and before a task whose project
/// is not that of the one before it the name of the project. There are no other rows.
#[verifier::spinoff_prover]
#[verifier::rlimit(30)]
pub proof fn law_rows_show_the_tasks(list: Seq<PlacedView>)
    ensures
        exists|at: Seq<int>|
            {
                let rows = todos::rows_of(list);
                &&& #[trigger] pick::rising(at, todos::rows_of(list).len() as int)
                &&& at.len() == list.len()
                &&& forall|i: int|
                    0 <= i < list.len() ==> rows[#[trigger] at[i]] == RowKind::Task(i) && (
                    has_heading(list, i) ==> at[i] > 0 && rows[at[i] - 1] == RowKind::Group(
                        list[i].1.group,
                    ))
                &&& forall|r: int|
                    0 <= r < rows.len() && !(#[trigger] at.contains(r)) ==> exists|i: int|
                        0 <= i < list.len() && has_heading(list, i) && #[trigger] at[i] == r + 1
            },
    decreases list.len(),
{
    let rows = todos::rows_of(list);
    if list.len() == 0 {
        let at = Seq::<int>::empty();
        assert(rows.len() == 0);
        assert(pick::rising(at, rows.len() as int));
    } else {
        let head = list.drop_last();
        let n = list.len() - 1;
        law_rows_show_the_tasks(head);
        let before = todos::rows_of(head);
        let old = choose|at: Seq<int>|
            {
                &&& #[trigger] pick::rising(at, before.len() as int)
                &&& at.len() == head.len()
                &&& forall|i: int|
                    0 <= i < head.len() ==> before[#[trigger] at[i]] == RowKind::Task(i) && (
                    has_heading(head, i) ==> at[i] > 0 && before[at[i] - 1] == RowKind::Group(
                        head[i].1.group,
                    ))
                &&& forall|r: int|
                    0 <= r < before.len() && !(#[trigger] at.contains(r)) ==> exists|i: int|
                        0 <= i < head.len() && has_heading(head, i) && #[trigger] at[i] == r + 1
            };
        let spot = rows.len() - 1;
        let at = old.push(spot);
        assert forall|i: int| 0 <= i < n implies has_heading(head, i) == has_heading(
            list,
            i,
        ) by {
            assert(head[i] == list[i]);
        }
        assert(has_heading(list, n) ==> rows == before.push(
            RowKind::Group(list[n].1.group),
        ).push(RowKind::Task(n)));
        assert(!has_heading(list, n) ==> rows == before.push(RowKind::Task(n)));
        assert(pick::rising(at, rows.len() as int));
        assert forall|i: int| 0 <= i < list.len() implies rows[#[trigger] at[i]] == RowKind::Task(i)
            && (has_heading(list, i) ==> at[i] > 0 && rows[at[i] - 1] == RowKind::Group(
            list[i].1.group,
        )) by {
            if i < n {
                assert(at[i] == old[i]);
                assert(rows[at[i]] == before[old[i]]);
                assert(head[i] == list[i]);
            }
        }
        assert forall|r: int|
            0 <= r < rows.len() && !(#[trigger] at.contains(r)) implies exists|i: int|
            0 <= i < list.len() && has_heading(list, i) && #[trigger] at[i] == r + 1 by {
            assert(at[n] == spot);
            if r < before.len() {
                if old.contains(r) {
                    let x = choose|x: int| 0 <= x < old.len() && old[x] == r;
                    assert(at[x] == r);
                }
                let i = choose|i: int|
                    0 <= i < head.len() && has_heading(head, i) && #[trigger] old[i] == r + 1;
                assert(at[i] == r + 1);
            } else {
                assert(r != spot);
                assert(at[n] == r + 1);
            }
        }
    }
}

/// The task list in Markdown has a line for its heading and one for each row: the name of a
/// project behind a bullet, and a task with a check box, indented below a project.
pub proof fn law_markdown_has_the_rows(day: Seq<char>, list: Seq<PlacedView>)
    ensures
        exists|lines: Seq<Seq<char>>|
            {
                let rows = todos::rows_of(list);
                &&& todos::markdown_of(day, list) == #[trigger] text::joined(lines, seq!['\n'])
                &&& lines.len() == rows.len() + 1
                &&& lines[0] == seq!['#', ' '] + todos::heading_of(day)
                &&& forall|r: int|
                    0 <= r < rows.len() ==> lines[r + 1] == match #[trigger] rows[r] {
                        RowKind::Group(name) => seq!['-', ' '] + name,
                        RowKind::Task(i) => {
                            let t = list[i].1;
                            let task = seq!['-', ' ', '[', t.status.mark(), ']', ' '] + t.title;
                            if t.group.len() == 0 {
                                task
                            } else {
                                seq![' ', ' '] + task
                            }
                        },
                    }
            },
{
    let rows = todos::rows_of(list);
    let lines = seq![seq!['#', ' '] + todos::heading_of(day)] + rows.map_values(
        |row: RowKind| todos::markdown_row(list, row),
    );
    assert forall|r: int| 0 <= r < rows.len() implies lines[r + 1] == match #[trigger] rows[r] {
        RowKind::Group(name) => seq!['-', ' '] + name,
        RowKind::Task(i) => {
            let t = list[i].1;
            let task = seq!['-', ' ', '[', t.status.mark(), ']', ' '] + t.title;
            if t.group.len() == 0 {
                task
            } else {
                seq![' ', ' '] + task
            }
        },
    } by {
        assert(lines[r + 1] == todos::markdown_row(list, rows[r]));
    }
    assert(todos::markdown_of(day, list) == text::joined(lines, seq!['\n']));
}

// ------------------------------------------------------------------------- projects

/// The projects that are listed are all of them, or those that are not archived, in order, by
/// their places.
pub proof fn law_projects_are_listed(projects: Seq<ProjectView>, archived: bool)
    ensures
        ({
            let at = state::listed_projects(projects, archived);
            &&& pick::rising(at, projects.len() as int)
            &&& forall|i: int|
                0 <= i < projects.len() ==> #[trigger] at.contains(i) == (archived
                    || projects[i].archived_at_ms <= 0)
        }),
{
    let n = projects.len() as int;
    let grown = |k: int| state::listed_projects(projects.take(k), archived);
    let keep = |k: int| archived || projects[k].archived_at_ms <= 0;
    let item = |k: int| k;
    assert forall|k: int| #![trigger keep(k)] 0 <= k < n implies {
        &&& keep(k) ==> grown(k + 1) == grown(k).push(item(k))
        &&& !keep(k) ==> grown(k + 1) == grown(k)
    } by {
        assert(projects.take(k + 1).drop_last() == projects.take(k));
    }
    pick::lemma_collected(grown, n, keep, item);
    pick::lemma_places(n, keep);
    assert(projects.take(n) == projects);
    assert(state::listed_projects(projects, archived) =~= pick::places(n, keep));
}

/// The tasks that are shown of a project are those that are not started, then those in
/// progress, then those that are done; of the last only the first ones where there is a limit.
pub proof fn law_tasks_of_a_project(tasks: Seq<TaskView>, limit: int)
    ensures
        ({
            let all = state::shown_tasks(tasks, limit);
            let a = project::tasks_in(tasks, TaskStatus::Backlog);
            let b = project::tasks_in(tasks, TaskStatus::InProgress);
            let c = project::tasks_in(tasks, TaskStatus::Done);
            let open = (a.len() + b.len()) as int;
            &&& open <= all.len()
            &&& all.len() == open + if 0 < limit < c.len() {
                limit
            } else {
                c.len() as int
            }
            &&& forall|i: int| 0 <= i < a.len() ==> #[trigger] all[i] == a[i]
            &&& forall|i: int| a.len() <= i < open ==> #[trigger] all[i] == b[i - a.len()]
            &&& forall|i: int| open <= i < all.len() ==> #[trigger] all[i] == c[i - open]
        }),
{
}

/// The places of the tasks in a body are those of its lines that can be chosen as one, in order.
pub proof fn law_spots_are_the_tasks(lines: Seq<DetailView>)
    ensures
        ({
            let at = state::task_spots(lines);
            &&& pick::rising(at, lines.len() as int)
            &&& forall|i: int|
                0 <= i < lines.len() ==> #[trigger] at.contains(i) == (lines[i].task_line is Some)
        }),
{
    let n = lines.len() as int;
    let grown = |k: int| state::task_spots(lines.take(k));
    let keep = |k: int| lines[k].task_line is Some;
    let item = |k: int| k;
    assert forall|k: int| #![trigger keep(k)] 0 <= k < n implies {
        &&& keep(k) ==> grown(k + 1) == grown(k).push(item(k))
        &&& !keep(k) ==> grown(k + 1) == grown(k)
    } by {
        assert(lines.take(k + 1).drop_last() == lines.take(k));
    }
    pick::lemma_collected(grown, n, keep, item);
    pick::lemma_places(n, keep);
    assert(lines.take(n) == lines);
    assert(state::task_spots(lines) =~= pick::places(n, keep));
}

/// Where all notes are to be listed, or where there is no limit, all are listed; else as many
/// as the limit says, or all where there are fewer.
pub proof fn law_notes_are_listed(s: AppView)
    ensures
        s.show_all_notes || s.config.recent_notes == 0 ==> s.notes_shown() == s.notes.len(),
        !s.show_all_notes && 0 < s.config.recent_notes <= s.notes.len() ==> s.notes_shown()
            == s.config.recent_notes,
        s.config.recent_notes > s.notes.len() ==> s.notes_shown() == s.notes.len(),
{
}

} // verus!
