//! How the tasks of projects follow the rows of a task list.

use vstd::prelude::*;

use crate::app::gathered;
use crate::app::plan;
use crate::app::plan::PairView;
use crate::model::note::RowView;
use crate::model::project;
use crate::model::project::{ProjectView, TaskView};
use crate::model::status::TaskStatus;
use crate::pick;

verus! {

// -------------------------------------------------------------------------- rows

/// Whether row `r` is the first one of a project with a title.
pub open spec fn is_first_row(rows: Seq<RowView>, r: int, name: Seq<char>, title: Seq<char>) -> bool {
    &&& 0 <= r < rows.len()
    &&& rows[r].0 == name && rows[r].1 == title
    &&& forall|q: int| 0 <= q < r ==> !((#[trigger] rows[q]).0 == name && rows[q].1 == title)
}

/// Whether no row of a project has a title.
pub open spec fn is_no_row(rows: Seq<RowView>, name: Seq<char>, title: Seq<char>) -> bool {
    forall|r: int| 0 <= r < rows.len() ==> !((#[trigger] rows[r]).0 == name && rows[r].1 == title)
}

/// Whether a title stood in a row of a project and stands in none any more.
pub open spec fn went(
    before: Seq<RowView>,
    after: Seq<RowView>,
    name: Seq<char>,
    title: Seq<char>,
) -> bool {
    !is_no_row(before, name, title) && is_no_row(after, name, title)
}

/// Whether a state is that of the first row with the title of a task, or its own where there is
/// no such row.
pub open spec fn is_state_of(
    status: TaskStatus,
    t: TaskView,
    after: Seq<RowView>,
    name: Seq<char>,
) -> bool {
    ||| exists|r: int| #[trigger] is_first_row(after, r, name, t.title) && status == after[r].2
    ||| is_no_row(after, name, t.title) && status == t.status
}

/// Whether tasks are those of a project that stay: all but those whose rows went, where rows
/// may go. They keep their order and their titles, and have the states of their rows.
pub open spec fn are_staying(
    kept: Seq<PairView>,
    tasks: Seq<TaskView>,
    before: Seq<RowView>,
    after: Seq<RowView>,
    name: Seq<char>,
    allow: bool,
) -> bool {
    exists|at: Seq<int>|
        {
            &&& #[trigger] pick::rising(at, tasks.len() as int)
            &&& forall|i: int|
                0 <= i < tasks.len() ==> #[trigger] at.contains(i) == !(allow && went(
                    before,
                    after,
                    name,
                    tasks[i].title,
                ))
            &&& kept.len() == at.len()
            &&& forall|k: int|
                0 <= k < kept.len() ==> (#[trigger] kept[k]).1 == tasks[at[k]].title
                    && is_state_of(kept[k].0, tasks[at[k]], after, name)
        }
}

/// Whether tasks are those of rows that came, where rows may come: each first row of a project
/// with a title that no task has, in the order of the rows.
pub open spec fn are_joining(
    new: Seq<PairView>,
    kept: Seq<PairView>,
    after: Seq<RowView>,
    name: Seq<char>,
    allow: bool,
) -> bool {
    exists|at: Seq<int>|
        {
            &&& #[trigger] pick::rising(at, after.len() as int)
            &&& forall|r: int|
                0 <= r < after.len() ==> #[trigger] at.contains(r) == (allow && is_first_row(
                    after,
                    r,
                    name,
                    after[r].1,
                ) && forall|k: int|
                    0 <= k < kept.len() ==> (#[trigger] kept[k]).1 != after[r].1)
            &&& new.len() == at.len()
            &&& forall|k: int|
                0 <= k < new.len() ==> #[trigger] new[k] == (after[at[k]].2, after[at[k]].1)
        }
}

/// Whether a number is that of rows of a project that went, where rows may go.
pub open spec fn is_gone_count(
    count: int,
    before: Seq<RowView>,
    after: Seq<RowView>,
    name: Seq<char>,
    allow: bool,
) -> bool {
    exists|at: Seq<int>|
        {
            &&& #[trigger] pick::rising(at, before.len() as int)
            &&& forall|r: int|
                0 <= r < before.len() ==> #[trigger] at.contains(r) == (allow && before[r].0 == name
                    && is_no_row(after, name, before[r].1))
            &&& count == at.len()
        }
}

/// Whether tasks are already those of a project, with their states.
pub open spec fn are_same(next: Seq<PairView>, tasks: Seq<TaskView>) -> bool {
    next.len() == tasks.len() && forall|i: int|
        0 <= i < next.len() ==> #[trigger] next[i] == (tasks[i].status, tasks[i].title)
}

/// Whether a name stands in one of the rows.
pub open spec fn is_named(rows: Seq<RowView>, name: Seq<char>) -> bool {
    exists|r: int| 0 <= r < rows.len() && (#[trigger] rows[r]).0 == name
}

// ------------------------------------------------------------------------- parts

proof fn lemma_row_at(rows: Seq<RowView>, name: Seq<char>, title: Seq<char>, i: int)
    requires
        0 <= i <= rows.len(),
        forall|q: int| 0 <= q < i ==> !((#[trigger] rows[q]).0 == name && rows[q].1 == title),
    ensures
        ({
            let at = plan::row_at(rows, name, title, i);
            if at < rows.len() {
                is_first_row(rows, at, name, title)
            } else {
                is_no_row(rows, name, title)
            }
        }),
    decreases rows.len() - i,
{
    if i < rows.len() && !(rows[i].0 == name && rows[i].1 == title) {
        lemma_row_at(rows, name, title, i + 1);
    }
}

proof fn lemma_has_row(rows: Seq<RowView>, name: Seq<char>, title: Seq<char>)
    ensures
        plan::has_row(rows, name, title) == !is_no_row(rows, name, title),
{
    lemma_row_at(rows, name, title, 0);
}

/// The titles that are gone are those of rows that went.
proof fn lemma_gone(before: Seq<RowView>, after: Seq<RowView>, name: Seq<char>)
    ensures
        is_gone_count(
            plan::gone(before, after, name).len() as int,
            before,
            after,
            name,
            true,
        ),
        forall|title: Seq<char>| #[trigger]
            plan::gone(before, after, name).contains(title) == went(before, after, name, title),
{
    let n = before.len() as int;
    let grown = |k: int| plan::gone(before.take(k), after, name);
    let keep = |k: int| before[k].0 == name && is_no_row(after, name, before[k].1);
    let item = |k: int| before[k].1;
    assert forall|k: int| #![trigger keep(k)] 0 <= k < n implies {
        &&& keep(k) ==> grown(k + 1) == grown(k).push(item(k))
        &&& !keep(k) ==> grown(k + 1) == grown(k)
    } by {
        assert(before.take(k + 1).drop_last() == before.take(k));
        lemma_has_row(after, name, before[k].1);
    }
    pick::lemma_collected(grown, n, keep, item);
    pick::lemma_places(n, keep);
    let at = pick::places(n, keep);
    assert(before.take(n) == before);
    let all = plan::gone(before, after, name);
    assert(pick::rising(at, n));
    assert(all == grown(n));
    assert forall|title: Seq<char>| #[trigger] all.contains(title) == went(
        before,
        after,
        name,
        title,
    ) by {
        if all.contains(title) {
            let x = choose|x: int| 0 <= x < all.len() && all[x] == title;
            assert(grown(n)[x] == item(at[x]));
            assert(at.contains(at[x]));
            assert(before[at[x]].0 == name && before[at[x]].1 == title);
        }
        if went(before, after, name, title) {
            let r = choose|r: int|
                0 <= r < before.len() && (#[trigger] before[r]).0 == name && before[r].1 == title;
            assert(keep(r));
            assert(at.contains(r));
            let x = choose|x: int| 0 <= x < at.len() && at[x] == r;
            assert(grown(n)[x] == item(at[x]));
            assert(all[x] == title);
        }
    }
}

proof fn lemma_staying(
    tasks: Seq<TaskView>,
    before: Seq<RowView>,
    after: Seq<RowView>,
    name: Seq<char>,
    allow: bool,
    removed: Seq<Seq<char>>,
)
    requires
        removed == if allow {
            plan::gone(before, after, name)
        } else {
            Seq::empty()
        },
    ensures
        are_staying(
            plan::staying(tasks, after, name, removed),
            tasks,
            before,
            after,
            name,
            allow,
        ),
{
    let n = tasks.len() as int;
    let grown = |k: int| plan::staying(tasks.take(k), after, name, removed);
    let keep = |k: int| !(allow && went(before, after, name, tasks[k].title));
    let item = |k: int| (plan::state_of(after, name, tasks[k]), tasks[k].title);
    lemma_gone(before, after, name);
    assert forall|k: int| #![trigger keep(k)] 0 <= k < n implies {
        &&& keep(k) ==> grown(k + 1) == grown(k).push(item(k))
        &&& !keep(k) ==> grown(k + 1) == grown(k)
    } by {
        assert(tasks.take(k + 1).drop_last() == tasks.take(k));
        assert(allow ==> removed.contains(tasks[k].title) == went(
            before,
            after,
            name,
            tasks[k].title,
        ));
    }
    pick::lemma_collected(grown, n, keep, item);
    pick::lemma_places(n, keep);
    assert(tasks.take(n) == tasks);
    let at = pick::places(n, keep);
    let kept = plan::staying(tasks, after, name, removed);
    assert(kept == grown(n));
    assert(pick::rising(at, n));
    assert forall|k: int| 0 <= k < kept.len() implies (#[trigger] kept[k]).1 == tasks[at[k]].title
        && is_state_of(kept[k].0, tasks[at[k]], after, name) by {
        assert(grown(n)[k] == item(at[k]));
        lemma_row_at(after, name, tasks[at[k]].title, 0);
    }
}

/// The tasks with those of the first rows behind them: what is new is what joins.
proof fn lemma_joining(kept: Seq<PairView>, after: Seq<RowView>, name: Seq<char>, n: int) -> (at:
    Seq<int>)
    requires
        0 <= n <= after.len(),
    ensures
        pick::rising(at, n),
        forall|r: int|
            0 <= r < n ==> #[trigger] at.contains(r) == (is_first_row(after, r, name, after[r].1)
                && forall|k: int| 0 <= k < kept.len() ==> (#[trigger] kept[k]).1 != after[r].1),
        ({
            let all = plan::joining(kept, after.take(n), name);
            &&& all.len() == kept.len() + at.len()
            &&& forall|k: int| 0 <= k < kept.len() ==> #[trigger] all[k] == kept[k]
            &&& forall|k: int|
                0 <= k < at.len() ==> all[kept.len() + k] == (
                    after[#[trigger] at[k]].2,
                    after[at[k]].1,
                )
        }),
    decreases n,
{
    if n <= 0 {
        Seq::empty()
    } else {
        let head = lemma_joining(kept, after, name, n - 1);
        let row = after[n - 1];
        assert(after.take(n).drop_last() == after.take(n - 1));
        assert(after.take(n).last() == row);
        let before = plan::joining(kept, after.take(n - 1), name);
        gathered::lemma_title_at(before, row.1, 0);
        let there = plan::title_at(before, row.1, 0) < before.len();
        let fresh = is_first_row(after, n - 1, name, row.1) && forall|k: int|
            0 <= k < kept.len() ==> (#[trigger] kept[k]).1 != row.1;
        if row.0 == name {
            if there {
                let x = plan::title_at(before, row.1, 0);
                if x < kept.len() {
                    assert(kept[x].1 == row.1);
                } else {
                    let r = head[x - kept.len()];
                    assert(before[kept.len() + (x - kept.len())] == (after[r].2, after[r].1));
                    assert(head.contains(r));
                    assert(after[r].0 == name && after[r].1 == row.1);
                }
                assert(!fresh);
            } else {
                assert forall|k: int| 0 <= k < kept.len() implies (#[trigger] kept[k]).1
                    != row.1 by {
                    assert(before[k] == kept[k]);
                }
                if !is_first_row(after, n - 1, name, row.1) {
                    let q = choose|q: int|
                        0 <= q < n - 1 && (#[trigger] after[q]).0 == name && after[q].1 == row.1;
                    let first = plan::row_at(after, name, row.1, 0);
                    lemma_row_at(after, name, row.1, 0);
                    assert(first <= q) by {
                        if first > q {
                            assert(!(after[q].0 == name && after[q].1 == row.1));
                        }
                    }
                    assert(after[first].1 == row.1);
                    assert(head.contains(first));
                    let x = choose|x: int| 0 <= x < head.len() && head[x] == first;
                    assert(before[kept.len() + x].1 == row.1);
                    assert(false);
                }
                assert(fresh);
            }
        }
        let at = if fresh {
            head.push(n - 1)
        } else {
            head
        };
        let all = plan::joining(kept, after.take(n), name);
        assert(fresh ==> all == before.push((row.2, row.1)));
        assert(!fresh ==> all == before);
        assert forall|r: int| 0 <= r < n implies #[trigger] at.contains(r) == (is_first_row(
            after,
            r,
            name,
            after[r].1,
        ) && forall|k: int| 0 <= k < kept.len() ==> (#[trigger] kept[k]).1 != after[r].1) by {
            if r < n - 1 {
                if head.contains(r) {
                    let x = choose|x: int| 0 <= x < head.len() && head[x] == r;
                    assert(at[x] == r);
                }
                if at.contains(r) {
                    let x = choose|x: int| 0 <= x < at.len() && at[x] == r;
                    assert(head[x] == r);
                }
            } else {
                if fresh {
                    assert(at[head.len() as int] == r);
                } else if at.contains(r) {
                    let x = choose|x: int| 0 <= x < at.len() && at[x] == r;
                    assert(head[x] < n - 1);
                }
            }
        }
        assert forall|k: int| 0 <= k < kept.len() implies #[trigger] all[k] == kept[k] by {
            assert(before[k] == kept[k]);
        }
        assert forall|k: int| 0 <= k < at.len() implies all[kept.len() + k] == (
            after[#[trigger] at[k]].2,
            after[at[k]].1,
        ) by {
            if k < head.len() {
                assert(at[k] == head[k]);
                assert(all[kept.len() + k] == before[kept.len() + k]);
            }
        }
        at
    }
}

/// What changes in a project follows the rows.
proof fn lemma_change(
    p: ProjectView,
    idx: int,
    before: Seq<RowView>,
    after: Seq<RowView>,
    allow: bool,
) -> (r: (Seq<PairView>, Seq<PairView>))
    ensures
        ({
            let (kept, new) = r;
            &&& are_staying(kept, p.tasks, before, after, p.name, allow)
            &&& are_joining(new, kept, after, p.name, allow)
            &&& match plan::change_of(p, idx, before, after, p.name, allow) {
                Some(c) => {
                    &&& !are_same(kept + new, p.tasks)
                    &&& c.project_idx == idx
                    &&& c.tasks == kept + new
                    &&& c.added == new.len()
                    &&& is_gone_count(c.removed, before, after, p.name, allow)
                },
                None => are_same(kept + new, p.tasks),
            }
        }),
{
    let removed = if allow {
        plan::gone(before, after, p.name)
    } else {
        Seq::empty()
    };
    lemma_gone(before, after, p.name);
    lemma_staying(p.tasks, before, after, p.name, allow, removed);
    let kept = plan::staying(p.tasks, after, p.name, removed);
    if !allow {
        let none = Seq::<int>::empty();
        assert(pick::rising(none, before.len() as int));
        assert(is_gone_count(0, before, after, p.name, false));
    }
    let n = after.len() as int;
    let at = lemma_joining(kept, after, p.name, n);
    assert(after.take(n) == after);
    let next = if allow {
        plan::joining(kept, after, p.name)
    } else {
        kept
    };
    let new = next.skip(kept.len() as int);
    assert(next =~= kept + new);
    if allow {
        assert forall|k: int| 0 <= k < new.len() implies #[trigger] new[k] == (
            after[at[k]].2,
            after[at[k]].1,
        ) by {
            assert(new[k] == next[kept.len() + k]);
        }
        assert(pick::rising(at, n));
    } else {
        let none = Seq::<int>::empty();
        assert(pick::rising(none, n));
    }
    assert(are_joining(new, kept, after, p.name, allow));
    let pairs = project::task_pairs(p.tasks);
    assert(are_same(next, p.tasks) == (next == pairs)) by {
        if are_same(next, p.tasks) {
            assert(next =~= pairs);
        }
    }
    (kept, new)
}

proof fn lemma_named_groups(rows: Seq<RowView>)
    ensures
        ({
            let groups = plan::named_groups(rows);
            &&& forall|name: Seq<char>| #[trigger]
                groups.contains(name) == (name.len() > 0 && is_named(rows, name))
            &&& groups.no_duplicates()
        }),
    decreases rows.len(),
{
    if rows.len() > 0 {
        let head = rows.drop_last();
        lemma_named_groups(head);
        let before = plan::named_groups(head);
        let groups = plan::named_groups(rows);
        let last = rows.last().0;
        assert forall|name: Seq<char>| #[trigger] groups.contains(name) == (name.len() > 0
            && is_named(rows, name)) by {
            if is_named(head, name) {
                let r = choose|r: int| 0 <= r < head.len() && (#[trigger] head[r]).0 == name;
                assert(rows[r].0 == name);
            }
            if is_named(rows, name) && name != last {
                let r = choose|r: int| 0 <= r < rows.len() && (#[trigger] rows[r]).0 == name;
                assert(head[r].0 == name);
            }
            assert(rows[rows.len() - 1].0 == last);
            assert(before.contains(name) == (name.len() > 0 && is_named(head, name)));
            if groups.contains(name) {
                let x = choose|x: int| 0 <= x < groups.len() && groups[x] == name;
                if x < before.len() {
                    assert(before[x] == name);
                }
            }
            if before.contains(name) {
                let x = choose|x: int| 0 <= x < before.len() && before[x] == name;
                assert(groups[x] == name);
            }
            if name == last && name.len() > 0 && !before.contains(name) {
                assert(groups[before.len() as int] == name);
            }
        }
    } else {
        assert forall|name: Seq<char>| #[trigger]
            plan::named_groups(rows).contains(name) == (name.len() > 0 && is_named(rows, name)) by {
        }
    }
}

/// The changes of a project among those of some groups.
proof fn lemma_changes_of(
    projects: Seq<ProjectView>,
    before: Seq<RowView>,
    after: Seq<RowView>,
    groups: Seq<Seq<char>>,
    allow: bool,
    idx: int,
)
    requires
        0 <= idx < projects.len(),
        groups.no_duplicates(),
    ensures
        ({
            let p = projects[idx];
            let all = plan::changes_in(projects, before, after, groups, allow);
            let c = plan::change_of(p, idx, before, after, p.name, allow);
            let first = forall|j: int| 0 <= j < idx ==> (#[trigger] projects[j]).name != p.name;
            if first && groups.contains(p.name) && c is Some {
                exists|x: int|
                    {
                        &&& 0 <= x < all.len()
                        &&& #[trigger] all[x] == c->0
                        &&& forall|y: int|
                            0 <= y < all.len() && (#[trigger] all[y]).project_idx == idx ==> y == x
                    }
            } else {
                forall|y: int| 0 <= y < all.len() ==> (#[trigger] all[y]).project_idx != idx
            }
        }),
    decreases groups.len(),
{
    if groups.len() > 0 {
        let head = groups.drop_last();
        let group = groups.last();
        assert(head.no_duplicates()) by {
            assert forall|i: int, j: int|
                0 <= i < head.len() && 0 <= j < head.len() && i != j implies head[i] != head[j] by {
                assert(groups[i] != groups[j]);
            }
        }
        lemma_changes_of(projects, before, after, head, allow, idx);
        plan::lemma_named_at(projects, group, 0);
        lemma_named_first(projects, group, 0);
        let p = projects[idx];
        let at = plan::named_at(projects, group, 0);
        let front = plan::changes_in(projects, before, after, head, allow);
        let all = plan::changes_in(projects, before, after, groups, allow);
        let c = plan::change_of(p, idx, before, after, p.name, allow);
        let first = forall|j: int| 0 <= j < idx ==> (#[trigger] projects[j]).name != p.name;
        if head.contains(p.name) {
            let x = choose|x: int| 0 <= x < head.len() && head[x] == p.name;
            assert(groups[x] == p.name);
            assert(groups[x] != groups[groups.len() - 1]);
            assert(group != p.name);
        }
        if group == p.name {
            assert(groups[groups.len() - 1] == p.name);
            assert(groups.contains(p.name));
            assert(!head.contains(p.name));
            if first {
                assert(at == idx) by {
                    if at < idx {
                        assert(projects[at].name == p.name);
                    }
                }
            } else {
                let j = choose|j: int| 0 <= j < idx && (#[trigger] projects[j]).name == p.name;
                assert(at != idx) by {
                    if at == idx {
                        assert(projects[j].name != group);
                    }
                }
            }
        } else {
            assert(at != idx);
            assert(groups.contains(p.name) == head.contains(p.name)) by {
                if groups.contains(p.name) {
                    let x = choose|x: int| 0 <= x < groups.len() && groups[x] == p.name;
                    assert(head[x] == p.name);
                }
                if head.contains(p.name) {
                    let x = choose|x: int| 0 <= x < head.len() && head[x] == p.name;
                    assert(groups[x] == p.name);
                }
            }
        }
        assert(all.len() >= front.len());
        assert(forall|y: int| 0 <= y < front.len() ==> #[trigger] all[y] == front[y]);
        assert(all.len() > front.len() ==> all.last().project_idx == at);
        if first && groups.contains(p.name) && c is Some {
            if group == p.name {
                let x = all.len() - 1;
                assert(all[x] == c->0);
                assert forall|y: int|
                    0 <= y < all.len() && (#[trigger] all[y]).project_idx == idx implies y == x by {
                    if y < front.len() {
                        assert(front[y].project_idx != idx);
                    }
                }
            } else {
                let x = choose|x: int|
                    {
                        &&& 0 <= x < front.len()
                        &&& #[trigger] front[x] == c->0
                        &&& forall|y: int|
                            0 <= y < front.len() && (#[trigger] front[y]).project_idx == idx ==> y
                                == x
                    };
                assert(all[x] == c->0);
                assert forall|y: int|
                    0 <= y < all.len() && (#[trigger] all[y]).project_idx == idx implies y == x by {
                    if y < front.len() {
                        assert(front[y].project_idx == idx);
                    }
                }
            }
        } else {
            assert forall|y: int| 0 <= y < all.len() implies (#[trigger] all[y]).project_idx
                != idx by {
                if y < front.len() {
                    assert(all[y] == front[y]);
                }
            }
        }
    }
}

proof fn lemma_named_first(projects: Seq<ProjectView>, name: Seq<char>, i: int)
    requires
        0 <= i <= projects.len(),
    ensures
        forall|j: int|
            i <= j < plan::named_at(projects, name, i) && j < projects.len() ==> (
            #[trigger] projects[j]).name != name,
    decreases projects.len() - i,
{
    if i < projects.len() && projects[i].name != name {
        lemma_named_first(projects, name, i + 1);
    }
}

// -------------------------------------------------------------------------- laws

/// When rows of a task list change, the tasks of each project that they name follow them. Those
/// that stay keep their order and their titles, and each has the state of the first row of the
/// project with its title, whatever its state was; one without such a row keeps its state.
/// Where rows may come and go, a task whose row went is gone, and each row with a title that no
/// task has adds a task at the end. A project whose tasks are already so is left alone; of each
/// other one there is one change, and it holds all of its tasks.
pub proof fn law_tasks_follow_their_rows(
    projects: Seq<ProjectView>,
    before: Seq<RowView>,
    after: Seq<RowView>,
    allow: bool,
    idx: int,
)
    requires
        0 <= idx < projects.len(),
        forall|j: int| 0 <= j < idx ==> (#[trigger] projects[j]).name != projects[idx].name,
        projects[idx].name.len() > 0,
        is_named(before, projects[idx].name) || is_named(after, projects[idx].name),
    ensures
        exists|kept: Seq<PairView>, new: Seq<PairView>|
            {
                let p = projects[idx];
                let all = plan::changes(projects, before, after, allow);
                &&& #[trigger] are_staying(
                    kept,
                    projects[idx].tasks,
                    before,
                    after,
                    projects[idx].name,
                    allow,
                )
                &&& #[trigger] are_joining(new, kept, after, projects[idx].name, allow)
                &&& if are_same(kept + new, p.tasks) {
                    forall|y: int| 0 <= y < all.len() ==> (#[trigger] all[y]).project_idx != idx
                } else {
                    exists|x: int|
                        {
                            &&& 0 <= x < all.len()
                            &&& (#[trigger] all[x]).project_idx == idx
                            &&& all[x].tasks == kept + new
                            &&& all[x].added == new.len()
                            &&& is_gone_count(all[x].removed, before, after, p.name, allow)
                            &&& forall|y: int|
                                0 <= y < all.len() && (#[trigger] all[y]).project_idx == idx ==> y
                                    == x
                        }
                }
            },
{
    let p = projects[idx];
    let rows = after + before;
    let groups = plan::named_groups(rows);
    lemma_named_groups(rows);
    assert(is_named(rows, p.name)) by {
        if is_named(after, p.name) {
            let r = choose|r: int| 0 <= r < after.len() && (#[trigger] after[r]).0 == p.name;
            assert(rows[r].0 == p.name);
        } else {
            let r = choose|r: int| 0 <= r < before.len() && (#[trigger] before[r]).0 == p.name;
            assert(rows[after.len() + r].0 == p.name);
        }
    }
    assert(groups.contains(p.name));
    lemma_changes_of(projects, before, after, groups, allow, idx);
    let (kept, new) = lemma_change(p, idx, before, after, allow);
    let all = plan::changes(projects, before, after, allow);
    match plan::change_of(p, idx, before, after, p.name, allow) {
        Some(c) => {
            let x = choose|x: int|
                {
                    &&& 0 <= x < all.len()
                    &&& #[trigger] all[x] == c
                    &&& forall|y: int|
                        0 <= y < all.len() && (#[trigger] all[y]).project_idx == idx ==> y == x
                };
            assert(all[x].project_idx == idx && all[x].tasks == kept + new);
            assert(is_gone_count(all[x].removed, before, after, p.name, allow));
        },
        None => {},
    }
    assert(are_staying(kept, p.tasks, before, after, p.name, allow));
    assert(are_joining(new, kept, after, p.name, allow));
}

/// A project that no row names is left alone, and so is one behind another of the same name and
/// one without a name.
pub proof fn law_other_projects_are_left_alone(
    projects: Seq<ProjectView>,
    before: Seq<RowView>,
    after: Seq<RowView>,
    allow: bool,
    idx: int,
)
    requires
        0 <= idx < projects.len(),
        ({
            ||| exists|j: int| 0 <= j < idx && (#[trigger] projects[j]).name == projects[idx].name
            ||| projects[idx].name.len() == 0
            ||| !is_named(before, projects[idx].name) && !is_named(after, projects[idx].name)
        }),
    ensures
        forall|y: int|
            0 <= y < plan::changes(projects, before, after, allow).len() ==> (
            #[trigger] plan::changes(projects, before, after, allow)[y]).project_idx != idx,
{
    let p = projects[idx];
    let rows = after + before;
    let groups = plan::named_groups(rows);
    lemma_named_groups(rows);
    if groups.contains(p.name) {
        let r = choose|r: int| 0 <= r < rows.len() && (#[trigger] rows[r]).0 == p.name;
        if r < after.len() {
            assert(after[r].0 == p.name);
        } else {
            assert(before[r - after.len()].0 == p.name);
        }
    }
    lemma_changes_of(projects, before, after, groups, allow, idx);
}

/// The first row that names a project.
pub open spec fn is_first_naming(rows: Seq<RowView>, name: Seq<char>, r: int) -> bool {
    &&& 0 <= r < rows.len() && rows[r].0 == name
    &&& forall|q: int| 0 <= q < r ==> (#[trigger] rows[q]).0 != name
}

/// The names come in the order in which rows first name them.
proof fn lemma_names_in_order(rows: Seq<RowView>) -> (at: Seq<int>)
    ensures
        pick::rising(at, rows.len() as int),
        at.len() == plan::named_groups(rows).len(),
        forall|g: int|
            0 <= g < at.len() ==> is_first_naming(
                rows,
                plan::named_groups(rows)[g],
                #[trigger] at[g],
            ),
    decreases rows.len(),
{
    if rows.len() == 0 {
        Seq::empty()
    } else {
        let head = rows.drop_last();
        let n = rows.len() - 1;
        let old = lemma_names_in_order(head);
        lemma_named_groups(head);
        let before = plan::named_groups(head);
        let groups = plan::named_groups(rows);
        let last = rows.last().0;
        let at = if groups.len() > before.len() {
            old.push(n)
        } else {
            old
        };
        assert forall|g: int| 0 <= g < at.len() implies is_first_naming(
            rows,
            groups[g],
            #[trigger] at[g],
        ) by {
            if g < old.len() {
                assert(is_first_naming(head, before[g], old[g]));
                assert(groups[g] == before[g] && at[g] == old[g]);
                assert(rows[at[g]] == head[at[g]]);
                assert forall|q: int| 0 <= q < at[g] implies (#[trigger] rows[q]).0
                    != groups[g] by {
                    assert(head[q].0 != before[g]);
                }
            } else {
                assert(!before.contains(last) && last.len() > 0);
                assert forall|q: int| 0 <= q < n implies (#[trigger] rows[q]).0 != last by {
                    if rows[q].0 == last {
                        assert(head[q].0 == last);
                        assert(is_named(head, last));
                    }
                }
            }
        }
        at
    }
}

/// Each change is one of the project that one of the groups names, in the order of the groups.
proof fn lemma_changes_in_order(
    projects: Seq<ProjectView>,
    before: Seq<RowView>,
    after: Seq<RowView>,
    groups: Seq<Seq<char>>,
    allow: bool,
) -> (at: Seq<int>)
    ensures
        ({
            let all = plan::changes_in(projects, before, after, groups, allow);
            &&& pick::rising(at, groups.len() as int)
            &&& at.len() == all.len()
            &&& forall|x: int|
                0 <= x < all.len() ==> 0 <= (#[trigger] all[x]).project_idx < projects.len()
                    && projects[all[x].project_idx].name == groups[at[x]]
        }),
    decreases groups.len(),
{
    if groups.len() == 0 {
        Seq::empty()
    } else {
        let head = groups.drop_last();
        let n = groups.len() - 1;
        let old = lemma_changes_in_order(projects, before, after, head, allow);
        plan::lemma_named_at(projects, groups.last(), 0);
        let front = plan::changes_in(projects, before, after, head, allow);
        let all = plan::changes_in(projects, before, after, groups, allow);
        let at = if all.len() > front.len() {
            old.push(n)
        } else {
            old
        };
        assert forall|x: int| 0 <= x < all.len() implies 0 <= (#[trigger] all[x]).project_idx
            < projects.len() && projects[all[x].project_idx].name == groups[at[x]] by {
            if x < front.len() {
                assert(all[x] == front[x]);
                assert(head[old[x]] == groups[old[x]]);
            }
        }
        at
    }
}

/// The changes come in the order in which the rows first name their projects, those of the new
/// list before those of the old one.
pub proof fn law_changes_come_in_the_order_of_rows(
    projects: Seq<ProjectView>,
    before: Seq<RowView>,
    after: Seq<RowView>,
    allow: bool,
    x: int,
    y: int,
)
    requires
        0 <= x < y < plan::changes(projects, before, after, allow).len(),
    ensures
        ({
            let all = plan::changes(projects, before, after, allow);
            exists|i: int, j: int|
                {
                    &&& i < j
                    &&& #[trigger] is_first_naming(
                        after + before,
                        projects[all[x].project_idx].name,
                        i,
                    )
                    &&& #[trigger] is_first_naming(
                        after + before,
                        projects[all[y].project_idx].name,
                        j,
                    )
                }
        }),
{
    let rows = after + before;
    let groups = plan::named_groups(rows);
    let all = plan::changes(projects, before, after, allow);
    let named = lemma_names_in_order(rows);
    let at = lemma_changes_in_order(projects, before, after, groups, allow);
    assert(all[x].project_idx >= 0 && all[y].project_idx >= 0);
    assert(at[x] < at[y]);
    let i = named[at[x]];
    let j = named[at[y]];
    assert(is_first_naming(rows, groups[at[x]], i));
    assert(is_first_naming(rows, groups[at[y]], j));
    assert(i < j);
}

} // verus!
