//! What is gathered for the task list of a day.

use vstd::prelude::*;

use crate::app::plan::PairView;
use crate::app::steps;
use crate::model::chosen;
use crate::model::project;
use crate::model::project::{ProjectView, TaskView};
use crate::model::status::TaskStatus;
use crate::pick;

verus! {

/// Whether a project is not archived and has a task in progress.
pub open spec fn is_active(p: ProjectView) -> bool {
    p.archived_at_ms <= 0 && exists|j: int|
        0 <= j < p.tasks.len() && (#[trigger] p.tasks[j]).status is InProgress
}

/// Whether tasks are those of a project that are in progress: all of them, in their order,
/// each once.
pub open spec fn are_active(tasks: Seq<TaskView>, p: ProjectView) -> bool {
    exists|at: Seq<int>|
        {
            &&& #[trigger] pick::is_picked(tasks, p.tasks, at)
            &&& forall|j: int|
                0 <= j < p.tasks.len() ==> #[trigger] at.contains(j) == (
                p.tasks[j].status is InProgress)
        }
}

/// The tasks of a project in progress are none just where it has none.
proof fn lemma_active(p: ProjectView)
    ensures
        are_active(project::tasks_in(p.tasks, TaskStatus::InProgress), p),
        project::tasks_in(p.tasks, TaskStatus::InProgress).len() > 0 <==> exists|j: int|
            0 <= j < p.tasks.len() && (#[trigger] p.tasks[j]).status is InProgress,
{
    let tasks = project::tasks_in(p.tasks, TaskStatus::InProgress);
    chosen::law_tasks_in_a_state(p.tasks, TaskStatus::InProgress);
    let at = choose|at: Seq<int>|
        {
            &&& #[trigger] pick::is_picked(tasks, p.tasks, at)
            &&& forall|i: int|
                0 <= i < p.tasks.len() ==> #[trigger] at.contains(i) == (p.tasks[i].status
                    == TaskStatus::InProgress)
        };
    if tasks.len() > 0 {
        assert(at.contains(at[0]));
        assert(p.tasks[at[0]].status is InProgress);
    }
    if exists|j: int| 0 <= j < p.tasks.len() && (#[trigger] p.tasks[j]).status is InProgress {
        let j = choose|j: int|
            0 <= j < p.tasks.len() && (#[trigger] p.tasks[j]).status is InProgress;
        assert(at.contains(j));
    }
    assert(forall|j: int|
        0 <= j < p.tasks.len() ==> #[trigger] at.contains(j) == (
        p.tasks[j].status is InProgress));
}

/// The task list of a day has one group for each project that is not archived and has a task
/// in progress, in the order of the projects. A group has the name of its project and all its
/// tasks in progress, in their order.
pub proof fn law_groups_are_the_active_projects(projects: Seq<ProjectView>)
    ensures
        exists|at: Seq<int>|
            {
                let groups = steps::active_groups(projects);
                &&& #[trigger] pick::rising(at, projects.len() as int)
                &&& forall|i: int|
                    0 <= i < projects.len() ==> #[trigger] at.contains(i) == is_active(projects[i])
                &&& groups.len() == at.len()
                &&& forall|g: int|
                    0 <= g < groups.len() ==> (#[trigger] groups[g]).0 == projects[at[g]].name
                        && are_active(groups[g].1, projects[at[g]])
            },
{
    let n = projects.len() as int;
    let groups = steps::active_groups(projects);
    let grown = |k: int| steps::active_groups(projects.take(k));
    let keep = |k: int| is_active(projects[k]);
    let item = |k: int|
        (projects[k].name, project::tasks_in(projects[k].tasks, TaskStatus::InProgress));
    assert forall|k: int| #![trigger keep(k)] 0 <= k < n implies {
        &&& keep(k) ==> grown(k + 1) == grown(k).push(item(k))
        &&& !keep(k) ==> grown(k + 1) == grown(k)
    } by {
        assert(projects.take(k + 1).drop_last() == projects.take(k));
        lemma_active(projects[k]);
    }
    pick::lemma_collected(grown, n, keep, item);
    pick::lemma_places(n, keep);
    assert(projects.take(n) == projects);
    let at = pick::places(n, keep);
    assert forall|g: int| 0 <= g < groups.len() implies (#[trigger] groups[g]).0 == projects[at[g]].name
        && are_active(groups[g].1, projects[at[g]]) by {
        assert(grown(n)[g] == item(at[g]));
        lemma_active(projects[at[g]]);
    }
    assert(pick::rising(at, n));
}

/// A task stands in the groups under a name just where a project of that name that is not
/// archived has it in progress.
pub proof fn law_active_tasks_are_in_the_groups(
    projects: Seq<ProjectView>,
    name: Seq<char>,
    t: TaskView,
)
    ensures
        (exists|g: int|
            0 <= g < steps::active_groups(projects).len() && (#[trigger] steps::active_groups(
                projects,
            )[g]).0 == name && steps::active_groups(projects)[g].1.contains(t)) <==> (exists|i: int|
            0 <= i < projects.len() && (#[trigger] projects[i]).name == name
                && projects[i].archived_at_ms <= 0 && projects[i].tasks.contains(t)
                && t.status is InProgress),
{
    law_groups_are_the_active_projects(projects);
    let groups = steps::active_groups(projects);
    let at = choose|at: Seq<int>|
        {
            &&& #[trigger] pick::rising(at, projects.len() as int)
            &&& forall|i: int|
                0 <= i < projects.len() ==> #[trigger] at.contains(i) == is_active(projects[i])
            &&& groups.len() == at.len()
            &&& forall|g: int|
                0 <= g < groups.len() ==> (#[trigger] groups[g]).0 == projects[at[g]].name
                    && are_active(groups[g].1, projects[at[g]])
        };
    if exists|g: int|
        0 <= g < groups.len() && (#[trigger] groups[g]).0 == name && groups[g].1.contains(t) {
        let g = choose|g: int|
            0 <= g < groups.len() && (#[trigger] groups[g]).0 == name && groups[g].1.contains(t);
        let p = projects[at[g]];
        assert(at.contains(at[g]));
        assert(are_active(groups[g].1, p));
        let ts = choose|ts: Seq<int>|
            {
                &&& #[trigger] pick::is_picked(groups[g].1, p.tasks, ts)
                &&& forall|j: int|
                    0 <= j < p.tasks.len() ==> #[trigger] ts.contains(j) == (
                    p.tasks[j].status is InProgress)
            };
        let x = choose|x: int| 0 <= x < groups[g].1.len() && groups[g].1[x] == t;
        assert(ts.contains(ts[x]));
        assert(p.tasks[ts[x]] == t);
    }
    if exists|i: int|
        0 <= i < projects.len() && (#[trigger] projects[i]).name == name
            && projects[i].archived_at_ms <= 0 && projects[i].tasks.contains(t)
            && t.status is InProgress {
        let i = choose|i: int|
            0 <= i < projects.len() && (#[trigger] projects[i]).name == name
                && projects[i].archived_at_ms <= 0 && projects[i].tasks.contains(t)
                && t.status is InProgress;
        let p = projects[i];
        let j = choose|j: int| 0 <= j < p.tasks.len() && p.tasks[j] == t;
        assert(p.tasks[j].status is InProgress);
        assert(is_active(p));
        assert(at.contains(i));
        let g = choose|g: int| 0 <= g < at.len() && at[g] == i;
        assert(groups[g].0 == name);
        let ts = choose|ts: Seq<int>|
            {
                &&& #[trigger] pick::is_picked(groups[g].1, p.tasks, ts)
                &&& forall|j: int|
                    0 <= j < p.tasks.len() ==> #[trigger] ts.contains(j) == (
                    p.tasks[j].status is InProgress)
            };
        assert(ts.contains(j));
        let x = choose|x: int| 0 <= x < ts.len() && ts[x] == j;
        assert(groups[g].1[x] == t);
    }
}

proof fn lemma_group_total(
    groups: Seq<(Seq<char>, Seq<TaskView>)>,
    more: Seq<(Seq<char>, Seq<TaskView>)>,
)
    ensures
        steps::group_total(groups + more) == if steps::group_total(groups) + steps::group_total(
            more,
        ) <= usize::MAX {
            steps::group_total(groups) + steps::group_total(more)
        } else {
            usize::MAX as int
        },
    decreases more.len(),
{
    if more.len() == 0 {
        assert(groups + more == groups);
    } else {
        lemma_group_total(groups, more.drop_last());
        assert((groups + more).drop_last() == groups + more.drop_last());
        assert((groups + more).last() == more.last());
    }
}

/// The number of tasks in groups is that of some of them and that of the others; that of one
/// group is the number of its tasks. Numbers stop at the largest.
pub proof fn law_group_total_adds_up(
    groups: Seq<(Seq<char>, Seq<TaskView>)>,
    more: Seq<(Seq<char>, Seq<TaskView>)>,
    one: (Seq<char>, Seq<TaskView>),
)
    ensures
        steps::group_total(Seq::empty()) == 0,
        one.1.len() <= usize::MAX ==> steps::group_total(seq![one]) == one.1.len(),
        steps::group_total(groups + more) == if steps::group_total(groups) + steps::group_total(
            more,
        ) <= usize::MAX {
            steps::group_total(groups) + steps::group_total(more)
        } else {
            usize::MAX as int
        },
{
    reveal_with_fuel(steps::group_total, 2);
    lemma_group_total(groups, more);
    assert(seq![one].drop_last() == Seq::<(Seq<char>, Seq<TaskView>)>::empty());
}

/// The titles of tasks.
pub open spec fn titles_of(tasks: Seq<TaskView>) -> Seq<Seq<char>> {
    tasks.map_values(|t: TaskView| t.title)
}

/// The titles that are dropped are those of tasks that the new list no longer has: all of
/// them, in order.
pub proof fn law_dropped_titles(tasks: Seq<TaskView>, next: Seq<PairView>)
    ensures
        exists|at: Seq<int>|
            {
                &&& #[trigger] pick::is_picked(
                    steps::dropped_titles(tasks, next),
                    titles_of(tasks),
                    at,
                )
                &&& forall|i: int|
                    0 <= i < tasks.len() ==> #[trigger] at.contains(i) == !(exists|j: int|
                        0 <= j < next.len() && (#[trigger] next[j]).1 == tasks[i].title)
            },
{
    let titles = titles_of(tasks);
    let grown = |k: int| steps::dropped_titles(tasks.take(k), next);
    let keep = |k: int|
        !(exists|j: int| 0 <= j < next.len() && (#[trigger] next[j]).1 == tasks[k].title);
    assert forall|k: int| #![trigger keep(k)] 0 <= k < tasks.len() implies {
        &&& keep(k) ==> grown(k + 1) == grown(k).push(titles[k])
        &&& !keep(k) ==> grown(k + 1) == grown(k)
    } by {
        assert(tasks.take(k + 1).drop_last() == tasks.take(k));
        lemma_title_at(next, tasks[k].title, 0);
    }
    let at = pick::lemma_picked(grown, titles, keep);
    assert(tasks.take(tasks.len() as int) == tasks);
    assert(pick::is_picked(steps::dropped_titles(tasks, next), titles, at));
}

/// The first task with a title is there just where there is one.
pub proof fn lemma_title_at(tasks: Seq<PairView>, title: Seq<char>, i: int)
    requires
        0 <= i <= tasks.len(),
    ensures
        ({
            let at = crate::app::plan::title_at(tasks, title, i);
            &&& i <= at <= tasks.len()
            &&& at < tasks.len() ==> tasks[at].1 == title
            &&& forall|j: int| i <= j < at ==> (#[trigger] tasks[j]).1 != title
        }),
    decreases tasks.len() - i,
{
    if i < tasks.len() && tasks[i].1 != title {
        lemma_title_at(tasks, title, i + 1);
    }
}

} // verus!
