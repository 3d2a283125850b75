//! What changes in the projects when rows of a task list change.

use vstd::prelude::*;

use crate::model::note;
use crate::model::note::RowView;
use crate::model::project;
use crate::model::project::{Project, ProjectTask, ProjectView, TaskView};
use crate::model::status::TaskStatus;
use crate::text;
use crate::text::{list_has, same_string};

verus! {

/// A row of a task list: project, title, state.
pub type Row = (String, String, TaskStatus);

/// A state and a title.
pub type PairView = (TaskStatus, Seq<char>);

/// What is to be written of one project.
#[derive(Debug)]
pub struct Change {
    pub project_idx: usize,
    pub tasks: Vec<(TaskStatus, String)>,
    pub added: usize,
    pub removed: usize,
}

/// What a change holds.
#[verifier::ext_equal]
pub struct ChangeView {
    pub project_idx: int,
    pub tasks: Seq<PairView>,
    pub added: int,
    pub removed: int,
}

impl View for Change {
    type V = ChangeView;

    open spec fn view(&self) -> ChangeView {
        ChangeView {
            project_idx: self.project_idx as int,
            tasks: project::pair_views(self.tasks@),
            added: self.added as int,
            removed: self.removed as int,
        }
    }
}

/// What changes hold.
pub open spec fn change_views(v: Seq<Change>) -> Seq<ChangeView> {
    v.map_values(|c: Change| c@)
}

// ------------------------------------------------------------------------ parts

/// The projects that rows name, each once, in the order in which they come.
pub open spec fn named_groups(rows: Seq<RowView>) -> Seq<Seq<char>>
    decreases rows.len(),
{
    if rows.len() == 0 {
        Seq::empty()
    } else {
        let before = named_groups(rows.drop_last());
        let group = rows.last().0;
        if group.len() == 0 || before.contains(group) {
            before
        } else {
            before.push(group)
        }
    }
}

/// The first row from `i` on with a project and a title, or the number of rows.
pub open spec fn row_at(rows: Seq<RowView>, group: Seq<char>, title: Seq<char>, i: int) -> int
    decreases rows.len() - i,
{
    if i >= rows.len() || (rows[i].0 == group && rows[i].1 == title) {
        i
    } else {
        row_at(rows, group, title, i + 1)
    }
}

/// Whether there is a row with a project and a title.
pub open spec fn has_row(rows: Seq<RowView>, group: Seq<char>, title: Seq<char>) -> bool {
    row_at(rows, group, title, 0) < rows.len()
}

/// The titles of rows of a project that are gone.
pub open spec fn gone(before: Seq<RowView>, after: Seq<RowView>, group: Seq<char>) -> Seq<
    Seq<char>,
>
    decreases before.len(),
{
    if before.len() == 0 {
        Seq::empty()
    } else {
        let front = gone(before.drop_last(), after, group);
        let row = before.last();
        if row.0 == group && !has_row(after, group, row.1) {
            front.push(row.1)
        } else {
            front
        }
    }
}

/// The state that a row gives a task, or the one it has.
pub open spec fn state_of(after: Seq<RowView>, group: Seq<char>, t: TaskView) -> TaskStatus {
    if has_row(after, group, t.title) {
        after[row_at(after, group, t.title, 0)].2
    } else {
        t.status
    }
}

/// The tasks of a project that stay, with the states that the rows give them.
pub open spec fn staying(
    tasks: Seq<TaskView>,
    after: Seq<RowView>,
    group: Seq<char>,
    removed: Seq<Seq<char>>,
) -> Seq<PairView>
    decreases tasks.len(),
{
    if tasks.len() == 0 {
        Seq::empty()
    } else {
        let before = staying(tasks.drop_last(), after, group, removed);
        let t = tasks.last();
        if removed.contains(t.title) {
            before
        } else {
            before.push((state_of(after, group, t), t.title))
        }
    }
}

/// The first task from `i` on with a title, or the number of tasks.
pub open spec fn title_at(tasks: Seq<PairView>, title: Seq<char>, i: int) -> int
    decreases tasks.len() - i,
{
    if i >= tasks.len() || tasks[i].1 == title {
        i
    } else {
        title_at(tasks, title, i + 1)
    }
}

/// The tasks with those of the rows that are new behind them.
pub open spec fn joining(tasks: Seq<PairView>, after: Seq<RowView>, group: Seq<char>) -> Seq<
    PairView,
>
    decreases after.len(),
{
    if after.len() == 0 {
        tasks
    } else {
        let before = joining(tasks, after.drop_last(), group);
        let row = after.last();
        if row.0 != group || title_at(before, row.1, 0) < before.len() {
            before
        } else {
            before.push((row.2, row.1))
        }
    }
}

/// What changes in a project. Rows that came and went count only where that is allowed;
/// else only the states are taken over. Where all tasks are already so, nothing is written.
pub open spec fn change_of(
    p: ProjectView,
    idx: int,
    before: Seq<RowView>,
    after: Seq<RowView>,
    group: Seq<char>,
    allow: bool,
) -> Option<ChangeView> {
    let removed = if allow {
        gone(before, after, group)
    } else {
        Seq::empty()
    };
    let kept = staying(p.tasks, after, group, removed);
    let next = if allow {
        joining(kept, after, group)
    } else {
        kept
    };
    let added = next.len() - kept.len();
    if next == project::task_pairs(p.tasks) {
        None
    } else {
        Some(
            ChangeView {
                project_idx: idx,
                tasks: next,
                added,
                removed: removed.len() as int,
            },
        )
    }
}

/// The first project from `i` on with a name, or the number of projects.
pub open spec fn named_at(projects: Seq<ProjectView>, name: Seq<char>, i: int) -> int
    decreases projects.len() - i,
{
    if i >= projects.len() || projects[i].name == name {
        i
    } else {
        named_at(projects, name, i + 1)
    }
}

/// What changes in the projects that groups name.
pub open spec fn changes_in(
    projects: Seq<ProjectView>,
    before: Seq<RowView>,
    after: Seq<RowView>,
    groups: Seq<Seq<char>>,
    allow: bool,
) -> Seq<ChangeView>
    decreases groups.len(),
{
    if groups.len() == 0 {
        Seq::empty()
    } else {
        let front = changes_in(projects, before, after, groups.drop_last(), allow);
        let group = groups.last();
        let idx = named_at(projects, group, 0);
        if idx < projects.len() {
            match change_of(projects[idx], idx, before, after, group, allow) {
                Some(c) => front.push(c),
                None => front,
            }
        } else {
            front
        }
    }
}

/// What changes in the projects when rows of a task list change.
pub open spec fn changes(
    projects: Seq<ProjectView>,
    before: Seq<RowView>,
    after: Seq<RowView>,
    allow: bool,
) -> Seq<ChangeView> {
    changes_in(projects, before, after, named_groups(after + before), allow)
}

// -------------------------------------------------------------------------- code

/// The projects that rows name, added to a list.
fn add_groups(rows: &Vec<Row>, out: &mut Vec<String>, Ghost(front): Ghost<Seq<RowView>>)
    requires
        text::texts(old(out)@) == named_groups(front),
    ensures
        text::texts(final(out)@) == named_groups(front + note::row_views(rows@)),
{
    let ghost all = note::row_views(rows@);
    let mut i: usize = 0;
    assert(front + all.take(0) == front);
    while i < rows.len()
        invariant
            i <= rows.len(),
            all == note::row_views(rows@),
            text::texts(out@) == named_groups(front + all.take(i as int)),
        decreases rows.len() - i,
    {
        let ghost longer = front + all.take(i + 1);
        assert(longer.drop_last() =~= front + all.take(i as int));
        assert(longer.last() == all[i as int]);
        assert(all[i as int].0 == rows@[i as int].0@);
        let group: &String = &rows[i].0;
        if !group.as_str().is_empty() && !list_has(out, group.as_str()) {
            let ghost done = out@;
            let g: String = group.clone();
            out.push(g);
            assert(text::texts(out@) =~= text::texts(done).push(g@));
        }
        i += 1;
    }
    assert(all.take(i as int) == all);
}

/// Finds a row with a project and a title.
fn find_row(rows: &Vec<Row>, group: &str, title: &str) -> (r: usize)
    ensures
        r == row_at(note::row_views(rows@), group@, title@, 0),
        r <= rows@.len(),
{
    let ghost all = note::row_views(rows@);
    let mut i: usize = 0;
    while i < rows.len() && !(same_string(rows[i].0.as_str(), group) && same_string(
        rows[i].1.as_str(),
        title,
    ))
        invariant
            i <= rows.len(),
            all == note::row_views(rows@),
            row_at(all, group@, title@, 0) == row_at(all, group@, title@, i as int),
        decreases rows.len() - i,
    {
        assert(all[i as int] == (rows@[i as int].0@, rows@[i as int].1@, rows@[i as int].2));
        i += 1;
    }
    if i < rows.len() {
        assert(all[i as int] == (rows@[i as int].0@, rows@[i as int].1@, rows@[i as int].2));
    }
    i
}

/// The titles of rows of a project that are gone.
fn gone_titles(before: &Vec<Row>, after: &Vec<Row>, group: &str) -> (r: Vec<String>)
    ensures
        text::texts(r@) == gone(
            note::row_views(before@),
            note::row_views(after@),
            group@,
        ),
{
    let ghost all = note::row_views(before@);
    let ghost next = note::row_views(after@);
    let mut out: Vec<String> = Vec::new();
    let mut i: usize = 0;
    assert(text::texts(out@) == Seq::<Seq<char>>::empty());
    while i < before.len()
        invariant
            i <= before.len(),
            all == note::row_views(before@),
            next == note::row_views(after@),
            text::texts(out@) == gone(all.take(i as int), next, group@),
        decreases before.len() - i,
    {
        assert(all.take(i + 1).drop_last() == all.take(i as int));
        assert(all[i as int] == (before@[i as int].0@, before@[i as int].1@, before@[i as int].2));
        let title: &String = &before[i].1;
        assert(next.len() == after@.len());
        if same_string(before[i].0.as_str(), group) && find_row(after, group, title.as_str())
            >= after.len() {
            let ghost done = out@;
            let t: String = title.clone();
            out.push(t);
            assert(text::texts(out@) =~= text::texts(done).push(t@));
        }
        i += 1;
    }
    assert(all.take(i as int) == all);
    out
}

/// The tasks of a project that stay.
fn staying_tasks(
    tasks: &Vec<ProjectTask>,
    after: &Vec<Row>,
    group: &str,
    removed: &Vec<String>,
) -> (r: Vec<(TaskStatus, String)>)
    ensures
        project::pair_views(r@) == staying(
            project::task_views(tasks@),
            note::row_views(after@),
            group@,
            text::texts(removed@),
        ),
{
    let ghost all = project::task_views(tasks@);
    let ghost next = note::row_views(after@);
    let ghost titles = text::texts(removed@);
    let mut out: Vec<(TaskStatus, String)> = Vec::new();
    let mut i: usize = 0;
    assert(project::pair_views(out@) == Seq::<PairView>::empty());
    while i < tasks.len()
        invariant
            i <= tasks.len(),
            all == project::task_views(tasks@),
            next == note::row_views(after@),
            titles == text::texts(removed@),
            project::pair_views(out@) == staying(all.take(i as int), next, group@, titles),
        decreases tasks.len() - i,
    {
        assert(all.take(i + 1).drop_last() == all.take(i as int));
        let t: &ProjectTask = &tasks[i];
        assert(all[i as int] == t@);
        assert(next.len() == after@.len());
        if !list_has(removed, t.title.as_str()) {
            let at: usize = find_row(after, group, t.title.as_str());
            let status: TaskStatus = if at < after.len() {
                assert(next[at as int].2 == after@[at as int].2);
                after[at].2
            } else {
                t.status
            };
            let ghost done = out@;
            let pair: (TaskStatus, String) = (status, t.title.clone());
            out.push(pair);
            assert(project::pair_views(out@) =~= project::pair_views(done).push(
                (pair.0, pair.1@),
            ));
        }
        i += 1;
    }
    assert(all.take(i as int) == all);
    out
}

/// Whether there is a task with a title.
pub(crate) fn has_title(tasks: &Vec<(TaskStatus, String)>, title: &str) -> (r: bool)
    ensures
        r == (title_at(project::pair_views(tasks@), title@, 0) < tasks@.len()),
{
    let ghost all = project::pair_views(tasks@);
    let mut i: usize = 0;
    while i < tasks.len() && !same_string(tasks[i].1.as_str(), title)
        invariant
            i <= tasks.len(),
            all == project::pair_views(tasks@),
            title_at(all, title@, 0) == title_at(all, title@, i as int),
        decreases tasks.len() - i,
    {
        assert(all[i as int].1 == tasks@[i as int].1@);
        i += 1;
    }
    if i < tasks.len() {
        assert(all[i as int].1 == tasks@[i as int].1@);
    }
    i < tasks.len()
}

/// Adds the tasks of rows that are new.
fn join_rows(tasks: Vec<(TaskStatus, String)>, after: &Vec<Row>, group: &str) -> (r: Vec<
    (TaskStatus, String),
>)
    ensures
        project::pair_views(r@) == joining(
            project::pair_views(tasks@),
            note::row_views(after@),
            group@,
        ),
        r@.len() >= tasks@.len(),
{
    let ghost all = note::row_views(after@);
    let ghost base = project::pair_views(tasks@);
    let ghost count = tasks@.len();
    let mut out: Vec<(TaskStatus, String)> = tasks;
    let mut i: usize = 0;
    while i < after.len()
        invariant
            i <= after.len(),
            all == note::row_views(after@),
            project::pair_views(out@) == joining(base, all.take(i as int), group@),
            out@.len() >= count,
        decreases after.len() - i,
    {
        assert(all.take(i + 1).drop_last() == all.take(i as int));
        assert(all[i as int] == (after@[i as int].0@, after@[i as int].1@, after@[i as int].2));
        assert(project::pair_views(out@).len() == out@.len());
        if same_string(after[i].0.as_str(), group) && !has_title(&out, after[i].1.as_str()) {
            let ghost done = out@;
            let pair: (TaskStatus, String) = (after[i].2, after[i].1.clone());
            out.push(pair);
            assert(project::pair_views(out@) =~= project::pair_views(done).push(
                (pair.0, pair.1@),
            ));
        }
        i += 1;
    }
    assert(all.take(i as int) == all);
    out
}

/// Whether tasks are already those that are to be written.
fn tasks_same(next: &Vec<(TaskStatus, String)>, tasks: &Vec<ProjectTask>) -> (r: bool)
    ensures
        r == (project::pair_views(next@) == project::task_pairs(project::task_views(tasks@))),
{
    let ghost a = project::pair_views(next@);
    let ghost b = project::task_pairs(project::task_views(tasks@));
    assert(a.len() == next@.len() && b.len() == tasks@.len());
    if next.len() != tasks.len() {
        return false;
    }
    let mut i: usize = 0;
    while i < next.len()
        invariant
            i <= next.len(),
            next@.len() == tasks@.len(),
            a == project::pair_views(next@),
            b == project::task_pairs(project::task_views(tasks@)),
            forall|k: int| 0 <= k < i ==> #[trigger] a[k] == b[k],
        decreases next.len() - i,
    {
        assert(a[i as int] == (next@[i as int].0, next@[i as int].1@));
        assert(b[i as int] == (tasks@[i as int].status, tasks@[i as int].title@));
        if next[i].0 != tasks[i].status || !same_string(
            next[i].1.as_str(),
            tasks[i].title.as_str(),
        ) {
            return false;
        }
        i += 1;
    }
    assert(a =~= b);
    true
}

/// What changes in one project.
fn change_for(
    p: &Project,
    idx: usize,
    before: &Vec<Row>,
    after: &Vec<Row>,
    group: &str,
    allow: bool,
) -> (r: Option<Change>)
    ensures
        match r {
            Some(c) => change_of(
                p@,
                idx as int,
                note::row_views(before@),
                note::row_views(after@),
                group@,
                allow,
            ) == Some(c@),
            None => change_of(
                p@,
                idx as int,
                note::row_views(before@),
                note::row_views(after@),
                group@,
                allow,
            ) is None,
        },
{
    let removed: Vec<String> = if allow {
        gone_titles(before, after, group)
    } else {
        let none: Vec<String> = Vec::new();
        assert(text::texts(none@) == Seq::<Seq<char>>::empty());
        none
    };
    assert(removed@.len() == text::texts(removed@).len());
    let kept: Vec<(TaskStatus, String)> = staying_tasks(&p.tasks, after, group, &removed);
    let kept_len: usize = kept.len();
    assert(kept_len == project::pair_views(kept@).len());
    let next: Vec<(TaskStatus, String)> = if allow {
        join_rows(kept, after, group)
    } else {
        kept
    };
    assert(next@.len() == project::pair_views(next@).len());
    let added: usize = next.len() - kept_len;
    if tasks_same(&next, &p.tasks) {
        None
    } else {
        Some(Change { project_idx: idx, tasks: next, added, removed: removed.len() })
    }
}

/// Finds a project by its name.
pub fn find_named(projects: &Vec<Project>, name: &str) -> (r: usize)
    ensures
        r == named_at(project::project_views(projects@), name@, 0),
        r <= projects@.len(),
{
    let ghost all = project::project_views(projects@);
    let mut i: usize = 0;
    while i < projects.len() && !same_string(projects[i].name.as_str(), name)
        invariant
            i <= projects.len(),
            all == project::project_views(projects@),
            named_at(all, name@, 0) == named_at(all, name@, i as int),
        decreases projects.len() - i,
    {
        assert(all[i as int] == projects@[i as int]@);
        i += 1;
    }
    if i < projects.len() {
        assert(all[i as int] == projects@[i as int]@);
    }
    i
}

/// Works out what changes in the projects when rows of a task list change.
pub fn plan_changes(
    projects: &Vec<Project>,
    before: &Vec<Row>,
    after: &Vec<Row>,
    allow: bool,
) -> (r: Vec<Change>)
    ensures
        change_views(r@) == changes(
            project::project_views(projects@),
            note::row_views(before@),
            note::row_views(after@),
            allow,
        ),
{
    let ghost ps = project::project_views(projects@);
    let ghost old_rows = note::row_views(before@);
    let ghost new_rows = note::row_views(after@);
    let mut groups: Vec<String> = Vec::new();
    assert(text::texts(groups@) == Seq::<Seq<char>>::empty());
    assert(Seq::<RowView>::empty() + new_rows =~= new_rows);
    add_groups(after, &mut groups, Ghost(Seq::empty()));
    add_groups(before, &mut groups, Ghost(new_rows));
    let ghost names = text::texts(groups@);
    let mut out: Vec<Change> = Vec::new();
    let mut i: usize = 0;
    assert(change_views(out@) == Seq::<ChangeView>::empty());
    while i < groups.len()
        invariant
            i <= groups.len(),
            ps == project::project_views(projects@),
            old_rows == note::row_views(before@),
            new_rows == note::row_views(after@),
            names == text::texts(groups@),
            change_views(out@) == changes_in(ps, old_rows, new_rows, names.take(i as int), allow),
        decreases groups.len() - i,
    {
        assert(names.take(i + 1).drop_last() == names.take(i as int));
        assert(names[i as int] == groups@[i as int]@);
        let idx: usize = find_named(projects, groups[i].as_str());
        assert(ps.len() == projects@.len());
        if idx < projects.len() {
            assert(ps[idx as int] == projects@[idx as int]@);
            match change_for(&projects[idx], idx, before, after, groups[i].as_str(), allow) {
                Some(c) => {
                    let ghost done = out@;
                    out.push(c);
                    assert(change_views(out@) =~= change_views(done).push(c@));
                },
                None => {},
            }
        }
        i += 1;
    }
    assert(names.take(i as int) == names);
    out
}

// -------------------------------------------------------------------------- laws

proof fn lemma_changes_in_range(
    projects: Seq<ProjectView>,
    before: Seq<RowView>,
    after: Seq<RowView>,
    groups: Seq<Seq<char>>,
    allow: bool,
)
    ensures
        forall|i: int|
            0 <= i < changes_in(projects, before, after, groups, allow).len() ==> 0 <= (
            #[trigger] changes_in(projects, before, after, groups, allow)[i]).project_idx
                < projects.len(),
    decreases groups.len(),
{
    if groups.len() > 0 {
        lemma_changes_in_range(projects, before, after, groups.drop_last(), allow);
        lemma_named_at(projects, groups.last(), 0);
        let front = changes_in(projects, before, after, groups.drop_last(), allow);
        let all = changes_in(projects, before, after, groups, allow);
        assert forall|i: int| 0 <= i < all.len() implies 0 <= (#[trigger] all[i]).project_idx
            < projects.len() by {
            if i < front.len() {
                assert(all[i] == front[i]);
            }
        }
    }
}

/// The first project with a name has it.
pub proof fn lemma_named_at(projects: Seq<ProjectView>, name: Seq<char>, i: int)
    requires
        0 <= i <= projects.len(),
    ensures
        i <= named_at(projects, name, i) <= projects.len(),
        named_at(projects, name, i) < projects.len() ==> projects[named_at(
            projects,
            name,
            i,
        )].name == name,
    decreases projects.len() - i,
{
    if i < projects.len() && projects[i].name != name {
        lemma_named_at(projects, name, i + 1);
    }
}

/// Every change is one of a project that exists.
pub proof fn law_changes_in_range(
    projects: Seq<ProjectView>,
    before: Seq<RowView>,
    after: Seq<RowView>,
    allow: bool,
)
    ensures
        forall|i: int|
            0 <= i < changes(projects, before, after, allow).len() ==> 0 <= (#[trigger] changes(
                projects,
                before,
                after,
                allow,
            )[i]).project_idx < projects.len(),
{
    lemma_changes_in_range(projects, before, after, named_groups(after + before), allow);
}

proof fn lemma_staying_titles(
    tasks: Seq<TaskView>,
    after: Seq<RowView>,
    group: Seq<char>,
)
    ensures
        staying(tasks, after, group, Seq::empty()).len() == tasks.len(),
        forall|i: int|
            0 <= i < tasks.len() ==> (#[trigger] staying(
                tasks,
                after,
                group,
                Seq::empty(),
            )[i]).1 == tasks[i].title,
    decreases tasks.len(),
{
    if tasks.len() > 0 {
        lemma_staying_titles(tasks.drop_last(), after, group);
        let s = staying(tasks, after, group, Seq::empty());
        let h = staying(tasks.drop_last(), after, group, Seq::empty());
        assert forall|i: int| 0 <= i < tasks.len() implies (#[trigger] s[i]).1
            == tasks[i].title by {
            if i < tasks.len() - 1 {
                assert(s[i] == h[i]);
            }
        }
    }
}

/// A project whose tasks are already as the rows want them is not written.
pub proof fn law_same_tasks_are_not_written(
    p: ProjectView,
    idx: int,
    before: Seq<RowView>,
    after: Seq<RowView>,
    group: Seq<char>,
    allow: bool,
)
    ensures
        change_of(p, idx, before, after, group, allow) matches Some(c) ==> c.tasks
            != project::task_pairs(p.tasks),
{
}

/// Where rows may not come and go, a change keeps all tasks of a project with their titles
/// and their order.
pub proof fn law_states_only(
    p: ProjectView,
    idx: int,
    before: Seq<RowView>,
    after: Seq<RowView>,
    group: Seq<char>,
)
    ensures
        change_of(p, idx, before, after, group, false) matches Some(c) ==> {
            &&& c.added == 0 && c.removed == 0
            &&& c.tasks.len() == p.tasks.len()
            &&& forall|i: int| 0 <= i < c.tasks.len() ==> (#[trigger] c.tasks[i]).1 == p.tasks[i].title
        },
{
    lemma_staying_titles(p.tasks, after, group);
}

} // verus!
