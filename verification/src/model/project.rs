//! Projects, their tasks, and the checklist that tasks are edited as.

use vstd::prelude::*;

use crate::model::line;
use crate::model::line::parse_task_line;
use crate::model::status::TaskStatus;
use crate::text;
use crate::text::{chars_of, string_of, strip_prefix, trim};

verus! {

// --------------------------------------------------------------------- types

/// A task of a project.
#[derive(Debug)]
pub struct ProjectTask {
    pub id: String,
    pub title: String,
    pub status: TaskStatus,
    pub updated_at_ms: i64,
}

/// What a task holds.
#[verifier::ext_equal]
pub struct TaskView {
    pub id: Seq<char>,
    pub title: Seq<char>,
    pub status: TaskStatus,
    pub updated_at_ms: i64,
}

impl View for ProjectTask {
    type V = TaskView;

    open spec fn view(&self) -> TaskView {
        TaskView {
            id: self.id@,
            title: self.title@,
            status: self.status,
            updated_at_ms: self.updated_at_ms,
        }
    }
}

impl Clone for ProjectTask {
    fn clone(&self) -> (r: ProjectTask)
        ensures
            r@ == self@,
    {
        ProjectTask {
            id: self.id.clone(),
            title: self.title.clone(),
            status: self.status,
            updated_at_ms: self.updated_at_ms,
        }
    }
}

/// What a list of tasks holds.
pub open spec fn task_views(v: Seq<ProjectTask>) -> Seq<TaskView> {
    v.map_values(|t: ProjectTask| t@)
}

/// Copies a list of tasks.
pub fn clone_tasks(tasks: &Vec<ProjectTask>) -> (r: Vec<ProjectTask>)
    ensures
        task_views(r@) == task_views(tasks@),
{
    let mut out: Vec<ProjectTask> = Vec::new();
    let mut i: usize = 0;
    while i < tasks.len()
        invariant
            i <= tasks.len(),
            task_views(out@) == task_views(tasks@).take(i as int),
        decreases tasks.len() - i,
    {
        let ghost done = out@;
        let t: ProjectTask = tasks[i].clone();
        out.push(t);
        assert(task_views(out@) == task_views(done).push(t@));
        assert(task_views(tasks@).take(i + 1) == task_views(tasks@).take(i as int).push(t@));
        i += 1;
    }
    assert(task_views(tasks@).take(i as int) == task_views(tasks@));
    out
}

/// A project: what its file holds, its notes, and the directory it was read from.
#[derive(Debug)]
pub struct Project {
    pub id: String,
    pub name: String,
    pub dir_name: String,
    pub created_at_ms: i64,
    pub updated_at_ms: i64,
    pub archived_at_ms: i64,
    pub issue_url: String,
    pub tasks: Vec<ProjectTask>,
    pub knowledge: String,
    pub source_dir: String,
}

/// What a project holds.
#[verifier::ext_equal]
pub struct ProjectView {
    pub id: Seq<char>,
    pub name: Seq<char>,
    pub dir_name: Seq<char>,
    pub created_at_ms: i64,
    pub updated_at_ms: i64,
    pub archived_at_ms: i64,
    pub issue_url: Seq<char>,
    pub tasks: Seq<TaskView>,
    pub knowledge: Seq<char>,
    pub source_dir: Seq<char>,
}

impl View for Project {
    type V = ProjectView;

    open spec fn view(&self) -> ProjectView {
        ProjectView {
            id: self.id@,
            name: self.name@,
            dir_name: self.dir_name@,
            created_at_ms: self.created_at_ms,
            updated_at_ms: self.updated_at_ms,
            archived_at_ms: self.archived_at_ms,
            issue_url: self.issue_url@,
            tasks: task_views(self.tasks@),
            knowledge: self.knowledge@,
            source_dir: self.source_dir@,
        }
    }
}

impl Clone for Project {
    fn clone(&self) -> (r: Project)
        ensures
            r@ == self@,
    {
        Project {
            id: self.id.clone(),
            name: self.name.clone(),
            dir_name: self.dir_name.clone(),
            created_at_ms: self.created_at_ms,
            updated_at_ms: self.updated_at_ms,
            archived_at_ms: self.archived_at_ms,
            issue_url: self.issue_url.clone(),
            tasks: clone_tasks(&self.tasks),
            knowledge: self.knowledge.clone(),
            source_dir: self.source_dir.clone(),
        }
    }
}

/// What a list of projects holds.
pub open spec fn project_views(v: Seq<Project>) -> Seq<ProjectView> {
    v.map_values(|p: Project| p@)
}

// ----------------------------------------------------------------- selections

/// The tasks in a state, in their order.
pub open spec fn tasks_in(tasks: Seq<TaskView>, status: TaskStatus) -> Seq<TaskView>
    decreases tasks.len(),
{
    if tasks.len() == 0 {
        Seq::empty()
    } else {
        let before = tasks_in(tasks.drop_last(), status);
        if tasks.last().status == status {
            before.push(tasks.last())
        } else {
            before
        }
    }
}

/// The tasks in listing order: not started, in progress, done.
pub open spec fn listed(tasks: Seq<TaskView>) -> Seq<TaskView> {
    tasks_in(tasks, TaskStatus::Backlog) + tasks_in(tasks, TaskStatus::InProgress) + tasks_in(
        tasks,
        TaskStatus::Done,
    )
}

/// What a list of references to tasks holds.
pub open spec fn task_ref_views(v: Seq<&ProjectTask>) -> Seq<TaskView> {
    v.map_values(|t: &ProjectTask| t@)
}

/// A check box line without indentation.
pub open spec fn check_row(status: TaskStatus, title: Seq<char>) -> Seq<char> {
    seq!['-', ' ', '[', status.mark(), ']', ' '] + title
}

/// The check box lines of tasks, each with a newline behind it.
pub open spec fn checklist_text(tasks: Seq<TaskView>) -> Seq<char>
    decreases tasks.len(),
{
    if tasks.len() == 0 {
        Seq::empty()
    } else {
        checklist_text(tasks.drop_last()) + check_row(tasks.last().status, tasks.last().title)
            + seq!['\n']
    }
}

impl Project {
    /// Whether the project is archived.
    pub fn is_archived(&self) -> (r: bool)
        ensures
            r == (self.archived_at_ms > 0),
    {
        self.archived_at_ms > 0
    }

    /// The number of tasks in a state.
    pub fn count(&self, status: TaskStatus) -> (r: usize)
        ensures
            r == tasks_in(self@.tasks, status).len(),
    {
        self.tasks_with(status).len()
    }

    /// The tasks in a state, in their order.
    pub fn tasks_with(&self, status: TaskStatus) -> (r: Vec<&ProjectTask>)
        ensures
            task_ref_views(r@) == tasks_in(self@.tasks, status),
    {
        let ghost all = self@.tasks;
        let mut out: Vec<&ProjectTask> = Vec::new();
        let mut i: usize = 0;
        while i < self.tasks.len()
            invariant
                i <= self.tasks.len(),
                all == task_views(self.tasks@),
                task_ref_views(out@) == tasks_in(all.take(i as int), status),
            decreases self.tasks.len() - i,
        {
            let t: &ProjectTask = &self.tasks[i];
            assert(all[i as int] == t@);
            assert(all.take(i + 1).drop_last() == all.take(i as int));
            if t.status == status {
                let ghost done = out@;
                out.push(t);
                assert(task_ref_views(out@) == task_ref_views(done).push(t@));
            }
            i += 1;
        }
        assert(all.take(i as int) == all);
        out
    }

    /// The tasks as the checklist that they are edited as, in listing order.
    pub fn tasks_as_checklist(&self) -> (r: String)
        ensures
            r@ == checklist_text(listed(self@.tasks)),
    {
        let mut out = String::new();
        let ghost backlog = tasks_in(self@.tasks, TaskStatus::Backlog);
        let ghost doing = tasks_in(self@.tasks, TaskStatus::InProgress);
        let ghost done = tasks_in(self@.tasks, TaskStatus::Done);
        assert(Seq::<TaskView>::empty() + backlog == backlog);
        push_checklist(&mut out, &self.tasks_with(TaskStatus::Backlog), Ghost(Seq::empty()));
        push_checklist(&mut out, &self.tasks_with(TaskStatus::InProgress), Ghost(backlog));
        push_checklist(&mut out, &self.tasks_with(TaskStatus::Done), Ghost(backlog + doing));
        out
    }
}

/// Writes the check box lines of tasks behind those of `before`.
fn push_checklist(
    out: &mut String,
    tasks: &Vec<&ProjectTask>,
    Ghost(before): Ghost<Seq<TaskView>>,
)
    requires
        old(out)@ == checklist_text(before),
    ensures
        final(out)@ == checklist_text(before + task_ref_views(tasks@)),
{
    let ghost all = task_ref_views(tasks@);
    assert(before + all.take(0) == before);
    let mut i: usize = 0;
    while i < tasks.len()
        invariant
            i <= tasks.len(),
            all == task_ref_views(tasks@),
            out@ == checklist_text(before + all.take(i as int)),
        decreases tasks.len() - i,
    {
        let t: &ProjectTask = tasks[i];
        assert(all[i as int] == t@);
        let ghost so_far = out@;
        push_check_row(out, t.status, t.title.as_str());
        out.push('\n');
        assert((before + all.take(i + 1)).drop_last() == before + all.take(i as int));
        assert(out@ == so_far + check_row(t@.status, t@.title) + seq!['\n']);
        i += 1;
    }
    assert(all.take(i as int) == all);
}

/// Writes a check box line without indentation.
pub(crate) fn push_check_row(out: &mut String, status: TaskStatus, title: &str)
    ensures
        final(out)@ == old(out)@ + check_row(status, title@),
{
    out.push('-');
    out.push(' ');
    out.push('[');
    out.push(status.marker());
    out.push(']');
    out.push(' ');
    out.append(title);
    assert(out@ == old(out)@ + check_row(status, title@));
}

// ------------------------------------------------------------------ checklist

/// A text without a list bullet in front.
pub open spec fn without_bullet(s: Seq<char>) -> Seq<char> {
    if line::is_bullet(s) {
        s.skip(2)
    } else {
        s
    }
}

/// The task that a line of an edited checklist stands for. A line without a check box
/// is a task that has not been started; headings and lines without a title are none.
pub open spec fn checklist_row(l: Seq<char>) -> Option<(TaskStatus, Seq<char>)> {
    match line::task_of(l) {
        Some((status, title)) => if title.len() > 0 {
            Some((status, title))
        } else {
            None
        },
        None => {
            let t = text::trimmed(l);
            let title = text::trimmed(without_bullet(t));
            if t.len() > 0 && t[0] != '#' && title.len() > 0 {
                Some((TaskStatus::Backlog, title))
            } else {
                None
            }
        },
    }
}

/// The tasks that lines of an edited checklist stand for.
pub open spec fn checklist_rows(lines: Seq<Seq<char>>) -> Seq<(TaskStatus, Seq<char>)>
    decreases lines.len(),
{
    if lines.len() == 0 {
        Seq::empty()
    } else {
        let before = checklist_rows(lines.drop_last());
        match checklist_row(lines.last()) {
            Some(row) => before.push(row),
            None => before,
        }
    }
}

/// What a list of states and titles holds.
pub open spec fn pair_views(v: Seq<(TaskStatus, String)>) -> Seq<(TaskStatus, Seq<char>)> {
    v.map_values(|p: (TaskStatus, String)| (p.0, p.1@))
}

/// Reads one line of an edited checklist.
fn parse_checklist_row(l: &str) -> (r: Option<(TaskStatus, String)>)
    ensures
        match r {
            Some((status, title)) => checklist_row(l@) == Some((status, title@)),
            None => checklist_row(l@) is None,
        },
{
    match parse_task_line(l) {
        Some((status, title)) => {
            if title.as_str().is_empty() {
                None
            } else {
                Some((status, title))
            }
        },
        None => {
            let v: Vec<char> = chars_of(l);
            let t = trim(v.as_slice());
            if t.len() == 0 || t[0] == '#' {
                return None;
            }
            proof {
                reveal_strlit("- ");
                reveal_strlit("* ");
                assert("- "@ == seq!['-', ' ']);
                assert("* "@ == seq!['*', ' ']);
                if t@.len() >= 2 {
                    assert(t@.take(2)[0] == t@[0] && t@.take(2)[1] == t@[1]);
                    assert(line::is_bullet(t@) ==> t@.take(2) == "- "@ || t@.take(2) == "* "@);
                }
            }
            let rest: &[char] = match strip_prefix(t, "- ") {
                Some(rest) => rest,
                None => match strip_prefix(t, "* ") {
                    Some(rest) => rest,
                    None => t,
                },
            };
            assert(rest@ == without_bullet(t@));
            let title: String = string_of(trim(rest));
            if title.as_str().is_empty() {
                None
            } else {
                Some((TaskStatus::Backlog, title))
            }
        },
    }
}

/// Reads an edited checklist back.
pub fn parse_checklist(text: &str) -> (r: Vec<(TaskStatus, String)>)
    ensures
        pair_views(r@) == checklist_rows(text::lines_of(text@)),
{
    let lines: Vec<String> = crate::text::lines(text);
    let ghost all = text::texts(lines@);
    let mut out: Vec<(TaskStatus, String)> = Vec::new();
    let mut i: usize = 0;
    while i < lines.len()
        invariant
            i <= lines.len(),
            all == text::texts(lines@),
            pair_views(out@) == checklist_rows(all.take(i as int)),
        decreases lines.len() - i,
    {
        assert(all[i as int] == lines[i as int]@);
        assert(all.take(i + 1).drop_last() == all.take(i as int));
        match parse_checklist_row(lines[i].as_str()) {
            Some(row) => {
                let ghost done = out@;
                out.push(row);
                assert(pair_views(out@) == pair_views(done).push((row.0, row.1@)));
            },
            None => {},
        }
        i += 1;
    }
    assert(all.take(i as int) == all);
    out
}

// ----------------------------------------------------------------------- laws

/// Whether a text can be the title of a task in a checklist: one line that is not empty,
/// without white space around it.
pub open spec fn is_title(s: Seq<char>) -> bool {
    s.len() > 0 && !s.contains('\n') && text::trimmed(s) == s
}

/// The states and titles of tasks.
pub open spec fn task_pairs(tasks: Seq<TaskView>) -> Seq<(TaskStatus, Seq<char>)> {
    tasks.map_values(|t: TaskView| (t.status, t.title))
}

/// A check box line is read back as it was written, also with indentation in front.
pub proof fn lemma_check_row(lead: Seq<char>, status: TaskStatus, title: Seq<char>)
    requires
        text::trimmed(title) == title,
        forall|i: int| 0 <= i < lead.len() ==> text::is_space(#[trigger] lead[i]),
    ensures
        line::task_of(lead + check_row(status, title)) == Some((status, title)),
{
    let row = check_row(status, title);
    let l = lead + row;
    assert forall|i: int| 0 <= i < lead.len() implies text::is_space(#[trigger] l[i]) by {
        assert(l[i] == lead[i]);
    }
    assert(l[lead.len() as int] == '-');
    line::lemma_indent_unique(l, lead.len());
    line::lemma_indent(l);
    assert(l.skip(lead.len() as int) == row);
    assert(row.skip(5) == seq![' '] + title);
    text::lemma_trimmed_space(title);
}

/// The lines of a written checklist are its check box lines.
proof fn lemma_checklist_lines(tasks: Seq<TaskView>)
    requires
        forall|i: int| 0 <= i < tasks.len() ==> is_title(#[trigger] tasks[i].title),
    ensures
        text::split_on(checklist_text(tasks), '\n') == tasks.map_values(
            |t: TaskView| check_row(t.status, t.title),
        ).push(Seq::empty()),
    decreases tasks.len(),
{
    let rows = tasks.map_values(|t: TaskView| check_row(t.status, t.title));
    if tasks.len() > 0 {
        let head = tasks.drop_last();
        let t = tasks.last();
        assert forall|i: int| 0 <= i < head.len() implies is_title(#[trigger] head[i].title) by {
            assert(head[i] == tasks[i]);
        }
        lemma_checklist_lines(head);
        let before = checklist_text(head);
        let row = check_row(t.status, t.title);
        assert(is_title(tasks[tasks.len() - 1].title));
        let mark = seq!['-', ' ', '[', t.status.mark(), ']', ' '];
        text::lemma_concat_lacks(mark, t.title, '\n');
        text::lemma_split_whole(row, '\n');
        assert(checklist_text(tasks) == (before + row) + seq!['\n'] + Seq::<char>::empty());
        text::lemma_split_concat(before + row, Seq::empty(), '\n');
        if head.len() == 0 {
            assert(before + row == row);
            assert(rows == seq![row]);
        } else {
            let front = before.drop_last();
            assert(before.last() == '\n');
            assert(before == front + seq!['\n'] + Seq::<char>::empty());
            text::lemma_split_concat(front, Seq::empty(), '\n');
            assert(before + row == front + seq!['\n'] + row);
            text::lemma_split_concat(front, row, '\n');
            let head_rows = head.map_values(|t: TaskView| check_row(t.status, t.title));
            assert(text::split_on(before, '\n') == head_rows.push(Seq::empty()));
            assert(text::split_on(front, '\n') =~= head_rows) by {
                let s = text::split_on(front, '\n');
                assert(s + seq![Seq::<char>::empty()] == head_rows.push(Seq::empty()));
                assert((s + seq![Seq::<char>::empty()]).drop_last() == s);
                assert(head_rows.push(Seq::empty()).drop_last() == head_rows);
            }
            assert(rows == head_rows.push(row));
        }
    }
}

proof fn lemma_checklist_rows(tasks: Seq<TaskView>)
    requires
        forall|i: int| 0 <= i < tasks.len() ==> is_title(#[trigger] tasks[i].title),
    ensures
        checklist_rows(tasks.map_values(|t: TaskView| check_row(t.status, t.title))) == task_pairs(
            tasks,
        ),
    decreases tasks.len(),
{
    let rows = tasks.map_values(|t: TaskView| check_row(t.status, t.title));
    if tasks.len() > 0 {
        let head = tasks.drop_last();
        let t = tasks.last();
        assert forall|i: int| 0 <= i < head.len() implies is_title(#[trigger] head[i].title) by {
            assert(head[i] == tasks[i]);
        }
        lemma_checklist_rows(head);
        assert(rows.drop_last() == head.map_values(|t: TaskView| check_row(t.status, t.title)));
        assert(is_title(tasks[tasks.len() - 1].title));
        lemma_check_row(Seq::empty(), t.status, t.title);
        assert(Seq::<char>::empty() + check_row(t.status, t.title) == check_row(t.status, t.title));
        assert(task_pairs(tasks) == task_pairs(head).push((t.status, t.title)));
    }
}

/// A checklist that is not changed is read back as the states and titles of the tasks
/// it was written from.
pub proof fn law_checklist_reads_back(tasks: Seq<TaskView>)
    requires
        forall|i: int| 0 <= i < tasks.len() ==> is_title(#[trigger] tasks[i].title),
    ensures
        checklist_rows(text::lines_of(checklist_text(tasks))) == task_pairs(tasks),
{
    let rows = tasks.map_values(|t: TaskView| check_row(t.status, t.title));
    let s = checklist_text(tasks);
    lemma_checklist_lines(tasks);
    lemma_checklist_rows(tasks);
    let parts = text::split_on(s, '\n');
    assert(parts.last() == Seq::<char>::empty());
    let ended = parts.drop_last().map_values(|l: Seq<char>| text::without_return(l));
    assert(parts.drop_last() == rows);
    assert(ended == rows) by {
        assert forall|i: int| 0 <= i < rows.len() implies ended[i] == rows[i] by {
            assert(is_title(tasks[i].title));
            text::lemma_trimmed_ends(tasks[i].title);
            assert(rows[i].last() == tasks[i].title.last());
        }
    }
}

proof fn lemma_tasks_in(tasks: Seq<TaskView>, status: TaskStatus)
    ensures
        forall|i: int|
            0 <= i < tasks_in(tasks, status).len() ==> (#[trigger] tasks_in(tasks, status)[i]).status
                == status && tasks.contains(tasks_in(tasks, status)[i]),
        tasks_in(tasks, status).to_multiset() == tasks.to_multiset().filter(
            |t: TaskView| t.status == status,
        ),
    decreases tasks.len(),
{
    broadcast use vstd::seq_lib::group_to_multiset_ensures;

    let f = |t: TaskView| t.status == status;
    if tasks.len() == 0 {
        assert(tasks_in(tasks, status).to_multiset() =~= tasks.to_multiset().filter(f));
    } else {
        let head = tasks.drop_last();
        let t = tasks.last();
        lemma_tasks_in(head, status);
        assert(head.push(t) == tasks);
        assert forall|i: int| 0 <= i < tasks_in(tasks, status).len() implies (
        #[trigger] tasks_in(tasks, status)[i]).status == status && tasks.contains(
            tasks_in(tasks, status)[i],
        ) by {
            let x = tasks_in(tasks, status)[i];
            if i < tasks_in(head, status).len() {
                assert(x == tasks_in(head, status)[i]);
                let j = choose|j: int| 0 <= j < head.len() && head[j] == x;
                assert(tasks[j] == x);
            } else {
                assert(tasks[tasks.len() - 1] == x);
            }
        }
        assert(tasks_in(tasks, status).to_multiset() =~= tasks.to_multiset().filter(f));
    }
}

/// Listing the tasks loses none and adds none, and puts those that have not been
/// started first and those that are done last.
pub proof fn law_listed_keeps_tasks(tasks: Seq<TaskView>)
    ensures
        listed(tasks).to_multiset() == tasks.to_multiset(),
        listed(tasks).len() == tasks.len(),
        forall|i: int, j: int|
            0 <= i <= j < listed(tasks).len() ==> (#[trigger] listed(tasks)[i]).status.rank() <= (
            #[trigger] listed(tasks)[j]).status.rank(),
{
    broadcast use vstd::seq_lib::group_to_multiset_ensures;

    lemma_tasks_in(tasks, TaskStatus::Backlog);
    lemma_tasks_in(tasks, TaskStatus::InProgress);
    lemma_tasks_in(tasks, TaskStatus::Done);
    let a = tasks_in(tasks, TaskStatus::Backlog);
    let b = tasks_in(tasks, TaskStatus::InProgress);
    let c = tasks_in(tasks, TaskStatus::Done);
    vstd::seq_lib::lemma_multiset_commutative(a, b);
    vstd::seq_lib::lemma_multiset_commutative(a + b, c);
    assert(listed(tasks).to_multiset() =~= tasks.to_multiset());
    assert(listed(tasks).to_multiset().len() == tasks.to_multiset().len());
    assert forall|i: int, j: int| 0 <= i <= j < listed(tasks).len() implies (
    #[trigger] listed(tasks)[i]).status.rank() <= (#[trigger] listed(tasks)[j]).status.rank() by {
        let l = listed(tasks);
        if i < a.len() {
            assert(l[i] == a[i]);
        } else if i < a.len() + b.len() {
            assert(l[i] == b[i - a.len()]);
        } else {
            assert(l[i] == c[i - a.len() - b.len()]);
        }
        if j < a.len() {
            assert(l[j] == a[j]);
        } else if j < a.len() + b.len() {
            assert(l[j] == b[j - a.len()]);
        } else {
            assert(l[j] == c[j - a.len() - b.len()]);
        }
    }
}

} // verus!
