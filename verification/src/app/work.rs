//! Messages and edits that lead to work outside.

use vstd::prelude::*;
use vstd::view::View as _;

use crate::app::jobs;
use crate::app::jobs::{Job, Wait};
use crate::app::plan;
use crate::app::reading::body_list;
use crate::app::state;
use crate::app::state::{App, AppView, SPLASH_MS};
use crate::app::steps;
use crate::app::todos;
use crate::app::todos::Placed;
use crate::app::types;
use crate::app::types::{Confirm, Focus, Mode, Msg, TodoSort, View};
use crate::app::update::counted;
use crate::calendar::{format_date, format_stamp, now, Moment};
use crate::config;
use crate::config::Config;
use crate::editor::{compose, decompose, EditRequest, EditTarget};
use crate::model::block::format_entry_block;
use crate::model::entry::Entry;
use crate::model::note;
use crate::model::note::{DailyNote, NoteView, TodoItem, TODO_TAG};
use crate::model::project;
use crate::model::project::{parse_checklist, Project, ProjectTask, TaskView};
use crate::model::status::TaskStatus;
use crate::model::todo;
use crate::model::todo::build_todo_body;
use crate::store::project_file;
use crate::store::project_file::new_id;
use crate::text;
use crate::text::{blank, join, same_string, trim_string};

verus! {

// ----------------------------------------------------------------------- helpers

/// Finds the note of a day.
pub(crate) fn find_note(notes: &Vec<DailyNote>, day: &str) -> (r: usize)
    ensures
        r == steps::note_of_day(note::note_views(notes@), day@, 0),
        r <= notes@.len(),
{
    let ghost all = note::note_views(notes@);
    let mut i: usize = 0;
    while i < notes.len() && !same_string(notes[i].date.as_str(), day)
        invariant
            i <= notes.len(),
            all == note::note_views(notes@),
            steps::note_of_day(all, day@, 0) == steps::note_of_day(all, day@, i as int),
        decreases notes.len() - i,
    {
        assert(all[i as int] == notes@[i as int]@);
        i += 1;
    }
    if i < notes.len() {
        assert(all[i as int] == notes@[i as int]@);
    }
    i
}

/// Finds the first entry of a note that holds tasks.
fn find_todo_entry(n: &DailyNote) -> (r: usize)
    requires
        n@.fits(),
    ensures
        r == steps::todo_entry(n@, 0),
        r <= n.entries@.len(),
{
    let mut i: usize = 0;
    while i < n.entries.len()
        invariant
            i <= n.entries.len(),
            n@.fits(),
            steps::todo_entry(n@, 0) == steps::todo_entry(n@, i as int),
        decreases n.entries.len() - i,
    {
        assert(n@.entries[i as int] == n.entries@[i as int]@);
        assert(note::entry_fits(n@.entries[i as int], n@.lines.len() as int));
        if n.is_todo(&n.entries[i]) {
            return i;
        }
        i += 1;
    }
    i
}

/// What an optional place of an entry holds.
pub(crate) open spec fn place_view(p: Option<(usize, usize)>) -> Option<(int, int)> {
    match p {
        Some((n, k)) => Some((n as int, k as int)),
        None => None,
    }
}

/// Finds the task list of a day.
pub(crate) fn find_todo_place(notes: &Vec<DailyNote>, day: &str) -> (r: Option<(usize, usize)>)
    requires
        forall|i: int| 0 <= i < notes@.len() ==> (#[trigger] notes@[i])@.fits(),
    ensures
        place_view(r) == steps::todo_place(note::note_views(notes@), day@),
        r matches Some((n, k)) ==> n < notes@.len() && k < notes@[n as int].entries@.len(),
{
    let ghost all = note::note_views(notes@);
    let n: usize = find_note(notes, day);
    assert(all.len() == notes@.len());
    if n < notes.len() {
        assert(all[n as int] == notes@[n as int]@);
        let k: usize = find_todo_entry(&notes[n]);
        if k < notes[n].entries.len() {
            return Some((n, k));
        }
    }
    None
}

/// Finds the task on a line.
fn find_task_on(items: &Vec<TodoItem>, line: usize) -> (r: usize)
    ensures
        r == steps::task_on(note::todo_views(items@), line as int, 0),
        r <= items@.len(),
{
    let ghost all = note::todo_views(items@);
    let mut i: usize = 0;
    while i < items.len() && items[i].line != line
        invariant
            i <= items.len(),
            all == note::todo_views(items@),
            steps::task_on(all, line as int, 0) == steps::task_on(all, line as int, i as int),
        decreases items.len() - i,
    {
        assert(all[i as int] == items@[i as int]@);
        i += 1;
    }
    if i < items.len() {
        assert(all[i as int] == items@[i as int]@);
    }
    i
}

/// The tasks of a project with the state of those with a title changed.
fn next_tasks(p: &Project, title: &str, next: TaskStatus) -> (r: Vec<(TaskStatus, String)>)
    ensures
        project::pair_views(r@) == steps::with_next(p@.tasks, title@, next),
{
    let ghost all = project::listed(p@.tasks);
    let ghost f = |t: TaskView|
        (
            if t.title == title@ {
                next
            } else {
                t.status
            },
            t.title,
        );
    let backlog: Vec<&ProjectTask> = p.tasks_with(TaskStatus::Backlog);
    let doing: Vec<&ProjectTask> = p.tasks_with(TaskStatus::InProgress);
    let done: Vec<&ProjectTask> = p.tasks_with(TaskStatus::Done);
    let mut out: Vec<(TaskStatus, String)> = Vec::new();
    assert(project::pair_views(out@) =~= Seq::<TaskView>::empty().map_values(f));
    push_next(&mut out, &backlog, title, next, Ghost(Seq::empty()));
    push_next(&mut out, &doing, title, next, Ghost(project::task_ref_views(backlog@)));
    push_next(
        &mut out,
        &done,
        title,
        next,
        Ghost(project::task_ref_views(backlog@) + project::task_ref_views(doing@)),
    );
    out
}

/// Adds tasks with the state of those with a title changed.
fn push_next(
    out: &mut Vec<(TaskStatus, String)>,
    tasks: &Vec<&ProjectTask>,
    title: &str,
    next: TaskStatus,
    Ghost(front): Ghost<Seq<TaskView>>,
)
    requires
        project::pair_views(old(out)@) == front.map_values(
            |t: TaskView|
                (
                    if t.title == title@ {
                        next
                    } else {
                        t.status
                    },
                    t.title,
                ),
        ),
    ensures
        project::pair_views(final(out)@) == (front + project::task_ref_views(
            tasks@,
        )).map_values(
            |t: TaskView|
                (
                    if t.title == title@ {
                        next
                    } else {
                        t.status
                    },
                    t.title,
                ),
        ),
{
    let ghost f = |t: TaskView|
        (
            if t.title == title@ {
                next
            } else {
                t.status
            },
            t.title,
        );
    let ghost all = project::task_ref_views(tasks@);
    let mut i: usize = 0;
    assert((front + all.take(0)) == front);
    while i < tasks.len()
        invariant
            i <= tasks.len(),
            all == project::task_ref_views(tasks@),
            f == |t: TaskView|
                (
                    if t.title == title@ {
                        next
                    } else {
                        t.status
                    },
                    t.title,
                ),
            project::pair_views(out@) == (front + all.take(i as int)).map_values(f),
        decreases tasks.len() - i,
    {
        let t: &ProjectTask = tasks[i];
        assert(all[i as int] == t@);
        let status: TaskStatus = if same_string(t.title.as_str(), title) {
            next
        } else {
            t.status
        };
        let ghost done = out@;
        let pair: (TaskStatus, String) = (status, t.title.clone());
        out.push(pair);
        assert(project::pair_views(out@) =~= project::pair_views(done).push((pair.0, pair.1@)));
        assert((front + all.take(i + 1)) =~= (front + all.take(i as int)).push(t@));
        assert((front + all.take(i + 1)).map_values(f) =~= (front + all.take(i as int)).map_values(
            f,
        ).push(f(t@)));
        i += 1;
    }
    assert(all.take(i as int) == all);
}

/// The titles of tasks that are not among others.
fn titles_dropped(tasks: &Vec<ProjectTask>, next: &Vec<(TaskStatus, String)>) -> (r: Vec<String>)
    ensures
        text::texts(r@) == steps::dropped_titles(
            project::task_views(tasks@),
            project::pair_views(next@),
        ),
{
    let ghost all = project::task_views(tasks@);
    let ghost pairs = project::pair_views(next@);
    let mut out: Vec<String> = Vec::new();
    let mut i: usize = 0;
    assert(text::texts(out@) == Seq::<Seq<char>>::empty());
    while i < tasks.len()
        invariant
            i <= tasks.len(),
            all == project::task_views(tasks@),
            pairs == project::pair_views(next@),
            text::texts(out@) == steps::dropped_titles(all.take(i as int), pairs),
        decreases tasks.len() - i,
    {
        assert(all.take(i + 1).drop_last() == all.take(i as int));
        assert(all[i as int] == tasks@[i as int]@);
        assert(pairs.len() == next@.len());
        if !plan::has_title(next, tasks[i].title.as_str()) {
            let ghost done = out@;
            let t: String = tasks[i].title.clone();
            out.push(t);
            assert(text::texts(out@) =~= text::texts(done).push(t@));
        }
        i += 1;
    }
    assert(all.take(i as int) == all);
    out
}

/// The first line that is not blank, without white space around it.
fn first_line(s: &str) -> (r: Option<String>)
    ensures
        config::opt(r) == steps::first_words(text::lines_of(s@), 0),
{
    let lines: Vec<String> = crate::text::lines(s);
    let ghost all = text::texts(lines@);
    let mut i: usize = 0;
    while i < lines.len()
        invariant
            i <= lines.len(),
            all == text::texts(lines@),
            all == text::lines_of(s@),
            steps::first_words(all, 0) == steps::first_words(all, i as int),
        decreases lines.len() - i,
    {
        assert(all[i as int] == lines@[i as int]@);
        if !blank(lines[i].as_str()) {
            return Some(trim_string(lines[i].as_str()));
        }
        i += 1;
    }
    None
}

/// The projects that are not archived and have tasks in progress, with these tasks.
fn groups_active(projects: &Vec<Project>) -> (r: Vec<(&str, Vec<&ProjectTask>)>)
    ensures
        todo::group_views(r@) == steps::active_groups(project::project_views(projects@)),
{
    let ghost all = project::project_views(projects@);
    let mut out: Vec<(&str, Vec<&ProjectTask>)> = Vec::new();
    let mut i: usize = 0;
    assert(todo::group_views(out@) == Seq::<(Seq<char>, Seq<TaskView>)>::empty());
    while i < projects.len()
        invariant
            i <= projects.len(),
            all == project::project_views(projects@),
            todo::group_views(out@) == steps::active_groups(all.take(i as int)),
        decreases projects.len() - i,
    {
        assert(all.take(i + 1).drop_last() == all.take(i as int));
        let p: &Project = &projects[i];
        assert(all[i as int] == p@);
        if !p.is_archived() {
            let tasks: Vec<&ProjectTask> = p.tasks_with(TaskStatus::InProgress);
            let ghost views = project::task_ref_views(tasks@);
            assert(views.len() == tasks@.len());
            if tasks.len() > 0 {
                let ghost done = out@;
                out.push((p.name.as_str(), tasks));
                assert(todo::group_views(out@) =~= todo::group_views(done).push((p@.name, views)));
            }
        }
        i += 1;
    }
    assert(all.take(i as int) == all);
    out
}

/// How many tasks groups have.
fn total_of(groups: &Vec<(&str, Vec<&ProjectTask>)>) -> (r: usize)
    ensures
        r == steps::group_total(todo::group_views(groups@)),
{
    let ghost all = todo::group_views(groups@);
    let mut count: usize = 0;
    let mut i: usize = 0;
    while i < groups.len()
        invariant
            i <= groups.len(),
            all == todo::group_views(groups@),
            count == steps::group_total(all.take(i as int)),
        decreases groups.len() - i,
    {
        assert(all.take(i + 1).drop_last() == all.take(i as int));
        assert(all[i as int].1.len() == groups@[i as int].1@.len());
        count = count.saturating_add(groups[i].1.len());
        i += 1;
    }
    assert(all.take(i as int) == all);
    count
}

/// The names of the directories of projects.
fn dir_names(projects: &Vec<Project>) -> (r: Vec<String>)
    ensures
        text::texts(r@) == project::project_views(projects@).map_values(
            |p: project::ProjectView| p.dir_name,
        ),
{
    let ghost all = project::project_views(projects@).map_values(
        |p: project::ProjectView| p.dir_name,
    );
    let mut out: Vec<String> = Vec::new();
    let mut i: usize = 0;
    assert(text::texts(out@) == all.take(0));
    while i < projects.len()
        invariant
            i <= projects.len(),
            all == project::project_views(projects@).map_values(
                |p: project::ProjectView| p.dir_name,
            ),
            text::texts(out@) == all.take(i as int),
        decreases projects.len() - i,
    {
        let ghost done = out@;
        let d: String = projects[i].dir_name.clone();
        assert(all[i as int] == d@);
        out.push(d);
        assert(text::texts(out@) =~= text::texts(done).push(d@));
        assert(all.take(i + 1) =~= all.take(i as int).push(d@));
        i += 1;
    }
    assert(all.take(i as int) == all);
    out
}

/// Names with those at some places put in another order.
fn rearrange(names: &Vec<String>, places: &Vec<usize>, order: &Vec<usize>) -> (r: Vec<String>)
    requires
        places@.len() == order@.len(),
        forall|k: int| 0 <= k < places@.len() ==> #[trigger] places@[k] < names@.len(),
        forall|k: int| 0 <= k < order@.len() ==> #[trigger] order@[k] < names@.len(),
    ensures
        text::texts(r@) == steps::rearranged(
            text::texts(names@),
            state::places(places@),
            state::places(order@),
            places@.len() as int,
        ),
{
    let ghost all = text::texts(names@);
    let ghost at = state::places(places@);
    let ghost from = state::places(order@);
    let mut out: Vec<String> = names.clone();
    assert(text::texts(out@) =~= all);
    let mut k: usize = 0;
    while k < places.len()
        invariant
            k <= places.len(),
            places@.len() == order@.len(),
            out@.len() == names@.len(),
            all == text::texts(names@),
            at == state::places(places@),
            from == state::places(order@),
            forall|k: int| 0 <= k < places@.len() ==> #[trigger] places@[k] < names@.len(),
            forall|k: int| 0 <= k < order@.len() ==> #[trigger] order@[k] < names@.len(),
            text::texts(out@) == steps::rearranged(all, at, from, k as int),
        decreases places.len() - k,
    {
        let ghost done = out@;
        let to: usize = places[k];
        let name: String = names[order[k]].clone();
        assert(at[k as int] == to && from[k as int] == order@[k as int]);
        assert(all[from[k as int]] == name@);
        out.set(to, name);
        assert(text::texts(out@) =~= text::texts(done).update(to as int, name@));
        k += 1;
    }
    out
}

/// The state stays sound where only the notes' contents change, each fitting.
pub(crate) proof fn lemma_sound(s: AppView, t: AppView)
    requires
        s.is_sound(),
        t.notes == s.notes,
        t.wait == s.wait || t.wait is Idle,
    ensures
        t.is_sound(),
{
    assert forall|i: int| 0 <= i < t.notes.len() implies (#[trigger] t.notes[i]).fits() by {
        assert(s.notes[i].fits());
    }
}

impl App {
    /// Asks for the editor.
    pub(crate) fn ask(&mut self, target: EditTarget, initial: String)
        ensures
            final(self)@ == old(self)@.asked(target, initial@),
    {
        self.pending_edit = Some(EditRequest { target, initial });
        assert(self@ =~= old(self)@.asked(target, initial@));
    }

    /// Waits for something.
    pub(crate) fn wait_for(&mut self, wait: Wait)
        ensures
            final(self)@ == (AppView { wait: wait@, ..old(self)@ }),
    {
        self.wait = wait;
        assert(self@ =~= (AppView { wait: wait@, ..old(self)@ }));
    }

    /// Puts a note in the place of another.
    pub(crate) fn put_note(&mut self, n: usize, note: DailyNote)
        requires
            n < old(self).notes@.len(),
        ensures
            final(self)@ == old(self)@.with_note(n as int, note@),
            final(self).notes@.len() == old(self).notes@.len(),
    {
        let ghost before = self.notes@;
        self.notes.set(n, note);
        assert(note::note_views(self.notes@) =~= note::note_views(before).update(
            n as int,
            note@,
        ));
        assert(self@ =~= old(self)@.with_note(n as int, note@));
    }

    /// The text that is edited of an entry.
    fn entry_text(&self, n: usize, k: usize) -> (r: String)
        requires
            self@.is_sound(),
            n < self.notes@.len(),
            k < self.notes@[n as int].entries@.len(),
        ensures
            r@ == self@.edit_text(n as int, k as int),
    {
        let note: &DailyNote = &self.notes[n];
        assert(self@.notes[n as int] == note@);
        assert(self@.notes[n as int].fits());
        let e: &Entry = &note.entries[k];
        assert(note@.entries[k as int] == e@);
        assert(note::entry_fits(note@.entries[k as int], note@.lines.len() as int));
        let body: Vec<String> = body_list(note, e);
        proof {
            reveal_strlit("\n");
            assert("\n"@ == seq!['\n']);
        }
        compose(&e.tags, join(&body, "\n").as_str())
    }

    /// Begins to edit what is chosen.
    pub(crate) fn start_edit_entry(&mut self)
        requires
            old(self)@.is_sound(),
        ensures
            final(self)@ == old(self)@.edit_started(),
    {
        if self.view == View::Projects {
            match self.project_index() {
                Some(i) => {
                    assert(self@.projects[i as int] == self.projects@[i as int]@);
                    let list: String = self.projects[i].tasks_as_checklist();
                    let initial: String = if list.as_str().is_empty() {
                        "- [ ] ".to_owned()
                    } else {
                        list
                    };
                    self.ask(EditTarget::ProjectTasks { project_idx: i }, initial);
                },
                None => {
                    self.say("プロジェクトがありません");
                },
            }
        } else {
            match self.focused_entry() {
                Some((n, k)) => {
                    let initial: String = self.entry_text(n, k);
                    self.ask(EditTarget::EntryBody { note_idx: n, entry_idx: k }, initial);
                },
                None => {
                    self.say("編集するエントリがありません");
                },
            }
        }
    }

    /// Begins to name a new project.
    pub(crate) fn start_new_project(&mut self)
        ensures
            final(self)@ == old(self)@.project_started(),
    {
        self.ask(EditTarget::NewProject, String::new());
        self.say("プロジェクト名を 1 行で書いて保存します");
    }

    /// Begins to write a new entry, or to name a new project.
    pub(crate) fn start_new_entry(&mut self)
        ensures
            final(self)@ == old(self)@.entry_started(),
    {
        if self.view == View::Projects {
            self.start_new_project();
        } else {
            let none: Vec<String> = Vec::new();
            assert(text::texts(none@) =~= Seq::<Seq<char>>::empty());
            proof {
                reveal_strlit("");
                assert(""@ =~= Seq::<char>::empty());
            }
            let initial: String = compose(&none, "");
            self.ask(EditTarget::NewEntry, initial);
        }
    }

    /// Begins to edit the task list of today.
    pub(crate) fn start_today_todo(&mut self, now: &Moment)
        requires
            old(self)@.is_sound(),
            now.is_valid(),
        ensures
            final(self)@ == old(self)@.today_started(*now),
    {
        let ghost s = old(self)@;
        let date: String = format_date(&now.date);
        assert forall|i: int| 0 <= i < self.notes@.len() implies (#[trigger] self.notes@[i])@.fits() by {
            assert(self@.notes[i] == self.notes@[i]@);
        }
        match find_todo_place(&self.notes, date.as_str()) {
            Some((n, k)) => {
                let initial: String = self.entry_text(n, k);
                self.ask(EditTarget::EntryBody { note_idx: n, entry_idx: k }, initial);
                self.say("今日の ToDo を開きます");
            },
            None => {
                let (body, count) = self.todo_template(now);
                let mut tags: Vec<String> = Vec::new();
                tags.push(TODO_TAG.to_owned());
                assert(text::texts(tags@) =~= seq![TODO_TAG@]);
                let initial: String = compose(&tags, body.as_str());
                self.ask(EditTarget::NewEntry, initial);
                let words: String = if count > 0 {
                    counted("進行中のタスク ", count, " 件から作ります")
                } else {
                    "今日の ToDo を作ります".to_owned()
                };
                self.report(words);
            },
        }
    }

    /// The body of a new task list of today, and how many tasks it has.
    fn todo_template(&self, now: &Moment) -> (r: (String, usize))
        requires
            now.is_valid(),
        ensures
            r.0@ == text::joined(
                todo::body_rows(now.date, steps::active_groups(self@.projects)),
                seq!['\n'],
            ),
            r.1 == steps::group_total(steps::active_groups(self@.projects)),
    {
        let groups: Vec<(&str, Vec<&ProjectTask>)> = groups_active(&self.projects);
        let body: String = build_todo_body(now.date, &groups);
        let count: usize = total_of(&groups);
        (body, count)
    }

    /// Asks whether the chosen entry is to be deleted.
    pub(crate) fn start_delete_entry(&mut self)
        ensures
            final(self)@ == old(self)@.delete_started(),
    {
        match self.focused_entry() {
            Some((n, k)) => {
                self.confirm = Some(Confirm::DeleteEntry { note_idx: n, entry_idx: k });
                self.mode = Mode::Confirm;
                assert(self@ =~= old(self)@.delete_started());
            },
            None => {
                self.say("削除するエントリがありません");
            },
        }
    }

    /// Has a note written that was changed.
    pub(crate) fn persist(
        &mut self,
        note_idx: usize,
        before: String,
        success: String,
        rows: Option<(Vec<plan::Row>, Vec<plan::Row>)>,
    ) -> (r: Option<Job>)
        ensures
            (final(self)@, jobs::job_view(r)) == old(self)@.persisting(
                note_idx as int,
                before@,
                success@,
                jobs::rows_view(rows),
            ),
    {
        self.wait_for(Wait::Persist { note_idx, before, success, rows });
        Some(Job::SaveNote { note_idx, create: true })
    }

    /// Does what was confirmed.
    pub(crate) fn apply_confirm(&mut self) -> (r: Option<Job>)
        requires
            old(self)@.is_sound(),
            old(self)@.is_idle(),
        ensures
            (final(self)@, jobs::job_view(r)) == old(self)@.confirmed(),
            final(self)@.is_sound(),
    {
        let ghost s = old(self)@;
        let confirm: Option<Confirm> = self.confirm;
        self.confirm = None;
        self.mode = Mode::Normal;
        let ghost a = AppView { confirm: None, mode: Mode::Normal, ..s };
        assert(self@ =~= a);
        proof {
            lemma_sound(s, a);
        }
        match confirm {
            Some(Confirm::DeleteEntry { note_idx, entry_idx }) => {
                assert(s.notes.len() == self.notes@.len());
                if note_idx >= self.notes.len() {
                    return None;
                }
                assert(s.notes[note_idx as int] == self.notes@[note_idx as int]@);
                assert(s.notes[note_idx as int].fits());
                assert(s.notes[note_idx as int].entries.len()
                    == self.notes@[note_idx as int].entries@.len());
                if entry_idx >= self.notes[note_idx].entries.len() {
                    self.say("エントリが見つかりません");
                    return None;
                }
                let before: String = self.notes[note_idx].to_text();
                let mut note: DailyNote = self.notes[note_idx].clone();
                let _ = note.delete_entry(entry_idx);
                let len: usize = note.entries.len();
                assert(note@.entries.len() == len);
                let ghost left = s.notes[note_idx as int].without_entry(entry_idx as int);
                self.put_note(note_idx, note);
                self.detail_scroll = 0;
                self.note_task_sel = 0;
                if self.entry_sel >= len {
                    self.entry_sel = if len < 1 {
                        0
                    } else {
                        len - 1
                    };
                }
                assert(self@ =~= (AppView {
                    detail_scroll: 0,
                    note_task_sel: 0,
                    entry_sel: AppView::pulled(s.entry_sel, len as int),
                    ..a.with_note(note_idx as int, left)
                }));
                let r = self.persist(note_idx, before, "削除しました".to_owned(), None);
                proof {
                    lemma_note_put(s, self@, note_idx as int);
                }
                r
            },
            None => None,
        }
    }

    /// Takes over an entry that was edited.
    pub(crate) fn apply_entry_body(&mut self, note_idx: usize, entry_idx: usize, s: &str) -> (r:
        Option<Job>)
        requires
            old(self)@.is_sound(),
            old(self)@.is_idle(),
        ensures
            (final(self)@, jobs::job_view(r)) == old(self)@.entry_edited(
                note_idx as int,
                entry_idx as int,
                s@,
            ),
            final(self)@.is_sound(),
    {
        let ghost start = old(self)@;
        let (tags, body) = decompose(s);
        if blank(body.as_str()) {
            self.say("本文が空のままなので変更しませんでした");
            proof {
                lemma_sound(start, self@);
            }
            return None;
        }
        assert(start.notes.len() == self.notes@.len());
        if note_idx >= self.notes.len() {
            return None;
        }
        assert(start.notes[note_idx as int] == self.notes@[note_idx as int]@);
        assert(start.notes[note_idx as int].fits());
        assert(start.notes[note_idx as int].entries.len()
            == self.notes@[note_idx as int].entries@.len());
        if entry_idx >= self.notes[note_idx].entries.len() {
            self.say("エントリが見つかりません");
            proof {
                lemma_sound(start, self@);
            }
            return None;
        }
        let ghost n = start.notes[note_idx as int];
        let before_rows: Vec<plan::Row> = self.notes[note_idx].entry_todo_rows(entry_idx);
        let before: String = self.notes[note_idx].to_text();
        let mut note: DailyNote = self.notes[note_idx].clone();
        edit_note(&mut note, entry_idx, &tags, body.as_str());
        let ghost m = AppView::edited_note(n, entry_idx as int, text::texts(tags@), body@);
        assert(note@ == m);
        let still: bool = holds_tasks(&note, entry_idx);
        let rows: Option<(Vec<plan::Row>, Vec<plan::Row>)> = if still {
            let after_rows: Vec<plan::Row> = note.entry_todo_rows(entry_idx);
            Some((before_rows, after_rows))
        } else {
            None
        };
        self.put_note(note_idx, note);
        let r = self.persist(note_idx, before, "保存しました".to_owned(), rows);
        proof {
            lemma_note_put(start, self@, note_idx as int);
        }
        r
    }

    /// Moves the state of the chosen row of the task list on.
    pub(crate) fn cycle_todo(&mut self) -> (r: Option<Job>)
        requires
            old(self)@.is_sound(),
            old(self)@.is_idle(),
        ensures
            (final(self)@, jobs::job_view(r)) == old(self)@.todo_cycled(),
            final(self)@.is_sound(),
    {
        let ghost s = old(self)@;
        if self.view == View::Notes {
            return self.cycle_note_task();
        }
        if self.view == View::Todo && self.focus == Focus::List {
            if self.todo_count() == 0 {
                self.say("ToDo がありません");
            } else {
                self.focus = Focus::Detail;
                assert(self@ =~= (AppView { focus: Focus::Detail, ..s }));
                self.say("タスクを選んで Space で状態を進めます");
            }
            proof {
                lemma_sound(s, self@);
            }
            return None;
        }
        let chosen: Option<Placed> = self.chosen_todo();
        match chosen {
            Some((n, item)) => {
                let next: TaskStatus = item.status.next();
                assert(s.notes.len() == self.notes@.len());
                if n >= self.notes.len() {
                    return None;
                }
                assert(s.notes[n as int] == self.notes@[n as int]@);
                assert(s.notes[n as int].fits());
                let before: String = self.notes[n].to_text();
                let mut note: DailyNote = self.notes[n].clone();
                if !note.set_task_status(item.line, next) {
                    self.say("チェック欄が見つかりません");
                    proof {
                        lemma_sound(s, self@);
                    }
                    return None;
                }
                proof {
                    lemma_status_fits(s.notes[n as int], item.line as int, next);
                }
                self.put_note(n, note);
                self.wait_for(
                    Wait::Row {
                        note_idx: n,
                        before,
                        group: item.group,
                        title: item.title,
                        next,
                    },
                );
                proof {
                    lemma_note_put(s, self@, n as int);
                }
                Some(Job::SaveNote { note_idx: n, create: false })
            },
            None => {
                self.say("ToDo がありません");
                proof {
                    lemma_sound(s, self@);
                }
                None
            },
        }
    }

    /// The task that is chosen in the task list.
    fn chosen_todo(&self) -> (r: Option<Placed>)
        ensures
            match r {
                Some(p) => 0 <= self@.todo_sel < self@.todos_shown().len()
                    && self@.todos_shown()[self@.todo_sel] == todos::placed_view(p),
                None => self@.todo_sel >= self@.todos_shown().len(),
            },
    {
        let list: Vec<&Placed> = self.visible_todos();
        assert(list@.len() == todos::placed_refs(list@).len());
        if self.todo_sel < list.len() {
            let p: &Placed = list[self.todo_sel];
            assert(todos::placed_refs(list@)[self.todo_sel as int] == todos::placed_view(*p));
            Some((p.0, p.1.clone()))
        } else {
            None
        }
    }

    /// Moves the state of the chosen task of the body on.
    pub(crate) fn cycle_note_task(&mut self) -> (r: Option<Job>)
        requires
            old(self)@.is_sound(),
            old(self)@.is_idle(),
        ensures
            (final(self)@, jobs::job_view(r)) == old(self)@.note_task_cycled(),
            final(self)@.is_sound(),
    {
        let ghost s = old(self)@;
        if self.focus == Focus::List {
            let spots: Vec<usize> = self.note_task_positions();
            assert(spots@.len() == state::places(spots@).len());
            if spots.len() == 0 {
                self.say("この日に ToDo はありません");
            } else {
                self.focus = Focus::Detail;
                assert(self@ =~= (AppView { focus: Focus::Detail, ..s }));
                self.say("タスクを選んで Space で状態を進めます");
            }
            proof {
                lemma_sound(s, self@);
            }
            return None;
        }
        match self.selected_note_task() {
            Some(line) => {
                let n: usize = self.note_sel;
                proof {
                    lemma_task_line_has_note(s);
                }
                assert(s.notes.len() == self.notes@.len());
                assert(s.notes[n as int] == self.notes@[n as int]@);
                assert(s.notes[n as int].fits());
                let items: Vec<TodoItem> = self.notes[n].todo_items();
                let at: usize = find_task_on(&items, line);
                assert(note::todo_views(items@).len() == items@.len());
                if at >= items.len() {
                    return None;
                }
                assert(note::todo_views(items@)[at as int] == items@[at as int]@);
                let next: TaskStatus = items[at].status.next();
                let before: String = self.notes[n].to_text();
                let mut note: DailyNote = self.notes[n].clone();
                if !note.set_task_status(line, next) {
                    self.say("チェック欄が見つかりません");
                    proof {
                        lemma_sound(s, self@);
                    }
                    return None;
                }
                proof {
                    lemma_status_fits(s.notes[n as int], line as int, next);
                }
                self.put_note(n, note);
                self.wait_for(
                    Wait::Row {
                        note_idx: n,
                        before,
                        group: items[at].group.clone(),
                        title: items[at].title.clone(),
                        next,
                    },
                );
                proof {
                    lemma_note_put(s, self@, n as int);
                }
                Some(Job::SaveNote { note_idx: n, create: false })
            },
            None => {
                self.say("この日に ToDo はありません");
                proof {
                    lemma_sound(s, self@);
                }
                None
            },
        }
    }

    /// Moves the state of the chosen task of a project on.
    pub(crate) fn cycle_project_task(&mut self, now: &Moment) -> (r: Option<Job>)
        ensures
            (final(self)@, jobs::job_view(r)) == old(self)@.project_task_cycled(*now),
            final(self)@.notes == old(self)@.notes,
    {
        let ghost s = old(self)@;
        if self.focus == Focus::List {
            if self.task_count() == 0 {
                self.say("タスクがありません");
            } else {
                self.focus = Focus::Detail;
                assert(self@ =~= (AppView { focus: Focus::Detail, ..s }));
                self.say("タスクを選んで Space で状態を進めます");
            }
            return None;
        }
        match self.project_index() {
            Some(i) => {
                assert(self@.projects[i as int] == self.projects@[i as int]@);
                let chosen: Option<(String, TaskStatus)> = self.chosen_task();
                match chosen {
                    Some((title, status)) => {
                        let next: TaskStatus = status.next();
                        let tasks: Vec<(TaskStatus, String)> = next_tasks(
                            &self.projects[i],
                            title.as_str(),
                            next,
                        );
                        let name: String = self.projects[i].name.clone();
                        self.wait_for(Wait::Cycle { title, next, name });
                        Some(Job::SaveTasks { project_idx: i, tasks, now_ms: now.ms })
                    },
                    None => {
                        self.say("タスクがありません");
                        None
                    },
                }
            },
            None => {
                self.say("プロジェクトがありません");
                None
            },
        }
    }

    /// The title and the state of the task that is chosen.
    fn chosen_task(&self) -> (r: Option<(String, TaskStatus)>)
        ensures
            match r {
                Some((title, status)) => self@.task_sel < self@.tasks_shown().len()
                    && self@.tasks_shown()[self@.task_sel].title == title@
                    && self@.tasks_shown()[self@.task_sel].status == status,
                None => self@.task_sel >= self@.tasks_shown().len(),
            },
    {
        let list: Vec<&ProjectTask> = self.visible_tasks();
        assert(list@.len() == project::task_ref_views(list@).len());
        if self.task_sel < list.len() {
            let t: &ProjectTask = list[self.task_sel];
            assert(project::task_ref_views(list@)[self.task_sel as int] == t@);
            Some((t.title.clone(), t.status))
        } else {
            None
        }
    }

    /// Moves the chosen project down or up the list.
    pub(crate) fn move_project(&mut self, delta: i32) -> (r: Option<Job>)
        ensures
            (final(self)@, jobs::job_view(r)) == old(self)@.project_moved(delta as int),
            final(self)@.notes == old(self)@.notes,
    {
        let ghost s = old(self)@;
        let shown: Vec<usize> = self.visible_projects();
        let ghost listed = s.projects_shown();
        assert(shown@.len() == listed.len());
        let at: usize = self.project_sel;
        if shown.len() < 2 || at >= shown.len() {
            return None;
        }
        let wide: i128 = at as i128 + delta as i128;
        if wide < 0 || wide >= shown.len() as i128 {
            return None;
        }
        let to: usize = wide as usize;
        assert(listed[at as int] == shown@[at as int] && listed[to as int] == shown@[to as int]);
        let mut moved: Vec<usize> = shown.clone();
        let from: usize = moved.remove(at);
        moved.insert(to, from);
        assert(state::places(moved@) =~= listed.remove(at as int).insert(to as int, from as int));
        assert forall|k: int| 0 <= k < moved@.len() implies #[trigger] moved@[k]
            < self.projects@.len() by {
            if k < to {
                assert(moved@[k] == shown@.remove(at as int)[k]);
            } else if k > to {
                assert(moved@[k] == shown@.remove(at as int)[k - 1]);
            }
        }
        let names: Vec<String> = dir_names(&self.projects);
        assert(text::texts(names@).len() == names@.len());
        let order: Vec<String> = rearrange(&names, &shown, &moved);
        self.wait_for(Wait::Order { to, down: delta > 0 });
        Some(Job::SaveOrder { order })
    }

    /// Has the chosen project archived, or taken back from there.
    pub(crate) fn toggle_archive_project(&mut self, now: &Moment) -> (r: Option<Job>)
        ensures
            (final(self)@, jobs::job_view(r)) == old(self)@.archive_toggled(*now),
            final(self)@.notes == old(self)@.notes,
    {
        if self.view != View::Projects {
            self.say("プロジェクトビューで切り替えます");
            return None;
        }
        match self.project_index() {
            Some(i) => {
                assert(self@.projects[i as int] == self.projects@[i as int]@);
                let archived: bool = self.projects[i].is_archived();
                let name: String = self.projects[i].name.clone();
                self.wait_for(Wait::Archive { name, archived });
                let at: i64 = if archived {
                    0
                } else {
                    now.ms
                };
                Some(Job::SetArchived { project_idx: i, archived_at_ms: at, now_ms: now.ms })
            },
            None => {
                self.say("プロジェクトがありません");
                None
            },
        }
    }

    /// Has the task list copied.
    pub(crate) fn copy_todo(&mut self) -> (r: Option<Job>)
        ensures
            (final(self)@, jobs::job_view(r)) == old(self)@.copying(),
            final(self)@.notes == old(self)@.notes,
    {
        if self.view != View::Todo {
            self.say("ToDo ビュー（2）でコピーできます");
            return None;
        }
        match self.todo_markdown() {
            Some(t) => {
                let lines: Vec<String> = crate::text::lines(t.as_str());
                assert(lines@.len() == text::texts(lines@).len());
                self.wait_for(Wait::Copy { count: lines.len() });
                Some(Job::Copy { text: t })
            },
            None => {
                self.say("コピーする ToDo がありません");
                None
            },
        }
    }

    /// Has a project made that was named.
    pub(crate) fn create_project(&mut self, s: &str, now: &Moment) -> (r: Option<Job>)
        ensures
            (final(self)@, jobs::job_view(r)) == old(self)@.project_named(s@, *now),
            final(self)@.notes == old(self)@.notes,
    {
        match first_line(s) {
            Some(name) => {
                let asked: String = name.clone();
                self.wait_for(Wait::Create { name });
                Some(Job::CreateProject { name: asked, now_ms: now.ms })
            },
            None => {
                self.say("名前が空なので作成しませんでした");
                None
            },
        }
    }

    /// Takes over the tasks of a project that were edited.
    pub(crate) fn apply_project_tasks(&mut self, idx: usize, s: &str, now: &Moment) -> (r: Option<
        Job,
    >)
        ensures
            (final(self)@, jobs::job_view(r)) == old(self)@.tasks_edited(idx as int, s@, *now),
            final(self)@.notes == old(self)@.notes,
    {
        let tasks: Vec<(TaskStatus, String)> = parse_checklist(s);
        let ghost next = project::pair_views(tasks@);
        assert(next.len() == tasks@.len());
        assert(self@.projects.len() == self.projects@.len());
        if idx >= self.projects.len() {
            return None;
        }
        let p: &Project = &self.projects[idx];
        assert(self@.projects[idx as int] == p@);
        assert(p@.tasks.len() == p.tasks@.len());
        let had: bool = p.tasks.len() > 0;
        if tasks.len() == 0 {
            if had {
                self.say("タスクが空になったので変更しませんでした");
            } else {
                self.say("タスクとして読み取れる行がありませんでした");
            }
            return None;
        }
        let removed: Vec<String> = titles_dropped(&p.tasks, &tasks);
        let name: String = p.name.clone();
        let count: usize = tasks.len();
        self.wait_for(Wait::Tasks { name, removed, count });
        Some(Job::SaveTasks { project_idx: idx, tasks, now_ms: now.ms })
    }

    /// Has a new entry made.
    pub(crate) fn create_entry(
        &mut self,
        tags: &Vec<String>,
        body: &str,
        now: &Moment,
        id: &str,
    ) -> (r: Option<Job>)
        ensures
            (final(self)@, jobs::job_view(r)) == old(self)@.entry_made(
                text::texts(tags@),
                body@,
                *now,
                id@,
            ),
            final(self)@.notes == old(self)@.notes,
    {
        let date: String = format_date(&now.date);
        let created: String = format_stamp(now);
        let block: String = format_entry_block(id, created.as_str(), now.ms, tags, body);
        let asked: String = date.clone();
        self.wait_for(Wait::Open { date, block });
        Some(Job::OpenNote { date: asked })
    }

    /// The state that the screen begins with.
    pub fn new(config: Config, notes: Vec<DailyNote>, projects: Vec<Project>, now_ms: u64) -> (r:
        App)
        requires
            forall|i: int| 0 <= i < notes@.len() ==> (#[trigger] notes@[i])@.fits(),
        ensures
            r@ == AppView::fresh(
                config@,
                note::note_views(notes@),
                project::project_views(projects@),
                now_ms,
            ),
            r@.is_sound(),
            r@.is_idle(),
    {
        let mut app = App {
            config,
            notes,
            projects,
            todos: Vec::new(),
            view: View::Notes,
            return_view: View::Notes,
            mode: Mode::Normal,
            focus: Focus::List,
            note_sel: 0,
            entry_sel: 0,
            detail_scroll: 0,
            note_task_sel: 0,
            todo_date_sel: 0,
            todo_sel: 0,
            project_sel: 0,
            task_sel: 0,
            search_sel: 0,
            query: String::new(),
            hits: Vec::new(),
            confirm: None,
            pending_edit: None,
            splash: Some(now_ms.saturating_add(SPLASH_MS)),
            status: None,
            show_all_notes: false,
            show_archived: false,
            todo_sort: TodoSort::Date,
            todo_open_only: false,
            help_scroll: 0,
            should_quit: false,
            viewport: 20,
            wait: Wait::Idle,
        };
        let ghost s = app@;
        assert(s.is_sound()) by {
            assert forall|i: int| 0 <= i < s.notes.len() implies (#[trigger] s.notes[i]).fits() by {
                assert(s.notes[i] == notes@[i]@);
            }
        }
        assert(s.todos == Seq::<todos::PlacedView>::empty());
        assert(s.hits == Seq::<types::HitView>::empty());
        app.rebuild_todos();
        assert(app@ =~= AppView::fresh(
            config@,
            note::note_views(notes@),
            project::project_views(projects@),
            now_ms,
        ));
        proof {
            lemma_sound(s, app@);
        }
        app
    }

    /// Takes a message at a moment. Returns what is to be done outside.
    #[verifier::rlimit(60)]
    pub fn update_at(&mut self, msg: Msg, now: &Moment) -> (r: Option<Job>)
        requires
            old(self)@.is_sound(),
            old(self)@.is_idle(),
            now.is_valid(),
        ensures
            (final(self)@, jobs::job_view(r)) == old(self)@.told(msg, *now),
            final(self)@.is_sound(),
    {
        let ghost start = old(self)@;
        self.status = None;
        let ghost s = AppView { status: None, ..start };
        assert(self@ =~= s);
        proof {
            lemma_sound(start, s);
        }
        let mut job: Option<Job> = None;
        match msg {
            Msg::Quit => {
                self.should_quit = true;
                assert(self@ =~= (AppView { should_quit: true, ..s }));
            },
            Msg::DismissStatus => {},
            Msg::ToggleHelp => {
                self.toggle_help();
            },
            Msg::SwitchView(view) => {
                self.switch_view(view);
            },
            Msg::NextView => {
                self.next_view();
            },
            Msg::PrevView => {
                self.prev_view();
            },
            Msg::FocusRight => {
                self.move_focus_right();
            },
            Msg::FocusLeft => {
                self.move_focus_left();
            },
            Msg::FocusCycle => {
                self.cycle_focus();
            },
            Msg::ToggleFocus => {
                self.cycle_focus();
            },
            Msg::Move(m) => {
                self.apply_move(m);
            },
            Msg::CycleTodo => {
                if self.view == View::Projects {
                    job = self.cycle_project_task(now);
                } else {
                    return self.cycle_todo();
                }
            },
            Msg::Reload => {
                self.wait_for(Wait::Reload);
                job = Some(Job::LoadAll);
            },
            Msg::CycleTodoSort => {
                self.cycle_todo_sort();
            },
            Msg::ToggleTodoFilter => {
                self.toggle_todo_filter();
            },
            Msg::ToggleArchived => {
                self.toggle_archived();
            },
            Msg::ToggleAllNotes => {
                self.toggle_all_notes();
            },
            Msg::SearchStart => {
                self.switch_view(View::Search);
            },
            Msg::SearchInput(c) => {
                self.search_input(c);
            },
            Msg::SearchBackspace => {
                self.search_backspace();
            },
            Msg::SearchClear => {
                self.search_clear();
            },
            Msg::SearchCommit => {
                self.commit_search();
            },
            Msg::SearchCancel => {
                self.cancel_search();
            },
            Msg::EditEntry => {
                self.start_edit_entry();
            },
            Msg::NewEntry => {
                self.start_new_entry();
            },
            Msg::TodayTodo => {
                self.start_today_todo(now);
            },
            Msg::MoveProject(delta) => {
                job = self.move_project(delta);
            },
            Msg::ToggleArchiveProject => {
                job = self.toggle_archive_project(now);
            },
            Msg::CopyTodo => {
                job = self.copy_todo();
            },
            Msg::NewProject => {
                self.start_new_project();
            },
            Msg::DeleteEntry => {
                self.start_delete_entry();
            },
            Msg::ConfirmYes => {
                return self.apply_confirm();
            },
            Msg::ConfirmNo => {
                self.confirm = None;
                self.mode = Mode::Normal;
                assert(self@ =~= (AppView { confirm: None, mode: Mode::Normal, ..s }));
            },
        }
        assert((self@, jobs::job_view(job)) == start.told(msg, *now));
        assert(self@.is_sound()) by {
            lemma_told_keeps_notes(start, msg, *now);
            lemma_sound_told(s, self@);
        }
        job
    }

    /// Takes a message. Returns what is to be done outside.
    pub fn update(&mut self, msg: Msg) -> (r: Option<Job>)
        requires
            old(self)@.is_sound(),
            old(self)@.is_idle(),
        ensures
            exists|m: Moment|
                m.is_valid() && (final(self)@, jobs::job_view(r)) == #[trigger] old(self)@.told(
                    msg,
                    m,
                ),
            final(self)@.is_sound(),
    {
        let moment: Moment = now();
        let ghost start = old(self)@;
        let r = self.update_at(msg, &moment);
        assert((self@, jobs::job_view(r)) == start.told(msg, moment));
        r
    }

    /// Takes what the editor returned, at a moment and with an identifier for a new entry.
    pub fn apply_edit_at(
        &mut self,
        target: EditTarget,
        edited: Option<String>,
        now: &Moment,
        id: &str,
    ) -> (r: Option<Job>)
        requires
            old(self)@.is_sound(),
            old(self)@.is_idle(),
        ensures
            (final(self)@, jobs::job_view(r)) == old(self)@.edited(
                target,
                config::opt(edited),
                *now,
                id@,
            ),
            final(self)@.is_sound(),
    {
        let ghost start = old(self)@;
        let r: Option<Job> = match edited {
            None => {
                self.say("変更はありません");
                None
            },
            Some(s) => match target {
                EditTarget::EntryBody { note_idx, entry_idx } => {
                    return self.apply_entry_body(note_idx, entry_idx, s.as_str());
                },
                EditTarget::NewProject => self.create_project(s.as_str(), now),
                EditTarget::ProjectTasks { project_idx } => self.apply_project_tasks(
                    project_idx,
                    s.as_str(),
                    now,
                ),
                EditTarget::NewEntry => {
                    let (tags, body) = decompose(s.as_str());
                    if blank(body.as_str()) {
                        self.say("本文が空なので作成しませんでした");
                        None
                    } else {
                        self.create_entry(&tags, body.as_str(), now, id)
                    }
                },
            },
        };
        proof {
            lemma_sound_told(start, self@);
        }
        r
    }

    /// Takes what the editor returned; nothing where the text did not change.
    pub fn apply_edit(&mut self, target: EditTarget, edited: Option<String>) -> (r: Option<Job>)
        requires
            old(self)@.is_sound(),
            old(self)@.is_idle(),
        ensures
            exists|m: Moment, id: Seq<char>|
                m.is_valid() && project_file::is_id(id) && (final(self)@, jobs::job_view(r))
                    == #[trigger] old(self)@.edited(target, config::opt(edited), m, id),
            final(self)@.is_sound(),
    {
        let moment: Moment = now();
        let id: String = new_id();
        let ghost start = old(self)@;
        let ghost result = config::opt(edited);
        let r = self.apply_edit_at(target, edited, &moment, id.as_str());
        assert((self@, jobs::job_view(r)) == start.edited(target, result, moment, id@));
        r
    }
}

/// Searching and switching screens keeps the notes.
#[verifier::spinoff_prover]
#[verifier::rlimit(60)]
proof fn lemma_seeking_keeps_notes(s: AppView, msg: Msg, now: Moment)
    requires
        s.wait is Idle,
        msg is SwitchView || msg is NextView || msg is PrevView || msg is SearchStart
            || msg is SearchInput || msg is SearchBackspace || msg is SearchClear
            || msg is SearchCommit || msg is SearchCancel,
    ensures
        s.told(msg, now).0.notes == s.notes,
        s.told(msg, now).0.wait.fits(s.notes),
{
}

/// Moving a cursor keeps the notes.
#[verifier::spinoff_prover]
#[verifier::rlimit(60)]
proof fn lemma_moving_keeps_notes(s: AppView, msg: Msg, now: Moment)
    requires
        s.wait is Idle,
        msg is Move,
    ensures
        s.told(msg, now).0.notes == s.notes,
        s.told(msg, now).0.wait.fits(s.notes),
{
}

/// Starting an edit keeps the notes.
#[verifier::spinoff_prover]
#[verifier::rlimit(60)]
proof fn lemma_starting_keeps_notes(s: AppView, msg: Msg, now: Moment)
    requires
        s.wait is Idle,
        msg is EditEntry || msg is NewEntry || msg is TodayTodo || msg is NewProject
            || msg is DeleteEntry,
    ensures
        s.told(msg, now).0.notes == s.notes,
        s.told(msg, now).0.wait.fits(s.notes),
{
}

/// Working on projects and copying keeps the notes.
#[verifier::spinoff_prover]
#[verifier::rlimit(60)]
proof fn lemma_working_keeps_notes(s: AppView, msg: Msg, now: Moment)
    requires
        s.wait is Idle,
        (msg is CycleTodo && s.view is Projects) || msg is MoveProject
            || msg is ToggleArchiveProject || msg is CopyTodo || msg is Reload,
    ensures
        s.told(msg, now).0.notes == s.notes,
        s.told(msg, now).0.wait.fits(s.notes),
{
}

/// Arranging and filtering lists keeps the notes.
#[verifier::spinoff_prover]
#[verifier::rlimit(60)]
proof fn lemma_arranging_keeps_notes(s: AppView, msg: Msg, now: Moment)
    requires
        s.wait is Idle,
        msg is CycleTodoSort || msg is ToggleTodoFilter || msg is ToggleArchived
            || msg is ToggleAllNotes,
    ensures
        s.told(msg, now).0.notes == s.notes,
        s.told(msg, now).0.wait.fits(s.notes),
{
}

/// A message that does not change a note keeps the notes, and waits with the place of none.
#[verifier::spinoff_prover]
proof fn lemma_told_keeps_notes(s: AppView, msg: Msg, now: Moment)
    requires
        s.wait is Idle,
        msg is CycleTodo ==> s.view is Projects,
        !(msg is ConfirmYes),
    ensures
        s.told(msg, now).0.notes == s.notes,
        s.told(msg, now).0.wait.fits(s.notes),
{
    match msg {
        Msg::SwitchView(_) | Msg::NextView | Msg::PrevView | Msg::SearchStart | Msg::SearchInput(
            _,
        ) | Msg::SearchBackspace | Msg::SearchClear | Msg::SearchCommit | Msg::SearchCancel => {
            lemma_seeking_keeps_notes(s, msg, now);
        },
        Msg::Move(_) => {
            lemma_moving_keeps_notes(s, msg, now);
        },
        Msg::EditEntry | Msg::NewEntry | Msg::TodayTodo | Msg::NewProject | Msg::DeleteEntry => {
            lemma_starting_keeps_notes(s, msg, now);
        },
        Msg::CycleTodo
        | Msg::MoveProject(_)
        | Msg::ToggleArchiveProject
        | Msg::CopyTodo
        | Msg::Reload => {
            lemma_working_keeps_notes(s, msg, now);
        },
        Msg::CycleTodoSort
        | Msg::ToggleTodoFilter
        | Msg::ToggleArchived
        | Msg::ToggleAllNotes => {
            lemma_arranging_keeps_notes(s, msg, now);
        },
        _ => {},
    }
}

/// The state stays sound where the notes are the same and nothing is waited for with the
/// place of a note.
proof fn lemma_sound_told(s: AppView, t: AppView)
    requires
        s.is_sound(),
        t.notes == s.notes,
        t.wait.fits(t.notes),
    ensures
        t.is_sound(),
{
    assert forall|i: int| 0 <= i < t.notes.len() implies (#[trigger] t.notes[i]).fits() by {
        assert(s.notes[i].fits());
    }
}

/// The state stays sound where one note is another that fits, and its place is waited with.
pub(crate) proof fn lemma_note_put(s: AppView, t: AppView, n: int)
    requires
        s.is_sound(),
        0 <= n < s.notes.len(),
        t.notes == s.notes.update(n, t.notes[n]),
        t.notes[n].fits(),
        t.wait.fits(t.notes),
    ensures
        t.is_sound(),
{
    assert forall|i: int| 0 <= i < t.notes.len() implies (#[trigger] t.notes[i]).fits() by {
        if i != n {
            assert(t.notes[i] == s.notes[i]);
            assert(s.notes[i].fits());
        }
    }
}

/// A note with the mark of a line set still fits.
proof fn lemma_status_fits(n: NoteView, at: int, status: TaskStatus)
    requires
        n.fits(),
        0 <= at < n.lines.len(),
    ensures
        n.with_status(at, status).fits(),
{
    let m = n.with_status(at, status);
    assert forall|k: int| 0 <= k < m.entries.len() implies note::entry_fits(
        #[trigger] m.entries[k],
        m.lines.len() as int,
    ) by {
        assert(note::entry_fits(n.entries[k], n.lines.len() as int));
    }
}

/// Where a task is chosen in the body, there is a note.
proof fn lemma_task_line_has_note(s: AppView)
    requires
        s.task_line() is Some,
    ensures
        0 <= s.note_sel < s.notes.len(),
{
}

/// Takes over the body and the tags of an entry.
fn edit_note(note: &mut DailyNote, k: usize, tags: &Vec<String>, body: &str)
    requires
        old(note)@.fits(),
        k < old(note).entries@.len(),
    ensures
        final(note)@ == AppView::edited_note(
            old(note)@,
            k as int,
            text::texts(tags@),
            body@,
        ),
        final(note)@.fits(),
{
    let ghost n = note@;
    assert(n.entries.len() == note.entries@.len());
    let _ = note.replace_entry_body(k, body);
    let ghost m = n.with_body(k as int, body@);
    assert(note@ == m);
    assert(m.entries.len() == note.entries@.len());
    if k < note.entries.len() {
        assert(m.entries[k as int] == note.entries@[k as int]@);
        if !same_lists(&note.entries[k].tags, tags) {
            let _ = note.set_entry_tags(k, tags);
        }
    }
}

/// Whether two lists hold the same texts.
fn same_lists(a: &Vec<String>, b: &Vec<String>) -> (r: bool)
    ensures
        r == (text::texts(a@) == text::texts(b@)),
{
    let ghost x = text::texts(a@);
    let ghost y = text::texts(b@);
    assert(x.len() == a@.len() && y.len() == b@.len());
    if a.len() != b.len() {
        return false;
    }
    let mut i: usize = 0;
    while i < a.len()
        invariant
            i <= a.len(),
            a@.len() == b@.len(),
            x == text::texts(a@),
            y == text::texts(b@),
            forall|k: int| 0 <= k < i ==> #[trigger] x[k] == y[k],
        decreases a.len() - i,
    {
        assert(x[i as int] == a@[i as int]@ && y[i as int] == b@[i as int]@);
        if !same_string(a[i].as_str(), b[i].as_str()) {
            return false;
        }
        i += 1;
    }
    assert(x =~= y);
    true
}

/// Whether an entry exists and holds tasks.
fn holds_tasks(note: &DailyNote, k: usize) -> (r: bool)
    requires
        note@.fits(),
    ensures
        r == (k < note@.entries.len() && note@.holds_todo(note@.entries[k as int])),
{
    assert(note@.entries.len() == note.entries@.len());
    if k < note.entries.len() {
        assert(note@.entries[k as int] == note.entries@[k as int]@);
        assert(note::entry_fits(note@.entries[k as int], note@.lines.len() as int));
        note.is_todo(&note.entries[k])
    } else {
        false
    }
}

} // verus!
