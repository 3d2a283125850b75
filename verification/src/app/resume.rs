//! What follows once something outside was done.

use vstd::prelude::*;
use vstd::view::View as _;

use crate::app::jobs;
use crate::app::jobs::{AfterReload, Event, EventView, Finish, Job, ProjectSync, Wait, WaitView};
use crate::app::plan;
use crate::app::plan::{find_named, plan_changes, Change, Row};
use crate::app::reading::body_list;
use crate::app::state;
use crate::app::state::{App, AppView};
use crate::app::steps;
use crate::app::types;
use crate::app::types::{Focus, View};
use crate::app::update::{concat, counted};
use crate::app::work::{find_note, find_todo_place, lemma_note_put, lemma_sound};
use crate::calendar::{format_date, now, Moment};
use crate::model::note;
use crate::model::note::DailyNote;
use crate::model::project;
use crate::model::project::{Project, ProjectTask};
use crate::model::status::TaskStatus;
use crate::model::todo;
use crate::model::todo::upsert_todo_group;
use crate::number;
use crate::number::{number_text, push_number};
use crate::text;
use crate::text::{join, same_string};

verus! {

// ----------------------------------------------------------------------- helpers

/// A state after another, in words.
fn state_told(title: &str, next: TaskStatus) -> (r: String)
    ensures
        r@ == steps::state_words(title@, next),
{
    let mut s: String = title.to_owned();
    s.append(" → ");
    s.append(next.label());
    s
}

/// What a task list was brought up to date with, in words.
fn upsert_told(added: usize, updated: usize, removed: usize) -> (r: String)
    ensures
        r@ == steps::upsert_words(added as nat, updated as nat, removed as nat),
{
    let mut parts: Vec<String> = Vec::new();
    let ghost mut words: Seq<Seq<char>> = Seq::empty();
    assert(text::texts(parts@) =~= words);
    if added > 0 {
        let s: String = concat(number_text(added as u64).as_str(), " 件追加");
        proof {
            words = seq![s@];
        }
        parts.push(s);
        assert(text::texts(parts@) =~= words);
    }
    if updated > 0 {
        let s: String = concat(number_text(updated as u64).as_str(), " 件更新");
        let ghost had = parts@;
        proof {
            words = words.push(s@);
        }
        parts.push(s);
        assert(text::texts(parts@) =~= text::texts(had).push(s@));
    }
    if removed > 0 {
        let s: String = concat(number_text(removed as u64).as_str(), " 件削除");
        let ghost had = parts@;
        proof {
            words = words.push(s@);
        }
        parts.push(s);
        assert(text::texts(parts@) =~= text::texts(had).push(s@));
    }
    let mut out: String = "今日の ToDo に ".to_owned();
    out.append(join(parts.as_slice(), "、").as_str());
    out.append("しました");
    out
}

/// The tasks of a project as they are wanted in the task list of a day, and whether one of
/// them is in progress.
fn tasks_wanted(tasks: &Vec<ProjectTask>) -> (r: (Vec<(TaskStatus, String, bool)>, bool))
    ensures
        todo::wanted_views(r.0@) == steps::wanted_of(project::task_views(tasks@)),
        r.1 == exists|i: int|
            0 <= i < steps::wanted_of(project::task_views(tasks@)).len() && (
            #[trigger] steps::wanted_of(project::task_views(tasks@))[i]).2,
{
    let ghost all = steps::wanted_of(project::task_views(tasks@));
    let mut out: Vec<(TaskStatus, String, bool)> = Vec::new();
    let mut any: bool = false;
    let mut i: usize = 0;
    assert(todo::wanted_views(out@) == all.take(0));
    while i < tasks.len()
        invariant
            i <= tasks.len(),
            all == steps::wanted_of(project::task_views(tasks@)),
            todo::wanted_views(out@) == all.take(i as int),
            any == exists|k: int| 0 <= k < i && (#[trigger] all[k]).2,
        decreases tasks.len() - i,
    {
        let t: &ProjectTask = &tasks[i];
        let doing: bool = matches!(t.status, TaskStatus::InProgress);
        let ghost done = out@;
        let w: (TaskStatus, String, bool) = (t.status, t.title.clone(), doing);
        assert(all[i as int] == (w.0, w.1@, w.2));
        out.push(w);
        assert(todo::wanted_views(out@) =~= todo::wanted_views(done).push((w.0, w.1@, w.2)));
        assert(all.take(i + 1) =~= all.take(i as int).push(all[i as int]));
        any = any || doing;
        i += 1;
    }
    assert(all.take(i as int) == all);
    (out, any)
}

/// Finds a listed project by its name.
fn find_listed_name(listed: &Vec<usize>, projects: &Vec<Project>, name: &str) -> (r: usize)
    requires
        forall|i: int| 0 <= i < listed@.len() ==> #[trigger] listed@[i] < projects@.len(),
    ensures
        r == steps::listed_name(
            state::places(listed@),
            project::project_views(projects@),
            name@,
            0,
        ),
        r <= listed@.len(),
{
    let ghost l = state::places(listed@);
    let ghost all = project::project_views(projects@);
    let mut i: usize = 0;
    while i < listed.len() && !same_string(projects[listed[i]].name.as_str(), name)
        invariant
            i <= listed.len(),
            l == state::places(listed@),
            all == project::project_views(projects@),
            forall|k: int| 0 <= k < listed@.len() ==> #[trigger] listed@[k] < projects@.len(),
            steps::listed_name(l, all, name@, 0) == steps::listed_name(l, all, name@, i as int),
        decreases listed.len() - i,
    {
        assert(l[i as int] == listed@[i as int]);
        assert(all[l[i as int]] == projects@[listed@[i as int] as int]@);
        i += 1;
    }
    if i < listed.len() {
        assert(l[i as int] == listed@[i as int]);
        assert(all[l[i as int]] == projects@[listed@[i as int] as int]@);
    }
    i
}

/// Finds a listed project by its directory.
fn find_listed_dir(listed: &Vec<usize>, projects: &Vec<Project>, dir: &str) -> (r: usize)
    requires
        forall|i: int| 0 <= i < listed@.len() ==> #[trigger] listed@[i] < projects@.len(),
    ensures
        r == steps::listed_dir(
            state::places(listed@),
            project::project_views(projects@),
            dir@,
            0,
        ),
        r <= listed@.len(),
{
    let ghost l = state::places(listed@);
    let ghost all = project::project_views(projects@);
    let mut i: usize = 0;
    while i < listed.len() && !same_string(projects[listed[i]].dir_name.as_str(), dir)
        invariant
            i <= listed.len(),
            l == state::places(listed@),
            all == project::project_views(projects@),
            forall|k: int| 0 <= k < listed@.len() ==> #[trigger] listed@[k] < projects@.len(),
            steps::listed_dir(l, all, dir@, 0) == steps::listed_dir(l, all, dir@, i as int),
        decreases listed.len() - i,
    {
        assert(l[i as int] == listed@[i as int]);
        assert(all[l[i as int]] == projects@[listed@[i as int] as int]@);
        i += 1;
    }
    if i < listed.len() {
        assert(l[i as int] == listed@[i as int]);
        assert(all[l[i as int]] == projects@[listed@[i as int] as int]@);
    }
    i
}

/// Finds a task by its title.
fn find_titled(tasks: &Vec<&ProjectTask>, title: &str) -> (r: usize)
    ensures
        r == steps::task_titled(project::task_ref_views(tasks@), title@, 0),
        r <= tasks@.len(),
{
    let ghost all = project::task_ref_views(tasks@);
    let mut i: usize = 0;
    while i < tasks.len() && !same_string(tasks[i].title.as_str(), title)
        invariant
            i <= tasks.len(),
            all == project::task_ref_views(tasks@),
            steps::task_titled(all, title@, 0) == steps::task_titled(all, title@, i as int),
        decreases tasks.len() - i,
    {
        assert(all[i as int] == tasks@[i as int]@);
        i += 1;
    }
    if i < tasks.len() {
        assert(all[i as int] == tasks@[i as int]@);
    }
    i
}

/// A place that lies in a list of this length where it did not.
fn pull(sel: usize, len: usize) -> (r: usize)
    ensures
        r == AppView::pulled(sel as int, len as int),
{
    if sel < len {
        sel
    } else if len < 1 {
        0
    } else {
        len - 1
    }
}

/// The tasks of a change.
fn tasks_of_change(c: &Change) -> (r: Vec<(TaskStatus, String)>)
    ensures
        project::pair_views(r@) == c@.tasks,
{
    let ghost all = project::pair_views(c.tasks@);
    let mut out: Vec<(TaskStatus, String)> = Vec::new();
    let mut i: usize = 0;
    assert(project::pair_views(out@) == all.take(0));
    while i < c.tasks.len()
        invariant
            i <= c.tasks.len(),
            all == project::pair_views(c.tasks@),
            project::pair_views(out@) == all.take(i as int),
        decreases c.tasks.len() - i,
    {
        let ghost done = out@;
        let pair: (TaskStatus, String) = (c.tasks[i].0, c.tasks[i].1.clone());
        assert(all[i as int] == (pair.0, pair.1@));
        out.push(pair);
        assert(project::pair_views(out@) =~= project::pair_views(done).push((pair.0, pair.1@)));
        assert(all.take(i + 1) =~= all.take(i as int).push(all[i as int]));
        i += 1;
    }
    assert(all.take(i as int) == all);
    out
}

/// A change that is to be written.
fn save_job(c: &Change, now: &Moment) -> (r: Job)
    ensures
        r@ == AppView::saving(c@, *now),
{
    Job::SaveTasks { project_idx: c.project_idx, tasks: tasks_of_change(c), now_ms: now.ms }
}

/// A state that waits for something.
spec fn waiting(s: AppView, wait: WaitView) -> AppView {
    AppView { wait, ..s }
}

/// Whether a text is told at all.
spec fn error_view(r: Result<(), String>) -> Option<Seq<char>> {
    match r {
        Ok(_) => None,
        Err(e) => Some(e@),
    }
}

/// What reading projects gave.
spec fn read_view(r: Result<Vec<Project>, String>) -> Result<
    Seq<project::ProjectView>,
    Seq<char>,
> {
    match r {
        Ok(p) => Ok(project::project_views(p@)),
        Err(e) => Err(e@),
    }
}

impl App {
    /// Shows an error at the bottom.
    fn say_error(&mut self, words: &str, e: &str)
        ensures
            final(self)@ == old(self)@.said(words@ + e@),
    {
        self.report(concat(words, e));
    }

    /// Tells what was written because of a task list.
    fn finish_sync(&mut self, sync: ProjectSync, finish: &Finish)
        ensures
            final(self)@ == old(self)@.ended(sync, finish@),
    {
        match finish {
            Finish::EntryBody => match sync.detail() {
                Some(words) => {
                    let mut s: String = "保存しました（".to_owned();
                    s.append(words.as_str());
                    s.append("）");
                    self.report(s);
                },
                None => {},
            },
            Finish::RowState { title, next, group } => {
                if sync.projects > 0 {
                    let mut s: String = state_told(title.as_str(), *next);
                    s.append("（");
                    s.append(group.as_str());
                    s.append(" にも反映）");
                    self.report(s);
                }
            },
        }
    }

    /// Has the projects follow the rows of a task list.
    fn apply_project_changes(
        &mut self,
        before: &Vec<Row>,
        after: &Vec<Row>,
        allow: bool,
        finish: Finish,
        now: &Moment,
    ) -> (r: Option<Job>)
        requires
            old(self)@.is_sound(),
        ensures
            (final(self)@, jobs::job_view(r)) == old(self)@.syncing(
                note::row_views(before@),
                note::row_views(after@),
                allow,
                finish@,
                *now,
            ),
            final(self)@.is_sound(),
    {
        let ghost s = old(self)@;
        let changes: Vec<Change> = plan_changes(&self.projects, before, after, allow);
        let ghost views = plan::change_views(changes@);
        assert(views.len() == changes@.len());
        let sync = ProjectSync { projects: 0, added: 0, removed: 0 };
        if changes.len() == 0 {
            self.finish_sync(sync, &finish);
            proof {
                lemma_sound(s, self@);
            }
            None
        } else {
            assert(views[0] == changes@[0]@);
            let job: Job = save_job(&changes[0], now);
            self.wait_for(Wait::Changes { changes, at: 0, sync, finish });
            Some(job)
        }
    }

    /// Counts a change that was written, or tells why it was not.
    fn count_change(&mut self, c: &Change, sync: ProjectSync, result: Result<(), String>) -> (r:
        ProjectSync)
        ensures
            final(self)@ == match error_view(result) {
                Some(e) => old(self)@.said("プロジェクトに反映できません: "@ + e),
                None => old(self)@,
            },
            r == match error_view(result) {
                Some(_) => sync,
                None => sync.with(c@),
            },
    {
        match result {
            Ok(_) => sync.count(c),
            Err(e) => {
                self.say_error("プロジェクトに反映できません: ", e.as_str());
                sync
            },
        }
    }

    /// Goes on with the next change.
    fn next_change(
        &mut self,
        changes: Vec<Change>,
        at: usize,
        sync: ProjectSync,
        finish: Finish,
        result: Result<(), String>,
        now: &Moment,
    ) -> (r: Option<Job>)
        requires
            old(self)@.is_sound(),
            at < changes@.len(),
        ensures
            (final(self)@, jobs::job_view(r)) == old(self)@.change_saved(
                plan::change_views(changes@),
                at as int,
                sync,
                finish@,
                error_view(result),
                *now,
            ),
            final(self)@.is_sound(),
    {
        let ghost s = old(self)@;
        let ghost views = plan::change_views(changes@);
        assert(views.len() == changes@.len());
        assert(views[at as int] == changes@[at as int]@);
        let total: ProjectSync = self.count_change(&changes[at], sync, result);
        let ghost t = self@;
        proof {
            lemma_sound(s, t);
        }
        if at < changes.len() - 1 {
            assert(views[at + 1] == changes@[at + 1]@);
            let job: Job = save_job(&changes[at + 1], now);
            self.wait_for(Wait::Changes { changes, at: at + 1, sync: total, finish });
            Some(job)
        } else if total.projects > 0 {
            self.reload_projects(AfterReload::Synced { sync: total, finish })
        } else {
            self.finish_sync(total, &finish);
            proof {
                lemma_sound(t, self@);
            }
            None
        }
    }

    /// Has the projects read again.
    fn reload_projects(&mut self, after: AfterReload) -> (r: Option<Job>)
        requires
            old(self)@.is_sound(),
        ensures
            (final(self)@, jobs::job_view(r)) == old(self)@.reloading(after@),
            final(self)@.is_sound(),
    {
        self.wait_for(Wait::Projects(after));
        Some(Job::LoadProjects)
    }

    /// Has the projects read again where something was written, or tells why not.
    fn reload_after(&mut self, result: Result<(), String>, words: &str, after: AfterReload) -> (r:
        Option<Job>)
        requires
            old(self)@.is_sound(),
        ensures
            (final(self)@, jobs::job_view(r)) == match error_view(result) {
                None => old(self)@.reloading(after@),
                Some(e) => (old(self)@.said(words@ + e), None),
            },
            final(self)@.is_sound(),
    {
        let ghost s = old(self)@;
        match result {
            Ok(_) => self.reload_projects(after),
            Err(e) => {
                self.say_error(words, e.as_str());
                proof {
                    lemma_sound(s, self@);
                }
                None
            },
        }
    }

    /// Takes over projects that were read again.
    fn take_projects(&mut self, r: Result<Vec<Project>, String>)
        requires
            old(self)@.is_sound(),
        ensures
            final(self)@ == old(self)@.projects_read(read_view(r)),
            final(self)@.notes == old(self)@.notes,
            final(self)@.wait == old(self)@.wait,
    {
        let ghost s = old(self)@;
        match r {
            Ok(projects) => {
                let name: Option<String> = match self.selected_project() {
                    Some(p) => Some(p.name.clone()),
                    None => None,
                };
                self.projects = projects;
                let ghost a = AppView { projects: project::project_views(projects@), ..s };
                assert(self@ =~= a);
                let shown: Vec<usize> = self.visible_projects();
                assert(shown@.len() == state::places(shown@).len());
                let found: usize = match name {
                    Some(n) => find_listed_name(&shown, &self.projects, n.as_str()),
                    None => shown.len(),
                };
                let sel: usize = if found < shown.len() {
                    found
                } else {
                    self.project_sel
                };
                self.project_sel = pull(sel, shown.len());
                let ghost b = AppView {
                    project_sel: AppView::pulled(sel as int, shown@.len() as int),
                    ..a
                };
                assert(self@ =~= b);
                let count: usize = self.task_count();
                self.task_sel = pull(self.task_sel, count);
                assert(self@ =~= (AppView {
                    task_sel: AppView::pulled(b.task_sel, b.tasks_shown().len() as int),
                    ..b
                }));
            },
            Err(e) => {
                self.say_error("読み直しに失敗しました: ", e.as_str());
            },
        }
    }

    /// Brings the tasks of a project into the task list of today.
    fn sync_today_todo(&mut self, name: &str, removed: &Vec<String>, now: &Moment) -> (r: Option<
        Job,
    >)
        requires
            old(self)@.is_sound(),
            now.is_valid(),
        ensures
            (final(self)@, jobs::job_view(r)) == old(self)@.today_synced(
                name@,
                text::texts(removed@),
                *now,
            ),
            final(self)@.is_sound(),
    {
        let ghost s = old(self)@;
        let at: usize = find_named(&self.projects, name);
        assert(s.projects.len() == self.projects@.len());
        if at >= self.projects.len() {
            return None;
        }
        assert(s.projects[at as int] == self.projects@[at as int]@);
        let (wanted, doing) = tasks_wanted(&self.projects[at].tasks);
        assert(wanted@.len() == todo::wanted_views(wanted@).len());
        assert(removed@.len() == text::texts(removed@).len());
        if wanted.len() == 0 && removed.len() == 0 {
            return None;
        }
        let day: String = format_date(&now.date);
        assert forall|i: int| 0 <= i < self.notes@.len() implies (#[trigger] self.notes@[i])@.fits() by {
            assert(s.notes[i] == self.notes@[i]@);
        }
        match find_todo_place(&self.notes, day.as_str()) {
            None => {
                if doing {
                    self.say(
                        "タスクを保存しました（今日の ToDo がまだ無いので反映していません。t で作れます）",
                    );
                    proof {
                        lemma_sound(s, self@);
                    }
                }
                None
            },
            Some((n, k)) => self.upsert_note(n, k, name, &wanted, removed),
        }
    }

    /// Brings a group of a task list up to date.
    fn upsert_note(
        &mut self,
        n: usize,
        k: usize,
        name: &str,
        wanted: &Vec<(TaskStatus, String, bool)>,
        removed: &Vec<String>,
    ) -> (r: Option<Job>)
        requires
            old(self)@.is_sound(),
            n < old(self).notes@.len(),
            k < old(self).notes@[n as int].entries@.len(),
        ensures
            (final(self)@, jobs::job_view(r)) == ({
                let m = old(self)@.notes[n as int];
                let u = todo::upserted(
                    m.body(m.entries[k as int]),
                    name@,
                    todo::wanted_views(wanted@),
                    text::texts(removed@),
                );
                if u.added == 0 && u.updated == 0 && u.removed == 0 {
                    (old(self)@, None)
                } else {
                    old(self)@.with_note(
                        n as int,
                        m.with_body(k as int, text::joined(u.lines, seq!['\n'])),
                    ).persisting(
                        n as int,
                        m.text(),
                        steps::upsert_words(u.added, u.updated, u.removed),
                        None,
                    )
                }
            }),
            final(self)@.is_sound(),
    {
        let ghost s = old(self)@;
        assert(s.notes[n as int] == self.notes@[n as int]@);
        assert(s.notes[n as int].fits());
        let ghost m = s.notes[n as int];
        assert(m.entries[k as int] == self.notes@[n as int].entries@[k as int]@);
        assert(note::entry_fits(m.entries[k as int], m.lines.len() as int));
        let body: Vec<String> = body_list(&self.notes[n], &self.notes[n].entries[k]);
        let (lines, added, updated, gone) = upsert_todo_group(
            body.as_slice(),
            name,
            wanted.as_slice(),
            removed.as_slice(),
        );
        if added == 0 && updated == 0 && gone == 0 {
            return None;
        }
        let before: String = self.notes[n].to_text();
        let mut note: DailyNote = self.notes[n].clone();
        proof {
            reveal_strlit("\n");
            assert("\n"@ == seq!['\n']);
        }
        let new: String = join(lines.as_slice(), "\n");
        let _ = note.replace_entry_body(k, new.as_str());
        self.put_note(n, note);
        let r = self.persist(n, before, upsert_told(added, updated, gone), None);
        proof {
            lemma_note_put(s, self@, n as int);
        }
        r
    }

    /// Goes on once the projects were read again.
    fn go_on(&mut self, after: AfterReload, now: &Moment) -> (r: Option<Job>)
        requires
            old(self)@.is_sound(),
            now.is_valid(),
        ensures
            (final(self)@, jobs::job_view(r)) == old(self)@.after_reload(after@, *now),
            final(self)@.is_sound(),
    {
        let ghost s = old(self)@;
        match after {
            AfterReload::Order { to, down } => {
                self.tell_moved(to, down);
                proof {
                    lemma_sound(s, self@);
                }
                None
            },
            AfterReload::Archived { name, archived } => {
                self.tell_archived(name.as_str(), archived);
                proof {
                    lemma_sound(s, self@);
                }
                None
            },
            AfterReload::Created { name, dir_name } => {
                self.show_created(name.as_str(), dir_name.as_str());
                proof {
                    lemma_sound(s, self@);
                }
                None
            },
            AfterReload::Tasks { name, removed, count } => {
                self.report(counted("タスクを保存しました（", count, " 件）"));
                proof {
                    lemma_sound(s, self@);
                }
                self.sync_today_todo(name.as_str(), &removed, now)
            },
            AfterReload::Cycled { title, next, name } => {
                self.choose_titled(title.as_str());
                self.report(state_told(title.as_str(), next));
                proof {
                    lemma_sound(s, self@);
                }
                let none: Vec<String> = Vec::new();
                assert(text::texts(none@) =~= Seq::<Seq<char>>::empty());
                self.sync_today_todo(name.as_str(), &none, now)
            },
            AfterReload::Synced { sync, finish } => {
                self.finish_sync(sync, &finish);
                proof {
                    lemma_sound(s, self@);
                }
                None
            },
        }
    }

    /// Tells where the chosen project was moved.
    fn tell_moved(&mut self, to: usize, down: bool)
        ensures
            final(self)@ == ({
                let s = AppView { project_sel: to as int, ..old(self)@ };
                s.said(
                    (match s.project() {
                        Some(p) => p.name,
                        None => Seq::empty(),
                    }) + " を "@ + (if down {
                        "下"@
                    } else {
                        "上"@
                    }) + " へ"@,
                )
            }),
    {
        self.project_sel = to;
        assert(self@ =~= (AppView { project_sel: to as int, ..old(self)@ }));
        let mut words: String = match self.selected_project() {
            Some(p) => p.name.clone(),
            None => String::new(),
        };
        words.append(" を ");
        words.append(
            if down {
                "下"
            } else {
                "上"
            },
        );
        words.append(" へ");
        self.report(words);
    }

    /// Tells that a project was archived, or taken back from there.
    fn tell_archived(&mut self, name: &str, archived: bool)
        ensures
            final(self)@ == ({
                let s = old(self)@;
                let t = AppView {
                    project_sel: AppView::pulled(s.project_sel, s.projects_shown().len() as int),
                    task_sel: 0,
                    ..s
                };
                t.said(
                    if archived {
                        name@ + " をアーカイブから戻しました"@
                    } else {
                        name@ + " をアーカイブしました（A で表示）"@
                    },
                )
            }),
    {
        let ghost s = old(self)@;
        let shown: Vec<usize> = self.visible_projects();
        assert(shown@.len() == state::places(shown@).len());
        self.project_sel = pull(self.project_sel, shown.len());
        self.task_sel = 0;
        assert(self@ =~= (AppView {
            project_sel: AppView::pulled(s.project_sel, s.projects_shown().len() as int),
            task_sel: 0,
            ..s
        }));
        let words: String = if archived {
            concat(name, " をアーカイブから戻しました")
        } else {
            concat(name, " をアーカイブしました（A で表示）")
        };
        self.report(words);
    }

    /// Chooses the task with a title, where it is shown.
    fn choose_titled(&mut self, title: &str)
        ensures
            final(self)@ == ({
                let s = old(self)@;
                let at = steps::task_titled(s.tasks_shown(), title@, 0);
                if at < s.tasks_shown().len() {
                    AppView { task_sel: at, ..s }
                } else {
                    s
                }
            }),
    {
        let tasks: Vec<&ProjectTask> = self.visible_tasks();
        assert(tasks@.len() == project::task_ref_views(tasks@).len());
        let at: usize = find_titled(&tasks, title);
        if at < tasks.len() {
            self.task_sel = at;
            assert(self@ =~= (AppView { task_sel: at as int, ..old(self)@ }));
        }
    }

    /// Shows a project that was made.
    fn show_created(&mut self, name: &str, dir_name: &str)
        ensures
            final(self)@ == ({
                let s = AppView { view: View::Projects, focus: Focus::List, ..old(self)@ };
                let shown = s.projects_shown();
                let at = steps::listed_dir(shown, s.projects, dir_name@, 0);
                let t = if at < shown.len() {
                    AppView { project_sel: at, task_sel: 0, ..s }
                } else {
                    s
                };
                t.said(name@ + " を作成しました（e でタスクを足せます）"@)
            }),
    {
        self.view = View::Projects;
        self.focus = Focus::List;
        let ghost s = AppView { view: View::Projects, focus: Focus::List, ..old(self)@ };
        assert(self@ =~= s);
        let shown: Vec<usize> = self.visible_projects();
        assert(shown@.len() == state::places(shown@).len());
        let at: usize = find_listed_dir(&shown, &self.projects, dir_name);
        if at < shown.len() {
            self.project_sel = at;
            self.task_sel = 0;
            assert(self@ =~= (AppView { project_sel: at as int, task_sel: 0, ..s }));
        }
        self.report(concat(name, " を作成しました（e でタスクを足せます）"));
    }

    /// Takes over notes and projects that were read again.
    fn take_all(&mut self, r: Result<(Vec<DailyNote>, Vec<Project>), String>)
        requires
            old(self)@.is_sound(),
            old(self)@.is_idle(),
            r matches Ok((notes, _)) ==> forall|i: int|
                0 <= i < notes@.len() ==> (#[trigger] notes@[i])@.fits(),
        ensures
            final(self)@ == old(self)@.all_read(
                match r {
                    Ok((n, p)) => Ok((note::note_views(n@), project::project_views(p@))),
                    Err(e) => Err(e@),
                },
            ),
            final(self)@.is_sound(),
            final(self)@.is_idle(),
    {
        let ghost s = old(self)@;
        match r {
            Ok((notes, projects)) => {
                let len: usize = notes.len();
                self.notes = notes;
                self.projects = projects;
                let ghost a = AppView {
                    notes: note::note_views(notes@),
                    projects: project::project_views(projects@),
                    ..s
                };
                assert(self@ =~= a);
                assert(a.is_sound()) by {
                    assert forall|i: int| 0 <= i < a.notes.len() implies (
                    #[trigger] a.notes[i]).fits() by {
                        assert(a.notes[i] == notes@[i]@);
                    }
                }
                self.clamp_all();
                self.rebuild_todos();
                self.run_search();
                self.report(counted("再読み込みしました（", len, " 件）"));
                proof {
                    lemma_sound(a, self@);
                }
            },
            Err(e) => {
                self.say_error("再読み込みに失敗しました: ", e.as_str());
                proof {
                    lemma_sound(s, self@);
                }
            },
        }
    }

    /// Shows the entry that was made.
    #[verifier::spinoff_prover]
    #[verifier::rlimit(40)]
    fn show_entry(&mut self, date: &str)
        ensures
            final(self)@ == old(self)@.entry_shown(date@),
            final(self)@.notes == old(self)@.notes,
            final(self)@.wait == old(self)@.wait,
    {
        let ghost s = old(self)@;
        let at: usize = find_note(&self.notes, date);
        assert(s.notes.len() == self.notes@.len());
        self.view = View::Notes;
        self.focus = Focus::Detail;
        self.note_sel = if at < self.notes.len() {
            at
        } else {
            0
        };
        let ghost a = AppView {
            view: View::Notes,
            focus: Focus::Detail,
            note_sel: if at < s.notes.len() {
                at as int
            } else {
                0
            },
            ..s
        };
        assert(self@ =~= a);
        let shown: usize = self.visible_notes();
        if self.note_sel >= shown {
            self.show_all_notes = true;
        }
        let ghost b = AppView {
            show_all_notes: a.show_all_notes || a.note_sel >= a.notes_shown(),
            ..a
        };
        assert(self@ =~= b);
        let count: usize = self.entry_total();
        self.entry_sel = if count < 1 {
            0
        } else {
            count - 1
        };
        self.detail_scroll = 0;
        self.note_task_sel = 0;
        assert(self@ =~= (AppView {
            entry_sel: types::less(b.entry_count(), 1),
            detail_scroll: 0,
            note_task_sel: 0,
            ..b
        }));
        self.say("エントリを追加しました");
    }

    /// Puts a note back as it was.
    fn revert(&mut self, n: usize, before: &str)
        requires
            old(self)@.is_sound(),
            old(self)@.is_idle(),
            n < old(self).notes@.len(),
        ensures
            final(self)@ == old(self)@.reverted(n as int, before@),
            final(self)@.is_sound(),
            final(self)@.is_idle(),
    {
        let ghost s = old(self)@;
        assert(s.notes[n as int] == self.notes@[n as int]@);
        let note: DailyNote = DailyNote::parse(
            self.notes[n].date.clone(),
            self.notes[n].path.clone(),
            before,
        );
        self.put_note(n, note);
        proof {
            lemma_note_put(s, self@, n as int);
        }
    }

    /// Goes on once a note was written that was changed.
    fn note_written(
        &mut self,
        n: usize,
        before: &str,
        success: String,
        rows: Option<(Vec<Row>, Vec<Row>)>,
        result: Result<(), String>,
        now: &Moment,
    ) -> (r: Option<Job>)
        requires
            old(self)@.is_sound(),
            old(self)@.is_idle(),
            n < old(self).notes@.len(),
        ensures
            (final(self)@, jobs::job_view(r)) == ({
                let s = old(self)@;
                match error_view(result) {
                    None => {
                        let t = s.rebuilt().searched().said(success@);
                        match jobs::rows_view(rows) {
                            Some((a, b)) => t.syncing(
                                a,
                                b,
                                true,
                                jobs::FinishView::EntryBody,
                                *now,
                            ),
                            None => (t, None),
                        }
                    },
                    Some(err) => (
                        s.reverted(n as int, before@).rebuilt().said(
                            "保存に失敗しました: "@ + err,
                        ),
                        None,
                    ),
                }
            }),
            final(self)@.is_sound(),
    {
        let ghost s = old(self)@;
        match result {
            Ok(_) => {
                self.rebuild_todos();
                proof {
                    lemma_sound(s, self@);
                }
                self.run_search();
                self.report(success);
                proof {
                    lemma_sound(s, self@);
                }
                match rows {
                    Some((a, b)) => self.apply_project_changes(
                        &a,
                        &b,
                        true,
                        Finish::EntryBody,
                        now,
                    ),
                    None => None,
                }
            },
            Err(e) => {
                self.revert(n, before);
                let ghost t = self@;
                self.rebuild_todos();
                self.say_error("保存に失敗しました: ", e.as_str());
                proof {
                    lemma_sound(t, self@);
                }
                None
            },
        }
    }

    /// Goes on once the state of a row was written.
    fn row_written(&mut self, group: String, title: String, next: TaskStatus, now: &Moment) -> (r:
        Option<Job>)
        requires
            old(self)@.is_sound(),
            old(self)@.is_idle(),
        ensures
            (final(self)@, jobs::job_view(r)) == old(self)@.row_saved(group@, title@, next, *now),
            final(self)@.is_sound(),
    {
        let ghost s = old(self)@;
        self.rebuild_todos();
        self.report(state_told(title.as_str(), next));
        proof {
            lemma_sound(s, self@);
        }
        let mut rows: Vec<Row> = Vec::new();
        rows.push((group.clone(), title.clone(), next));
        assert(note::row_views(rows@) =~= seq![(group@, title@, next)]);
        self.apply_project_changes(
            &rows,
            &rows,
            false,
            Finish::RowState { title, next, group },
            now,
        )
    }

    /// Takes back the state of a row that could not be written.
    fn row_refused(&mut self, n: usize, before: &str, e: &str)
        requires
            old(self)@.is_sound(),
            old(self)@.is_idle(),
            n < old(self).notes@.len(),
        ensures
            final(self)@ == old(self)@.reverted(n as int, before@).said(
                "保存に失敗しました: "@ + e@,
            ),
            final(self)@.is_sound(),
    {
        self.revert(n, before);
        let ghost t = self@;
        self.say_error("保存に失敗しました: ", e);
        proof {
            lemma_sound(t, self@);
        }
    }

    /// Tells what came of copying.
    fn tell_copied(&mut self, count: usize, r: Result<String, String>)
        ensures
            final(self)@ == match r {
                Ok(command) => old(self)@.said(
                    "ToDo を Markdown でコピーしました（"@ + number::decimal(count as nat)
                        + " 行 / "@ + command@ + "）"@,
                ),
                Err(e) => old(self)@.said("コピーできません: "@ + e@),
            },
    {
        match r {
            Ok(command) => {
                let mut s: String = "ToDo を Markdown でコピーしました（".to_owned();
                push_number(&mut s, count as u64);
                s.append(" 行 / ");
                s.append(command.as_str());
                s.append("）");
                self.report(s);
            },
            Err(e) => {
                self.say_error("コピーできません: ", e.as_str());
            },
        }
    }

    /// Goes on once a note was written, or not.
    #[verifier::spinoff_prover]
    #[verifier::rlimit(60)]
    fn resume_note(&mut self, wait: Wait, r: Result<(), String>, now: &Moment) -> (job: Option<Job>)
        requires
            old(self)@.is_sound(),
            old(self)@.is_idle(),
            wait@.fits(old(self)@.notes),
            wait is Persist || wait is Row,
        ensures
            (final(self)@, jobs::job_view(job)) == waiting(old(self)@, wait@).resumed(
                EventView::Saved(error_view(r)),
                *now,
            ),
            final(self)@.is_sound(),
    {
        let ghost s = old(self)@;
        assert(self.notes@.len() == s.notes.len());
        assert((AppView { wait: WaitView::Idle, ..waiting(s, wait@) }) =~= s);
        match wait {
            Wait::Persist { note_idx, before, success, rows } => {
                self.note_written(note_idx, before.as_str(), success, rows, r, now)
            },
            Wait::Row { note_idx, before, group, title, next } => match r {
                Ok(_) => self.row_written(group, title, next, now),
                Err(e) => {
                    self.row_refused(note_idx, before.as_str(), e.as_str());
                    None
                },
            },
            _ => None,
        }
    }

    /// Goes on once something of a project was written, or not.
    fn resume_project(&mut self, wait: Wait, r: Result<(), String>, now: &Moment) -> (job: Option<
        Job,
    >)
        requires
            old(self)@.is_sound(),
            old(self)@.is_idle(),
            wait@.fits(old(self)@.notes),
            wait is Changes || wait is Order || wait is Archive || wait is Tasks || wait is Cycle,
        ensures
            (final(self)@, jobs::job_view(job)) == waiting(old(self)@, wait@).resumed(
                EventView::Saved(error_view(r)),
                *now,
            ),
            final(self)@.is_sound(),
    {
        let ghost s = old(self)@;
        assert((AppView { wait: WaitView::Idle, ..waiting(s, wait@) }) =~= s);
        match wait {
            Wait::Changes { changes, at, sync, finish } => {
                assert(plan::change_views(changes@).len() == changes@.len());
                self.next_change(changes, at, sync, finish, r, now)
            },
            Wait::Order { to, down } => self.reload_after(
                r,
                "並びを保存できません: ",
                AfterReload::Order { to, down },
            ),
            Wait::Archive { name, archived } => self.reload_after(
                r,
                "保存に失敗しました: ",
                AfterReload::Archived { name, archived },
            ),
            Wait::Tasks { name, removed, count } => self.reload_after(
                r,
                "保存に失敗しました: ",
                AfterReload::Tasks { name, removed, count },
            ),
            Wait::Cycle { title, next, name } => self.reload_after(
                r,
                "保存に失敗しました: ",
                AfterReload::Cycled { title, next, name },
            ),
            _ => None,
        }
    }

    /// Goes on with a new entry.
    #[verifier::spinoff_prover]
    #[verifier::rlimit(60)]
    fn resume_entry(&mut self, wait: Wait, event: Event, now: &Moment) -> (job: Option<Job>)
        requires
            old(self)@.is_sound(),
            old(self)@.is_idle(),
            wait@.takes(event@),
            event@.fits(),
            wait is Open || wait is SaveEntry || wait is EntryReload || wait is Reload,
        ensures
            (final(self)@, jobs::job_view(job)) == waiting(old(self)@, wait@).resumed(event@, *now),
            final(self)@.is_sound(),
    {
        let ghost s = old(self)@;
        assert((AppView { wait: WaitView::Idle, ..waiting(s, wait@) }) =~= s);
        proof {
            lemma_notes_fit(event);
        }
        match (wait, event) {
            (Wait::Open { date, block }, Event::Opened(r)) => match r {
                Ok(opened) => {
                    let mut note: DailyNote = opened;
                    note.append_entry_block(block.as_str());
                    self.wait_for(Wait::SaveEntry { date });
                    Some(Job::SaveOpened { note })
                },
                Err(e) => {
                    self.say_error("ノートを開けません: ", e.as_str());
                    proof {
                        lemma_sound(s, self@);
                    }
                    None
                },
            },
            (Wait::SaveEntry { date }, Event::Saved(r)) => match r {
                Ok(_) => {
                    self.wait_for(Wait::EntryReload { date });
                    Some(Job::LoadAll)
                },
                Err(e) => {
                    self.say_error("保存に失敗しました: ", e.as_str());
                    proof {
                        lemma_sound(s, self@);
                    }
                    None
                },
            },
            (Wait::EntryReload { date }, Event::All(r)) => {
                self.take_all(r);
                let ghost t = self@;
                self.show_entry(date.as_str());
                proof {
                    lemma_sound(t, self@);
                }
                None
            },
            (Wait::Reload, Event::All(r)) => {
                self.take_all(r);
                None
            },
            _ => None,
        }
    }

    /// Goes on with projects that were made or read, or with a text that was copied.
    #[verifier::spinoff_prover]
    #[verifier::rlimit(60)]
    fn resume_rest(&mut self, wait: Wait, event: Event, now: &Moment) -> (job: Option<Job>)
        requires
            old(self)@.is_sound(),
            old(self)@.is_idle(),
            wait@.takes(event@),
            now.is_valid(),
            wait is Create || wait is Projects || wait is Copy,
        ensures
            (final(self)@, jobs::job_view(job)) == waiting(old(self)@, wait@).resumed(event@, *now),
            final(self)@.is_sound(),
    {
        let ghost s = old(self)@;
        assert((AppView { wait: WaitView::Idle, ..waiting(s, wait@) }) =~= s);
        match (wait, event) {
            (Wait::Create { name }, Event::Created(r)) => match r {
                Ok(dir_name) => self.reload_projects(AfterReload::Created { name, dir_name }),
                Err(e) => {
                    self.say_error("作成に失敗しました: ", e.as_str());
                    proof {
                        lemma_sound(s, self@);
                    }
                    None
                },
            },
            (Wait::Projects(after), Event::Projects(r)) => {
                self.take_projects(r);
                proof {
                    lemma_sound(s, self@);
                }
                self.go_on(after, now)
            },
            (Wait::Copy { count }, Event::Copied(r)) => {
                self.tell_copied(count, r);
                proof {
                    lemma_sound(s, self@);
                }
                None
            },
            _ => None,
        }
    }

    /// Takes what came of a job, at a moment. Returns what is to be done next.
    pub fn resume_at(&mut self, event: Event, now: &Moment) -> (r: Option<Job>)
        requires
            old(self)@.is_sound(),
            old(self)@.wait.takes(event@),
            event@.fits(),
            now.is_valid(),
        ensures
            (final(self)@, jobs::job_view(r)) == old(self)@.resumed(event@, *now),
            final(self)@.is_sound(),
    {
        let ghost start = old(self)@;
        let mut wait: Wait = Wait::Idle;
        std::mem::swap(&mut wait, &mut self.wait);
        let ghost s = AppView { wait: WaitView::Idle, ..start };
        assert(self@ =~= s);
        assert(wait@ == start.wait);
        assert(waiting(s, wait@) =~= start);
        proof {
            lemma_sound(start, s);
        }
        if matches!(wait, Wait::Create { .. } | Wait::Projects(_) | Wait::Copy { .. }) {
            return self.resume_rest(wait, event, now);
        }
        if matches!(
            wait,
            Wait::Open { .. } | Wait::SaveEntry { .. } | Wait::EntryReload { .. } | Wait::Reload
        ) {
            return self.resume_entry(wait, event, now);
        }
        match event {
            Event::Saved(r) => {
                if matches!(
                    wait,
                    Wait::Persist { .. } | Wait::Row { .. }
                ) {
                    self.resume_note(wait, r, now)
                } else {
                    self.resume_project(wait, r, now)
                }
            },
            _ => None,
        }
    }

    /// Takes what came of a job. Returns what is to be done next.
    pub fn resume(&mut self, event: Event) -> (r: Option<Job>)
        requires
            old(self)@.is_sound(),
            old(self)@.wait.takes(event@),
            event@.fits(),
        ensures
            exists|m: Moment|
                m.is_valid() && (final(self)@, jobs::job_view(r)) == #[trigger] old(self)@.resumed(
                    event@,
                    m,
                ),
            final(self)@.is_sound(),
    {
        let moment: Moment = now();
        let ghost start = old(self)@;
        let ghost e = event@;
        let r = self.resume_at(event, &moment);
        assert((self@, jobs::job_view(r)) == start.resumed(e, moment));
        r
    }
}

/// The notes of an event fit where what they hold fits.
proof fn lemma_notes_fit(event: Event)
    requires
        event@.fits(),
    ensures
        event matches Event::All(Ok((notes, _))) ==> forall|i: int|
            0 <= i < notes@.len() ==> (#[trigger] notes@[i])@.fits(),
{
    match (event, event@) {
        (Event::All(Ok((notes, _))), EventView::All(Ok((views, _)))) => {
            assert(views == note::note_views(notes@));
            assert(forall|i: int| 0 <= i < views.len() ==> (#[trigger] views[i]).fits());
            assert forall|i: int| 0 <= i < notes@.len() implies (
            #[trigger] notes@[i])@.fits() by {
                assert(views[i] == notes@[i]@);
            }
        },
        _ => {},
    }
}

} // verus!
