//! What the panes of the screen say.

use vstd::prelude::*;

use crate::app::state;
use crate::app::state::AppView;
use crate::app::todos;
use crate::app::types::{LineKind, Mode, RowKind};
use crate::keys::HELP;
use crate::model::note;
use crate::model::project;
use crate::model::project::{ProjectView, TaskView};
use crate::model::status::TaskStatus;
use crate::number;
use crate::pick;
use crate::screen;
use crate::screen::{Area, LineView};
use crate::text;

verus! {

/// The list of notes has a row for each note that is listed, in order: its day and how many
/// entries it has. The chosen note is marked.
pub proof fn law_notes_are_shown(s: AppView)
    requires
        0 <= s.notes_shown() <= s.notes.len(),
    ensures
        ({
            let v = screen::notes_view(s);
            &&& v.rows.len() == s.notes_shown()
            &&& forall|i: int|
                0 <= i < v.rows.len() ==> (#[trigger] v.rows[i]).len() == 2 && v.rows[i][0].text
                    == s.notes[i].date && v.rows[i][1].text == seq![' '] + number::decimal(
                    s.notes[i].entries.len(),
                )
            &&& v.selected == if s.notes.len() > 0 {
                Some(s.note_sel)
            } else {
                None
            }
            &&& v.focused == (s.focus is List)
        }),
{
    reveal_strlit(" ");
    assert(" "@ =~= seq![' ']);
}

/// The body that is shown is the body of the chosen entry, line by line. With the focus on it,
/// the chosen task is marked, and only a line that is a task ever is.
pub proof fn law_body_is_shown(s: AppView)
    requires
        0 <= s.note_sel < s.notes.len(),
        s.notes[s.note_sel].fits(),
        0 <= s.entry_sel < s.notes[s.note_sel].entries.len(),
    ensures
        ({
            let v = screen::body_view(s);
            let n = s.notes[s.note_sel];
            let first = n.entries[s.entry_sel].body.0;
            &&& v.title == n.date
            &&& v.rows.len() == n.entries[s.entry_sel].body.1 - first
            &&& forall|i: int|
                0 <= i < v.rows.len() ==> (#[trigger] v.rows[i]).len() == 1 && v.rows[i][0].text
                    == n.lines[first + i]
            &&& v.selected is Some ==> s.focus is Detail && 0 <= v.selected->0 < v.rows.len()
                && s.detail()[v.selected->0].task_line is Some
            &&& s.focus is Detail && 0 <= s.note_task_sel < s.spots().len() ==> v.selected == Some(
                s.spots()[s.note_task_sel],
            )
        }),
{
    let n = s.notes[s.note_sel];
    assert(note::entry_fits(n.entries[s.entry_sel], n.lines.len() as int));
    state::lemma_task_spots(s.detail());
}

/// The list of days has a row for each day that is shown, in order.
pub proof fn law_days_are_shown(s: AppView)
    ensures
        ({
            let v = screen::todo_days_view(s);
            &&& v.rows.len() == s.days_shown().len()
            &&& forall|i: int|
                0 <= i < v.rows.len() ==> (#[trigger] v.rows[i]).len() == 1 && v.rows[i][0].text
                    == s.days_shown()[i]
            &&& v.selected == if s.days_shown().len() > 0 {
                Some(s.todo_date_sel)
            } else {
                None
            }
        }),
{
}

/// The task list has a row for each task and each name of a project above its tasks. The row of
/// a task says its day, its state and its title; what is done is crossed out.
pub proof fn law_tasks_are_shown(s: AppView, r: int)
    requires
        0 <= r < todos::rows_of(s.todos_shown()).len(),
    ensures
        ({
            let v = screen::todo_view(s);
            let row = v.rows[r];
            &&& v.rows.len() == todos::rows_of(s.todos_shown()).len()
            &&& match todos::rows_of(s.todos_shown())[r] {
                RowKind::Group(name) => row.len() == 1 && row[0].text == name,
                RowKind::Task(i) => {
                    let t = s.todos_shown()[i].1;
                    &&& row.len() == 3
                    &&& row[0].text == if t.group.len() > 0 {
                        seq![' ', ' '] + t.date + seq![' ']
                    } else {
                        t.date + seq![' ']
                    }
                    &&& row[1].text == seq!['[', t.status.mark(), ']', ' ']
                    &&& row[2].text == t.title
                    &&& row[2].style.crossed_out == (t.status == TaskStatus::Done)
                },
            }
        }),
{
    reveal_strlit(" ");
    reveal_strlit("  ");
    reveal_strlit("[ ] ");
    reveal_strlit("[-] ");
    reveal_strlit("[x] ");
    assert(" "@ =~= seq![' ']);
    assert("  "@ =~= seq![' ', ' ']);
    assert("[ ] "@ =~= seq!['[', ' ', ']', ' ']);
    assert("[-] "@ =~= seq!['[', '-', ']', ' ']);
    assert("[x] "@ =~= seq!['[', 'x', ']', ' ']);
}

/// Whether a number is that of the tasks of a project that are not done.
pub open spec fn is_open_count(count: nat, tasks: Seq<TaskView>) -> bool {
    exists|at: Seq<int>|
        {
            &&& #[trigger] pick::rising(at, tasks.len() as int)
            &&& forall|i: int|
                0 <= i < tasks.len() ==> #[trigger] at.contains(i) == (tasks[i].status
                    != TaskStatus::Done)
            &&& count == at.len()
        }
}

proof fn lemma_open_count(tasks: Seq<TaskView>)
    ensures
        is_open_count(
            project::tasks_in(tasks, TaskStatus::Backlog).len() + project::tasks_in(
                tasks,
                TaskStatus::InProgress,
            ).len(),
            tasks,
        ),
{
    let n = tasks.len() as int;
    let keep = |k: int| tasks[k].status != TaskStatus::Done;
    pick::lemma_places(n, keep);
    lemma_count(tasks, n, keep);
    assert(tasks.take(n) =~= tasks);
    assert(pick::rising(pick::places(n, keep), n));
}

proof fn lemma_count(tasks: Seq<TaskView>, k: int, keep: spec_fn(int) -> bool)
    requires
        0 <= k <= tasks.len(),
        forall|i: int| #[trigger] keep(i) == (tasks[i].status != TaskStatus::Done),
    ensures
        pick::places(k, keep).len() == project::tasks_in(
            tasks.take(k),
            TaskStatus::Backlog,
        ).len() + project::tasks_in(tasks.take(k), TaskStatus::InProgress).len(),
    decreases k,
{
    if k > 0 {
        lemma_count(tasks, k - 1, keep);
        assert(tasks.take(k).drop_last() =~= tasks.take(k - 1));
        assert(tasks.take(k).last() == tasks[k - 1]);
        assert(keep(k - 1) == (tasks[k - 1].status != TaskStatus::Done));
    }
}

/// The list of projects has a row for each project that is listed, in order: its name, whether it
/// is archived, and how many of its tasks are not done.
pub proof fn law_projects_are_shown(s: AppView, i: int)
    requires
        0 <= i < s.projects_shown().len(),
    ensures
        ({
            let v = screen::projects_view(s);
            let p = s.projects[s.projects_shown()[i]];
            let row = v.rows[i];
            &&& v.rows.len() == s.projects_shown().len()
            &&& row[0].text == p.name
            &&& row.len() == if p.archived_at_ms > 0 {
                3int
            } else {
                2
            }
            &&& p.archived_at_ms > 0 ==> row[1].text == " (archived)"@
            &&& exists|count: nat| #[trigger]
                is_open_count(count, p.tasks) && row.last().text == "  未完 "@ + number::decimal(
                    count,
                )
            &&& v.selected == Some(s.project_sel)
        }),
{
    let p = s.projects[s.projects_shown()[i]];
    lemma_open_count(p.tasks);
    assert(is_open_count(screen::open_tasks(p), p.tasks));
}

/// Whether a row says the state and the title of a task, with a mark in front where it is the
/// chosen one.
pub open spec fn says_task(row: LineView, t: TaskView, chosen: bool) -> bool {
    &&& row.len() == 1
    &&& row[0].text == (if chosen {
        seq!['▌', ' ']
    } else {
        seq![' ', ' ']
    }) + seq![t.status.mark(), ' '] + t.title
}

/// The rows of the tasks in a state begin with its name and the number of its tasks. Each task
/// that is shown has a row, in order, and where some are not shown a row says how many.
pub proof fn law_task_groups_are_shown(
    status: TaskStatus,
    all: nat,
    shown: Seq<TaskView>,
    from: int,
    sel: int,
)
    requires
        0 < all,
        shown.len() <= all,
    ensures
        ({
            let rows = screen::group_rows(status, all, shown, from, sel);
            let n = shown.len() as int;
            &&& rows[0].len() == 1 && rows[0][0].text == status.title() + seq![' ', '(']
                + number::decimal(all) + seq![')']
            &&& forall|i: int| 0 <= i < n ==> says_task(rows[i + 1], #[trigger] shown[i], from + i == sel)
            &&& rows.len() == n + 2 + if shown.len() < all {
                1int
            } else {
                0
            }
            &&& shown.len() < all ==> rows[n + 1].len() == 1 && rows[n + 1][0].text == "完了 他 "@
                + number::decimal((all - shown.len()) as nat) + " 件"@
            &&& rows.last()[0].text.len() == 0
        }),
{
    reveal_strlit(" (");
    reveal_strlit(")");
    reveal_strlit("▌ ");
    reveal_strlit("  ");
    reveal_strlit("");
    assert(" ("@ =~= seq![' ', '(']);
    assert(")"@ =~= seq![')']);
    assert("▌ "@ =~= seq!['▌', ' ']);
    assert("  "@ =~= seq![' ', ' ']);
}

/// The tasks of a project are shown in three groups: those that are not started, those in
/// progress and those that are done; of the last only the first ones where there is a limit. The
/// address of the project stands above them. Where there is nothing to show, that is said.
pub proof fn law_tasks_of_the_project_are_shown(p: ProjectView, limit: int, sel: int)
    ensures
        ({
            let rows = screen::task_rows(p, limit, sel);
            let a = project::tasks_in(p.tasks, TaskStatus::Backlog);
            let b = project::tasks_in(p.tasks, TaskStatus::InProgress);
            let c = project::tasks_in(p.tasks, TaskStatus::Done);
            let x = screen::group_rows(TaskStatus::Backlog, a.len(), a, 0, sel);
            let y = screen::group_rows(
                TaskStatus::InProgress,
                b.len(),
                b,
                a.len() as int,
                sel,
            );
            let z = screen::group_rows(
                TaskStatus::Done,
                c.len(),
                if 0 < limit < c.len() {
                    c.take(limit)
                } else {
                    c
                },
                (a.len() + b.len()) as int,
                sel,
            );
            let top: int = if p.issue_url.len() > 0 {
                2
            } else {
                0
            };
            &&& p.issue_url.len() > 0 ==> rows[0][0].text == p.issue_url
            &&& p.issue_url.len() > 0 || p.tasks.len() > 0 ==> rows.skip(top) == x + y + z
            &&& p.issue_url.len() == 0 && p.tasks.len() == 0 ==> rows.len() == 1 && rows[0][0].text
                == "タスクがありません"@
            &&& a.len() == 0 ==> x.len() == 0
            &&& b.len() == 0 ==> y.len() == 0
            &&& c.len() == 0 ==> z.len() == 0
        }),
{
    let a = project::tasks_in(p.tasks, TaskStatus::Backlog);
    let b = project::tasks_in(p.tasks, TaskStatus::InProgress);
    let c = project::tasks_in(p.tasks, TaskStatus::Done);
    let x = screen::group_rows(TaskStatus::Backlog, a.len(), a, 0, sel);
    let y = screen::group_rows(TaskStatus::InProgress, b.len(), b, a.len() as int, sel);
    let z = screen::group_rows(
        TaskStatus::Done,
        c.len(),
        todos::limited(c, limit),
        (a.len() + b.len()) as int,
        sel,
    );
    let rows = screen::task_rows(p, limit, sel);
    project::law_listed_keeps_tasks(p.tasks);
    assert(a.len() + b.len() + c.len() == p.tasks.len());
    if p.issue_url.len() > 0 {
        assert(rows.skip(2) =~= x + y + z);
    } else if p.tasks.len() > 0 {
        assert((x + y + z).len() > 0);
        assert(rows.skip(0) =~= x + y + z);
    }
}

/// The list of hits has a row for each hit, in order: its day and its preview. The title says how
/// many there are, once something is searched for.
pub proof fn law_hits_are_shown(s: AppView)
    ensures
        ({
            let v = screen::hits_view(s);
            &&& v.rows.len() == s.hits.len()
            &&& forall|i: int|
                0 <= i < v.rows.len() ==> (#[trigger] v.rows[i]).len() == 2 && v.rows[i][0].text
                    == s.hits[i].date + seq![' '] && v.rows[i][1].text == s.hits[i].preview
            &&& v.selected == if s.hits.len() > 0 {
                Some(s.search_sel)
            } else {
                None
            }
            &&& text::trimmed(s.query).len() > 0 ==> v.title == number::decimal(s.hits.len())
                + " 件  Enter で該当箇所へ"@
            &&& screen::query_view(s).rows[0][1].text == s.query
        }),
{
    reveal_strlit(" ");
    assert(" "@ =~= seq![' ']);
}

/// The row at the bottom asks the question that waits for an answer; else it says the message, or
/// where there is none how much data there is.
pub proof fn law_bottom_row(s: AppView)
    ensures
        ({
            let row = screen::footer_row(s);
            &&& s.mode == Mode::Confirm && s.confirm is Some ==> row.len() == 1 && row[0].text
                == "このエントリを削除しますか？ y / n"@
            &&& !(s.mode == Mode::Confirm && s.confirm is Some) && s.status is Some ==> row.len()
                == 1 && row[0].text == s.status->0
            &&& !(s.mode == Mode::Confirm && s.confirm is Some) && s.status is None ==> row.len()
                == 2 && row[0].text == s.summary()
        }),
{
}

/// The help has a row for each key, in order, with what it does, and then says where the data
/// lies and where that was set.
pub proof fn law_help_names_all_keys(s: AppView)
    ensures
        ({
            let rows = screen::help_rows(s.config);
            let n = HELP@.len() as int;
            &&& rows.len() == n + 5
            &&& forall|i: int|
                0 <= i < n ==> (#[trigger] rows[i]).len() == 2 && text::begins(
                    rows[i][0].text,
                    HELP@[i].0@,
                ) && rows[i][1].text == HELP@[i].1@
            &&& rows[n + 1][1].text == s.config.data_dir
            &&& rows[n + 2][1].text == s.config.source
        }),
{
    let rows = screen::help_rows(s.config);
    let n = HELP@.len() as int;
    assert forall|i: int| 0 <= i < n implies (#[trigger] rows[i]).len() == 2 && text::begins(
        rows[i][0].text,
        HELP@[i].0@,
    ) && rows[i][1].text == HELP@[i].1@ by {
        let key = HELP@[i].0@;
        assert(rows[i][0].text.take(key.len() as int) =~= key);
    }
}

/// The help stands in the middle: the room to its left and to its right is the same but for one
/// column, and so is the room above and below. It is as wide as it may be, and as high as its
/// rows need where there is room.
pub proof fn law_help_stands_in_the_middle(area: Area)
    requires
        area.x + area.width <= u16::MAX,
        area.y + area.height <= u16::MAX,
    ensures
        ({
            let p = screen::popup_of(area);
            let left = p.x - area.x;
            let right = area.x + area.width - p.x - p.width;
            let above = p.y - area.y;
            let below = area.y + area.height - p.y - p.height;
            &&& left <= right <= left + 1
            &&& above <= below <= above + 1
            &&& area.width >= 78 ==> p.width == 76
            &&& 2 <= area.width < 78 ==> p.width == area.width - 2
            &&& area.height >= 27 ==> p.height == 27
            &&& area.height < 27 ==> p.height == area.height
        }),
{
}

/// The help is scrolled no further than to its last page.
pub proof fn law_help_is_scrolled_to_its_end(s: AppView, height: int)
    requires
        3 <= height <= u16::MAX,
        0 <= s.help_scroll,
    ensures
        ({
            let v = screen::help_view(s, height);
            let rows = v.rows.len() as int;
            let inner = height - 2;
            &&& rows <= inner ==> v.scroll == 0
            &&& rows > inner ==> v.scroll + inner <= rows
            &&& rows > inner && s.help_scroll + inner <= rows ==> v.scroll == s.help_scroll
            &&& rows > inner && s.help_scroll + inner > rows ==> v.scroll + inner == rows
        }),
{
}

/// The list of entries has a row for each entry of the chosen note, in order: its time where it
/// has one, its tags in brackets where it has any, and its title.
pub proof fn law_entries_are_shown(s: AppView, i: int)
    requires
        0 <= i < s.headings().len(),
    ensures
        ({
            let v = screen::entries_view(s);
            let e = s.headings()[i];
            let row = v.rows[i];
            let timed: int = if e.time is Some {
                1
            } else {
                0
            };
            let tagged: int = if e.tags.len() > 0 {
                1
            } else {
                0
            };
            &&& v.rows.len() == s.headings().len()
            &&& row.len() == timed + tagged + 1
            &&& e.time is Some ==> row[0].text == e.time->0 + seq![' ']
            &&& e.tags.len() > 0 ==> row[timed].text == seq!['['] + text::joined(e.tags, ", "@)
                + seq![']', ' ']
            &&& row.last().text == e.title
            &&& v.selected == Some(s.entry_sel)
        }),
{
    reveal_strlit(" ");
    reveal_strlit("[");
    reveal_strlit("] ");
    assert(" "@ =~= seq![' ']);
    assert("["@ =~= seq!['[']);
    assert("] "@ =~= seq![']', ' ']);
}

/// The cursor of the query stands behind what was typed, as long as that fits into the field; else
/// at its right end. It never leaves the field.
pub proof fn law_cursor_stands_behind_the_query(area: Area, typed: nat)
    requires
        typed < 0x10000,
        area.x + area.width <= u16::MAX,
        area.width >= 5,
    ensures
        typed + 5 <= area.width ==> screen::cursor_column(area, typed) == area.x + 3 + typed,
        typed + 5 > area.width ==> screen::cursor_column(area, typed) == area.x + area.width - 2,
        area.x < screen::cursor_column(area, typed) < area.x + area.width,
{
}

/// The row under the cursor stands out in the pane in focus: it is bold, on another ground.
/// Headings are bold, quotes slanted; states differ by their colors.
pub proof fn law_styles_stand_out()
    ensures
        screen::cursor_of(true).bold && !screen::cursor_of(false).bold,
        screen::cursor_of(true).bg == Some(screen::Color::DarkGray),
        screen::cursor_of(false).bg == Some(screen::Color::Black),
        screen::line_style(LineKind::Heading).bold,
        screen::line_style(LineKind::Heading).fg == Some(screen::Color::Magenta),
        screen::line_style(LineKind::Quote).italic,
        screen::line_style(LineKind::Quote).fg == Some(screen::Color::DarkGray),
        screen::line_style(LineKind::Code).fg == Some(screen::Color::LightGreen),
        screen::line_style(LineKind::ListItem) == screen::line_style(LineKind::Body),
        screen::line_style(LineKind::Body).fg is None,
        screen::box_of(TaskStatus::InProgress).1 == screen::Color::Yellow,
        screen::box_of(TaskStatus::Done).1 == screen::Color::Green,
        screen::box_of(TaskStatus::Backlog).1 == screen::Color::Reset,
        screen::head_style(TaskStatus::Done).fg == Some(screen::Color::Green),
        screen::head_style(TaskStatus::InProgress).fg == Some(screen::Color::Yellow),
        screen::head_style(TaskStatus::Backlog).fg == Some(screen::Color::Cyan),
        screen::head_style(TaskStatus::Backlog).bold,
{
}

/// The titles say what a pane shows: how many of the days, where not all of them are listed; how
/// many tasks of the chosen day, in which order, and whether only open ones; the name of the
/// chosen project; the day of the chosen note.
pub proof fn law_titles_name_what_is_shown(s: AppView)
    ensures
        screen::notes_view(s).title == if s.notes_shown() < s.notes.len() {
            "日付 "@ + number::decimal(s.notes_shown() as nat) + "/"@ + number::decimal(s.notes.len())
        } else {
            "日付"@
        },
        s.todo_open_only ==> screen::todo_view(s).title == "ToDo  "@ + number::decimal(
            s.todos_shown().len(),
        ) + " 件  "@ + s.todo_sort.name() + "  未完のみ"@ + "  Space で状態を進める"@,
        !s.todo_open_only ==> screen::todo_view(s).title == "ToDo  "@ + number::decimal(
            s.todos_shown().len(),
        ) + " 件  "@ + s.todo_sort.name() + "  Space で状態を進める"@,
        match s.project() {
            Some(p) => screen::tasks_view(s).title == p.name + if s.focus is Detail {
                "  Space で状態を進める"@
            } else {
                "  l で選ぶ"@
            },
            None => screen::tasks_view(s).title == "プロジェクトがありません"@
                && screen::tasks_view(s).rows.len() == 0,
        },
        match s.note() {
            Some(n) => screen::body_view(s).title == n.date,
            None => screen::body_view(s).title == "ノートがありません"@,
        },
{
    reveal_strlit("");
    let front = "ToDo  "@ + number::decimal(s.todos_shown().len()) + " 件  "@ + s.todo_sort.name();
    assert(front + ""@ =~= front);
}

/// The body is scrolled as far as asked, but never so far that no line of it is left.
pub proof fn law_body_is_scrolled_to_its_end(s: AppView)
    requires
        0 <= s.detail_scroll,
        s.detail().len() <= 0x10000,
    ensures
        s.detail_scroll < s.detail().len() ==> screen::body_view(s).scroll == s.detail_scroll,
        0 < s.detail().len() <= s.detail_scroll ==> screen::body_view(s).scroll
            == s.detail().len() - 1,
        s.detail().len() == 0 ==> screen::body_view(s).scroll == 0,
{
}

/// Each mode but the usual one has a badge of its own.
pub proof fn law_badges_tell_modes_apart(a: Mode, b: Mode)
    ensures
        screen::badge_of(a) == screen::badge_of(b) <==> a == b,
        screen::badge_of(a) is None <==> a is Normal,
        a is Search ==> screen::badge_of(a) == Some("SEARCH"@),
        a is Help ==> screen::badge_of(a) == Some("HELP"@),
{
    reveal_strlit("SEARCH");
    reveal_strlit("CONFIRM");
    reveal_strlit("HELP");
    assert("SEARCH"@.len() == 6 && "CONFIRM"@.len() == 7 && "HELP"@.len() == 4);
}

} // verus!
