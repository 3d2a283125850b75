//! The body of a daily task list: one group per project, with the tasks below its name.

use vstd::prelude::*;

use crate::calendar;
use crate::calendar::{push_year, CalendarDate};
use crate::model::line;
use crate::model::line::{parse_group_line, parse_task_line, set_marker};
use crate::model::note::TODO_TAG;
use crate::model::project;
use crate::model::project::{push_check_row, ProjectTask, TaskView};
use crate::model::status::TaskStatus;
use crate::number;
use crate::number::push_padded;
use crate::text;
use crate::text::{blank, chars_of, join, list_has, same_string, space};

verus! {

// -------------------------------------------------------------------- heading

/// The name of a day of the week, counted from Sunday.
pub open spec fn weekday_name(w: int) -> char {
    if w == 0 {
        '日'
    } else if w == 1 {
        '月'
    } else if w == 2 {
        '火'
    } else if w == 3 {
        '水'
    } else if w == 4 {
        '木'
    } else if w == 5 {
        '金'
    } else {
        '土'
    }
}

/// The heading of the task list of a day.
pub open spec fn heading_text(date: CalendarDate) -> Seq<char> {
    TODO_TAG@ + seq![':', ' '] + calendar::padded_year(date.year as int) + seq!['/']
        + number::padded(date.month as nat, 2) + seq!['/'] + number::padded(date.day as nat, 2)
        + seq!['（'] + seq![
        weekday_name(calendar::weekday(date.year as int, date.month as int, date.day as int)),
    ] + seq!['）']
}

/// Writes the heading of the task list of a day, such as `ToDo: 2026/08/25（火）`.
pub fn todo_heading(date: CalendarDate) -> (r: String)
    requires
        date.is_valid(),
    ensures
        r@ == heading_text(date),
{
    let w: u32 = date.num_days_from_sunday();
    let name: char = if w == 0 {
        '日'
    } else if w == 1 {
        '月'
    } else if w == 2 {
        '火'
    } else if w == 3 {
        '水'
    } else if w == 4 {
        '木'
    } else if w == 5 {
        '金'
    } else {
        '土'
    };
    let mut out = String::new();
    out.append(TODO_TAG);
    out.push(':');
    out.push(' ');
    push_year(&mut out, date.year);
    out.push('/');
    push_padded(&mut out, date.month as u64, 2);
    out.push('/');
    push_padded(&mut out, date.day as u64, 2);
    out.push('（');
    out.push(name);
    out.push('）');
    assert(out@ == heading_text(date));
    out
}

// ----------------------------------------------------------------------- body

/// The line with the name of a group.
pub open spec fn group_line(name: Seq<char>) -> Seq<char> {
    seq!['-', ' '] + name
}

/// The line of a task below a group.
pub open spec fn task_line(status: TaskStatus, title: Seq<char>) -> Seq<char> {
    seq![' ', ' '] + project::check_row(status, title)
}

/// The lines of tasks below a group.
pub open spec fn task_lines(tasks: Seq<TaskView>) -> Seq<Seq<char>> {
    tasks.map_values(|t: TaskView| task_line(t.status, t.title))
}

/// The lines of groups; a group without tasks has none.
pub open spec fn group_lines(groups: Seq<(Seq<char>, Seq<TaskView>)>) -> Seq<Seq<char>>
    decreases groups.len(),
{
    if groups.len() == 0 {
        Seq::empty()
    } else {
        let before = group_lines(groups.drop_last());
        let (name, tasks) = groups.last();
        if tasks.len() == 0 {
            before
        } else {
            before.push(group_line(name)) + task_lines(tasks)
        }
    }
}

/// The lines of the task list of a day: its heading and the groups.
pub open spec fn body_rows(
    date: CalendarDate,
    groups: Seq<(Seq<char>, Seq<TaskView>)>,
) -> Seq<Seq<char>> {
    seq![seq!['#', ' '] + heading_text(date)] + group_lines(groups)
}

/// What a list of groups holds.
pub open spec fn group_views(v: Seq<(&str, Vec<&ProjectTask>)>) -> Seq<
    (Seq<char>, Seq<TaskView>),
> {
    v.map_values(|g: (&str, Vec<&ProjectTask>)| (g.0@, project::task_ref_views(g.1@)))
}

/// Writes the line with the name of a group.
fn format_group_line(name: &str) -> (r: String)
    ensures
        r@ == group_line(name@),
{
    let mut out = String::new();
    out.push('-');
    out.push(' ');
    out.append(name);
    assert(out@ == group_line(name@));
    out
}

/// Writes the line of a task below a group.
fn format_task_line(status: TaskStatus, title: &str) -> (r: String)
    ensures
        r@ == task_line(status, title@),
{
    let mut out = String::new();
    out.push(' ');
    out.push(' ');
    push_check_row(&mut out, status, title);
    assert(out@ == task_line(status, title@));
    out
}

/// Writes the body of the task list of a day.
pub fn build_todo_body(date: CalendarDate, groups: &[(&str, Vec<&ProjectTask>)]) -> (r: String)
    requires
        date.is_valid(),
    ensures
        r@ == text::joined(body_rows(date, group_views(groups@)), seq!['\n']),
{
    let ghost all = group_views(groups@);
    let mut heading = String::new();
    heading.push('#');
    heading.push(' ');
    heading.append(todo_heading(date).as_str());
    assert(heading@ == seq!['#', ' '] + heading_text(date));
    let mut lines: Vec<String> = Vec::new();
    lines.push(heading);
    assert(group_lines(all.take(0)) == Seq::<Seq<char>>::empty());
    assert(text::texts(lines@) == seq![heading@]);
    assert(text::texts(lines@) == body_rows(date, all.take(0)));
    let mut g: usize = 0;
    while g < groups.len()
        invariant
            g <= groups.len(),
            all == group_views(groups@),
            text::texts(lines@) == body_rows(date, all.take(g as int)),
        decreases groups.len() - g,
    {
        let tasks: &Vec<&ProjectTask> = &groups[g].1;
        let ghost views = project::task_ref_views(tasks@);
        let ghost before = text::texts(lines@);
        assert(all[g as int] == (groups[g as int].0@, views));
        assert(all.take(g + 1).drop_last() == all.take(g as int));
        if tasks.len() > 0 {
            lines.push(format_group_line(groups[g].0));
            let ghost head = before.push(group_line(groups[g as int].0@));
            assert(text::texts(lines@) == head + task_lines(views.take(0)));
            let mut i: usize = 0;
            while i < tasks.len()
                invariant
                    i <= tasks.len(),
                    views == project::task_ref_views(tasks@),
                    text::texts(lines@) == head + task_lines(views.take(i as int)),
                decreases tasks.len() - i,
            {
                let ghost done = lines@;
                let t: &ProjectTask = tasks[i];
                assert(views[i as int] == t@);
                let row: String = format_task_line(t.status, t.title.as_str());
                lines.push(row);
                assert(text::texts(lines@) == text::texts(done).push(row@));
                assert(task_lines(views.take(i + 1)) == task_lines(views.take(i as int)).push(row@));
                i += 1;
            }
            assert(views.take(i as int) == views);
            assert(text::texts(lines@) == body_rows(date, all.take(g + 1)));
        }
        g += 1;
    }
    assert(all.take(g as int) == all);
    proof {
        reveal_strlit("\n");
        assert("\n"@ == seq!['\n']);
    }
    join(&lines, "\n")
}

// ---------------------------------------------------------------------- group

/// Whether a line can stand below the name of a group: it is blank or indented.
pub open spec fn is_inner(l: Seq<char>) -> bool {
    text::is_blank(l) || text::is_space(l[0])
}

/// The first line from `i` on that does not stand below a group, or the number of lines.
pub open spec fn inner_end(lines: Seq<Seq<char>>, i: int) -> int
    decreases lines.len() - i,
{
    if i < lines.len() && is_inner(lines[i]) {
        inner_end(lines, i + 1)
    } else {
        i
    }
}

/// The end of the lines from `from` up to `end` without blank ones at the end.
pub open spec fn solid_end(lines: Seq<Seq<char>>, from: int, end: int) -> int
    decreases end - from,
{
    if end > from && text::is_blank(lines[end - 1]) {
        solid_end(lines, from, end - 1)
    } else {
        end
    }
}

/// The first line from `i` on that names a group, or the number of lines.
pub open spec fn group_start(lines: Seq<Seq<char>>, name: Seq<char>, i: int) -> int
    decreases lines.len() - i,
{
    if i >= lines.len() || line::group_of(lines[i]) == Some(name) {
        i
    } else {
        group_start(lines, name, i + 1)
    }
}

/// The line that names a group and the end of the lines below it.
pub open spec fn group_range(lines: Seq<Seq<char>>, name: Seq<char>) -> Option<(int, int)> {
    let start = group_start(lines, name, 0);
    if start < lines.len() {
        Some((start, solid_end(lines, start + 1, inner_end(lines, start + 1))))
    } else {
        None
    }
}

/// The line that names a group, and the end of the lines below it.
#[derive(Debug, Clone, Copy)]
pub struct TodoGroup {
    pub start: usize,
    pub end: usize,
}

/// The end of a group lies behind its name.
pub proof fn lemma_group_range(lines: Seq<Seq<char>>, name: Seq<char>)
    ensures
        match group_range(lines, name) {
            Some((start, end)) => {
                &&& 0 <= start < end <= lines.len()
                &&& line::group_of(lines[start]) == Some(name)
                &&& forall|j: int|
                    0 <= j < start ==> line::group_of(#[trigger] lines[j]) != Some(name)
                &&& forall|j: int| start < j < end ==> is_inner(#[trigger] lines[j])
                &&& end > start + 1 ==> !text::is_blank(lines[end - 1])
            },
            None => forall|j: int|
                0 <= j < lines.len() ==> line::group_of(#[trigger] lines[j]) != Some(name),
        },
{
    lemma_group_start(lines, name, 0);
    let start = group_start(lines, name, 0);
    if start < lines.len() {
        lemma_inner_end(lines, start + 1);
        lemma_solid_end(lines, start + 1, inner_end(lines, start + 1));
    }
}

/// Between the end of a group and the next line that does not stand below it, all lines are
/// blank.
pub proof fn lemma_group_parts(lines: Seq<Seq<char>>, name: Seq<char>)
    ensures
        match group_range(lines, name) {
            Some((start, end)) => {
                let stop = inner_end(lines, start + 1);
                &&& end <= stop <= lines.len()
                &&& forall|j: int| end <= j < stop ==> text::is_blank(#[trigger] lines[j])
                &&& stop < lines.len() ==> !is_inner(lines[stop])
            },
            None => true,
        },
{
    lemma_group_start(lines, name, 0);
    let start = group_start(lines, name, 0);
    if start < lines.len() {
        lemma_inner_end(lines, start + 1);
        lemma_solid_end(lines, start + 1, inner_end(lines, start + 1));
    }
}

proof fn lemma_group_start(lines: Seq<Seq<char>>, name: Seq<char>, i: int)
    requires
        0 <= i <= lines.len(),
    ensures
        i <= group_start(lines, name, i) <= lines.len(),
        forall|j: int|
            i <= j < group_start(lines, name, i) ==> line::group_of(#[trigger] lines[j]) != Some(
                name,
            ),
        group_start(lines, name, i) < lines.len() ==> line::group_of(
            lines[group_start(lines, name, i)],
        ) == Some(name),
    decreases lines.len() - i,
{
    if i < lines.len() && line::group_of(lines[i]) != Some(name) {
        lemma_group_start(lines, name, i + 1);
    }
}

proof fn lemma_inner_end(lines: Seq<Seq<char>>, i: int)
    requires
        0 <= i <= lines.len(),
    ensures
        i <= inner_end(lines, i) <= lines.len(),
        forall|j: int| i <= j < inner_end(lines, i) ==> is_inner(#[trigger] lines[j]),
        inner_end(lines, i) < lines.len() ==> !is_inner(lines[inner_end(lines, i)]),
    decreases lines.len() - i,
{
    if i < lines.len() && is_inner(lines[i]) {
        lemma_inner_end(lines, i + 1);
    }
}

pub proof fn lemma_solid_end(lines: Seq<Seq<char>>, from: int, end: int)
    requires
        0 <= from <= end <= lines.len(),
    ensures
        from <= solid_end(lines, from, end) <= end,
        solid_end(lines, from, end) > from ==> !text::is_blank(
            lines[solid_end(lines, from, end) - 1],
        ),
        forall|j: int|
            solid_end(lines, from, end) <= j < end ==> text::is_blank(#[trigger] lines[j]),
    decreases end - from,
{
    if end > from && text::is_blank(lines[end - 1]) {
        lemma_solid_end(lines, from, end - 1);
    }
}

/// Whether a line can stand below the name of a group.
fn inner(l: &str) -> (r: bool)
    ensures
        r == is_inner(l@),
{
    if blank(l) {
        return true;
    }
    let v: Vec<char> = chars_of(l);
    assert(v@.len() > 0) by {
        if v@.len() == 0 {
            assert(text::trimmed(v@) == Seq::<char>::empty());
        }
    }
    space(v[0])
}

/// Finds a group by its name.
pub fn find_todo_group(lines: &[String], project_name: &str) -> (r: Option<TodoGroup>)
    ensures
        match r {
            Some(g) => group_range(text::texts(lines@), project_name@) == Some(
                (g.start as int, g.end as int),
            ) && g.start < g.end <= lines@.len(),
            None => group_range(text::texts(lines@), project_name@) is None,
        },
{
    let ghost all = text::texts(lines@);
    let mut start: usize = 0;
    let mut found: bool = false;
    while start < lines.len() && !found
        invariant
            start <= lines.len(),
            all == text::texts(lines@),
            found ==> start < lines.len() && line::group_of(all[start as int]) == Some(
                project_name@,
            ),
            group_start(all, project_name@, 0) == group_start(all, project_name@, start as int),
        decreases
            lines.len() - start,
            if found {
                0int
            } else {
                1int
            },
    {
        assert(all[start as int] == lines[start as int]@);
        match parse_group_line(lines[start].as_str()) {
            Some(name) => {
                if same_string(name.as_str(), project_name) {
                    found = true;
                } else {
                    start += 1;
                }
            },
            None => {
                start += 1;
            },
        }
    }
    if !found {
        return None;
    }
    let mut end: usize = start + 1;
    while end < lines.len() && inner(lines[end].as_str())
        invariant
            start < end <= lines.len(),
            all == text::texts(lines@),
            inner_end(all, start + 1) == inner_end(all, end as int),
        decreases lines.len() - end,
    {
        assert(all[end as int] == lines[end as int]@);
        end += 1;
    }
    assert(end < lines.len() ==> all[end as int] == lines[end as int]@);
    assert(inner_end(all, end as int) == end);
    let ghost stop = end as int;
    while end > start + 1 && blank(lines[end - 1].as_str())
        invariant
            start < end <= lines.len(),
            all == text::texts(lines@),
            solid_end(all, start + 1, stop) == solid_end(all, start + 1, end as int),
        decreases end,
    {
        assert(all[end - 1] == lines[end - 1]@);
        end -= 1;
    }
    assert(end > start + 1 ==> all[end - 1] == lines[end - 1]@);
    Some(TodoGroup { start, end })
}

// --------------------------------------------------------------------- upsert

/// A state, a title, and whether a row is added where there is none.
pub type WantedView = (TaskStatus, Seq<char>, bool);

/// What a list of wanted tasks holds.
pub open spec fn wanted_views(v: Seq<(TaskStatus, String, bool)>) -> Seq<WantedView> {
    v.map_values(|w: (TaskStatus, String, bool)| (w.0, w.1@, w.2))
}

/// Whether a line is a task with one of the titles.
pub open spec fn is_dropped(l: Seq<char>, dropped: Seq<Seq<char>>) -> bool {
    line::task_of(l) is Some && dropped.contains((line::task_of(l)->0).1)
}

/// The lines that are no task with one of the titles.
pub open spec fn kept_lines(lines: Seq<Seq<char>>, dropped: Seq<Seq<char>>) -> Seq<Seq<char>>
    decreases lines.len(),
{
    if lines.len() == 0 {
        Seq::empty()
    } else {
        let before = kept_lines(lines.drop_last(), dropped);
        if is_dropped(lines.last(), dropped) {
            before
        } else {
            before.push(lines.last())
        }
    }
}

/// The lines without the tasks of a group that have one of the titles.
pub open spec fn without_rows(
    lines: Seq<Seq<char>>,
    name: Seq<char>,
    dropped: Seq<Seq<char>>,
) -> Seq<Seq<char>> {
    match group_range(lines, name) {
        Some((start, end)) => lines.take(start + 1) + kept_lines(
            lines.subrange(start + 1, end),
            dropped,
        ) + lines.skip(end),
        None => lines,
    }
}

/// The first line from `i` up to `end` that is a task with a title, or `end`.
pub open spec fn row_from(lines: Seq<Seq<char>>, i: int, end: int, title: Seq<char>) -> int
    decreases end - i,
{
    if i >= end || (line::task_of(lines[i]) is Some && (line::task_of(lines[i])->0).1 == title) {
        i
    } else {
        row_from(lines, i + 1, end, title)
    }
}

/// The row of a task in a group, if it has one. A task without a title has none.
pub open spec fn row_of(lines: Seq<Seq<char>>, start: int, end: int, title: Seq<char>) -> Option<
    int,
> {
    let at = row_from(lines, start + 1, end, title);
    if title.len() > 0 && at < end {
        Some(at)
    } else {
        None
    }
}

/// The lines of a group with the marks of its rows set, one wanted task after the other.
pub open spec fn marked(
    lines: Seq<Seq<char>>,
    start: int,
    end: int,
    wanted: Seq<WantedView>,
) -> Seq<Seq<char>>
    decreases wanted.len(),
{
    if wanted.len() == 0 {
        lines
    } else {
        let before = marked(lines, start, end, wanted.drop_last());
        match row_of(lines, start, end, wanted.last().1) {
            Some(at) => before.update(at, line::with_mark(before[at], wanted.last().0)),
            None => before,
        }
    }
}

/// How many marks setting them one after the other changes.
pub open spec fn marks_changed(
    lines: Seq<Seq<char>>,
    start: int,
    end: int,
    wanted: Seq<WantedView>,
) -> nat
    decreases wanted.len(),
{
    if wanted.len() == 0 {
        0
    } else {
        let before = marked(lines, start, end, wanted.drop_last());
        let so_far = marks_changed(lines, start, end, wanted.drop_last());
        match row_of(lines, start, end, wanted.last().1) {
            Some(at) => if line::with_mark(before[at], wanted.last().0) != before[at] {
                so_far + 1
            } else {
                so_far
            },
            None => so_far,
        }
    }
}

/// The lines to be added for wanted tasks that have no row in a group.
pub open spec fn new_rows(
    lines: Seq<Seq<char>>,
    start: int,
    end: int,
    wanted: Seq<WantedView>,
) -> Seq<Seq<char>>
    decreases wanted.len(),
{
    if wanted.len() == 0 {
        Seq::empty()
    } else {
        let before = new_rows(lines, start, end, wanted.drop_last());
        let (status, title, append) = wanted.last();
        if append && row_of(lines, start, end, title) is None {
            before.push(task_line(status, title))
        } else {
            before
        }
    }
}

/// What bringing a group up to date makes of the lines, and how many rows it adds, marks
/// anew and removes.
#[verifier::ext_equal]
pub struct Upsert {
    pub lines: Seq<Seq<char>>,
    pub added: nat,
    pub updated: nat,
    pub removed: nat,
}

/// The lines of a body with a group brought up to date. Rows that are dropped are removed
/// first. The rows of wanted tasks get their marks; tasks without a row are added behind
/// the group where that is asked for. A missing group is added at the end of the body,
/// where there is something to add to it. All other lines stay as they are.
pub open spec fn upserted(
    lines: Seq<Seq<char>>,
    name: Seq<char>,
    wanted: Seq<WantedView>,
    dropped: Seq<Seq<char>>,
) -> Upsert {
    let rest = without_rows(lines, name, dropped);
    let removed = (lines.len() - rest.len()) as nat;
    match group_range(rest, name) {
        Some((start, end)) => {
            let rows = new_rows(rest, start, end, wanted);
            let done = marked(rest, start, end, wanted);
            Upsert {
                lines: done.take(end) + rows + done.skip(end),
                added: rows.len(),
                updated: marks_changed(rest, start, end, wanted),
                removed,
            }
        },
        None => {
            // Without a group there are no rows: all that may be added is new.
            let rows = new_rows(rest, 0, 0, wanted);
            let body = rest.take(solid_end(rest, 0, rest.len() as int));
            Upsert {
                lines: if rows.len() == 0 {
                    rest
                } else {
                    body.push(group_line(name)) + rows
                },
                added: rows.len(),
                updated: 0,
                removed,
            }
        },
    }
}

/// Whether a line is a task with one of the titles.
fn dropped_row(l: &str, dropped: &[String]) -> (r: bool)
    ensures
        r == is_dropped(l@, text::texts(dropped@)),
{
    match parse_task_line(l) {
        Some((_, title)) => list_has(dropped, title.as_str()),
        None => false,
    }
}

/// The lines without the tasks of a group that have one of the titles.
fn drop_rows(lines: &[String], group: &TodoGroup, dropped: &[String]) -> (r: Vec<String>)
    requires
        group.start < group.end <= lines@.len(),
    ensures
        ({
            let all = text::texts(lines@);
            text::texts(r@) == all.take(group.start + 1) + kept_lines(
                all.subrange(group.start + 1, group.end as int),
                text::texts(dropped@),
            ) + all.skip(group.end as int)
        }),
{
    let ghost all = text::texts(lines@);
    let ghost names = text::texts(dropped@);
    let ghost first = group.start + 1;
    let ghost last = group.end as int;
    let mut out: Vec<String> = Vec::new();
    let mut i: usize = 0;
    assert(all.take(0) == Seq::<Seq<char>>::empty());
    while i < group.start + 1
        invariant
            i <= group.start + 1,
            group.start < group.end <= lines@.len(),
            all == text::texts(lines@),
            text::texts(out@) == all.take(i as int),
        decreases group.start + 1 - i,
    {
        let ghost done = out@;
        let l: String = lines[i].clone();
        out.push(l);
        assert(text::texts(out@) == text::texts(done).push(l@));
        assert(all.take(i + 1) == all.take(i as int).push(l@));
        i += 1;
    }
    let ghost front = all.take(first);
    assert(all.subrange(first, first) == Seq::<Seq<char>>::empty());
    assert(front + kept_lines(all.subrange(first, first), names) == front);
    while i < group.end
        invariant
            group.start < i <= group.end <= lines@.len(),
            all == text::texts(lines@),
            names == text::texts(dropped@),
            first == group.start + 1,
            text::texts(out@) == front + kept_lines(all.subrange(first, i as int), names),
        decreases group.end - i,
    {
        let ghost so_far = all.subrange(first, i as int);
        let ghost longer = all.subrange(first, i + 1);
        assert(all[i as int] == lines[i as int]@);
        assert(longer.drop_last() == so_far);
        if !dropped_row(lines[i].as_str(), dropped) {
            let ghost done = out@;
            let l: String = lines[i].clone();
            out.push(l);
            assert(text::texts(out@) == text::texts(done).push(l@));
            assert(front + kept_lines(so_far, names).push(l@) == (front + kept_lines(
                so_far,
                names,
            )).push(l@));
        }
        i += 1;
    }
    let ghost middle = front + kept_lines(all.subrange(first, last), names);
    assert(middle + all.subrange(last, last) == middle);
    while i < lines.len()
        invariant
            group.end <= i <= lines.len(),
            group.end == last,
            all == text::texts(lines@),
            text::texts(out@) == middle + all.subrange(last, i as int),
        decreases lines.len() - i,
    {
        let ghost done = out@;
        let l: String = lines[i].clone();
        out.push(l);
        assert(text::texts(out@) == text::texts(done).push(l@));
        assert(all.subrange(last, i + 1) == all.subrange(last, i as int).push(l@));
        i += 1;
    }
    assert(all.subrange(last, i as int) == all.skip(last));
    out
}

/// Finds the row of a task in a group.
fn find_row(lines: &Vec<String>, group: &TodoGroup, title: &str) -> (r: Option<usize>)
    requires
        group.start < group.end <= lines@.len(),
    ensures
        match r {
            Some(at) => row_of(
                text::texts(lines@),
                group.start as int,
                group.end as int,
                title@,
            ) == Some(at as int) && group.start < at < group.end,
            None => row_of(
                text::texts(lines@),
                group.start as int,
                group.end as int,
                title@,
            ) is None,
        },
{
    if title.is_empty() {
        return None;
    }
    let ghost all = text::texts(lines@);
    let mut i: usize = group.start + 1;
    while i < group.end
        invariant
            group.start < i <= group.end <= lines@.len(),
            all == text::texts(lines@),
            title@.len() > 0,
            row_from(all, group.start + 1, group.end as int, title@) == row_from(
                all,
                i as int,
                group.end as int,
                title@,
            ),
        decreases group.end - i,
    {
        assert(all[i as int] == lines[i as int]@);
        match parse_task_line(lines[i].as_str()) {
            Some((_, found)) => {
                if same_string(found.as_str(), title) {
                    return Some(i);
                }
            },
            None => {},
        }
        i += 1;
    }
    None
}

/// Removing rows makes the lines no more.
proof fn lemma_kept_lines(lines: Seq<Seq<char>>, dropped: Seq<Seq<char>>)
    ensures
        kept_lines(lines, dropped).len() <= lines.len(),
        forall|i: int|
            0 <= i < kept_lines(lines, dropped).len() ==> lines.contains(
                #[trigger] kept_lines(lines, dropped)[i],
            ) && !is_dropped(kept_lines(lines, dropped)[i], dropped),
    decreases lines.len(),
{
    if lines.len() > 0 {
        let head = lines.drop_last();
        lemma_kept_lines(head, dropped);
        let k = kept_lines(lines, dropped);
        assert forall|i: int| 0 <= i < k.len() implies lines.contains(#[trigger] k[i])
            && !is_dropped(k[i], dropped) by {
            if i < kept_lines(head, dropped).len() {
                assert(k[i] == kept_lines(head, dropped)[i]);
                let j = choose|j: int| 0 <= j < head.len() && head[j] == k[i];
                assert(lines[j] == k[i]);
            } else {
                assert(lines[lines.len() - 1] == k[i]);
            }
        }
    }
}

proof fn lemma_without_rows(lines: Seq<Seq<char>>, name: Seq<char>, dropped: Seq<Seq<char>>)
    ensures
        without_rows(lines, name, dropped).len() <= lines.len(),
{
    lemma_group_range(lines, name);
    match group_range(lines, name) {
        Some((start, end)) => {
            lemma_kept_lines(lines.subrange(start + 1, end), dropped);
        },
        None => {},
    }
}

proof fn lemma_row_from(lines: Seq<Seq<char>>, i: int, end: int, title: Seq<char>)
    requires
        0 <= i <= end <= lines.len(),
    ensures
        i <= row_from(lines, i, end, title) <= end,
        row_from(lines, i, end, title) < end ==> has_title(
            lines[row_from(lines, i, end, title)],
            title,
        ),
        forall|j: int|
            i <= j < row_from(lines, i, end, title) ==> !has_title(#[trigger] lines[j], title),
    decreases end - i,
{
    if i < end && !has_title(lines[i], title) {
        lemma_row_from(lines, i + 1, end, title);
    }
}

/// Whether a line is a task with a title.
pub open spec fn has_title(l: Seq<char>, title: Seq<char>) -> bool {
    line::task_of(l) is Some && (line::task_of(l)->0).1 == title
}

/// The row of a task is the first in the group that has its title.
pub proof fn lemma_row_of(lines: Seq<Seq<char>>, start: int, end: int, title: Seq<char>)
    requires
        0 <= start < end <= lines.len(),
    ensures
        match row_of(lines, start, end, title) {
            Some(at) => {
                &&& start < at < end
                &&& title.len() > 0
                &&& has_title(lines[at], title)
                &&& forall|j: int| start < j < at ==> !has_title(#[trigger] lines[j], title)
            },
            None => title.len() > 0 ==> forall|j: int|
                start < j < end ==> !has_title(#[trigger] lines[j], title),
        },
{
    lemma_row_from(lines, start + 1, end, title);
}

/// Setting marks keeps the number of lines.
proof fn lemma_marked_len(
    lines: Seq<Seq<char>>,
    start: int,
    end: int,
    wanted: Seq<WantedView>,
)
    requires
        0 <= start < end <= lines.len(),
    ensures
        marked(lines, start, end, wanted).len() == lines.len(),
        marks_changed(lines, start, end, wanted) <= wanted.len(),
        new_rows(lines, start, end, wanted).len() <= wanted.len(),
    decreases wanted.len(),
{
    if wanted.len() > 0 {
        lemma_marked_len(lines, start, end, wanted.drop_last());
        lemma_row_of(lines, start, end, wanted.last().1);
    }
}

/// Without a group no task has a row.
proof fn lemma_new_rows_step(
    lines: Seq<Seq<char>>,
    start: int,
    end: int,
    wanted: Seq<WantedView>,
    k: int,
)
    requires
        0 <= k < wanted.len(),
    ensures
        ({
            let before = wanted.take(k);
            let w = wanted[k];
            &&& wanted.take(k + 1).drop_last() == before
            &&& wanted.take(k + 1).last() == w
        }),
{
}

/// Brings a group of a task list up to date with the tasks of a project. Returns the new
/// lines and how many rows were added, marked anew and removed.
pub fn upsert_todo_group(
    lines: &[String],
    project_name: &str,
    tasks: &[(TaskStatus, String, bool)],
    dropped: &[String],
) -> (r: (Vec<String>, usize, usize, usize))
    ensures
        upserted(
            text::texts(lines@),
            project_name@,
            wanted_views(tasks@),
            text::texts(dropped@),
        ) == (Upsert {
            lines: text::texts(r.0@),
            added: r.1 as nat,
            updated: r.2 as nat,
            removed: r.3 as nat,
        }),
{
    let ghost all = text::texts(lines@);
    let ghost wanted = wanted_views(tasks@);
    let ghost names = text::texts(dropped@);
    proof {
        lemma_without_rows(all, project_name@, names);
    }
    let rest: Vec<String> = match find_todo_group(lines, project_name) {
        Some(group) => drop_rows(lines, &group, dropped),
        None => copy_list(lines),
    };
    let ghost base = text::texts(rest@);
    assert(base == without_rows(all, project_name@, names));
    assert(rest@.len() == base.len() && lines@.len() == all.len());
    let removed: usize = lines.len() - rest.len();
    match find_todo_group(&rest, project_name) {
        Some(group) => {
            let (out, added, updated) = upsert_rows(&rest, &group, tasks);
            (out, added, updated, removed)
        },
        None => {
            let (out, added) = append_group(rest, project_name, tasks);
            (out, added, 0, removed)
        },
    }
}

/// Copies a list of strings.
pub(crate) fn copy_list(list: &[String]) -> (r: Vec<String>)
    ensures
        text::texts(r@) == text::texts(list@),
{
    let ghost all = text::texts(list@);
    let mut out: Vec<String> = Vec::new();
    let mut i: usize = 0;
    assert(all.take(0) == Seq::<Seq<char>>::empty());
    while i < list.len()
        invariant
            i <= list.len(),
            all == text::texts(list@),
            text::texts(out@) == all.take(i as int),
        decreases list.len() - i,
    {
        let ghost done = out@;
        let l: String = list[i].clone();
        out.push(l);
        assert(text::texts(out@) == text::texts(done).push(l@));
        assert(all.take(i + 1) == all.take(i as int).push(l@));
        i += 1;
    }
    assert(all.take(i as int) == all);
    out
}

/// Adds a group with the tasks that may be added to the end of a body.
fn append_group(rest: Vec<String>, name: &str, tasks: &[(TaskStatus, String, bool)]) -> (r: (
    Vec<String>,
    usize,
))
    ensures
        ({
            let base = text::texts(rest@);
            let rows = new_rows(base, 0, 0, wanted_views(tasks@));
            let body = base.take(solid_end(base, 0, base.len() as int));
            &&& r.1 == rows.len()
            &&& text::texts(r.0@) == if rows.len() == 0 {
                base
            } else {
                body.push(group_line(name@)) + rows
            }
        }),
{
    let ghost base = text::texts(rest@);
    let ghost wanted = wanted_views(tasks@);
    let mut rows: Vec<String> = Vec::new();
    let mut k: usize = 0;
    assert(new_rows(base, 0, 0, wanted.take(0)) == Seq::<Seq<char>>::empty());
    while k < tasks.len()
        invariant
            k <= tasks.len(),
            wanted == wanted_views(tasks@),
            text::texts(rows@) == new_rows(base, 0, 0, wanted.take(k as int)),
        decreases tasks.len() - k,
    {
        proof {
            lemma_new_rows_step(base, 0, 0, wanted, k as int);
        }
        assert(wanted[k as int] == (tasks[k as int].0, tasks[k as int].1@, tasks[k as int].2));
        assert(row_of(base, 0, 0, wanted[k as int].1) is None);
        if tasks[k].2 {
            let ghost done = rows@;
            let row: String = format_task_line(tasks[k].0, tasks[k].1.as_str());
            rows.push(row);
            assert(text::texts(rows@) == text::texts(done).push(row@));
        }
        k += 1;
    }
    assert(wanted.take(k as int) == wanted);
    assert(rows@.len() == new_rows(base, 0, 0, wanted).len());
    let added: usize = rows.len();
    if added == 0 {
        return (rest, 0);
    }
    let mut out: Vec<String> = rest;
    assert(base.take(base.len() as int) == base);
    while out.len() > 0 && blank(out[out.len() - 1].as_str())
        invariant
            out@.len() <= base.len(),
            text::texts(out@) == base.take(out@.len() as int),
            solid_end(base, 0, base.len() as int) == solid_end(base, 0, out@.len() as int),
        decreases out@.len(),
    {
        assert(text::texts(out@)[out@.len() - 1] == base[out@.len() - 1]);
        let ghost before = out@;
        let _ = out.pop();
        assert(text::texts(out@) == text::texts(before).drop_last());
    }
    assert(out@.len() > 0 ==> text::texts(out@)[out@.len() - 1] == base[out@.len() - 1]);
    let ghost body = text::texts(out@);
    let head: String = format_group_line(name);
    let ghost before = out@;
    out.push(head);
    assert(text::texts(out@) == text::texts(before).push(head@));
    let ghost front = text::texts(out@);
    let ghost new = text::texts(rows@);
    let mut i: usize = 0;
    assert(front + new.take(0) == front);
    while i < rows.len()
        invariant
            i <= rows.len(),
            new == text::texts(rows@),
            text::texts(out@) == front + new.take(i as int),
        decreases rows.len() - i,
    {
        let ghost done = out@;
        let l: String = rows[i].clone();
        out.push(l);
        assert(text::texts(out@) == text::texts(done).push(l@));
        assert(new.take(i + 1) == new.take(i as int).push(l@));
        assert(front + new.take(i as int).push(l@) == (front + new.take(i as int)).push(l@));
        i += 1;
    }
    assert(new.take(i as int) == new);
    (out, added)
}

/// Sets the marks of the rows of a group and adds the missing rows behind it.
fn upsert_rows(rest: &Vec<String>, group: &TodoGroup, tasks: &[(TaskStatus, String, bool)]) -> (r: (
    Vec<String>,
    usize,
    usize,
))
    requires
        group.start < group.end <= rest@.len(),
    ensures
        ({
            let base = text::texts(rest@);
            let wanted = wanted_views(tasks@);
            let rows = new_rows(base, group.start as int, group.end as int, wanted);
            let done = marked(base, group.start as int, group.end as int, wanted);
            &&& text::texts(r.0@) == done.take(group.end as int) + rows + done.skip(
                group.end as int,
            )
            &&& r.1 == rows.len()
            &&& r.2 == marks_changed(base, group.start as int, group.end as int, wanted)
        }),
{
    let ghost base = text::texts(rest@);
    let ghost wanted = wanted_views(tasks@);
    let ghost s = group.start as int;
    let ghost e = group.end as int;
    let mut done: Vec<String> = copy_list(rest);
    let mut rows: Vec<String> = Vec::new();
    let mut updated: usize = 0;
    let mut k: usize = 0;
    assert(text::texts(done@).len() == done@.len() && base.len() == rest@.len());
    assert(wanted.take(0).len() == 0);
    assert(new_rows(base, s, e, wanted.take(0)) == Seq::<Seq<char>>::empty());
    while k < tasks.len()
        invariant
            k <= tasks.len(),
            group.start < group.end <= rest@.len(),
            base == text::texts(rest@),
            s == group.start,
            e == group.end,
            wanted == wanted_views(tasks@),
            done@.len() == rest@.len(),
            text::texts(done@) == marked(base, s, e, wanted.take(k as int)),
            text::texts(rows@) == new_rows(base, s, e, wanted.take(k as int)),
            updated == marks_changed(base, s, e, wanted.take(k as int)),
            updated <= k,
        decreases tasks.len() - k,
    {
        proof {
            lemma_new_rows_step(base, s, e, wanted, k as int);
            lemma_marked_len(base, s, e, wanted.take(k as int));
        }
        let status: TaskStatus = tasks[k].0;
        let title: &str = tasks[k].1.as_str();
        assert(wanted[k as int] == (status, title@, tasks[k as int].2));
        match find_row(rest, group, title) {
            Some(at) => {
                let mut chars: Vec<char> = chars_of(done[at].as_str());
                let ghost old_line = chars@;
                assert(text::texts(done@)[at as int] == old_line);
                let _ = set_marker(&mut chars, status);
                let new_line: String = text_of(&chars);
                if !same_string(new_line.as_str(), done[at].as_str()) {
                    updated += 1;
                }
                let ghost before = done@;
                done.set(at, new_line);
                assert(text::texts(done@) == text::texts(before).update(at as int, new_line@));
            },
            None => {
                if tasks[k].2 {
                    let ghost before = rows@;
                    let row: String = format_task_line(status, title);
                    rows.push(row);
                    assert(text::texts(rows@) == text::texts(before).push(row@));
                }
            },
        }
        k += 1;
    }
    assert(wanted.take(k as int) == wanted);
    let ghost all = text::texts(done@);
    let ghost new = text::texts(rows@);
    let added: usize = rows.len();
    let mut out: Vec<String> = Vec::new();
    push_range(&mut out, &done, 0, group.end);
    push_range(&mut out, &rows, 0, rows.len());
    push_range(&mut out, &done, group.end, done.len());
    assert(all.subrange(0, e) == all.take(e));
    assert(new.subrange(0, new.len() as int) == new);
    assert(all.subrange(e, all.len() as int) == all.skip(e));
    assert(text::texts(out@) == all.take(e) + new + all.skip(e));
    (out, added, updated)
}

/// The string of characters.
fn text_of(chars: &Vec<char>) -> (r: String)
    ensures
        r@ == chars@,
{
    crate::text::string_of(chars.as_slice())
}

/// Copies strings from `from` up to `to` behind a list.
fn push_range(out: &mut Vec<String>, list: &Vec<String>, from: usize, to: usize)
    requires
        from <= to <= list@.len(),
    ensures
        text::texts(final(out)@) == text::texts(old(out)@) + text::texts(list@).subrange(
            from as int,
            to as int,
        ),
{
    let ghost front = text::texts(out@);
    let ghost all = text::texts(list@);
    let mut i: usize = from;
    assert(front + all.subrange(from as int, from as int) == front);
    while i < to
        invariant
            from <= i <= to <= list@.len(),
            all == text::texts(list@),
            text::texts(out@) == front + all.subrange(from as int, i as int),
        decreases to - i,
    {
        let ghost done = out@;
        let l: String = list[i].clone();
        out.push(l);
        assert(text::texts(out@) == text::texts(done).push(l@));
        assert(all.subrange(from as int, i + 1) == all.subrange(from as int, i as int).push(l@));
        i += 1;
    }
}

} // verus!
