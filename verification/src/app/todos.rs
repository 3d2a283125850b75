//! The task list: which tasks of which day are shown, and in what order.

use vstd::prelude::*;

use crate::app::types;
use crate::app::types::{RowKind, TodoRow, TodoSort};
use crate::calendar;
use crate::calendar::parse_date;
use crate::model::note;
use crate::model::note::{DailyNote, NoteView, TodoItem, TodoView};
use crate::model::project;
use crate::model::project::push_check_row;
use crate::model::status::TaskStatus;
use crate::model::todo;
use crate::model::todo::todo_heading;
use crate::sort;
use crate::sort::{key_of, stable_order};
use crate::text;
use crate::text::{join, list_has, same_string};

verus! {

/// A task with the place of its note.
pub type Placed = (usize, TodoItem);

/// What a task with the place of its note holds.
pub type PlacedView = (int, TodoView);

/// What a task with the place of its note holds.
pub open spec fn placed_view(p: Placed) -> PlacedView {
    (p.0 as int, p.1@)
}

/// What tasks with the places of their notes hold.
pub open spec fn placed_views(v: Seq<Placed>) -> Seq<PlacedView> {
    v.map_values(|p: Placed| placed_view(p))
}

/// What references to tasks with the places of their notes hold.
pub open spec fn placed_refs(v: Seq<&Placed>) -> Seq<PlacedView> {
    v.map_values(|p: &Placed| placed_view(*p))
}

// ------------------------------------------------------------------------- all

/// The tasks of one note with its place.
pub open spec fn placed_at(items: Seq<TodoView>, idx: int) -> Seq<PlacedView> {
    items.map_values(|t: TodoView| (idx, t))
}

/// The tasks of all notes, note by note.
pub open spec fn all_todos(notes: Seq<NoteView>) -> Seq<PlacedView>
    decreases notes.len(),
{
    if notes.len() == 0 {
        Seq::empty()
    } else {
        all_todos(notes.drop_last()) + placed_at(notes.last().tasks(), notes.len() - 1)
    }
}

/// Collects the tasks of all notes.
pub fn collect_todos(notes: &Vec<DailyNote>) -> (r: Vec<Placed>)
    requires
        forall|i: int| 0 <= i < notes@.len() ==> (#[trigger] notes@[i])@.fits(),
    ensures
        placed_views(r@) == all_todos(note::note_views(notes@)),
{
    let ghost all = note::note_views(notes@);
    let mut out: Vec<Placed> = Vec::new();
    let mut i: usize = 0;
    assert(placed_views(out@) == Seq::<PlacedView>::empty());
    while i < notes.len()
        invariant
            i <= notes.len(),
            all == note::note_views(notes@),
            forall|k: int| 0 <= k < notes@.len() ==> (#[trigger] notes@[k])@.fits(),
            placed_views(out@) == all_todos(all.take(i as int)),
        decreases notes.len() - i,
    {
        assert(all.take(i + 1).drop_last() == all.take(i as int));
        assert(all[i as int] == notes@[i as int]@);
        let items: Vec<TodoItem> = notes[i].todo_items();
        let ghost views = note::todo_views(items@);
        let ghost before = placed_views(out@);
        assert(before + placed_at(views.take(0), i as int) == before);
        let mut k: usize = 0;
        while k < items.len()
            invariant
                k <= items.len(),
                views == note::todo_views(items@),
                placed_views(out@) == before + placed_at(views.take(k as int), i as int),
            decreases items.len() - k,
        {
            let ghost done = out@;
            let t: TodoItem = items[k].clone();
            out.push((i, t));
            assert(placed_views(out@) =~= placed_views(done).push((i as int, t@)));
            assert(views[k as int] == t@);
            assert(placed_at(views.take(k + 1), i as int) =~= placed_at(
                views.take(k as int),
                i as int,
            ).push((i as int, t@)));
            k += 1;
        }
        assert(views.take(k as int) == views);
        i += 1;
    }
    assert(all.take(i as int) == all);
    out
}

// --------------------------------------------------------------------- selection

/// The tasks that are shown: all, or those that are not done.
pub open spec fn unfinished(todos: Seq<PlacedView>, open_only: bool) -> Seq<PlacedView>
    decreases todos.len(),
{
    if todos.len() == 0 {
        Seq::empty()
    } else {
        let before = unfinished(todos.drop_last(), open_only);
        if !open_only || todos.last().1.status !is Done {
            before.push(todos.last())
        } else {
            before
        }
    }
}

/// The days of tasks, each once, in the order in which they come.
pub open spec fn days(todos: Seq<PlacedView>) -> Seq<Seq<char>>
    decreases todos.len(),
{
    if todos.len() == 0 {
        Seq::empty()
    } else {
        let before = days(todos.drop_last());
        if before.contains(todos.last().1.date) {
            before
        } else {
            before.push(todos.last().1.date)
        }
    }
}

/// The first items of a list, up to a limit; 0 for no limit.
pub open spec fn limited<T>(s: Seq<T>, limit: int) -> Seq<T> {
    if 0 < limit < s.len() {
        s.take(limit)
    } else {
        s
    }
}

/// The tasks of a day.
pub open spec fn of_day(todos: Seq<PlacedView>, day: Seq<char>) -> Seq<PlacedView>
    decreases todos.len(),
{
    if todos.len() == 0 {
        Seq::empty()
    } else {
        let before = of_day(todos.drop_last(), day);
        if todos.last().1.date == day {
            before.push(todos.last())
        } else {
            before
        }
    }
}

/// The key by which a task is sorted.
pub open spec fn todo_key(t: TodoView, by: TodoSort) -> Seq<u64> {
    match by {
        TodoSort::Date => Seq::empty(),
        TodoSort::Status => seq![t.status.rank() as u64],
        TodoSort::Project => sort::text_key(t.group),
    }
}

/// The tasks in an order; tasks that are equal in it stay as they were.
pub open spec fn arranged(todos: Seq<PlacedView>, by: TodoSort) -> Seq<PlacedView> {
    if by is Date {
        todos
    } else {
        sort::picked(todos, sort::order_of(todos.map_values(|p: PlacedView| todo_key(p.1, by))))
    }
}

/// The tasks that are shown: all, or those that are not done.
pub fn filter_todos(todos: &Vec<Placed>, open_only: bool) -> (r: Vec<&Placed>)
    ensures
        placed_refs(r@) == unfinished(placed_views(todos@), open_only),
{
    let ghost all = placed_views(todos@);
    let mut out: Vec<&Placed> = Vec::new();
    let mut i: usize = 0;
    assert(placed_refs(out@) == Seq::<PlacedView>::empty());
    while i < todos.len()
        invariant
            i <= todos.len(),
            all == placed_views(todos@),
            placed_refs(out@) == unfinished(all.take(i as int), open_only),
        decreases todos.len() - i,
    {
        let p: &Placed = &todos[i];
        assert(all[i as int] == placed_view(*p));
        assert(all.take(i + 1).drop_last() == all.take(i as int));
        if !open_only || p.1.status != TaskStatus::Done {
            let ghost done = out@;
            out.push(p);
            assert(placed_refs(out@) =~= placed_refs(done).push(placed_view(*p)));
        }
        i += 1;
    }
    assert(all.take(i as int) == all);
    out
}

/// The days of tasks, each once.
pub fn days_of(todos: &Vec<&Placed>) -> (r: Vec<String>)
    ensures
        text::texts(r@) == days(placed_refs(todos@)),
{
    let ghost all = placed_refs(todos@);
    let mut out: Vec<String> = Vec::new();
    let mut i: usize = 0;
    assert(text::texts(out@) == Seq::<Seq<char>>::empty());
    while i < todos.len()
        invariant
            i <= todos.len(),
            all == placed_refs(todos@),
            text::texts(out@) == days(all.take(i as int)),
        decreases todos.len() - i,
    {
        let p: &Placed = todos[i];
        assert(all[i as int] == placed_view(*p));
        assert(all.take(i + 1).drop_last() == all.take(i as int));
        if !list_has(&out, p.1.date.as_str()) {
            let ghost done = out@;
            let d: String = p.1.date.clone();
            out.push(d);
            assert(text::texts(out@) =~= text::texts(done).push(d@));
        }
        i += 1;
    }
    assert(all.take(i as int) == all);
    out
}

/// Shortens a list to a limit; 0 for no limit.
pub fn limit_list(list: Vec<String>, limit: usize) -> (r: Vec<String>)
    ensures
        text::texts(r@) == limited(text::texts(list@), limit as int),
{
    let mut out: Vec<String> = list;
    assert(out@.len() == text::texts(out@).len());
    if 0 < limit && limit < out.len() {
        let ghost before = out@;
        out.truncate(limit);
        assert(text::texts(out@) =~= text::texts(before).take(limit as int));
    }
    out
}

/// The tasks of a day.
pub fn todos_of_day<'a>(todos: &Vec<&'a Placed>, day: &str) -> (r: Vec<&'a Placed>)
    ensures
        placed_refs(r@) == of_day(placed_refs(todos@), day@),
{
    let ghost all = placed_refs(todos@);
    let mut out: Vec<&'a Placed> = Vec::new();
    let mut i: usize = 0;
    assert(placed_refs(out@) == Seq::<PlacedView>::empty());
    while i < todos.len()
        invariant
            i <= todos.len(),
            all == placed_refs(todos@),
            placed_refs(out@) == of_day(all.take(i as int), day@),
        decreases todos.len() - i,
    {
        let p: &'a Placed = todos[i];
        assert(all[i as int] == placed_view(*p));
        assert(all.take(i + 1).drop_last() == all.take(i as int));
        if same_string(p.1.date.as_str(), day) {
            let ghost done = out@;
            out.push(p);
            assert(placed_refs(out@) =~= placed_refs(done).push(placed_view(*p)));
        }
        i += 1;
    }
    assert(all.take(i as int) == all);
    out
}

/// The key by which a task is sorted.
fn key_of_todo(t: &TodoItem, by: TodoSort) -> (r: Vec<u64>)
    ensures
        r@ == todo_key(t@, by),
{
    match by {
        TodoSort::Date => Vec::new(),
        TodoSort::Status => {
            let mut key: Vec<u64> = Vec::new();
            let rank: u64 = match t.status {
                TaskStatus::Backlog => 0,
                TaskStatus::InProgress => 1,
                TaskStatus::Done => 2,
            };
            key.push(rank);
            assert(key@ =~= todo_key(t@, by));
            key
        },
        TodoSort::Project => key_of(t.group.as_str()),
    }
}

/// Puts tasks in an order.
pub fn arrange<'a>(todos: Vec<&'a Placed>, by: TodoSort) -> (r: Vec<&'a Placed>)
    ensures
        placed_refs(r@) == arranged(placed_refs(todos@), by),
{
    if by == TodoSort::Date {
        return todos;
    }
    let ghost all = placed_refs(todos@);
    let ghost wanted = all.map_values(|p: PlacedView| todo_key(p.1, by));
    let mut keys: Vec<Vec<u64>> = Vec::new();
    let mut i: usize = 0;
    while i < todos.len()
        invariant
            i <= todos.len(),
            all == placed_refs(todos@),
            wanted == all.map_values(|p: PlacedView| todo_key(p.1, by)),
            sort::key_views(keys@) == wanted.take(i as int),
        decreases todos.len() - i,
    {
        let ghost done = keys@;
        let key: Vec<u64> = key_of_todo(&todos[i].1, by);
        assert(all[i as int] == placed_view(*todos@[i as int]));
        assert(key@ == wanted[i as int]);
        keys.push(key);
        assert(sort::key_views(keys@) =~= sort::key_views(done).push(key@));
        assert(wanted.take(i + 1) =~= wanted.take(i as int).push(wanted[i as int]));
        i += 1;
    }
    assert(wanted.take(i as int) == wanted);
    assert(keys@.len() == sort::key_views(keys@).len());
    let order: Vec<usize> = stable_order(&keys);
    let ghost places = sort::positions(order@);
    let mut out: Vec<&'a Placed> = Vec::new();
    let mut k: usize = 0;
    while k < order.len()
        invariant
            k <= order.len(),
            all == placed_refs(todos@),
            order@.len() == todos@.len(),
            places == sort::positions(order@),
            forall|p: int| 0 <= p < order@.len() ==> #[trigger] order@[p] < todos@.len(),
            placed_refs(out@) == sort::picked(all, places.take(k as int)),
        decreases order.len() - k,
    {
        let ghost done = out@;
        let p: &'a Placed = todos[order[k]];
        out.push(p);
        assert(placed_refs(out@) =~= placed_refs(done).push(placed_view(*p)));
        assert(places.take(k + 1) =~= places.take(k as int).push(places[k as int]));
        assert(all[places[k as int]] == placed_view(*p));
        assert(sort::picked(all, places.take(k + 1)) =~= sort::picked(
            all,
            places.take(k as int),
        ).push(placed_view(*p)));
        k += 1;
    }
    assert(places.take(k as int) == places);
    out
}

// -------------------------------------------------------------------------- rows

/// The rows of tasks: where the project changes, its name comes first.
pub open spec fn rows_of(todos: Seq<PlacedView>) -> Seq<RowKind>
    decreases todos.len(),
{
    if todos.len() == 0 {
        Seq::empty()
    } else {
        let n = todos.len() - 1;
        let before = rows_of(todos.drop_last());
        let group = todos.last().1.group;
        if group.len() > 0 && (n == 0 || todos[n - 1].1.group != group) {
            before.push(RowKind::Group(group)).push(RowKind::Task(n))
        } else {
            before.push(RowKind::Task(n))
        }
    }
}

/// The rows of tasks.
pub fn rows(todos: &Vec<&Placed>) -> (r: Vec<TodoRow>)
    ensures
        types::row_kinds(r@) == rows_of(placed_refs(todos@)),
{
    let ghost all = placed_refs(todos@);
    let mut out: Vec<TodoRow> = Vec::new();
    let mut i: usize = 0;
    assert(types::row_kinds(out@) == Seq::<RowKind>::empty());
    while i < todos.len()
        invariant
            i <= todos.len(),
            all == placed_refs(todos@),
            types::row_kinds(out@) == rows_of(all.take(i as int)),
        decreases todos.len() - i,
    {
        let group: &String = &todos[i].1.group;
        assert(all[i as int] == placed_view(*todos@[i as int]));
        let ghost longer = all.take(i + 1);
        assert(longer.drop_last() == all.take(i as int));
        let new_group: bool = if group.as_str().is_empty() {
            false
        } else if i == 0 {
            true
        } else {
            assert(longer[i - 1] == placed_view(*todos@[i - 1]));
            !same_string(todos[i - 1].1.group.as_str(), group.as_str())
        };
        if new_group {
            let ghost done = out@;
            let head: TodoRow = TodoRow::Group(group.clone());
            out.push(head);
            assert(types::row_kinds(out@) =~= types::row_kinds(done).push(head@));
        }
        let ghost done = out@;
        out.push(TodoRow::Task(i));
        assert(types::row_kinds(out@) =~= types::row_kinds(done).push(RowKind::Task(i as int)));
        i += 1;
    }
    assert(all.take(i as int) == all);
    out
}

// ---------------------------------------------------------------------- markdown

/// The heading of a day, as a text names it.
pub open spec fn heading_of(day: Seq<char>) -> Seq<char> {
    match calendar::date_of(day) {
        Some(date) => todo::heading_text(date),
        None => "ToDo: "@ + day,
    }
}

/// A row of the task list in Markdown. A task below a project is indented.
pub open spec fn markdown_row(todos: Seq<PlacedView>, row: RowKind) -> Seq<char> {
    match row {
        RowKind::Group(name) => todo::group_line(name),
        RowKind::Task(at) => {
            let t = todos[at].1;
            if t.group.len() == 0 {
                project::check_row(t.status, t.title)
            } else {
                todo::task_line(t.status, t.title)
            }
        },
    }
}

/// The task list of a day in Markdown.
pub open spec fn markdown_of(day: Seq<char>, todos: Seq<PlacedView>) -> Seq<char> {
    text::joined(
        seq![seq!['#', ' '] + heading_of(day)] + rows_of(todos).map_values(
            |row: RowKind| markdown_row(todos, row),
        ),
        seq!['\n'],
    )
}

/// The places in the rows of tasks lie in the list.
pub proof fn lemma_rows_in_range(todos: Seq<PlacedView>)
    ensures
        forall|i: int|
            0 <= i < rows_of(todos).len() ==> (#[trigger] rows_of(todos)[i] matches RowKind::Task(
                at,
            ) ==> 0 <= at < todos.len()),
    decreases todos.len(),
{
    if todos.len() > 0 {
        lemma_rows_in_range(todos.drop_last());
        let before = rows_of(todos.drop_last());
        let all = rows_of(todos);
        assert forall|i: int| 0 <= i < all.len() implies (#[trigger] all[i] matches RowKind::Task(
            at,
        ) ==> 0 <= at < todos.len()) by {
            if i < before.len() {
                assert(all[i] == before[i]);
            }
        }
    }
}

/// Writes the task list of a day in Markdown.
pub fn markdown(day: &str, todos: &Vec<&Placed>) -> (r: String)
    ensures
        r@ == markdown_of(day@, placed_refs(todos@)),
{
    let ghost all = placed_refs(todos@);
    let mut head = String::new();
    head.push('#');
    head.push(' ');
    match parse_date(day) {
        Some(date) => {
            head.append(todo_heading(date).as_str());
        },
        None => {
            head.append("ToDo: ");
            head.append(day);
        },
    }
    assert(head@ =~= seq!['#', ' '] + heading_of(day@));
    let mut out: Vec<String> = Vec::new();
    out.push(head);
    let list: Vec<TodoRow> = rows(todos);
    let ghost kinds = types::row_kinds(list@);
    let ghost wanted = kinds.map_values(|row: RowKind| markdown_row(all, row));
    assert(text::texts(out@) =~= seq![head@] + wanted.take(0));
    proof {
        lemma_rows_in_range(all);
    }
    let mut i: usize = 0;
    while i < list.len()
        invariant
            i <= list.len(),
            all == placed_refs(todos@),
            kinds == types::row_kinds(list@),
            kinds == rows_of(all),
            wanted == kinds.map_values(|row: RowKind| markdown_row(all, row)),
            forall|k: int|
                0 <= k < rows_of(all).len() ==> (#[trigger] rows_of(all)[k] matches RowKind::Task(
                    at,
                ) ==> 0 <= at < all.len()),
            text::texts(out@) == seq![head@] + wanted.take(i as int),
        decreases list.len() - i,
    {
        let mut line = String::new();
        assert(kinds[i as int] == list@[i as int]@);
        assert(rows_of(all)[i as int] == list@[i as int]@);
        match &list[i] {
            TodoRow::Group(name) => {
                line.push('-');
                line.push(' ');
                line.append(name.as_str());
                assert(line@ =~= todo::group_line(name@));
            },
            TodoRow::Task(at) => {
                let at: usize = *at;
                let t: &TodoItem = &todos[at].1;
                assert(all[at as int] == placed_view(*todos@[at as int]));
                if !t.group.as_str().is_empty() {
                    line.push(' ');
                    line.push(' ');
                }
                push_check_row(&mut line, t.status, t.title.as_str());
                assert(line@ =~= markdown_row(all, RowKind::Task(at as int)));
            },
        }
        assert(line@ == wanted[i as int]);
        let ghost done = out@;
        out.push(line);
        assert(text::texts(out@) =~= text::texts(done).push(line@));
        assert(wanted.take(i + 1) =~= wanted.take(i as int).push(line@));
        assert(seq![head@] + wanted.take(i + 1) =~= (seq![head@] + wanted.take(i as int)).push(
            line@,
        ));
        i += 1;
    }
    assert(wanted.take(i as int) == wanted);
    proof {
        reveal_strlit("\n");
        assert("\n"@ == seq!['\n']);
    }
    join(&out, "\n")
}

} // verus!
