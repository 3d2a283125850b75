//! What the screen can show and be told.

use vstd::prelude::*;
use vstd::slice::slice_subrange;
use vstd::view::View as _;

use crate::config;
use crate::text;
use crate::text::{chars_of, find_char, string_of};

verus! {

/// The four screens.
#[derive(Debug, Clone, Copy, PartialEq, Eq, Structural)]
pub enum View {
    Notes,
    Todo,
    Projects,
    Search,
}

impl View {
    /// The screens in their order.
    pub const ALL: [View; 4] = [View::Notes, View::Todo, View::Projects, View::Search];

    /// The place in the order of screens.
    pub open spec fn place(self) -> int {
        match self {
            View::Notes => 0,
            View::Todo => 1,
            View::Projects => 2,
            View::Search => 3,
        }
    }

    /// The screen at a place in the order.
    pub open spec fn at(i: int) -> View {
        if i == 0 {
            View::Notes
        } else if i == 1 {
            View::Todo
        } else if i == 2 {
            View::Projects
        } else {
            View::Search
        }
    }

    /// The name on the tab.
    pub open spec fn tab(self) -> Seq<char> {
        match self {
            View::Notes => "1 ノート"@,
            View::Todo => "2 ToDo"@,
            View::Projects => "3 プロジェクト"@,
            View::Search => "4 検索"@,
        }
    }

    /// The name on the tab.
    pub fn title(self) -> (r: &'static str)
        ensures
            r@ == self.tab(),
    {
        match self {
            View::Notes => "1 ノート",
            View::Todo => "2 ToDo",
            View::Projects => "3 プロジェクト",
            View::Search => "4 検索",
        }
    }
}

/// How keys are taken.
#[derive(Debug, Clone, Copy, PartialEq, Eq, Structural)]
pub enum Mode {
    Normal,
    /// A query is being typed.
    Search,
    /// A question waits for yes or no.
    Confirm,
    Help,
}

/// What waits for yes or no.
#[derive(Debug, Clone, Copy, PartialEq, Eq, Structural)]
pub enum Confirm {
    DeleteEntry { note_idx: usize, entry_idx: usize },
}

impl Confirm {
    /// The question.
    pub fn question(&self) -> (r: String)
        ensures
            r@ == "このエントリを削除しますか？ y / n"@,
    {
        match self {
            Confirm::DeleteEntry { .. } => "このエントリを削除しますか？ y / n".to_owned(),
        }
    }
}

/// The order of the task list.
#[derive(Debug, Clone, Copy, PartialEq, Eq, Structural)]
pub enum TodoSort {
    Date,
    Status,
    Project,
}

impl TodoSort {
    /// The name of the order.
    pub open spec fn name(self) -> Seq<char> {
        match self {
            TodoSort::Date => "日付順"@,
            TodoSort::Status => "状態順"@,
            TodoSort::Project => "プロジェクト順"@,
        }
    }

    /// The order that follows in the cycle.
    pub open spec fn after(self) -> TodoSort {
        match self {
            TodoSort::Date => TodoSort::Status,
            TodoSort::Status => TodoSort::Project,
            TodoSort::Project => TodoSort::Date,
        }
    }

    /// The name of the order.
    pub fn label(self) -> (r: &'static str)
        ensures
            r@ == self.name(),
    {
        match self {
            TodoSort::Date => "日付順",
            TodoSort::Status => "状態順",
            TodoSort::Project => "プロジェクト順",
        }
    }

    /// The order after this one; the three follow each other in a circle.
    pub fn next(self) -> (r: TodoSort)
        ensures
            r == self.after(),
            r.after().after() == self,
    {
        match self {
            TodoSort::Date => TodoSort::Status,
            TodoSort::Status => TodoSort::Project,
            TodoSort::Project => TodoSort::Date,
        }
    }
}

/// The part of a screen that keys act on, from left to right.
#[derive(Debug, Clone, Copy, PartialEq, Eq, Structural)]
pub enum Focus {
    List,
    /// The entries of a note; only the notes have this part.
    Entries,
    Detail,
}

/// A move of a cursor.
#[derive(Debug, Clone, Copy, PartialEq, Eq, Structural)]
pub enum Move {
    Up,
    Down,
    PageUp,
    PageDown,
    /// Half a page up.
    HalfUp,
    /// Half a page down.
    HalfDown,
    Top,
    Bottom,
}

/// What the screen can be told.
#[derive(Debug, Clone, Copy, PartialEq, Eq, Structural)]
pub enum Msg {
    Quit,
    SwitchView(View),
    NextView,
    PrevView,
    Move(Move),
    /// The focus goes one to the right and stops there.
    FocusRight,
    /// The focus goes one to the left and stops there.
    FocusLeft,
    /// The focus goes one to the right and from there to the left end.
    FocusCycle,
    /// The same as `FocusCycle`, as the keys of two-part screens send it.
    ToggleFocus,
    /// The state of a task goes one step on.
    CycleTodo,
    Reload,
    ToggleAllNotes,
    ToggleArchived,
    CycleTodoSort,
    ToggleTodoFilter,
    EditEntry,
    NewEntry,
    TodayTodo,
    NewProject,
    /// The project goes down or up the list.
    MoveProject(i32),
    ToggleArchiveProject,
    CopyTodo,
    DeleteEntry,
    ConfirmYes,
    ConfirmNo,
    SearchStart,
    SearchInput(char),
    SearchBackspace,
    SearchClear,
    SearchCommit,
    SearchCancel,
    ToggleHelp,
    DismissStatus,
}

/// A row of the task list: the name of a project, or a task by its place in the list.
#[derive(Debug)]
pub enum TodoRow {
    Group(String),
    Task(usize),
}

/// What a row of the task list holds.
pub enum RowKind {
    Group(Seq<char>),
    Task(int),
}

impl vstd::view::View for TodoRow {
    type V = RowKind;

    open spec fn view(&self) -> RowKind {
        match *self {
            TodoRow::Group(s) => RowKind::Group(s@),
            TodoRow::Task(i) => RowKind::Task(i as int),
        }
    }
}

/// What the rows of the task list hold.
pub open spec fn row_kinds(v: Seq<TodoRow>) -> Seq<RowKind> {
    v.map_values(|r: TodoRow| r@)
}

/// What a line of a body is.
#[derive(Debug, Clone, Copy, PartialEq, Eq, Structural)]
pub enum LineKind {
    Heading,
    ListItem,
    Quote,
    Code,
    Body,
}

/// A line of the body that is shown.
#[derive(Debug)]
pub struct DetailLine {
    pub text: String,
    pub kind: LineKind,
    /// The line of the file, where it is a task.
    pub task_line: Option<usize>,
}

/// What a line of the body that is shown holds.
#[verifier::ext_equal]
pub struct DetailView {
    pub text: Seq<char>,
    pub kind: LineKind,
    pub task_line: Option<int>,
}

impl vstd::view::View for DetailLine {
    type V = DetailView;

    open spec fn view(&self) -> DetailView {
        DetailView {
            text: self.text@,
            kind: self.kind,
            task_line: match self.task_line {
                Some(l) => Some(l as int),
                None => None,
            },
        }
    }
}

/// What the lines of the body that is shown hold.
pub open spec fn detail_views(v: Seq<DetailLine>) -> Seq<DetailView> {
    v.map_values(|l: DetailLine| l@)
}

/// The heading of an entry in the list of entries.
#[derive(Debug)]
pub struct EntrySummary {
    pub time: Option<String>,
    pub title: String,
    pub tags: Vec<String>,
    pub todo: bool,
}

/// What the heading of an entry holds.
#[verifier::ext_equal]
pub struct SummaryView {
    pub time: Option<Seq<char>>,
    pub title: Seq<char>,
    pub tags: Seq<Seq<char>>,
    pub todo: bool,
}

impl vstd::view::View for EntrySummary {
    type V = SummaryView;

    open spec fn view(&self) -> SummaryView {
        SummaryView {
            time: config::opt(self.time),
            title: self.title@,
            tags: text::texts(self.tags@),
            todo: self.todo,
        }
    }
}

/// What the headings of entries hold.
pub open spec fn summary_views(v: Seq<EntrySummary>) -> Seq<SummaryView> {
    v.map_values(|s: EntrySummary| s@)
}

/// An entry that a query was found in.
#[derive(Debug)]
pub struct SearchHit {
    pub note_idx: usize,
    pub entry_idx: usize,
    pub date: String,
    pub preview: String,
}

/// What a hit holds.
#[verifier::ext_equal]
pub struct HitView {
    pub note_idx: int,
    pub entry_idx: int,
    pub date: Seq<char>,
    pub preview: Seq<char>,
}

impl vstd::view::View for SearchHit {
    type V = HitView;

    open spec fn view(&self) -> HitView {
        HitView {
            note_idx: self.note_idx as int,
            entry_idx: self.entry_idx as int,
            date: self.date@,
            preview: self.preview@,
        }
    }
}

/// What hits hold.
pub open spec fn hit_views(v: Seq<SearchHit>) -> Seq<HitView> {
    v.map_values(|h: SearchHit| h@)
}

// ----------------------------------------------------------------------- moves

/// The lesser of two numbers.
pub open spec fn least(a: int, b: int) -> int {
    if a < b {
        a
    } else {
        b
    }
}

/// The difference of two numbers, or 0.
pub open spec fn less(a: int, b: int) -> int {
    if a < b {
        0
    } else {
        a - b
    }
}

/// Half of a page, at least one line.
pub open spec fn half_page(page: int) -> int {
    if page < 2 {
        1
    } else {
        page / 2
    }
}

/// The place of a cursor after a move. A page has at least one line.
pub open spec fn moved(current: int, m: Move, max: int, page: int) -> int {
    let p = if page < 1 {
        1
    } else {
        page
    };
    match m {
        Move::Up => less(current, 1),
        Move::Down => least(current + 1, max),
        Move::PageUp => less(current, p),
        Move::PageDown => least(current + p, max),
        Move::HalfUp => less(current, half_page(p)),
        Move::HalfDown => least(current + half_page(p), max),
        Move::Top => 0,
        Move::Bottom => max,
    }
}

/// Moves a cursor. It does not go beyond 0 and `max`.
pub fn shift(current: usize, m: Move, max: usize, page: usize) -> (r: usize)
    ensures
        r == moved(current as int, m, max as int, page as int),
        current <= max ==> r <= max,
{
    let page: usize = if page < 1 {
        1
    } else {
        page
    };
    let half: usize = if page < 2 {
        1
    } else {
        page / 2
    };
    match m {
        Move::Up => back(current, 1),
        Move::Down => ahead(current, 1, max),
        Move::PageUp => back(current, page),
        Move::PageDown => ahead(current, page, max),
        Move::HalfUp => back(current, half),
        Move::HalfDown => ahead(current, half, max),
        Move::Top => 0,
        Move::Bottom => max,
    }
}

/// A place before another one, but not before 0.
fn back(current: usize, by: usize) -> (r: usize)
    ensures
        r == less(current as int, by as int),
{
    if current < by {
        0
    } else {
        current - by
    }
}

/// A place behind another one, but not behind `max`.
fn ahead(current: usize, by: usize, max: usize) -> (r: usize)
    ensures
        r == least(current + by, max as int),
{
    if current >= max || by >= max - current {
        max
    } else {
        current + by
    }
}

/// A place that lies in a list, or 0 where the list is empty.
pub open spec fn clamped(sel: int, len: int) -> int {
    if len == 0 {
        0
    } else if sel >= len {
        len - 1
    } else {
        sel
    }
}

/// Puts a place into a list.
pub fn clamp(sel: &mut usize, len: usize)
    ensures
        *final(sel) == clamped(*old(sel) as int, len as int),
        len > 0 ==> *final(sel) < len,
{
    if len == 0 {
        *sel = 0;
    } else if *sel >= len {
        *sel = len - 1;
    }
}

/// The time in the moment that an entry names: what stands behind the first space.
pub open spec fn time_of(created: Seq<char>) -> Option<Seq<char>> {
    let at = text::first_index(created, ' ') as int;
    if at < created.len() {
        Some(created.skip(at + 1))
    } else {
        None
    }
}

/// The time in the moment that an entry names.
pub fn short_time(created: &str) -> (r: Option<String>)
    ensures
        config::opt(r) == time_of(created@),
{
    let v: Vec<char> = chars_of(created);
    proof {
        text::lemma_first_index(v@, ' ');
    }
    match find_char(v.as_slice(), ' ') {
        Some(at) => {
            let count: usize = v.len();
            assert(at < count);
            let tail = slice_subrange(v.as_slice(), at + 1, count);
            assert(tail@ == v@.skip(at + 1));
            Some(string_of(tail))
        },
        None => None,
    }
}

} // verus!
