//! What the panes of the screen hold: their titles, their rows and the colors of these.

use vstd::prelude::*;
use vstd::view::View as _;

use crate::app::state::{App, AppView};
use crate::app::todos;
use crate::app::todos::{Placed, PlacedView};
use crate::app::types;
use crate::app::types::{
    DetailLine, DetailView, EntrySummary, Focus, HitView, LineKind, Mode, RowKind, SearchHit,
    SummaryView, TodoRow, View,
};
use crate::app::update::{concat, counted};
use crate::config::{Config, ConfigView};
use crate::keys::HELP;
use crate::model::note::{DailyNote, NoteView, TodoItem, TodoView};
use crate::model::project;
use crate::model::project::{Project, ProjectTask, ProjectView, TaskView};
use crate::model::status::TaskStatus;
use crate::number;
use crate::number::{number_text, push_number};
use crate::text;
use crate::text::{blank, chars_of, join};

verus! {

// ----------------------------------------------------------------------- styles

/// A color of the terminal.
#[derive(Debug, Clone, Copy, PartialEq, Eq, Structural)]
pub enum Color {
    Reset,
    Black,
    Cyan,
    DarkGray,
    Green,
    Yellow,
    Magenta,
    LightGreen,
}

/// What stands out.
pub const ACCENT: Color = Color::Cyan;

/// What stays behind.
pub const DIM: Color = Color::DarkGray;

/// What is done.
pub const DONE: Color = Color::Green;

/// What is in progress.
pub const PROGRESS: Color = Color::Yellow;

/// How a text is painted.
#[derive(Debug, Clone, Copy, PartialEq, Eq, Structural)]
pub struct Style {
    pub fg: Option<Color>,
    pub bg: Option<Color>,
    pub bold: bool,
    pub italic: bool,
    pub crossed_out: bool,
}

impl Style {
    /// Nothing is changed.
    pub open spec fn none() -> Style {
        Style { fg: None, bg: None, bold: false, italic: false, crossed_out: false }
    }

    /// The text has a color.
    pub open spec fn tinted(c: Color) -> Style {
        Style { fg: Some(c), ..Style::none() }
    }

    /// The text has a color and is bold.
    pub open spec fn strong(c: Color) -> Style {
        Style { fg: Some(c), bold: true, ..Style::none() }
    }

    /// The text is black on a color.
    pub open spec fn on(c: Color) -> Style {
        Style { fg: Some(Color::Black), bg: Some(c), ..Style::none() }
    }

    /// Nothing is changed.
    pub fn plain() -> (r: Style)
        ensures
            r == Style::none(),
    {
        Style { fg: None, bg: None, bold: false, italic: false, crossed_out: false }
    }

    /// The text has a color.
    pub fn fg(c: Color) -> (r: Style)
        ensures
            r == Style::tinted(c),
    {
        Style { fg: Some(c), ..Style::plain() }
    }

    /// The text has a color and is bold.
    pub fn bold(c: Color) -> (r: Style)
        ensures
            r == Style::strong(c),
    {
        Style { fg: Some(c), bold: true, ..Style::plain() }
    }

    /// The text is black on a color.
    pub fn black_on(c: Color) -> (r: Style)
        ensures
            r == Style::on(c),
    {
        Style { fg: Some(Color::Black), bg: Some(c), ..Style::plain() }
    }
}

/// How the row is painted that the cursor is on.
pub open spec fn cursor_of(focused: bool) -> Style {
    if focused {
        Style { bg: Some(Color::DarkGray), bold: true, ..Style::none() }
    } else {
        Style { bg: Some(Color::Black), ..Style::none() }
    }
}

/// How the row is painted that the cursor is on.
pub fn cursor_style(focused: bool) -> (r: Style)
    ensures
        r == cursor_of(focused),
{
    if focused {
        Style { bg: Some(Color::DarkGray), bold: true, ..Style::plain() }
    } else {
        Style { bg: Some(Color::Black), ..Style::plain() }
    }
}

/// How a line of a body is painted.
pub open spec fn line_style(kind: LineKind) -> Style {
    match kind {
        LineKind::Heading => Style::strong(Color::Magenta),
        LineKind::Quote => Style { fg: Some(DIM), italic: true, ..Style::none() },
        LineKind::Code => Style::tinted(Color::LightGreen),
        LineKind::ListItem => Style::none(),
        LineKind::Body => Style::none(),
    }
}

/// How a line of a body is painted.
pub fn style_for(kind: LineKind) -> (r: Style)
    ensures
        r == line_style(kind),
{
    match kind {
        LineKind::Heading => Style::bold(Color::Magenta),
        LineKind::Quote => Style { fg: Some(DIM), italic: true, ..Style::plain() },
        LineKind::Code => Style::fg(Color::LightGreen),
        LineKind::ListItem => Style::plain(),
        LineKind::Body => Style::plain(),
    }
}

/// How the name of a state is painted.
pub open spec fn head_style(status: TaskStatus) -> Style {
    Style::strong(
        match status {
            TaskStatus::Done => DONE,
            TaskStatus::InProgress => PROGRESS,
            TaskStatus::Backlog => ACCENT,
        },
    )
}

/// How the border of a pane and its title are painted.
pub fn border_style(focused: bool) -> (r: (Style, Style))
    ensures
        r == if focused {
            (Style::tinted(ACCENT), Style::strong(ACCENT))
        } else {
            (Style::tinted(DIM), Style::tinted(DIM))
        },
{
    if focused {
        (Style::fg(ACCENT), Style::bold(ACCENT))
    } else {
        (Style::fg(DIM), Style::fg(DIM))
    }
}

// ------------------------------------------------------------------------- rows

/// A piece of a row.
#[derive(Debug)]
pub struct Span {
    pub text: String,
    pub style: Style,
}

/// What a piece of a row holds.
#[verifier::ext_equal]
pub struct SpanView {
    pub text: Seq<char>,
    pub style: Style,
}

impl vstd::view::View for Span {
    type V = SpanView;

    open spec fn view(&self) -> SpanView {
        SpanView { text: self.text@, style: self.style }
    }
}

/// A row of a pane.
pub type Line = Vec<Span>;

/// What a row holds.
pub type LineView = Seq<SpanView>;

/// What a row holds.
pub open spec fn line_view(l: Seq<Span>) -> LineView {
    l.map_values(|s: Span| s@)
}

/// What rows hold.
pub open spec fn line_views(v: Seq<Line>) -> Seq<LineView> {
    v.map_values(|l: Line| line_view(l@))
}

/// A piece with a text and a style.
pub open spec fn piece(text: Seq<char>, style: Style) -> SpanView {
    SpanView { text, style }
}

/// Adds a piece to a row.
fn push_span(line: &mut Line, text: String, style: Style)
    ensures
        line_view(final(line)@) == line_view(old(line)@).push(piece(text@, style)),
{
    line.push(Span { text, style });
    assert(line_view(line@) =~= line_view(old(line)@).push(piece(text@, style)));
}

/// A row of one piece.
fn line_of(text: String, style: Style) -> (r: Line)
    ensures
        line_view(r@) == seq![piece(text@, style)],
{
    let mut line: Line = Vec::new();
    line.push(Span { text, style });
    assert(line_view(line@) =~= seq![piece(text@, style)]);
    line
}

/// A row of two pieces.
fn line_of_two(a: String, a_style: Style, b: String, b_style: Style) -> (r: Line)
    ensures
        line_view(r@) == seq![piece(a@, a_style), piece(b@, b_style)],
{
    let mut line: Line = Vec::new();
    line.push(Span { text: a, style: a_style });
    line.push(Span { text: b, style: b_style });
    assert(line_view(line@) =~= seq![piece(a@, a_style), piece(b@, b_style)]);
    line
}

/// Adds a row.
fn push_line(rows: &mut Vec<Line>, line: Line)
    ensures
        line_views(final(rows)@) == line_views(old(rows)@).push(line_view(line@)),
{
    rows.push(line);
    assert(line_views(rows@) =~= line_views(old(rows)@).push(line_view(line@)));
}

/// A pane of rows.
#[derive(Debug)]
pub struct Panel {
    pub title: String,
    pub focused: bool,
    pub rows: Vec<Line>,
    /// The row that the cursor is on.
    pub selected: Option<usize>,
    /// How that row is painted.
    pub cursor: Style,
    /// How many rows are scrolled past.
    pub scroll: u16,
}

/// What a pane holds.
#[verifier::ext_equal]
pub struct PanelView {
    pub title: Seq<char>,
    pub focused: bool,
    pub rows: Seq<LineView>,
    pub selected: Option<int>,
    pub cursor: Style,
    pub scroll: u16,
}

/// What an optional place holds.
pub open spec fn place_view(p: Option<usize>) -> Option<int> {
    match p {
        Some(i) => Some(i as int),
        None => None,
    }
}

impl vstd::view::View for Panel {
    type V = PanelView;

    open spec fn view(&self) -> PanelView {
        PanelView {
            title: self.title@,
            focused: self.focused,
            rows: line_views(self.rows@),
            selected: place_view(self.selected),
            cursor: self.cursor,
            scroll: self.scroll,
        }
    }
}

/// The place of the cursor in a list; none where the list is empty.
pub open spec fn chosen(sel: int, len: nat) -> Option<int> {
    if len > 0 {
        Some(sel)
    } else {
        None
    }
}

/// The place of the cursor in a list.
fn choose_row(sel: usize, len: usize) -> (r: Option<usize>)
    ensures
        place_view(r) == chosen(sel as int, len as nat),
{
    if len > 0 {
        Some(sel)
    } else {
        None
    }
}

/// How many rows fit into a pane of a height, without its border; at least one.
pub open spec fn inner_rows(height: int) -> int {
    if height < 3 {
        1
    } else {
        height - 2
    }
}

/// A number of days out of a greater number, in words.
pub open spec fn days_title(shown: int, all: int) -> Seq<char> {
    if shown < all {
        "日付 "@ + number::decimal(shown as nat) + "/"@ + number::decimal(all as nat)
    } else {
        "日付"@
    }
}

/// A number of days out of a greater number, in words.
fn title_of_days(shown: usize, all: usize) -> (r: String)
    ensures
        r@ == days_title(shown as int, all as int),
{
    if shown < all {
        let mut s: String = counted("日付 ", shown, "/");
        push_number(&mut s, all as u64);
        s
    } else {
        "日付".to_owned()
    }
}

// ------------------------------------------------------------------------- tabs

/// The mode as it is shown beside the tabs.
pub open spec fn badge_of(mode: Mode) -> Option<Seq<char>> {
    match mode {
        Mode::Normal => None,
        Mode::Search => Some("SEARCH"@),
        Mode::Confirm => Some("CONFIRM"@),
        Mode::Help => Some("HELP"@),
    }
}

/// The mode as it is shown beside the tabs.
pub fn badge(mode: Mode) -> (r: Option<&'static str>)
    ensures
        match r {
            Some(s) => badge_of(mode) == Some(s@),
            None => badge_of(mode) is None,
        },
{
    match mode {
        Mode::Normal => None,
        Mode::Search => Some("SEARCH"),
        Mode::Confirm => Some("CONFIRM"),
        Mode::Help => Some("HELP"),
    }
}

/// The place of the tab of a screen.
pub fn tab_index(view: View) -> (r: usize)
    ensures
        r == view.place(),
        View::ALL@[r as int] == view,
{
    match view {
        View::Notes => 0,
        View::Todo => 1,
        View::Projects => 2,
        View::Search => 3,
    }
}

// ------------------------------------------------------------------------ notes

/// The row of a note: its day, and how many entries it has.
pub open spec fn note_row(n: NoteView) -> LineView {
    seq![
        piece(n.date, Style::none()),
        piece(" "@ + number::decimal(n.entries.len()), Style::tinted(DIM)),
    ]
}

/// The list of notes.
pub open spec fn notes_view(s: AppView) -> PanelView {
    PanelView {
        title: days_title(s.notes_shown(), s.notes.len() as int),
        focused: s.focus is List,
        rows: s.notes.take(s.notes_shown()).map_values(|n: NoteView| note_row(n)),
        selected: chosen(s.note_sel, s.notes.len()),
        cursor: cursor_of(s.focus is List),
        scroll: 0,
    }
}

/// The list of notes.
pub fn notes_panel(app: &App) -> (r: Panel)
    ensures
        r@ == notes_view(app@),
{
    let shown: usize = app.visible_notes();
    let ghost s = app@;
    assert(s.notes.len() == app.notes@.len());
    let ghost all = s.notes.take(shown as int).map_values(|n: NoteView| note_row(n));
    let mut rows: Vec<Line> = Vec::new();
    let mut i: usize = 0;
    assert(line_views(rows@) == all.take(0));
    while i < shown
        invariant
            i <= shown <= app.notes@.len(),
            s == app@,
            shown == s.notes_shown(),
            all == s.notes.take(shown as int).map_values(|n: NoteView| note_row(n)),
            line_views(rows@) == all.take(i as int),
        decreases shown - i,
    {
        let n: &DailyNote = &app.notes[i];
        assert(s.notes[i as int] == n@);
        assert(n@.entries.len() == n.entries@.len());
        let count: String = concat(" ", number_text(n.entries.len() as u64).as_str());
        let line: Line = line_of_two(n.date.clone(), Style::plain(), count, Style::fg(DIM));
        assert(all[i as int] == note_row(n@));
        push_line(&mut rows, line);
        assert(all.take(i + 1) =~= all.take(i as int).push(all[i as int]));
        i += 1;
    }
    assert(all.take(i as int) == all);
    let focused: bool = app.focus == Focus::List;
    Panel {
        title: title_of_days(shown, app.notes.len()),
        focused,
        rows,
        selected: choose_row(app.note_sel, app.notes.len()),
        cursor: cursor_style(focused),
        scroll: 0,
    }
}

/// The row of an entry: its time, its tags and its title, of the first two those it has.
pub open spec fn entry_row(e: SummaryView) -> LineView {
    let timed = match e.time {
        Some(t) => seq![piece(t + " "@, Style::tinted(DIM))],
        None => Seq::empty(),
    };
    let tagged = if e.tags.len() > 0 {
        timed.push(piece("["@ + text::joined(e.tags, ", "@) + "] "@, Style::tinted(ACCENT)))
    } else {
        timed
    };
    tagged.push(piece(e.title, Style::none()))
}

/// The row of an entry.
fn row_of_entry(e: &EntrySummary) -> (r: Line)
    ensures
        line_view(r@) == entry_row(e@),
{
    let mut line: Line = Vec::new();
    assert(line_view(line@) =~= Seq::empty());
    match &e.time {
        Some(t) => {
            push_span(&mut line, concat(t.as_str(), " "), Style::fg(DIM));
            assert(line_view(line@) =~= seq![piece(t@ + " "@, Style::tinted(DIM))]);
        },
        None => {},
    }
    assert(e@.tags.len() == e.tags@.len());
    if e.tags.len() > 0 {
        let mut tags: String = concat("[", join(&e.tags, ", ").as_str());
        tags.append("] ");
        push_span(&mut line, tags, Style::fg(ACCENT));
    }
    push_span(&mut line, e.title.clone(), Style::plain());
    line
}

/// The list of the entries of the day that is chosen.
pub open spec fn entries_view(s: AppView) -> PanelView {
    PanelView {
        title: "エントリ "@ + number::decimal(s.headings().len()) + " 件"@,
        focused: s.focus is Entries,
        rows: s.headings().map_values(|e: SummaryView| entry_row(e)),
        selected: chosen(s.entry_sel, s.headings().len()),
        cursor: cursor_of(s.focus is Entries),
        scroll: 0,
    }
}

/// The list of the entries of the day that is chosen.
pub fn entries_panel(app: &App) -> (r: Panel)
    requires
        app@.is_sound(),
    ensures
        r@ == entries_view(app@),
{
    let list: Vec<EntrySummary> = app.entry_summaries();
    let ghost heads = types::summary_views(list@);
    assert(heads.len() == list@.len());
    let ghost all = heads.map_values(|e: SummaryView| entry_row(e));
    let mut rows: Vec<Line> = Vec::new();
    let mut i: usize = 0;
    assert(line_views(rows@) == all.take(0));
    while i < list.len()
        invariant
            i <= list.len(),
            heads == types::summary_views(list@),
            all == heads.map_values(|e: SummaryView| entry_row(e)),
            line_views(rows@) == all.take(i as int),
        decreases list.len() - i,
    {
        let e: &EntrySummary = &list[i];
        assert(heads[i as int] == e@);
        let line: Line = row_of_entry(e);
        assert(all[i as int] == entry_row(e@));
        push_line(&mut rows, line);
        assert(all.take(i + 1) =~= all.take(i as int).push(all[i as int]));
        i += 1;
    }
    assert(all.take(i as int) == all);
    let focused: bool = app.focus == Focus::Entries;
    Panel {
        title: counted("エントリ ", list.len(), " 件"),
        focused,
        rows,
        selected: choose_row(app.entry_sel, list.len()),
        cursor: cursor_style(focused),
        scroll: 0,
    }
}

/// The row of a line of a body.
pub open spec fn body_row(l: DetailView) -> LineView {
    seq![piece(l.text, line_style(l.kind))]
}

/// A number as the terminal takes it: the lower 16 bits.
pub open spec fn low_bits(n: int) -> u16 {
    (n % 0x10000) as u16
}

/// The body of the entry that is chosen. Where keys act on its tasks, the chosen task is
/// marked.
pub open spec fn body_view(s: AppView) -> PanelView {
    let lines = s.detail();
    PanelView {
        title: match s.note() {
            Some(n) => n.date,
            None => "ノートがありません"@,
        },
        focused: s.focus is Detail,
        rows: lines.map_values(|l: DetailView| body_row(l)),
        selected: if s.focus is Detail && 0 <= s.note_task_sel < s.spots().len() {
            Some(s.spots()[s.note_task_sel])
        } else {
            None
        },
        cursor: cursor_of(true),
        scroll: low_bits(types::least(s.detail_scroll, types::less(lines.len() as int, 1))),
    }
}

/// The body of the entry that is chosen.
pub fn body_panel(app: &App) -> (r: Panel)
    requires
        app@.is_sound(),
    ensures
        r@ == body_view(app@),
{
    let list: Vec<DetailLine> = app.detail_lines();
    let ghost lines = types::detail_views(list@);
    assert(lines.len() == list@.len());
    let ghost all = lines.map_values(|l: DetailView| body_row(l));
    let mut rows: Vec<Line> = Vec::new();
    let mut i: usize = 0;
    assert(line_views(rows@) == all.take(0));
    while i < list.len()
        invariant
            i <= list.len(),
            lines == types::detail_views(list@),
            all == lines.map_values(|l: DetailView| body_row(l)),
            line_views(rows@) == all.take(i as int),
        decreases list.len() - i,
    {
        let l: &DetailLine = &list[i];
        assert(lines[i as int] == l@);
        let line: Line = line_of(l.text.clone(), style_for(l.kind));
        assert(all[i as int] == body_row(l@));
        push_line(&mut rows, line);
        assert(all.take(i + 1) =~= all.take(i as int).push(all[i as int]));
        i += 1;
    }
    assert(all.take(i as int) == all);
    let title: String = match app.selected_note() {
        Some(n) => n.date.clone(),
        None => "ノートがありません".to_owned(),
    };
    let spots: Vec<usize> = app.note_task_positions();
    assert(spots@.len() == crate::app::state::places(spots@).len());
    let selected: Option<usize> = if app.focus == Focus::Detail && app.note_task_sel < spots.len() {
        assert(crate::app::state::places(spots@)[app.note_task_sel as int]
            == spots@[app.note_task_sel as int]);
        Some(spots[app.note_task_sel])
    } else {
        None
    };
    let last: usize = if list.len() < 1 {
        0
    } else {
        list.len() - 1
    };
    let scroll: usize = if app.detail_scroll < last {
        app.detail_scroll
    } else {
        last
    };
    Panel {
        title,
        focused: app.focus == Focus::Detail,
        rows,
        selected,
        cursor: cursor_style(true),
        scroll: (scroll % 0x10000) as u16,
    }
}

// ------------------------------------------------------------------------- todo

/// The days that the task list can show.
pub open spec fn todo_days_view(s: AppView) -> PanelView {
    PanelView {
        title: days_title(
            s.days_shown().len() as int,
            todos::days(s.open_todos()).len() as int,
        ),
        focused: s.focus is List,
        rows: s.days_shown().map_values(|d: Seq<char>| seq![piece(d, Style::none())]),
        selected: chosen(s.todo_date_sel, s.days_shown().len()),
        cursor: cursor_of(s.focus is List),
        scroll: 0,
    }
}

/// The days that the task list can show.
pub fn todo_days_panel(app: &App) -> (r: Panel)
    ensures
        r@ == todo_days_view(app@),
{
    let list: Vec<String> = app.visible_todo_dates();
    let ghost days = text::texts(list@);
    assert(days.len() == list@.len());
    let ghost all = days.map_values(|d: Seq<char>| seq![piece(d, Style::none())]);
    let mut rows: Vec<Line> = Vec::new();
    let mut i: usize = 0;
    assert(line_views(rows@) == all.take(0));
    while i < list.len()
        invariant
            i <= list.len(),
            days == text::texts(list@),
            all == days.map_values(|d: Seq<char>| seq![piece(d, Style::none())]),
            line_views(rows@) == all.take(i as int),
        decreases list.len() - i,
    {
        assert(days[i as int] == list@[i as int]@);
        let line: Line = line_of(list[i].clone(), Style::plain());
        assert(all[i as int] == seq![piece(days[i as int], Style::none())]);
        push_line(&mut rows, line);
        assert(all.take(i + 1) =~= all.take(i as int).push(all[i as int]));
        i += 1;
    }
    assert(all.take(i as int) == all);
    let focused: bool = app.focus == Focus::List;
    Panel {
        title: title_of_days(list.len(), app.todo_dates_total()),
        focused,
        rows,
        selected: choose_row(app.todo_date_sel, list.len()),
        cursor: cursor_style(focused),
        scroll: 0,
    }
}

/// The check box of a state, and its color.
pub open spec fn box_of(status: TaskStatus) -> (Seq<char>, Color) {
    match status {
        TaskStatus::Backlog => ("[ ] "@, Color::Reset),
        TaskStatus::InProgress => ("[-] "@, PROGRESS),
        TaskStatus::Done => ("[x] "@, DONE),
    }
}

/// The row of a task: its day, its check box and its title. A task of a project is set in
/// from the name of the project above it.
pub open spec fn todo_row(t: TodoView) -> LineView {
    let day = if t.group.len() > 0 {
        "  "@ + t.date + " "@
    } else {
        t.date + " "@
    };
    seq![
        piece(day, Style::tinted(DIM)),
        piece(box_of(t.status).0, Style::tinted(box_of(t.status).1)),
        piece(
            t.title,
            if t.status is Done {
                (Style { fg: Some(DIM), crossed_out: true, ..Style::none() })
            } else {
                Style::none()
            },
        ),
    ]
}

/// A row of the task list: the name of a project, or a task.
pub open spec fn todo_line(list: Seq<PlacedView>, row: RowKind) -> LineView {
    match row {
        RowKind::Group(name) => seq![piece(name, Style::strong(ACCENT))],
        RowKind::Task(at) => todo_row(list[at].1),
    }
}

/// The row from `i` on with a task, or the number of rows.
pub open spec fn row_of_task(rows: Seq<RowKind>, at: int, i: int) -> int
    decreases rows.len() - i,
{
    if i >= rows.len() || rows[i] == RowKind::Task(at) {
        i
    } else {
        row_of_task(rows, at, i + 1)
    }
}

/// The title of the task list: how many tasks there are, their order, and whether only open
/// ones are shown.
pub open spec fn todo_title(s: AppView) -> Seq<char> {
    "ToDo  "@ + number::decimal(s.todos_shown().len()) + " 件  "@ + s.todo_sort.name() + (
    if s.todo_open_only {
        "  未完のみ"@
    } else {
        ""@
    }) + "  Space で状態を進める"@
}

/// The task list of the day that is chosen, with the names of the projects between the
/// tasks. The cursor is on the chosen task.
pub open spec fn todo_view(s: AppView) -> PanelView {
    let list = s.todos_shown();
    let rows = todos::rows_of(list);
    PanelView {
        title: todo_title(s),
        focused: s.focus is Detail,
        rows: rows.map_values(|row: RowKind| todo_line(list, row)),
        selected: chosen(row_of_task(rows, s.todo_sel, 0), list.len()),
        cursor: cursor_of(s.focus is Detail),
        scroll: 0,
    }
}

/// The row of a task.
fn row_of_todo(t: &TodoItem) -> (r: Line)
    ensures
        line_view(r@) == todo_row(t@),
{
    let mut line: Line = Vec::new();
    assert(line_view(line@) =~= Seq::empty());
    let mut day: String = concat(t.date.as_str(), " ");
    if !t.group.as_str().is_empty() {
        day = concat("  ", day.as_str());
        assert(day@ =~= "  "@ + t@.date + " "@);
    }
    let ghost front = day@;
    push_span(&mut line, day, Style::fg(DIM));
    match t.status {
        TaskStatus::Backlog => {
            push_span(&mut line, "[ ] ".to_owned(), Style::fg(Color::Reset));
        },
        TaskStatus::InProgress => {
            push_span(&mut line, "[-] ".to_owned(), Style::fg(PROGRESS));
        },
        TaskStatus::Done => {
            push_span(&mut line, "[x] ".to_owned(), Style::fg(DONE));
        },
    }
    assert(line_view(line@) =~= seq![
        piece(front, Style::tinted(DIM)),
        piece(box_of(t.status).0, Style::tinted(box_of(t.status).1)),
    ]);
    let style: Style = if t.status == TaskStatus::Done {
        Style { fg: Some(DIM), crossed_out: true, ..Style::plain() }
    } else {
        Style::plain()
    };
    push_span(&mut line, t.title.clone(), style);
    assert(line_view(line@) =~= todo_row(t@));
    line
}

/// Finds the row with a task.
fn find_row(rows: &Vec<TodoRow>, at: usize) -> (r: usize)
    ensures
        r == row_of_task(types::row_kinds(rows@), at as int, 0),
{
    let ghost kinds = types::row_kinds(rows@);
    let mut i: usize = 0;
    while i < rows.len()
        invariant
            i <= rows.len(),
            kinds == types::row_kinds(rows@),
            row_of_task(kinds, at as int, 0) == row_of_task(kinds, at as int, i as int),
        decreases rows.len() - i,
    {
        assert(kinds[i as int] == rows@[i as int]@);
        match &rows[i] {
            TodoRow::Task(k) => {
                if *k == at {
                    return i;
                }
            },
            TodoRow::Group(_) => {},
        }
        i += 1;
    }
    i
}

/// The task list of the day that is chosen.
pub fn todo_panel(app: &App) -> (r: Panel)
    ensures
        r@ == todo_view(app@),
{
    let list: Vec<&Placed> = app.visible_todos();
    let kinds: Vec<TodoRow> = todos::rows(&list);
    let ghost tasks = todos::placed_refs(list@);
    assert(tasks.len() == list@.len());
    let ghost shown = types::row_kinds(kinds@);
    let ghost all = shown.map_values(|row: RowKind| todo_line(tasks, row));
    let mut rows: Vec<Line> = Vec::new();
    let mut i: usize = 0;
    assert(line_views(rows@) == all.take(0));
    proof {
        todos::lemma_rows_in_range(tasks);
    }
    while i < kinds.len()
        invariant
            i <= kinds.len(),
            tasks == todos::placed_refs(list@),
            shown == types::row_kinds(kinds@),
            all == shown.map_values(|row: RowKind| todo_line(tasks, row)),
            forall|k: int|
                0 <= k < shown.len() ==> (#[trigger] shown[k] matches RowKind::Task(at) ==> 0 <= at
                    < tasks.len()),
            line_views(rows@) == all.take(i as int),
        decreases kinds.len() - i,
    {
        assert(shown[i as int] == kinds@[i as int]@);
        let line: Line = match &kinds[i] {
            TodoRow::Group(name) => line_of(name.clone(), Style::bold(ACCENT)),
            TodoRow::Task(at) => {
                assert(tasks[*at as int] == todos::placed_view(*list@[*at as int]));
                row_of_todo(&list[*at].1)
            },
        };
        assert(all[i as int] == todo_line(tasks, shown[i as int]));
        push_line(&mut rows, line);
        assert(all.take(i + 1) =~= all.take(i as int).push(all[i as int]));
        i += 1;
    }
    assert(all.take(i as int) == all);
    let mut title: String = counted("ToDo  ", list.len(), " 件  ");
    title.append(app.todo_sort.label());
    title.append(
        if app.todo_open_only {
            "  未完のみ"
        } else {
            ""
        },
    );
    title.append("  Space で状態を進める");
    let focused: bool = app.focus == Focus::Detail;
    Panel {
        title,
        focused,
        rows,
        selected: choose_row(find_row(&kinds, app.todo_sel), list.len()),
        cursor: cursor_style(focused),
        scroll: 0,
    }
}

/// Each task has its row.
proof fn lemma_row_of_task(list: Seq<PlacedView>, at: int) -> (k: int)
    requires
        0 <= at < list.len(),
    ensures
        0 <= k < todos::rows_of(list).len(),
        todos::rows_of(list)[k] == RowKind::Task(at),
    decreases list.len(),
{
    let rows = todos::rows_of(list);
    if at == list.len() - 1 {
        rows.len() - 1
    } else {
        let k = lemma_row_of_task(list.drop_last(), at);
        assert(rows[k] == todos::rows_of(list.drop_last())[k]);
        k
    }
}

/// A row that is there is found.
proof fn lemma_row_found(rows: Seq<RowKind>, at: int, i: int, k: int)
    requires
        0 <= i <= k < rows.len(),
        rows[k] == RowKind::Task(at),
    ensures
        i <= row_of_task(rows, at, i) <= k,
        rows[row_of_task(rows, at, i)] == RowKind::Task(at),
    decreases k - i,
{
    if rows[i] != RowKind::Task(at) {
        lemma_row_found(rows, at, i + 1, k);
    }
}

/// The cursor of the task list is on the row of the chosen task, never on the name of a
/// project.
pub proof fn law_cursor_is_on_the_task(s: AppView)
    requires
        0 <= s.todo_sel < s.todos_shown().len(),
    ensures
        todo_view(s).selected matches Some(k) && 0 <= k < todo_view(s).rows.len() && todo_view(
            s,
        ).rows[k] == todo_row(s.todos_shown()[s.todo_sel].1),
{
    let list = s.todos_shown();
    let k = lemma_row_of_task(list, s.todo_sel);
    lemma_row_found(todos::rows_of(list), s.todo_sel, 0, k);
}

// --------------------------------------------------------------------- projects

/// How many tasks of a project are not done.
pub open spec fn open_tasks(p: ProjectView) -> nat {
    project::tasks_in(p.tasks, TaskStatus::Backlog).len() + project::tasks_in(
        p.tasks,
        TaskStatus::InProgress,
    ).len()
}

/// The row of a project: its name, whether it is archived, and how much is left to do.
pub open spec fn project_row(p: ProjectView) -> LineView {
    let name = seq![piece(p.name, Style::none())];
    let front = if p.archived_at_ms > 0 {
        name.push(piece(" (archived)"@, Style::tinted(DIM)))
    } else {
        name
    };
    front.push(
        piece(
            "  未完 "@ + number::decimal(open_tasks(p)),
            Style::tinted(
                if open_tasks(p) > 0 {
                    PROGRESS
                } else {
                    DIM
                },
            ),
        ),
    )
}

/// The list of projects.
pub open spec fn projects_view(s: AppView) -> PanelView {
    PanelView {
        title: "プロジェクト"@,
        focused: s.focus is List,
        rows: s.projects_shown().map_values(|i: int| project_row(s.projects[i])),
        selected: chosen(s.project_sel, s.projects_shown().len()),
        cursor: cursor_of(s.focus is List),
        scroll: 0,
    }
}

/// Tasks in each state together are not more than all tasks.
proof fn lemma_all_tasks(tasks: Seq<TaskView>)
    ensures
        project::tasks_in(tasks, TaskStatus::Backlog).len() + project::tasks_in(
            tasks,
            TaskStatus::InProgress,
        ).len() + project::tasks_in(tasks, TaskStatus::Done).len() <= tasks.len(),
    decreases tasks.len(),
{
    if tasks.len() > 0 {
        lemma_all_tasks(tasks.drop_last());
    }
}

/// The row of a project.
fn row_of_project(p: &Project) -> (r: Line)
    ensures
        line_view(r@) == project_row(p@),
{
    let total: usize = p.tasks.len();
    proof {
        assert(p@.tasks.len() == total);
        lemma_all_tasks(p@.tasks);
    }
    let open: usize = p.count(TaskStatus::Backlog) + p.count(TaskStatus::InProgress);
    let mut line: Line = line_of(p.name.clone(), Style::plain());
    if p.is_archived() {
        push_span(&mut line, " (archived)".to_owned(), Style::fg(DIM));
    }
    let color: Color = if open > 0 {
        PROGRESS
    } else {
        DIM
    };
    let words: String = concat("  未完 ", number_text(open as u64).as_str());
    push_span(&mut line, words, Style::fg(color));
    line
}

/// The list of projects.
pub fn projects_panel(app: &App) -> (r: Panel)
    ensures
        r@ == projects_view(app@),
{
    let ghost s = app@;
    let list: Vec<usize> = app.visible_projects();
    let ghost shown = crate::app::state::places(list@);
    assert(shown.len() == list@.len());
    let ghost all = shown.map_values(|i: int| project_row(s.projects[i]));
    let mut rows: Vec<Line> = Vec::new();
    let mut i: usize = 0;
    assert(line_views(rows@) == all.take(0));
    while i < list.len()
        invariant
            i <= list.len(),
            s == app@,
            shown == crate::app::state::places(list@),
            all == shown.map_values(|i: int| project_row(s.projects[i])),
            line_views(rows@) == all.take(i as int),
            forall|k: int| 0 <= k < list@.len() ==> #[trigger] list@[k] < app.projects@.len(),
        decreases list.len() - i,
    {
        let at: usize = list[i];
        assert(shown[i as int] == at);
        assert(s.projects[at as int] == app.projects@[at as int]@);
        let line: Line = row_of_project(&app.projects[at]);
        assert(all[i as int] == project_row(s.projects[at as int]));
        push_line(&mut rows, line);
        assert(all.take(i + 1) =~= all.take(i as int).push(all[i as int]));
        i += 1;
    }
    assert(all.take(i as int) == all);
    let focused: bool = app.focus == Focus::List;
    Panel {
        title: "プロジェクト".to_owned(),
        focused,
        rows,
        selected: choose_row(app.project_sel, list.len()),
        cursor: cursor_style(focused),
        scroll: 0,
    }
}

/// The row of a task of a project. The one that is chosen has a bar in front.
pub open spec fn task_row(t: TaskView, chosen: bool) -> LineView {
    seq![
        piece(
            (if chosen {
                "▌ "@
            } else {
                "  "@
            }) + seq![t.status.mark(), ' '] + t.title,
            Style::none(),
        ),
    ]
}

/// The rows of the tasks in a state: the name of the state with how many tasks are in it,
/// the tasks that are shown, how many are not, and an empty row. `from` is the place of the
/// first one among all tasks that are shown.
pub open spec fn group_rows(
    status: TaskStatus,
    all: nat,
    shown: Seq<TaskView>,
    from: int,
    sel: int,
) -> Seq<LineView> {
    if all == 0 {
        Seq::empty()
    } else {
        let head = seq![
            seq![
                piece(
                    status.title() + " ("@ + number::decimal(all) + ")"@,
                    head_style(status),
                ),
            ],
        ];
        let tasks = Seq::new(shown.len(), |i: int| task_row(shown[i], from + i == sel));
        let hidden = if shown.len() < all {
            seq![
                seq![
                    piece(
                        "完了 他 "@ + number::decimal((all - shown.len()) as nat) + " 件"@,
                        Style::tinted(DIM),
                    ),
                ],
            ]
        } else {
            Seq::empty()
        };
        head + tasks + hidden + seq![seq![piece(""@, Style::none())]]
    }
}

/// The rows of a project: its address where it has one, and its tasks by state.
pub open spec fn task_rows(p: ProjectView, done_limit: int, sel: int) -> Seq<LineView> {
    let backlog = project::tasks_in(p.tasks, TaskStatus::Backlog);
    let doing = project::tasks_in(p.tasks, TaskStatus::InProgress);
    let done = project::tasks_in(p.tasks, TaskStatus::Done);
    let url = if p.issue_url.len() > 0 {
        seq![
            seq![piece(p.issue_url, Style::tinted(DIM))],
            seq![piece(""@, Style::none())],
        ]
    } else {
        Seq::empty()
    };
    let rows = url + group_rows(TaskStatus::Backlog, backlog.len(), backlog, 0, sel) + group_rows(
        TaskStatus::InProgress,
        doing.len(),
        doing,
        backlog.len() as int,
        sel,
    ) + group_rows(
        TaskStatus::Done,
        done.len(),
        todos::limited(done, done_limit),
        (backlog.len() + doing.len()) as int,
        sel,
    );
    if rows.len() == 0 {
        seq![seq![piece("タスクがありません"@, Style::tinted(DIM))]]
    } else {
        rows
    }
}

/// The tasks of the project that is chosen. The title tells which key comes next.
pub open spec fn tasks_view(s: AppView) -> PanelView {
    PanelView {
        title: match s.project() {
            Some(p) => p.name + (if s.focus is Detail {
                "  Space で状態を進める"@
            } else {
                "  l で選ぶ"@
            }),
            None => "プロジェクトがありません"@,
        },
        focused: s.focus is Detail,
        rows: match s.project() {
            Some(p) => task_rows(p, s.config.project_done_limit as int, s.task_sel),
            None => Seq::empty(),
        },
        selected: None,
        cursor: cursor_of(s.focus is Detail),
        scroll: 0,
    }
}

/// Adds the rows of the tasks in a state.
fn push_group(
    rows: &mut Vec<Line>,
    status: TaskStatus,
    tasks: &Vec<&ProjectTask>,
    shown: usize,
    from: usize,
    sel: usize,
)
    requires
        shown <= tasks@.len(),
        shown == 0 ==> tasks@.len() == 0,
        from + shown <= usize::MAX,
    ensures
        line_views(final(rows)@) == line_views(old(rows)@) + group_rows(
            status,
            tasks@.len(),
            project::task_ref_views(tasks@).take(shown as int),
            from as int,
            sel as int,
        ),
{
    let ghost before = line_views(rows@);
    let ghost views = project::task_ref_views(tasks@);
    assert(views.len() == tasks@.len());
    let ghost part = views.take(shown as int);
    if tasks.len() == 0 {
        assert(before + Seq::<LineView>::empty() =~= before);
        return;
    }
    let mut head: String = status.label().to_owned();
    head.append(" (");
    push_number(&mut head, tasks.len() as u64);
    head.append(")");
    let ghost title = head@;
    assert(title =~= status.title() + " ("@ + number::decimal(tasks@.len()) + ")"@);
    let style: Style = Style::bold(
        match status {
            TaskStatus::Done => DONE,
            TaskStatus::InProgress => PROGRESS,
            TaskStatus::Backlog => ACCENT,
        },
    );
    push_line(rows, line_of(head, style));
    let ghost top = before + seq![seq![piece(title, head_style(status))]];
    assert(line_views(rows@) =~= top);
    let ghost all = Seq::new(part.len(), |i: int| task_row(part[i], from + i == sel));
    let mut i: usize = 0;
    assert(line_views(rows@) =~= top + all.take(0));
    while i < shown
        invariant
            i <= shown <= tasks@.len(),
            from + shown <= usize::MAX,
            views == project::task_ref_views(tasks@),
            part == views.take(shown as int),
            all == Seq::new(part.len(), |i: int| task_row(part[i], from + i == sel)),
            line_views(rows@) == top + all.take(i as int),
        decreases shown - i,
    {
        let t: &ProjectTask = tasks[i];
        assert(part[i as int] == t@);
        let mut words: String = if from + i == sel {
            "▌ ".to_owned()
        } else {
            "  ".to_owned()
        };
        let ghost bar = words@;
        words.push(t.status.marker());
        words.push(' ');
        words.append(t.title.as_str());
        assert(words@ =~= bar + seq![t.status.mark(), ' '] + t@.title);
        let line: Line = line_of(words, Style::plain());
        assert(all[i as int] == task_row(t@, from + i == sel));
        push_line(rows, line);
        assert(top + all.take(i + 1) =~= (top + all.take(i as int)).push(all[i as int]));
        i += 1;
    }
    assert(all.take(i as int) == all);
    let ghost listed = top + all;
    let ghost mut hidden: Seq<LineView> = Seq::empty();
    if shown < tasks.len() {
        let words: String = counted("完了 他 ", tasks.len() - shown, " 件");
        let ghost told = words@;
        push_line(rows, line_of(words, Style::fg(DIM)));
        proof {
            hidden = seq![seq![piece(told, Style::tinted(DIM))]];
        }
    }
    assert(line_views(rows@) =~= listed + hidden);
    push_line(rows, line_of("".to_owned(), Style::plain()));
    assert(line_views(rows@) =~= before + group_rows(
        status,
        tasks@.len(),
        part,
        from as int,
        sel as int,
    ));
}

/// The tasks of the project that is chosen.
pub fn tasks_panel(app: &App) -> (r: Panel)
    ensures
        r@ == tasks_view(app@),
{
    let focused: bool = app.focus == Focus::Detail;
    match app.selected_project() {
        Some(p) => {
            let title: String = concat(
                p.name.as_str(),
                if focused {
                    "  Space で状態を進める"
                } else {
                    "  l で選ぶ"
                },
            );
            let rows: Vec<Line> = rows_of_tasks(p, app.config.project_done_limit, app.task_sel);
            Panel { title, focused, rows, selected: None, cursor: cursor_style(focused), scroll: 0 }
        },
        None => {
            let rows: Vec<Line> = Vec::new();
            assert(line_views(rows@) =~= Seq::empty());
            Panel {
                title: "プロジェクトがありません".to_owned(),
                focused,
                rows,
                selected: None,
                cursor: cursor_style(focused),
                scroll: 0,
            }
        },
    }
}

/// The rows of a project.
#[verifier::spinoff_prover]
#[verifier::rlimit(60)]
fn rows_of_tasks(p: &Project, done_limit: usize, sel: usize) -> (r: Vec<Line>)
    ensures
        line_views(r@) == task_rows(p@, done_limit as int, sel as int),
{
    let total: usize = p.tasks.len();
    proof {
        assert(p@.tasks.len() == total);
        lemma_all_tasks(p@.tasks);
    }
    let mut rows: Vec<Line> = Vec::new();
    assert(line_views(rows@) =~= Seq::empty());
    if !p.issue_url.as_str().is_empty() {
        push_line(&mut rows, line_of(p.issue_url.clone(), Style::fg(DIM)));
        push_line(&mut rows, line_of("".to_owned(), Style::plain()));
        assert(line_views(rows@) =~= seq![
            seq![piece(p@.issue_url, Style::tinted(DIM))],
            seq![piece(""@, Style::none())],
        ]);
    }
    let backlog: Vec<&ProjectTask> = p.tasks_with(TaskStatus::Backlog);
    let doing: Vec<&ProjectTask> = p.tasks_with(TaskStatus::InProgress);
    let done: Vec<&ProjectTask> = p.tasks_with(TaskStatus::Done);
    let ghost a = project::task_ref_views(backlog@);
    let ghost b = project::task_ref_views(doing@);
    let ghost c = project::task_ref_views(done@);
    assert(a.len() == backlog@.len() && b.len() == doing@.len() && c.len() == done@.len());
    let shown: usize = if 0 < done_limit && done_limit < done.len() {
        done_limit
    } else {
        done.len()
    };
    assert(a.take(a.len() as int) == a && b.take(b.len() as int) == b);
    assert(todos::limited(c, done_limit as int) =~= c.take(shown as int));
    push_group(&mut rows, TaskStatus::Backlog, &backlog, backlog.len(), 0, sel);
    push_group(&mut rows, TaskStatus::InProgress, &doing, doing.len(), backlog.len(), sel);
    push_group(&mut rows, TaskStatus::Done, &done, shown, backlog.len() + doing.len(), sel);
    assert(line_views(rows@).len() == rows@.len());
    if rows.len() == 0 {
        push_line(&mut rows, line_of("タスクがありません".to_owned(), Style::fg(DIM)));
        assert(line_views(rows@) =~= seq![
            seq![piece("タスクがありません"@, Style::tinted(DIM))],
        ]);
    }
    rows
}

// ----------------------------------------------------------------------- search

/// The field of the query.
pub open spec fn query_view(s: AppView) -> PanelView {
    PanelView {
        title: "検索"@,
        focused: s.mode is Search,
        rows: seq![seq![piece("/ "@, Style::tinted(ACCENT)), piece(s.query, Style::none())]],
        selected: None,
        cursor: cursor_of(true),
        scroll: 0,
    }
}

/// The field of the query.
pub fn query_panel(app: &App) -> (r: Panel)
    ensures
        r@ == query_view(app@),
{
    let mut rows: Vec<Line> = Vec::new();
    assert(line_views(rows@) =~= Seq::empty());
    push_line(
        &mut rows,
        line_of_two("/ ".to_owned(), Style::fg(ACCENT), app.query.clone(), Style::plain()),
    );
    assert(line_views(rows@) =~= query_view(app@).rows);
    Panel {
        title: "検索".to_owned(),
        focused: app.mode == Mode::Search,
        rows,
        selected: None,
        cursor: cursor_style(true),
        scroll: 0,
    }
}

/// A rectangle on the screen.
#[derive(Debug, Clone, Copy, PartialEq, Eq, Structural)]
pub struct Area {
    pub x: u16,
    pub y: u16,
    pub width: u16,
    pub height: u16,
}

/// The column of the cursor in the field of the query: behind the text, and inside the
/// border.
pub open spec fn cursor_column(area: Area, typed: nat) -> int {
    types::least(
        area.x + 3 + typed as int % 0x10000,
        types::less(types::least(area.x + area.width, u16::MAX as int), 2),
    )
}

/// The place of the cursor in the field of the query.
pub fn query_cursor(query: &str, area: Area) -> (r: (u16, u16))
    requires
        area.x + 3 + query@.len() as int % 0x10000 <= u16::MAX,
        area.y < u16::MAX,
    ensures
        r.0 == cursor_column(area, query@.len()),
        r.1 == area.y + 1,
{
    let typed: u16 = (chars_of(query).len() % 0x10000) as u16;
    let x: u16 = area.x + 3 + typed;
    let right: u16 = area.x.saturating_add(area.width);
    let end: u16 = right.saturating_sub(2);
    let column: u16 = if x < end {
        x
    } else {
        end
    };
    (column, area.y + 1)
}

/// The row of an entry that was found.
pub open spec fn hit_row(h: HitView) -> LineView {
    seq![piece(h.date + " "@, Style::tinted(DIM)), piece(h.preview, Style::none())]
}

/// The list of entries that were found.
pub open spec fn hits_view(s: AppView) -> PanelView {
    PanelView {
        title: if text::is_blank(s.query) {
            "語を入力すると全エントリを検索"@
        } else {
            number::decimal(s.hits.len()) + " 件  Enter で該当箇所へ"@
        },
        focused: s.mode !is Search,
        rows: s.hits.map_values(|h: HitView| hit_row(h)),
        selected: chosen(s.search_sel, s.hits.len()),
        cursor: cursor_of(true),
        scroll: 0,
    }
}

/// The list of entries that were found.
pub fn hits_panel(app: &App) -> (r: Panel)
    ensures
        r@ == hits_view(app@),
{
    let ghost s = app@;
    assert(s.hits.len() == app.hits@.len());
    let ghost all = s.hits.map_values(|h: HitView| hit_row(h));
    let mut rows: Vec<Line> = Vec::new();
    let mut i: usize = 0;
    assert(line_views(rows@) == all.take(0));
    while i < app.hits.len()
        invariant
            i <= app.hits.len(),
            s == app@,
            all == s.hits.map_values(|h: HitView| hit_row(h)),
            line_views(rows@) == all.take(i as int),
        decreases app.hits.len() - i,
    {
        let h: &SearchHit = &app.hits[i];
        assert(s.hits[i as int] == h@);
        let line: Line = line_of_two(
            concat(h.date.as_str(), " "),
            Style::fg(DIM),
            h.preview.clone(),
            Style::plain(),
        );
        assert(all[i as int] == hit_row(h@));
        push_line(&mut rows, line);
        assert(all.take(i + 1) =~= all.take(i as int).push(all[i as int]));
        i += 1;
    }
    assert(all.take(i as int) == all);
    let title: String = if blank(app.query.as_str()) {
        "語を入力すると全エントリを検索".to_owned()
    } else {
        concat(number_text(app.hits.len() as u64).as_str(), " 件  Enter で該当箇所へ")
    };
    Panel {
        title,
        focused: app.mode != Mode::Search,
        rows,
        selected: choose_row(app.search_sel, app.hits.len()),
        cursor: cursor_style(true),
        scroll: 0,
    }
}

// ----------------------------------------------------------------------- footer

/// The row at the bottom: a question that waits, a message, or a summary.
pub open spec fn footer_row(s: AppView) -> LineView {
    if s.mode is Confirm && s.confirm is Some {
        seq![piece("このエントリを削除しますか？ y / n"@, Style::on(PROGRESS))]
    } else {
        match s.status {
            Some(message) => seq![piece(message, Style::on(ACCENT))],
            None => seq![
                piece(s.summary(), Style::tinted(DIM)),
                piece("   ? ヘルプ   q 終了"@, Style::tinted(DIM)),
            ],
        }
    }
}

/// The row at the bottom.
pub fn footer(app: &App) -> (r: Line)
    ensures
        line_view(r@) == footer_row(app@),
{
    if app.mode == Mode::Confirm {
        match &app.confirm {
            Some(confirm) => {
                return line_of(confirm.question(), Style::black_on(PROGRESS));
            },
            None => {},
        }
    }
    match &app.status {
        Some(message) => line_of(message.clone(), Style::black_on(ACCENT)),
        None => line_of_two(
            app.summary(),
            Style::fg(DIM),
            "   ? ヘルプ   q 終了".to_owned(),
            Style::fg(DIM),
        ),
    }
}

// ------------------------------------------------------------------------- help

/// How many columns the names of keys take.
pub const KEY_COLUMN: usize = 18;

/// How many rows the help has besides the keys.
pub const HELP_TAIL: usize = 5;

/// A text with spaces behind it, up to the width of the column of keys.
pub open spec fn in_column(s: Seq<char>) -> Seq<char> {
    s + Seq::new(
        if s.len() < KEY_COLUMN {
            (KEY_COLUMN - s.len()) as nat
        } else {
            0
        },
        |i: int| ' ',
    )
}

/// The row of a key.
pub open spec fn key_row(key: Seq<char>, words: Seq<char>) -> LineView {
    seq![piece(in_column(key), Style::tinted(ACCENT)), piece(words, Style::none())]
}

/// The rows of the help: the keys, where the data lies, and how the help is closed.
pub open spec fn help_rows(c: ConfigView) -> Seq<LineView> {
    Seq::new(HELP@.len(), |i: int| key_row(HELP@[i].0@, HELP@[i].1@)) + seq![
        seq![piece(""@, Style::none())],
        key_row("データ"@, c.data_dir),
        key_row("設定の出どころ"@, c.source),
        seq![piece(""@, Style::none())],
        seq![piece("任意のキーで閉じる"@, Style::tinted(DIM))],
    ]
}

/// Puts spaces behind a text.
fn fill_column(s: &str) -> (r: String)
    ensures
        r@ == in_column(s@),
{
    let mut out: String = s.to_owned();
    let mut k: usize = chars_of(s).len();
    let ghost start = s@;
    let ghost len = k as int;
    assert(out@ =~= start + Seq::new(0, |i: int| ' '));
    while k < KEY_COLUMN
        invariant
            len == start.len(),
            len <= k,
            k <= KEY_COLUMN || k == len,
            out@ == start + Seq::new((k - len) as nat, |i: int| ' '),
        decreases KEY_COLUMN - k,
    {
        out.push(' ');
        k += 1;
        assert(out@ =~= start + Seq::new((k - len) as nat, |i: int| ' '));
    }
    out
}

/// The row of a key.
fn row_of_key(key: &str, words: String) -> (r: Line)
    ensures
        line_view(r@) == key_row(key@, words@),
{
    line_of_two(fill_column(key), Style::fg(ACCENT), words, Style::plain())
}

/// The rows of the help.
fn rows_of_help(config: &Config) -> (r: Vec<Line>)
    ensures
        line_views(r@) == help_rows(config@),
        r@.len() == HELP@.len() + HELP_TAIL,
{
    let ghost all = Seq::new(HELP@.len(), |i: int| key_row(HELP@[i].0@, HELP@[i].1@));
    let mut rows: Vec<Line> = Vec::new();
    let mut i: usize = 0;
    assert(line_views(rows@) == all.take(0));
    while i < HELP.len()
        invariant
            i <= HELP@.len(),
            all == Seq::new(HELP@.len(), |i: int| key_row(HELP@[i].0@, HELP@[i].1@)),
            line_views(rows@) == all.take(i as int),
        decreases HELP@.len() - i,
    {
        let line: Line = row_of_key(HELP[i].0, HELP[i].1.to_owned());
        assert(all[i as int] == line_view(line@));
        push_line(&mut rows, line);
        assert(all.take(i + 1) =~= all.take(i as int).push(all[i as int]));
        i += 1;
    }
    assert(all.take(i as int) == all);
    push_line(&mut rows, line_of("".to_owned(), Style::plain()));
    push_line(&mut rows, row_of_key("データ", config.data_dir.clone()));
    push_line(&mut rows, row_of_key("設定の出どころ", config.source.clone()));
    push_line(&mut rows, line_of("".to_owned(), Style::plain()));
    push_line(&mut rows, line_of("任意のキーで閉じる".to_owned(), Style::fg(DIM)));
    assert(line_views(rows@) =~= help_rows(config@));
    assert(line_views(rows@).len() == rows@.len());
    rows
}

/// The place of the help: in the middle of the screen, as high as its rows where they fit.
pub open spec fn popup_of(area: Area) -> Area {
    let height = types::least(HELP@.len() + HELP_TAIL + 2, area.height as int);
    let width = types::least(76, types::less(area.width as int, 2));
    Area {
        x: (area.x + types::less(area.width as int, width) / 2) as u16,
        y: (area.y + types::less(area.height as int, height) / 2) as u16,
        width: width as u16,
        height: height as u16,
    }
}

/// The place of the help.
pub fn help_popup(area: Area) -> (r: Area)
    requires
        area.x + area.width <= u16::MAX,
        area.y + area.height <= u16::MAX,
    ensures
        r == popup_of(area),
{
    let wanted: usize = HELP.len() + HELP_TAIL + 2;
    let height: u16 = if wanted < area.height as usize {
        wanted as u16
    } else {
        area.height
    };
    let room: u16 = area.width.saturating_sub(2);
    let width: u16 = if 76 < room {
        76
    } else {
        room
    };
    Area {
        x: area.x + (area.width - width) / 2,
        y: area.y + (area.height - height) / 2,
        width,
        height,
    }
}

/// The help in a pane of a height. Where its rows do not fit, it is scrolled no further than
/// to its end, and the title tells how far.
pub open spec fn help_view(s: AppView, height: int) -> PanelView {
    let rows = help_rows(s.config);
    let past = types::less(rows.len() as int, inner_rows(height));
    let scroll = types::least(s.help_scroll, past);
    PanelView {
        title: if past > 0 {
            "キー操作 "@ + number::decimal((scroll + 1) as nat) + "/"@ + number::decimal(
                (past + 1) as nat,
            )
        } else {
            "キー操作"@
        },
        focused: true,
        rows,
        selected: None,
        cursor: cursor_of(true),
        scroll: scroll as u16,
    }
}

/// The help in a pane of a height.
pub fn help_panel(app: &App, height: u16) -> (r: Panel)
    ensures
        r@ == help_view(app@, height as int),
{
    let rows: Vec<Line> = rows_of_help(&app.config);
    assert(line_views(rows@).len() == rows@.len());
    let inner: usize = rows_inside(height);
    let past: usize = if rows.len() < inner {
        0
    } else {
        rows.len() - inner
    };
    let scroll: usize = if app.help_scroll < past {
        app.help_scroll
    } else {
        past
    };
    let title: String = if past > 0 {
        let mut s: String = counted("キー操作 ", scroll + 1, "/");
        push_number(&mut s, (past + 1) as u64);
        s
    } else {
        "キー操作".to_owned()
    };
    Panel {
        title,
        focused: true,
        rows,
        selected: None,
        cursor: cursor_style(true),
        scroll: scroll as u16,
    }
}

/// How many rows fit into a pane of a height.
pub fn rows_inside(height: u16) -> (r: usize)
    ensures
        r == inner_rows(height as int),
{
    if height < 3 {
        1
    } else {
        (height - 2) as usize
    }
}

impl App {
    /// Keeps in mind how many rows fit into the pane that pages are turned in.
    pub fn fit_viewport(&mut self, height: u16)
        ensures
            final(self)@ == (AppView { viewport: inner_rows(height as int), ..old(self)@ }),
    {
        self.viewport = rows_inside(height);
        assert(self@ =~= (AppView { viewport: inner_rows(height as int), ..old(self)@ }));
    }
}

/// The help lies inside the screen.
pub proof fn law_help_is_inside(area: Area)
    requires
        area.x + area.width <= u16::MAX,
        area.y + area.height <= u16::MAX,
    ensures
        area.x <= popup_of(area).x,
        area.y <= popup_of(area).y,
        popup_of(area).x + popup_of(area).width <= area.x + area.width,
        popup_of(area).y + popup_of(area).height <= area.y + area.height,
{
}

} // verus!
