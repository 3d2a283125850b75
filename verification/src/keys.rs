//! What keys mean.

use vstd::prelude::*;
use vstd::view::View as _;

use crate::app::state::{App, AppView};
use crate::app::types::{Focus, Mode, Move, Msg, View};

verus! {

/// A key without its modifiers.
#[derive(Debug, Clone, Copy, PartialEq, Eq, Structural)]
pub enum KeyCode {
    Char(char),
    Enter,
    Esc,
    Tab,
    BackTab,
    Backspace,
    Up,
    Down,
    Left,
    Right,
    PageUp,
    PageDown,
    Home,
    End,
    /// A key that nothing is bound to.
    Other,
}

/// A key that was pressed.
#[derive(Debug, Clone, Copy, PartialEq, Eq, Structural)]
pub struct KeyEvent {
    pub code: KeyCode,
    pub ctrl: bool,
}

/// The keys and what they do, as the help shows them.
pub const HELP: [(&'static str, &'static str); 20] = [
    ("j / k, ↓ / ↑", "選択を上下に移動"),
    ("Ctrl-d / Ctrl-u", "半画面ずつ移動"),
    ("g / G", "先頭 / 末尾へ"),
    ("1 / 2 / 3 / 4", "ノート / ToDo / プロジェクト / 検索"),
    ("Tab / Shift-Tab", "Menu を順に切り替え（検索の入力中も効く）"),
    ("h / l", "一覧と本文のフォーカスを移動"),
    ("Enter", "ノートは本文へ、検索は該当箇所へジャンプ"),
    ("Space", "ToDo / タスクの状態を進める（未着手→進行中→完了）"),
    ("t", "今日の ToDo を開く / 進行中のタスクから作る"),
    ("o", "エントリ / プロジェクトを新しく作る（$EDITOR）"),
    ("e", "エントリ / タスク一覧を編集する（$EDITOR）"),
    ("D", "エントリを削除する（確認あり）"),
    ("/", "全文検索。Esc で元のビューに戻る"),
    ("a", "ノート一覧を直近だけ / 全件で切り替え"),
    ("A", "アーカイブ済みプロジェクトの表示を切り替え"),
    ("J / K", "プロジェクトの並びを下 / 上へ入れ替え"),
    ("r", "データを再読み込み"),
    ("?", "このヘルプ"),
    ("q, Ctrl-c", "終了"),
    ("Esc", "モードを抜ける / メッセージを消す"),
];

/// What a key means while a question waits: anything but y and Enter is no.
pub open spec fn in_confirm(key: KeyEvent) -> Msg {
    if key.code == KeyCode::Char('y') || key.code == KeyCode::Char('Y') || key.code
        == KeyCode::Enter {
        Msg::ConfirmYes
    } else {
        Msg::ConfirmNo
    }
}

/// What a key means while a query is typed. Characters go into the query.
pub open spec fn in_search(key: KeyEvent) -> Option<Msg> {
    match key.code {
        KeyCode::Esc => Some(Msg::SearchCancel),
        KeyCode::Tab => Some(Msg::NextView),
        KeyCode::BackTab => Some(Msg::PrevView),
        KeyCode::Enter => Some(Msg::SearchCommit),
        KeyCode::Backspace => Some(Msg::SearchBackspace),
        KeyCode::Down => Some(Msg::Move(Move::Down)),
        KeyCode::Up => Some(Msg::Move(Move::Up)),
        KeyCode::Char(c) => if !key.ctrl {
            Some(Msg::SearchInput(c))
        } else if c == 'u' {
            Some(Msg::SearchClear)
        } else if c == 'n' {
            Some(Msg::Move(Move::Down))
        } else if c == 'p' {
            Some(Msg::Move(Move::Up))
        } else {
            None
        },
        _ => None,
    }
}

/// What a character means that is bound on every screen, with or without control.
pub open spec fn bound_char(c: char) -> Option<Msg> {
    if c == 'q' {
        Some(Msg::Quit)
    } else if c == '?' {
        Some(Msg::ToggleHelp)
    } else if c == '/' {
        Some(Msg::SearchStart)
    } else if c == 'r' {
        Some(Msg::Reload)
    } else if c == 'a' {
        Some(Msg::ToggleAllNotes)
    } else if c == 'A' {
        Some(Msg::ToggleArchived)
    } else if c == '1' {
        Some(Msg::SwitchView(View::Notes))
    } else if c == '2' {
        Some(Msg::SwitchView(View::Todo))
    } else if c == '3' {
        Some(Msg::SwitchView(View::Projects))
    } else if c == '4' {
        Some(Msg::SwitchView(View::Search))
    } else if c == 'j' {
        Some(Msg::Move(Move::Down))
    } else if c == 'k' {
        Some(Msg::Move(Move::Up))
    } else if c == 'g' {
        Some(Msg::Move(Move::Top))
    } else if c == 'G' {
        Some(Msg::Move(Move::Bottom))
    } else if c == 't' {
        Some(Msg::TodayTodo)
    } else if c == 'o' {
        Some(Msg::NewEntry)
    } else if c == 'e' {
        Some(Msg::EditEntry)
    } else if c == 'D' {
        Some(Msg::DeleteEntry)
    } else if c == ' ' {
        Some(Msg::CycleTodo)
    } else {
        None
    }
}

/// What a character means on a screen.
pub open spec fn char_in_normal(view: View, focus: Focus, c: char, ctrl: bool) -> Option<Msg> {
    if bound_char(c) is Some {
        bound_char(c)
    } else if c == 'J' && view is Projects {
        Some(Msg::MoveProject(1))
    } else if c == 'K' && view is Projects {
        Some(Msg::MoveProject((-1) as i32))
    } else if c == 'd' && ctrl {
        Some(Msg::Move(Move::HalfDown))
    } else if c == 'u' && ctrl {
        Some(Msg::Move(Move::HalfUp))
    } else if c == 's' && view is Todo {
        Some(Msg::CycleTodoSort)
    } else if c == 'f' && view is Todo {
        Some(Msg::ToggleTodoFilter)
    } else if c == 'l' {
        to_the_right(focus)
    } else if c == 'h' {
        to_the_left(focus)
    } else {
        None
    }
}

/// What a key means that leads to the pane on the right. From the last one it leads nowhere.
pub open spec fn to_the_right(focus: Focus) -> Option<Msg> {
    match focus {
        Focus::List => Some(Msg::ToggleFocus),
        Focus::Entries => Some(Msg::FocusRight),
        Focus::Detail => None,
    }
}

/// What a key means that leads to the pane on the left. From the first one it leads nowhere.
pub open spec fn to_the_left(focus: Focus) -> Option<Msg> {
    match focus {
        Focus::List => None,
        Focus::Entries => Some(Msg::FocusLeft),
        Focus::Detail => Some(Msg::ToggleFocus),
    }
}

/// What a key means on a screen.
pub open spec fn in_normal(view: View, focus: Focus, key: KeyEvent) -> Option<Msg> {
    match key.code {
        KeyCode::Char(c) => char_in_normal(view, focus, c, key.ctrl),
        KeyCode::Tab => Some(Msg::NextView),
        KeyCode::BackTab => Some(Msg::PrevView),
        KeyCode::PageDown => Some(Msg::Move(Move::PageDown)),
        KeyCode::PageUp => Some(Msg::Move(Move::PageUp)),
        KeyCode::Down => Some(Msg::Move(Move::Down)),
        KeyCode::Up => Some(Msg::Move(Move::Up)),
        KeyCode::Home => Some(Msg::Move(Move::Top)),
        KeyCode::End => Some(Msg::Move(Move::Bottom)),
        KeyCode::Right => to_the_right(focus),
        KeyCode::Left => to_the_left(focus),
        KeyCode::Enter => match view {
            View::Search => Some(Msg::SearchCommit),
            View::Todo => Some(Msg::CycleTodo),
            _ => Some(Msg::ToggleFocus),
        },
        KeyCode::Esc => if view is Search {
            Some(Msg::SearchCancel)
        } else {
            Some(Msg::DismissStatus)
        },
        _ => None,
    }
}

/// What a key means in a state.
pub open spec fn meaning(app: AppView, key: KeyEvent) -> Option<Msg> {
    if key.ctrl && key.code == KeyCode::Char('c') {
        Some(Msg::Quit)
    } else {
        match app.mode {
            Mode::Help => if key.code == KeyCode::Char('q') {
                Some(Msg::Quit)
            } else {
                Some(Msg::ToggleHelp)
            },
            Mode::Search => in_search(key),
            Mode::Confirm => Some(in_confirm(key)),
            Mode::Normal => in_normal(app.view, app.focus, key),
        }
    }
}

/// Takes a key to what it means.
pub fn handle(app: &App, key: KeyEvent) -> (r: Option<Msg>)
    ensures
        r == meaning(app@, key),
{
    if key.ctrl && key.code == KeyCode::Char('c') {
        return Some(Msg::Quit);
    }
    match app.mode {
        Mode::Help => if key.code == KeyCode::Char('q') {
            Some(Msg::Quit)
        } else {
            Some(Msg::ToggleHelp)
        },
        Mode::Search => search_mode(key),
        Mode::Confirm => Some(confirm_mode(key)),
        Mode::Normal => normal_mode(app.view, app.focus, key),
    }
}

/// Takes a key while a question waits.
fn confirm_mode(key: KeyEvent) -> (r: Msg)
    ensures
        r == in_confirm(key),
{
    if key.code == KeyCode::Char('y') || key.code == KeyCode::Char('Y') || key.code
        == KeyCode::Enter {
        Msg::ConfirmYes
    } else {
        Msg::ConfirmNo
    }
}

/// Takes a key while a query is typed.
fn search_mode(key: KeyEvent) -> (r: Option<Msg>)
    ensures
        r == in_search(key),
{
    match key.code {
        KeyCode::Esc => Some(Msg::SearchCancel),
        KeyCode::Tab => Some(Msg::NextView),
        KeyCode::BackTab => Some(Msg::PrevView),
        KeyCode::Enter => Some(Msg::SearchCommit),
        KeyCode::Backspace => Some(Msg::SearchBackspace),
        KeyCode::Char('u') if key.ctrl => Some(Msg::SearchClear),
        KeyCode::Char('n') if key.ctrl => Some(Msg::Move(Move::Down)),
        KeyCode::Char('p') if key.ctrl => Some(Msg::Move(Move::Up)),
        KeyCode::Down => Some(Msg::Move(Move::Down)),
        KeyCode::Up => Some(Msg::Move(Move::Up)),
        KeyCode::Char(c) if !key.ctrl => Some(Msg::SearchInput(c)),
        _ => None,
    }
}

/// Takes a key on a screen.
fn normal_mode(view: View, focus: Focus, key: KeyEvent) -> (r: Option<Msg>)
    ensures
        r == in_normal(view, focus, key),
{
    match key.code {
        KeyCode::Char('q') => Some(Msg::Quit),
        KeyCode::Char('?') => Some(Msg::ToggleHelp),
        KeyCode::Char('/') => Some(Msg::SearchStart),
        KeyCode::Char('r') => Some(Msg::Reload),
        KeyCode::Char('a') => Some(Msg::ToggleAllNotes),
        KeyCode::Char('A') => Some(Msg::ToggleArchived),
        KeyCode::Char('J') if view == View::Projects => Some(Msg::MoveProject(1)),
        KeyCode::Char('K') if view == View::Projects => Some(Msg::MoveProject(-1)),
        KeyCode::Char('1') => Some(Msg::SwitchView(View::Notes)),
        KeyCode::Char('2') => Some(Msg::SwitchView(View::Todo)),
        KeyCode::Char('3') => Some(Msg::SwitchView(View::Projects)),
        KeyCode::Char('4') => Some(Msg::SwitchView(View::Search)),
        KeyCode::Tab => Some(Msg::NextView),
        KeyCode::BackTab => Some(Msg::PrevView),
        KeyCode::Char('d') if key.ctrl => Some(Msg::Move(Move::HalfDown)),
        KeyCode::Char('u') if key.ctrl => Some(Msg::Move(Move::HalfUp)),
        KeyCode::PageDown => Some(Msg::Move(Move::PageDown)),
        KeyCode::PageUp => Some(Msg::Move(Move::PageUp)),
        KeyCode::Char('j') | KeyCode::Down => Some(Msg::Move(Move::Down)),
        KeyCode::Char('k') | KeyCode::Up => Some(Msg::Move(Move::Up)),
        KeyCode::Char('g') | KeyCode::Home => Some(Msg::Move(Move::Top)),
        KeyCode::Char('G') | KeyCode::End => Some(Msg::Move(Move::Bottom)),
        KeyCode::Char('s') if view == View::Todo => Some(Msg::CycleTodoSort),
        KeyCode::Char('f') if view == View::Todo => Some(Msg::ToggleTodoFilter),
        KeyCode::Char('l') | KeyCode::Right => match focus {
            Focus::List => Some(Msg::ToggleFocus),
            Focus::Entries => Some(Msg::FocusRight),
            Focus::Detail => None,
        },
        KeyCode::Char('h') | KeyCode::Left => match focus {
            Focus::List => None,
            Focus::Entries => Some(Msg::FocusLeft),
            Focus::Detail => Some(Msg::ToggleFocus),
        },
        KeyCode::Char('t') => Some(Msg::TodayTodo),
        KeyCode::Char('o') => Some(Msg::NewEntry),
        KeyCode::Char('e') => Some(Msg::EditEntry),
        KeyCode::Char('D') => Some(Msg::DeleteEntry),
        KeyCode::Char(' ') => Some(Msg::CycleTodo),
        KeyCode::Enter => match view {
            View::Search => Some(Msg::SearchCommit),
            View::Notes => Some(Msg::ToggleFocus),
            View::Todo => Some(Msg::CycleTodo),
            View::Projects => Some(Msg::ToggleFocus),
        },
        KeyCode::Esc if view == View::Search => Some(Msg::SearchCancel),
        KeyCode::Esc => Some(Msg::DismissStatus),
        _ => None,
    }
}

/// Control and c end the program from every state.
pub proof fn law_ctrl_c_quits(app: AppView)
    ensures
        meaning(app, (KeyEvent { code: KeyCode::Char('c'), ctrl: true })) == Some(Msg::Quit),
{
}

/// A question is only ever answered with yes by a y or by Enter.
pub proof fn law_only_yes_confirms(app: AppView, key: KeyEvent)
    requires
        meaning(app, key) == Some(Msg::ConfirmYes),
    ensures
        app.mode is Confirm,
        key.code == KeyCode::Char('y') || key.code == KeyCode::Char('Y') || key.code
            == KeyCode::Enter,
{
}

/// While the help is shown, every key but those that end the program closes it.
pub proof fn law_help_closes(app: AppView, key: KeyEvent)
    requires
        app.mode is Help,
    ensures
        meaning(app, key) == Some(Msg::ToggleHelp) || meaning(app, key) == Some(Msg::Quit),
        meaning(app, key) == Some(Msg::Quit) <==> key.code == KeyCode::Char('q') || (key.ctrl
            && key.code == KeyCode::Char('c')),
{
}

/// Whether a key is a character, with or without control.
pub open spec fn is_char(key: KeyEvent, c: char) -> bool {
    key.code == KeyCode::Char(c)
}

/// Whether a key is bound on the screen itself: no question waits, no query is typed, the help
/// is closed, and it does not end the program.
pub open spec fn on_screen(app: AppView, key: KeyEvent) -> bool {
    app.mode is Normal && !(key.ctrl && is_char(key, 'c'))
}

/// Whether a key is taken while a query is typed.
pub open spec fn in_query(app: AppView, key: KeyEvent) -> bool {
    app.mode is Search && !(key.ctrl && is_char(key, 'c'))
}

/// Each way to move has its keys, and no other key moves.
pub proof fn law_keys_that_move(app: AppView, key: KeyEvent)
    ensures
        ({
            let m = meaning(app, key);
            let n = on_screen(app, key);
            let q = in_query(app, key);
            &&& m == Some(Msg::Move(Move::Down)) <==> (n && (is_char(key, 'j') || key.code
                == KeyCode::Down)) || (q && (key.code == KeyCode::Down || (key.ctrl && is_char(
                key,
                'n',
            ))))
            &&& m == Some(Msg::Move(Move::Up)) <==> (n && (is_char(key, 'k') || key.code
                == KeyCode::Up)) || (q && (key.code == KeyCode::Up || (key.ctrl && is_char(
                key,
                'p',
            ))))
            &&& m == Some(Msg::Move(Move::Top)) <==> n && (is_char(key, 'g') || key.code
                == KeyCode::Home)
            &&& m == Some(Msg::Move(Move::Bottom)) <==> n && (is_char(key, 'G') || key.code
                == KeyCode::End)
            &&& m == Some(Msg::Move(Move::PageDown)) <==> n && key.code == KeyCode::PageDown
            &&& m == Some(Msg::Move(Move::PageUp)) <==> n && key.code == KeyCode::PageUp
            &&& m == Some(Msg::Move(Move::HalfDown)) <==> n && key.ctrl && is_char(key, 'd')
            &&& m == Some(Msg::Move(Move::HalfUp)) <==> n && key.ctrl && is_char(key, 'u')
            &&& m == Some(Msg::NextView) <==> (n || q) && key.code == KeyCode::Tab
            &&& m == Some(Msg::PrevView) <==> (n || q) && key.code == KeyCode::BackTab
            &&& m == Some(Msg::SwitchView(View::Notes)) <==> n && is_char(key, '1')
            &&& m == Some(Msg::SwitchView(View::Todo)) <==> n && is_char(key, '2')
            &&& m == Some(Msg::SwitchView(View::Projects)) <==> n && is_char(key, '3')
            &&& m == Some(Msg::SwitchView(View::Search)) <==> n && is_char(key, '4')
            &&& m == Some(Msg::FocusRight) <==> n && app.focus is Entries && (is_char(key, 'l')
                || key.code == KeyCode::Right)
            &&& m == Some(Msg::FocusLeft) <==> n && app.focus is Entries && (is_char(key, 'h')
                || key.code == KeyCode::Left)
            &&& m == Some(Msg::ToggleFocus) <==> n && {
                ||| app.focus is List && (is_char(key, 'l') || key.code == KeyCode::Right)
                ||| app.focus is Detail && (is_char(key, 'h') || key.code == KeyCode::Left)
                ||| (app.view is Notes || app.view is Projects) && key.code == KeyCode::Enter
            }
        }),
{
}

/// Each thing that can be done has its keys, and no other key does it.
pub proof fn law_keys_that_act(app: AppView, key: KeyEvent)
    ensures
        ({
            let m = meaning(app, key);
            let n = on_screen(app, key);
            let q = in_query(app, key);
            let stop = key.ctrl && is_char(key, 'c');
            &&& m == Some(Msg::Quit) <==> stop || (is_char(key, 'q') && (app.mode is Normal
                || app.mode is Help))
            &&& m == Some(Msg::ToggleHelp) <==> !stop && ((app.mode is Normal && is_char(key, '?'))
                || (app.mode is Help && !is_char(key, 'q')))
            &&& m == Some(Msg::SearchStart) <==> n && is_char(key, '/')
            &&& m == Some(Msg::Reload) <==> n && is_char(key, 'r')
            &&& m == Some(Msg::ToggleAllNotes) <==> n && is_char(key, 'a')
            &&& m == Some(Msg::ToggleArchived) <==> n && is_char(key, 'A')
            &&& m == Some(Msg::MoveProject(1)) <==> n && app.view is Projects && is_char(key, 'J')
            &&& m == Some(Msg::MoveProject((-1) as i32)) <==> n && app.view is Projects && is_char(
                key,
                'K',
            )
            &&& m == Some(Msg::CycleTodoSort) <==> n && app.view is Todo && is_char(key, 's')
            &&& m == Some(Msg::ToggleTodoFilter) <==> n && app.view is Todo && is_char(key, 'f')
            &&& m == Some(Msg::TodayTodo) <==> n && is_char(key, 't')
            &&& m == Some(Msg::NewEntry) <==> n && is_char(key, 'o')
            &&& m == Some(Msg::EditEntry) <==> n && is_char(key, 'e')
            &&& m == Some(Msg::DeleteEntry) <==> n && is_char(key, 'D')
            &&& m == Some(Msg::CycleTodo) <==> n && (is_char(key, ' ') || (app.view is Todo
                && key.code == KeyCode::Enter))
            &&& m == Some(Msg::DismissStatus) <==> n && app.view !is Search && key.code
                == KeyCode::Esc
            &&& m == Some(Msg::SearchCancel) <==> key.code == KeyCode::Esc && (q || (n
                && app.view is Search))
            &&& m == Some(Msg::SearchCommit) <==> key.code == KeyCode::Enter && (q || (n
                && app.view is Search))
            &&& m == Some(Msg::SearchBackspace) <==> q && key.code == KeyCode::Backspace
            &&& m == Some(Msg::SearchClear) <==> q && key.ctrl && is_char(key, 'u')
            &&& m == Some(Msg::ConfirmYes) <==> app.mode is Confirm && !stop && (is_char(key, 'y')
                || is_char(key, 'Y') || key.code == KeyCode::Enter)
            &&& m == Some(Msg::ConfirmNo) <==> app.mode is Confirm && !stop && !(is_char(key, 'y')
                || is_char(key, 'Y') || key.code == KeyCode::Enter)
        }),
{
}

/// A character that is typed into a query without control goes into it as it is.
pub proof fn law_typed_characters_go_into_the_query(app: AppView, key: KeyEvent, c: char)
    ensures
        meaning(app, key) == Some(Msg::SearchInput(c)) <==> app.mode is Search && !key.ctrl
            && is_char(key, c),
{
}

} // verus!
