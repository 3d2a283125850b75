use nota::app::state::App;
use nota::app::types::{Focus, Mode, Move, Msg, View};
use nota::config::Config;
use nota::keys::{handle, KeyCode, KeyEvent, HELP};

fn app() -> App {
    let config = Config {
        data_dir: "/nonexistent".to_string(),
        source: "test".to_string(),
        recent_notes: 30,
        project_done_limit: 5,
    };
    App::new(config, vec![], vec![], 0)
}

fn press(code: KeyCode) -> KeyEvent {
    KeyEvent { code, ctrl: false }
}

fn press_ctrl(code: KeyCode) -> KeyEvent {
    KeyEvent { code, ctrl: true }
}

#[test]
fn ctrl_c_quits_from_any_mode() {
    let mut a = app();
    a.mode = Mode::Search;
    assert!(matches!(
        handle(&a, press_ctrl(KeyCode::Char('c'))),
        Some(Msg::Quit)
    ));
    for mode in [Mode::Normal, Mode::Confirm, Mode::Help] {
        a.mode = mode;
        assert!(matches!(
            handle(&a, press_ctrl(KeyCode::Char('c'))),
            Some(Msg::Quit)
        ));
    }
}

#[test]
fn typing_in_search_mode_feeds_the_query() {
    let mut a = app();
    a.mode = Mode::Search;
    assert!(matches!(
        handle(&a, press(KeyCode::Char('j'))),
        Some(Msg::SearchInput('j'))
    ));
}

#[test]
fn j_navigates_in_normal_mode() {
    let a = app();
    assert!(matches!(
        handle(&a, press(KeyCode::Char('j'))),
        Some(Msg::Move(Move::Down))
    ));
}

#[test]
fn help_mode_exits_on_any_key() {
    let mut a = app();
    a.mode = Mode::Help;
    assert!(matches!(
        handle(&a, press(KeyCode::Char('x'))),
        Some(Msg::ToggleHelp)
    ));
    assert!(matches!(
        handle(&a, press(KeyCode::Char('q'))),
        Some(Msg::Quit)
    ));
}

#[test]
fn focus_keys_respect_current_side() {
    let mut a = app();
    a.focus = Focus::List;
    assert!(handle(&a, press(KeyCode::Char('h'))).is_none());
    assert!(matches!(
        handle(&a, press(KeyCode::Char('l'))),
        Some(Msg::ToggleFocus)
    ));
    a.focus = Focus::Detail;
    assert!(matches!(
        handle(&a, press(KeyCode::Char('h'))),
        Some(Msg::ToggleFocus)
    ));
    assert!(handle(&a, press(KeyCode::Char('l'))).is_none());
}

#[test]
fn the_middle_pane_leads_both_ways() {
    let mut a = app();
    a.focus = Focus::Entries;
    for code in [KeyCode::Char('h'), KeyCode::Left] {
        assert!(matches!(handle(&a, press(code)), Some(Msg::FocusLeft)));
    }
    for code in [KeyCode::Char('l'), KeyCode::Right] {
        assert!(matches!(handle(&a, press(code)), Some(Msg::FocusRight)));
    }
}

#[test]
fn every_help_row_is_filled() {
    assert!(HELP.iter().all(|(k, d)| !k.is_empty() && !d.is_empty()));
    assert_eq!(HELP.len(), 20);
}

#[test]
fn a_question_takes_anything_else_for_no() {
    let mut a = app();
    a.mode = Mode::Confirm;
    for code in [KeyCode::Char('y'), KeyCode::Char('Y'), KeyCode::Enter] {
        assert!(matches!(handle(&a, press(code)), Some(Msg::ConfirmYes)));
    }
    for code in [KeyCode::Char('n'), KeyCode::Esc, KeyCode::Tab, KeyCode::Other] {
        assert!(matches!(handle(&a, press(code)), Some(Msg::ConfirmNo)));
    }
}

#[test]
fn search_mode_keeps_a_few_keys_for_itself() {
    let mut a = app();
    a.mode = Mode::Search;
    assert!(matches!(
        handle(&a, press_ctrl(KeyCode::Char('u'))),
        Some(Msg::SearchClear)
    ));
    assert!(matches!(
        handle(&a, press_ctrl(KeyCode::Char('n'))),
        Some(Msg::Move(Move::Down))
    ));
    assert!(matches!(
        handle(&a, press_ctrl(KeyCode::Char('p'))),
        Some(Msg::Move(Move::Up))
    ));
    assert!(handle(&a, press_ctrl(KeyCode::Char('x'))).is_none());
    assert!(matches!(handle(&a, press(KeyCode::Tab)), Some(Msg::NextView)));
    assert!(matches!(handle(&a, press(KeyCode::Esc)), Some(Msg::SearchCancel)));
    assert!(handle(&a, press(KeyCode::Home)).is_none());
}

#[test]
fn some_keys_depend_on_the_screen() {
    let mut a = app();
    assert!(handle(&a, press(KeyCode::Char('J'))).is_none());
    assert!(matches!(handle(&a, press(KeyCode::Enter)), Some(Msg::ToggleFocus)));
    assert!(matches!(handle(&a, press(KeyCode::Esc)), Some(Msg::DismissStatus)));
    a.view = View::Projects;
    assert!(matches!(
        handle(&a, press(KeyCode::Char('J'))),
        Some(Msg::MoveProject(1))
    ));
    assert!(matches!(
        handle(&a, press(KeyCode::Char('K'))),
        Some(Msg::MoveProject(-1))
    ));
    assert!(handle(&a, press(KeyCode::Char('s'))).is_none());
    assert!(handle(&a, press(KeyCode::Char('f'))).is_none());
    a.view = View::Todo;
    assert!(matches!(handle(&a, press(KeyCode::Enter)), Some(Msg::CycleTodo)));
    assert!(matches!(handle(&a, press(KeyCode::Char('s'))), Some(Msg::CycleTodoSort)));
    assert!(matches!(handle(&a, press(KeyCode::Char('f'))), Some(Msg::ToggleTodoFilter)));
    a.view = View::Search;
    assert!(matches!(handle(&a, press(KeyCode::Enter)), Some(Msg::SearchCommit)));
    assert!(matches!(handle(&a, press(KeyCode::Esc)), Some(Msg::SearchCancel)));
    assert!(handle(&a, press(KeyCode::Char('d'))).is_none());
    assert!(matches!(
        handle(&a, press_ctrl(KeyCode::Char('d'))),
        Some(Msg::Move(Move::HalfDown))
    ));
    assert!(matches!(
        handle(&a, press_ctrl(KeyCode::Char('u'))),
        Some(Msg::Move(Move::HalfUp))
    ));
    assert!(matches!(
        handle(&a, press(KeyCode::PageDown)),
        Some(Msg::Move(Move::PageDown))
    ));
    assert!(matches!(
        handle(&a, press(KeyCode::PageUp)),
        Some(Msg::Move(Move::PageUp))
    ));
}
