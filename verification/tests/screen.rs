use nota::app::state::App;
use nota::app::types::{Focus, LineKind, Mode, Move, Msg, View};
use nota::config::Config;
use nota::keys::HELP;
use nota::model::note::DailyNote;
use nota::model::project::{Project, ProjectTask};
use nota::model::status::TaskStatus;
use nota::screen::{
    badge, body_panel, border_style, cursor_style, entries_panel, footer, help_panel, help_popup,
    hits_panel, notes_panel, projects_panel, query_cursor, query_panel, rows_inside, style_for,
    tab_index, tasks_panel, todo_days_panel, todo_panel, Area, Color, Line, Style, ACCENT, DIM,
    DONE, PROGRESS,
};

fn note(date: &str) -> DailyNote {
    let text = format!("# {date}\n\n<!-- acta:comment\nid: i\ncreated: {date} 09:30\ncreated_ms: 1\ntags: ToDo\n-->\n# ToDo\n- P\n  - [x] 済み\n  - [ ] 次\n> 引用\n<!-- /acta:comment -->\n\n");
    DailyNote::parse(date.to_string(), format!("/{date}.md"), &text)
}

fn task(title: &str, status: TaskStatus) -> ProjectTask {
    ProjectTask {
        id: String::new(),
        title: title.to_string(),
        status,
        updated_at_ms: 0,
    }
}

fn project(name: &str, archived_at_ms: i64, tasks: Vec<ProjectTask>) -> Project {
    Project {
        id: String::new(),
        name: name.to_string(),
        dir_name: name.to_string(),
        created_at_ms: 0,
        updated_at_ms: 0,
        archived_at_ms,
        issue_url: String::new(),
        tasks,
        knowledge: String::new(),
        source_dir: String::new(),
    }
}

fn app() -> App {
    let config = Config {
        data_dir: "/nonexistent".to_string(),
        source: "test".to_string(),
        recent_notes: 1,
        project_done_limit: 1,
    };
    let tasks = vec![
        task("一", TaskStatus::InProgress),
        task("二", TaskStatus::Backlog),
        task("三", TaskStatus::Done),
        task("四", TaskStatus::Done),
    ];
    App::new(
        config,
        vec![note("2026-01-02"), note("2026-01-01")],
        vec![project("P", 0, tasks), project("古い", 1, vec![])],
        0,
    )
}

fn plain(line: &Line) -> String {
    line.iter().map(|s| s.text.clone()).collect()
}

fn all(rows: &Vec<Line>) -> Vec<String> {
    rows.iter().map(plain).collect()
}

#[test]
fn notes_are_listed_with_their_entries() {
    let mut a = app();
    let p = notes_panel(&a);
    assert_eq!(p.title, "日付 1/2");
    assert!(p.focused);
    assert_eq!(all(&p.rows), vec!["2026-01-02 1"]);
    assert_eq!(p.rows[0][1].style, Style::fg(DIM));
    assert_eq!(p.selected, Some(0));
    assert_eq!(p.cursor, cursor_style(true));
    a.update(Msg::ToggleAllNotes);
    assert_eq!(notes_panel(&a).title, "日付");
    assert_eq!(notes_panel(&a).rows.len(), 2);
}

#[test]
fn entries_show_their_time_tags_and_title() {
    let p = entries_panel(&app());
    assert_eq!(p.title, "エントリ 1 件");
    assert_eq!(all(&p.rows), vec!["09:30 [ToDo] ToDo"]);
    assert!(!p.focused);
}

#[test]
fn the_body_marks_its_chosen_task() {
    let mut a = app();
    let p = body_panel(&a);
    assert_eq!(p.title, "2026-01-02");
    assert_eq!(all(&p.rows), vec!["# ToDo", "- P", "  - [x] 済み", "  - [ ] 次", "> 引用"]);
    assert_eq!(p.rows[0][0].style, style_for(LineKind::Heading));
    assert_eq!(p.rows[4][0].style, style_for(LineKind::Quote));
    assert_eq!(p.selected, None);
    a.update(Msg::CycleTodo);
    assert_eq!(body_panel(&a).selected, Some(2));
    a.update(Msg::Move(Move::Down));
    assert_eq!(body_panel(&a).selected, Some(3));
    a.detail_scroll = 100;
    assert_eq!(body_panel(&a).scroll, 4);
}

#[test]
fn the_task_list_tells_its_order_and_filter() {
    let mut a = app();
    a.update(Msg::SwitchView(View::Todo));
    let p = todo_panel(&a);
    assert_eq!(p.title, "ToDo  2 件  日付順  Space で状態を進める");
    assert_eq!(all(&p.rows), vec!["P", "  2026-01-02 [x] 済み", "  2026-01-02 [ ] 次"]);
    assert_eq!(p.rows[0][0].style, Style::bold(ACCENT));
    assert_eq!(p.rows[1][1].style, Style::fg(DONE));
    assert_eq!(p.rows[2][1].style, Style::fg(Color::Reset));
    assert!(p.rows[1][2].style.crossed_out);
    // 見出しは選べない。
    assert_eq!(p.selected, Some(1));
    a.update(Msg::ToggleFocus);
    a.update(Msg::Move(Move::Down));
    assert_eq!(todo_panel(&a).selected, Some(2));
    a.update(Msg::Move(Move::Top));
    a.update(Msg::ToggleFocus);
    let days = todo_days_panel(&a);
    assert_eq!(days.title, "日付 1/2");
    assert_eq!(all(&days.rows), vec!["2026-01-02"]);
    a.update(Msg::ToggleTodoFilter);
    assert_eq!(
        todo_panel(&a).title,
        "ToDo  1 件  日付順  未完のみ  Space で状態を進める"
    );
}

#[test]
fn projects_show_what_is_left() {
    let mut a = app();
    a.update(Msg::SwitchView(View::Projects));
    let p = projects_panel(&a);
    assert_eq!(p.title, "プロジェクト");
    assert_eq!(all(&p.rows), vec!["P  未完 2"]);
    assert_eq!(p.rows[0][1].style, Style::fg(PROGRESS));
    a.update(Msg::ToggleArchived);
    assert_eq!(all(&projects_panel(&a).rows)[1], "古い (archived)  未完 0");
    assert_eq!(projects_panel(&a).rows[1][2].style, Style::fg(DIM));
}

#[test]
fn the_task_cursor_is_always_visible() {
    let mut a = app();
    a.update(Msg::SwitchView(View::Projects));
    let p = tasks_panel(&a);
    assert_eq!(p.title, "P  l で選ぶ");
    assert_eq!(
        all(&p.rows),
        vec![
            "Backlog (1)",
            "▌   二",
            "",
            "InProgress (1)",
            "  - 一",
            "",
            "Done (2)",
            "  x 三",
            "完了 他 1 件",
            "",
        ]
    );
    assert_eq!(p.rows[0][0].style, Style::bold(ACCENT));
    assert_eq!(p.rows[6][0].style, Style::bold(DONE));
    a.update(Msg::ToggleFocus);
    assert_eq!(tasks_panel(&a).title, "P  Space で状態を進める");
    a.update(Msg::Move(Move::Bottom));
    assert_eq!(all(&tasks_panel(&a).rows)[7], "▌ x 三");
}

#[test]
fn an_address_stands_above_the_tasks() {
    let mut a = app();
    a.projects[0].issue_url = "https://example.com".to_string();
    assert_eq!(all(&tasks_panel(&a).rows)[0], "https://example.com");
    assert_eq!(all(&tasks_panel(&a).rows)[1], "");
    a.projects[0].issue_url = String::new();
    a.projects[0].tasks = vec![];
    assert_eq!(all(&tasks_panel(&a).rows), vec!["タスクがありません"]);
    a.projects = vec![];
    assert_eq!(tasks_panel(&a).title, "プロジェクトがありません");
    assert!(tasks_panel(&a).rows.is_empty());
}

#[test]
fn the_search_shows_query_and_hits() {
    let mut a = app();
    a.update(Msg::SearchStart);
    assert_eq!(hits_panel(&a).title, "語を入力すると全エントリを検索");
    for c in "済み".chars() {
        a.update(Msg::SearchInput(c));
    }
    assert_eq!(all(&query_panel(&a).rows), vec!["/ 済み"]);
    assert!(query_panel(&a).focused);
    let p = hits_panel(&a);
    assert_eq!(p.title, "2 件  Enter で該当箇所へ");
    assert_eq!(all(&p.rows)[0], "2026-01-02 - [x] 済み");
    assert!(!p.focused);
    let area = Area {
        x: 2,
        y: 3,
        width: 40,
        height: 3,
    };
    assert_eq!(query_cursor(&a.query, area), (7, 4));
    let narrow = Area { width: 6, ..area };
    assert_eq!(query_cursor(&a.query, narrow), (6, 4));
}

#[test]
fn footer_shows_the_confirmation() {
    let mut a = app();
    assert_eq!(
        plain(&footer(&a)),
        "ノート 1/2 / ToDo 未完 2 / プロジェクト 1   ? ヘルプ   q 終了"
    );
    a.update(Msg::DeleteEntry);
    assert_eq!(plain(&footer(&a)), "このエントリを削除しますか？ y / n");
    assert_eq!(footer(&a)[0].style, Style::black_on(PROGRESS));
    a.update(Msg::ConfirmNo);
    a.report("お知らせ".to_string());
    assert_eq!(plain(&footer(&a)), "お知らせ");
    assert_eq!(footer(&a)[0].style, Style::black_on(ACCENT));
}

#[test]
fn mode_badge_appears_in_the_tab_row() {
    let mut a = app();
    assert_eq!(badge(a.mode), None, "通常モードでバッジが出ている");
    a.update(Msg::SearchStart);
    assert_eq!(badge(a.mode), Some("SEARCH"), "検索中のバッジが出ていない");
    a.update(Msg::SearchCancel);
    a.update(Msg::DeleteEntry);
    assert_eq!(badge(a.mode), Some("CONFIRM"), "確認中のバッジが出ていない");
    assert_eq!(badge(Mode::Normal), None);
    assert_eq!(badge(Mode::Search), Some("SEARCH"));
    assert_eq!(badge(Mode::Confirm), Some("CONFIRM"));
    assert_eq!(badge(Mode::Help), Some("HELP"));
    for (i, view) in View::ALL.iter().enumerate() {
        assert_eq!(tab_index(*view), i);
    }
}

#[test]
fn help_popup_shows_keys_and_config_source() {
    let a = app();
    let p = help_panel(&a, 40);
    assert_eq!(p.title, "キー操作");
    let rows = all(&p.rows);
    assert_eq!(rows.len(), HELP.len() + 5);
    for (i, (key, words)) in HELP.iter().enumerate() {
        assert!(rows[i].starts_with(key) && rows[i].ends_with(words), "{key} の説明が切れている");
    }
    assert_eq!(rows[17], "?                 このヘルプ");
    assert_eq!(rows[21], "データ               /nonexistent");
    assert_eq!(rows[22], "設定の出どころ           test");
    assert_eq!(rows[24], "任意のキーで閉じる");
}

#[test]
fn help_scrolls_on_a_short_terminal() {
    let mut a = app();
    a.update(Msg::ToggleHelp);
    let p = help_panel(&a, 16);
    assert_eq!(p.title, "キー操作 1/12");
    assert_eq!(p.scroll, 0);
    let last = HELP[HELP.len() - 1].1;
    assert!(!all(&p.rows)[..14].iter().any(|r| r.contains(last)), "全部入ってしまっている");
    for _ in 0..30 {
        a.update(Msg::Move(Move::Down));
    }
    let p = help_panel(&a, 16);
    assert_eq!(p.scroll, 11);
    assert_eq!(p.title, "キー操作 12/12");
    assert!(all(&p.rows)[11..].iter().any(|r| r.contains(last)), "送っても出てこない");
    assert_eq!(help_panel(&a, 40).title, "キー操作");
}

#[test]
fn the_help_lies_in_the_middle() {
    let area = Area {
        x: 0,
        y: 0,
        width: 110,
        height: 40,
    };
    let popup = Area {
        x: 17,
        y: 6,
        width: 76,
        height: 27,
    };
    assert_eq!(help_popup(area), popup);
    let tiny = Area {
        x: 1,
        y: 1,
        width: 1,
        height: 2,
    };
    assert_eq!(help_popup(tiny).width, 0);
    assert_eq!(help_popup(tiny).height, 2);
}

#[test]
fn panes_have_at_least_one_row() {
    assert_eq!(rows_inside(0), 1);
    assert_eq!(rows_inside(3), 1);
    assert_eq!(rows_inside(10), 8);
    let mut a = app();
    a.fit_viewport(12);
    assert_eq!(a.viewport, 10);
    assert_eq!(a.focus, Focus::List);
    assert_eq!(border_style(true), (Style::fg(ACCENT), Style::bold(ACCENT)));
    assert_eq!(border_style(false), (Style::fg(DIM), Style::fg(DIM)));
}
