use nota::app::jobs::{Event, Job};
use nota::app::state::App;
use nota::app::types::{
    clamp, shift, short_time, Confirm, Focus, Mode, Move, Msg, TodoRow, TodoSort, View,
};
use nota::calendar::{CalendarDate, Moment};
use nota::config::Config;
use nota::editor::EditTarget;
use nota::keys::{handle, KeyCode, KeyEvent};
use nota::model::block::initial_note_text;
use nota::model::note::DailyNote;
use nota::model::project::{Project, ProjectTask};
use nota::model::status::TaskStatus;
use nota::screen::{projects_panel, tasks_panel, Line};
use nota::store::paths::{sort_projects, unique_dir_name};
use nota::store::project_file::{edit_archived, edit_tasks, project_text};

fn config(recent_notes: usize, project_done_limit: usize) -> Config {
    Config {
        data_dir: "/nonexistent".to_string(),
        source: "test".to_string(),
        recent_notes,
        project_done_limit,
    }
}

fn empty_app() -> App {
    let mut app = App::new(config(30, 5), vec![], vec![], 0);
    app.dismiss_splash();
    app
}

fn now() -> Moment {
    Moment {
        date: CalendarDate::from_ymd_opt(2026, 1, 31).expect("日付"),
        hour: 9,
        minute: 5,
        ms: 1000,
    }
}

const TODAY: &str = "2026-01-31";

/// Files in memory, and what was done to them.
struct World {
    notes: Vec<(String, String)>,
    projects: Vec<(String, String)>,
    order: Vec<String>,
    clip: Option<String>,
    refuse: bool,
    writes: usize,
}

impl World {
    fn new() -> World {
        World {
            notes: vec![],
            projects: vec![],
            order: vec![],
            clip: None,
            refuse: false,
            writes: 0,
        }
    }

    fn note(&mut self, date: &str, text: &str) {
        self.notes.push((date.to_string(), text.to_string()));
    }

    fn text(&self, date: &str) -> String {
        let found = self.notes.iter().find(|(d, _)| d == date);
        found.expect("ノートがある").1.clone()
    }

    fn read_notes(&self) -> Vec<DailyNote> {
        let mut all = self.notes.clone();
        all.sort_by(|a, b| b.0.cmp(&a.0));
        all.iter()
            .map(|(d, t)| DailyNote::parse(d.clone(), format!("/n/{d}.md"), t))
            .collect()
    }

    fn read_projects(&self) -> Vec<Project> {
        let all: Vec<Project> = self.projects.iter().map(|(d, t)| read_project(d, t)).collect();
        sort_projects(&all, &self.order)
    }

    fn app(&self, recent_notes: usize, done_limit: usize) -> App {
        let mut app = App::new(
            config(recent_notes, done_limit),
            self.read_notes(),
            self.read_projects(),
            0,
        );
        app.dismiss_splash();
        app
    }

    fn write_note(&mut self, note: &DailyNote) -> Result<(), String> {
        if self.refuse {
            return Err("書けない".to_string());
        }
        self.writes += 1;
        self.notes.retain(|(d, _)| *d != note.date);
        self.notes.push((note.date.clone(), note.to_text()));
        Ok(())
    }

    fn write_project(&mut self, dir: &str, text: Result<String, String>) -> Result<(), String> {
        if self.refuse {
            return Err("書けない".to_string());
        }
        let text = text?;
        self.writes += 1;
        for p in self.projects.iter_mut() {
            if p.0 == dir {
                p.1 = text.clone();
            }
        }
        Ok(())
    }

    fn project_text(&self, dir: &str) -> String {
        let found = self.projects.iter().find(|(d, _)| d == dir);
        found.expect("プロジェクトがある").1.clone()
    }

    fn perform(&mut self, app: &App, job: Job) -> Event {
        match job {
            Job::SaveNote { note_idx, .. } => Event::Saved(self.write_note(&app.notes[note_idx])),
            Job::SaveOpened { note } => Event::Saved(self.write_note(&note)),
            Job::SaveTasks { project_idx, tasks, now_ms } => {
                let dir = app.projects[project_idx].dir_name.clone();
                let text = edit_tasks(&self.project_text(&dir), &tasks, now_ms)
                    .map_err(|e| e.message().to_string());
                Event::Saved(self.write_project(&dir, text))
            }
            Job::SetArchived { project_idx, archived_at_ms, now_ms } => {
                let dir = app.projects[project_idx].dir_name.clone();
                let text = edit_archived(&self.project_text(&dir), archived_at_ms, now_ms)
                    .map_err(|e| e.message().to_string());
                Event::Saved(self.write_project(&dir, text))
            }
            Job::LoadProjects => Event::Projects(Ok(self.read_projects())),
            Job::LoadAll => Event::All(Ok((self.read_notes(), self.read_projects()))),
            Job::SaveOrder { order } => {
                if self.refuse {
                    return Event::Saved(Err("書けない".to_string()));
                }
                self.order = order;
                Event::Saved(Ok(()))
            }
            Job::CreateProject { name, now_ms } => {
                let taken: Vec<String> = self.projects.iter().map(|(d, _)| d.clone()).collect();
                let dir = unique_dir_name(&taken, &name, now_ms);
                let text = project_text(&name, &dir, now_ms).expect("書ける");
                self.projects.push((dir.clone(), text));
                Event::Created(Ok(dir))
            }
            Job::OpenNote { date } => {
                let text = match self.notes.iter().find(|(d, _)| *d == date) {
                    Some((_, t)) => t.clone(),
                    None => initial_note_text(&date),
                };
                Event::Opened(Ok(DailyNote::parse(date.clone(), format!("/n/{date}.md"), &text)))
            }
            Job::Copy { text } => {
                self.clip = Some(text);
                Event::Copied(Ok("pbcopy".to_string()))
            }
        }
    }

    fn run(&mut self, app: &mut App, first: Option<Job>) {
        let mut job = first;
        let mut steps = 0;
        while let Some(j) = job {
            let event = self.perform(app, j);
            job = app.resume_at(event, &now());
            steps += 1;
            assert!(steps < 50, "終わらない");
        }
    }

    fn tell(&mut self, app: &mut App, msg: Msg) {
        let job = app.update_at(msg, &now());
        self.run(app, job);
    }

    fn edit(&mut self, app: &mut App, target: EditTarget, text: Option<&str>) {
        let job = app.apply_edit_at(target, text.map(|t| t.to_string()), &now(), "new-id");
        self.run(app, job);
    }
}

fn read_project(dir: &str, text: &str) -> Project {
    let v: serde_json::Value = serde_json::from_str(text).expect("JSON");
    let tasks = v["tasks"].as_array().expect("配列");
    Project {
        id: v["id"].as_str().unwrap_or("").to_string(),
        name: v["name"].as_str().unwrap_or("").to_string(),
        dir_name: dir.to_string(),
        created_at_ms: 0,
        updated_at_ms: v["updatedAtMs"].as_i64().unwrap_or(0),
        archived_at_ms: v["archivedAtMs"].as_i64().unwrap_or(0),
        issue_url: String::new(),
        tasks: tasks
            .iter()
            .map(|t| ProjectTask {
                id: t["id"].as_str().unwrap_or("").to_string(),
                title: t["title"].as_str().unwrap_or("").to_string(),
                status: TaskStatus::from_name(t["status"].as_str().unwrap_or("")),
                updated_at_ms: 0,
            })
            .collect(),
        knowledge: String::new(),
        source_dir: String::new(),
    }
}

fn entry(date: &str, id: &str, tags: &str, body: &str) -> String {
    format!("<!-- acta:comment\nid: {id}\ncreated: {date} 09:00\ncreated_ms: 1\ntags: {tags}\n-->\n{body}\n<!-- /acta:comment -->\n\n")
}

fn seeded(count: usize, recent_notes: usize) -> (World, App) {
    let mut world = World::new();
    for day in 1..=count {
        let date = format!("2026-01-{day:02}");
        let body = format!("# ToDo: {date}\n- グループ\n  - [ ] タスク{day}");
        let block = entry(&date, &format!("id-{day}"), "ToDo", &body)
            .replace("created_ms: 1\n", &format!("created_ms: {day}\n"));
        let text = format!("# {date}\n\n{block}");
        world.note(&date, &text);
    }
    let app = world.app(recent_notes, 5);
    (world, app)
}

const ACTIVE: &str = "{\"name\": \"現役プロジェクト\", \"updatedAtMs\": 10, \"archivedAtMs\": 0, \
    \"keep\": \"me\", \"tasks\": [\
    {\"id\": \"t1\", \"title\": \"進行中のタスク\", \"status\": \"InProgress\", \"source\": \"github\", \
    \"sourceType\": \"issue\", \"sourceState\": \"open\"},\
    {\"id\": \"t2\", \"title\": \"未着手のタスク\", \"status\": \"Backlog\", \"source\": \"local\"},\
    {\"id\": \"t3\", \"title\": \"完了1\", \"status\": \"Done\", \"source\": \"local\"},\
    {\"id\": \"t4\", \"title\": \"完了2\", \"status\": \"Done\", \"source\": \"local\"},\
    {\"id\": \"t5\", \"title\": \"完了3\", \"status\": \"Done\", \"source\": \"local\"}]}";
const OLD: &str =
    "{\"name\": \"終わったプロジェクト\", \"updatedAtMs\": 5, \"archivedAtMs\": 3, \"tasks\": []}";

fn seeded_projects() -> (World, App) {
    let mut world = World::new();
    world.projects.push(("active".to_string(), ACTIVE.to_string()));
    world.projects.push(("old".to_string(), OLD.to_string()));
    let mut app = world.app(30, 2);
    world.tell(&mut app, Msg::SwitchView(View::Projects));
    (world, app)
}

fn with_a_row_by_hand() -> (World, App) {
    let (mut world, _) = seeded_projects();
    let body = "# ToDo: 2026/01/31（土）\n- 現役プロジェクト\n  - [-] 進行中のタスク\n  - [ ] 手で足した予定";
    world.note(TODAY, &format!("# {TODAY}\n\n{}", entry(TODAY, "t", "ToDo", body)));
    let mut app = world.app(30, 2);
    world.tell(&mut app, Msg::SwitchView(View::Projects));
    (world, app)
}

/// The task list of today as it is made of the tasks in progress.
fn with_todays_todo() -> (World, App) {
    let (mut world, mut app) = seeded_projects();
    world.tell(&mut app, Msg::TodayTodo);
    let request = app.take_edit_request().expect("要求が出る");
    world.edit(&mut app, request.target, Some(&request.initial));
    world.tell(&mut app, Msg::SwitchView(View::Projects));
    (world, app)
}

/// A task of the project that is in use, as its file holds it.
fn task(world: &World, title: &str) -> serde_json::Value {
    let v: serde_json::Value = serde_json::from_str(&world.project_text("active")).expect("JSON");
    let tasks = v["tasks"].as_array().expect("配列");
    tasks.iter().find(|t| t["title"] == title).expect("ある").clone()
}

fn titles(app: &App) -> Vec<String> {
    app.visible_todos().iter().map(|(_, i)| i.title.clone()).collect()
}

/// What rows show, without white space.
fn squashed(rows: &[Line]) -> String {
    rows.iter()
        .flatten()
        .flat_map(|span| span.text.chars())
        .filter(|c| !c.is_whitespace())
        .collect()
}

// ------------------------------------------------------------------------ cursors

#[test]
fn moves_within_bounds() {
    assert_eq!(shift(0, Move::Up, 9, 5), 0);
    assert_eq!(shift(9, Move::Down, 9, 5), 9);
    assert_eq!(shift(0, Move::Bottom, 9, 5), 9);
    assert_eq!(shift(9, Move::Top, 9, 5), 0);
    assert_eq!(shift(7, Move::PageUp, 9, 5), 2);
    assert_eq!(shift(7, Move::PageDown, 9, 5), 9);
}

#[test]
fn page_move_survives_zero_viewport() {
    assert_eq!(shift(3, Move::PageDown, 9, 0), 4);
}

#[test]
fn clamps_selection_to_length() {
    let mut sel = 5;
    clamp(&mut sel, 3);
    assert_eq!(sel, 2);
    clamp(&mut sel, 0);
    assert_eq!(sel, 0);
}

#[test]
fn extracts_time_only() {
    assert_eq!(short_time("2026-02-26 11:25").as_deref(), Some("11:25"));
    assert_eq!(short_time("2026-02-26"), None);
}

#[test]
fn help_closes_on_other_keys() {
    let mut app = empty_app();
    app.update(Msg::ToggleHelp);
    assert_eq!(app.mode, Mode::Help);
    // 送っても閉じない。
    app.update(Msg::Move(Move::Down));
    assert_eq!(app.mode, Mode::Help);
    // 閉じたらスクロール位置は戻る。
    app.update(Msg::ToggleHelp);
    assert_eq!(app.mode, Mode::Normal);
    assert_eq!(app.help_scroll, 0);
}

#[test]
fn navigation_is_safe_when_lists_are_empty() {
    let mut app = empty_app();
    for view in View::ALL {
        app.update(Msg::SwitchView(view));
        for m in [
            Move::Down,
            Move::Bottom,
            Move::PageDown,
            Move::Up,
            Move::Top,
        ] {
            app.update(Msg::Move(m));
        }
    }
    app.update(Msg::CycleTodo);
    assert!(app.status.is_some(), "ToDo が無いことを知らせる");
    assert!(!app.should_quit);
}

#[test]
fn search_narrows_and_clears() {
    let mut app = empty_app();
    app.update(Msg::SearchStart);
    for c in "terraform".chars() {
        app.update(Msg::SearchInput(c));
    }
    assert_eq!(app.query, "terraform");
    app.update(Msg::SearchClear);
    assert!(app.query.is_empty());
    assert!(app.hits.is_empty());
}

#[test]
fn splash_shows_on_start_and_dismisses() {
    let mut app = App::new(config(30, 5), vec![], vec![], 100);
    assert!(app.splash_visible(100), "起動直後にロゴが出ていない");
    assert!(app.splash_visible(1499));
    assert!(!app.splash_visible(1500));
    app.dismiss_splash();
    assert!(!app.splash_visible(100));
}

#[test]
fn quitting_is_told() {
    let mut app = empty_app();
    assert!(app.update(Msg::Quit).is_none());
    assert!(app.should_quit);
}

// -------------------------------------------------------------------------- lists

#[test]
fn note_list_starts_narrowed_and_expands() {
    let (mut world, mut app) = seeded(5, 2);
    assert_eq!(app.notes.len(), 5);
    assert_eq!(app.visible_notes(), 2, "直近 2 件に絞られていない");
    for _ in 0..10 {
        world.tell(&mut app, Msg::Move(Move::Down));
    }
    assert_eq!(app.note_sel, 1);
    world.tell(&mut app, Msg::ToggleAllNotes);
    assert_eq!(app.visible_notes(), 5, "全件に切り替わっていない");
    assert_eq!(app.status.as_deref(), Some("全 5 件を表示"));
    world.tell(&mut app, Msg::Move(Move::Bottom));
    assert_eq!(app.note_sel, 4);
    world.tell(&mut app, Msg::ToggleAllNotes);
    assert_eq!(app.visible_notes(), 2);
    assert_eq!(app.note_sel, 1, "選択が範囲外に残っている");
}

#[test]
fn zero_recent_notes_shows_everything() {
    let (_, app) = seeded(4, 0);
    assert_eq!(app.visible_notes(), 4);
}

#[test]
fn todos_are_collected_from_all_notes() {
    let (_, app) = seeded(5, 2);
    assert_eq!(app.todos.len(), 5);
    assert_eq!(app.visible_todo_dates(), vec!["2026-01-05", "2026-01-04"]);
    assert_eq!(app.todo_dates_total(), 5);
    assert_eq!(app.summary(), "ノート 2/5 / ToDo 未完 5 / プロジェクト 0");
}

#[test]
fn jumping_outside_the_window_expands_the_list() {
    let (mut world, mut app) = seeded(5, 2);
    world.tell(&mut app, Msg::SearchStart);
    for c in "タスク1".chars() {
        world.tell(&mut app, Msg::SearchInput(c));
    }
    assert_eq!(app.hits.len(), 1);
    assert_eq!(app.hits[0].preview, "- [ ] タスク1");
    world.tell(&mut app, Msg::SearchCommit);
    assert_eq!(app.view, View::Notes);
    assert_eq!(app.note_sel, 4);
    assert!(app.show_all_notes);
}

#[test]
fn search_wants_every_word_and_ignores_case() {
    let mut world = World::new();
    let a = entry("2026-01-01", "a", "Ops", "Terraform の作業\nstate を直す");
    let b = entry("2026-01-01", "b", "", "terraform だけ");
    world.note("2026-01-01", &format!("# 2026-01-01\n\n{a}{b}"));
    let mut app = world.app(30, 5);
    world.tell(&mut app, Msg::SearchStart);
    for c in "TERRAFORM state".chars() {
        world.tell(&mut app, Msg::SearchInput(c));
    }
    assert_eq!(app.hits.len(), 1);
    assert_eq!(app.hits[0].entry_idx, 0);
    assert_eq!(app.hits[0].preview, "Terraform の作業");
    world.tell(&mut app, Msg::SearchClear);
    for c in "ops".chars() {
        world.tell(&mut app, Msg::SearchInput(c));
    }
    assert_eq!(app.hits.len(), 1, "タグも探す");
}

#[test]
fn tab_cycles_menu_while_searching() {
    let (mut world, mut app) = seeded(1, 30);
    world.tell(&mut app, Msg::SearchStart);
    assert_eq!(app.view, View::Search);
    assert_eq!(app.mode, Mode::Search);
    world.tell(&mut app, Msg::NextView);
    assert_eq!(app.view, View::Notes);
    assert_eq!(app.mode, Mode::Normal, "入力モードが残っている");
    for _ in 0..3 {
        world.tell(&mut app, Msg::NextView);
    }
    assert_eq!(app.view, View::Search);
    assert_eq!(app.mode, Mode::Search, "検索に戻ったら入力できる");
    world.tell(&mut app, Msg::PrevView);
    assert_eq!(app.view, View::Projects);
    assert_eq!(app.mode, Mode::Normal);
}

#[test]
fn escape_leaves_search_for_the_previous_view() {
    let (mut world, mut app) = seeded(2, 30);
    // ノートビューから開いたらノートビューに戻る。
    world.tell(&mut app, Msg::SearchStart);
    assert_eq!(app.view, View::Search);
    assert_eq!(app.mode, Mode::Search);
    world.tell(&mut app, Msg::SearchCancel);
    assert_eq!(app.view, View::Notes, "元のビューに戻っていない");
    assert_eq!(app.mode, Mode::Normal);
    // ToDo ビューから開いたら ToDo ビューに戻る。
    world.tell(&mut app, Msg::SwitchView(View::Todo));
    world.tell(&mut app, Msg::SearchStart);
    world.tell(&mut app, Msg::SearchCancel);
    assert_eq!(app.view, View::Todo, "元のビューに戻っていない");
    // 4 で直接開いた場合も同じ。
    world.tell(&mut app, Msg::SwitchView(View::Projects));
    world.tell(&mut app, Msg::SwitchView(View::Search));
    world.tell(&mut app, Msg::SearchInput('x'));
    world.tell(&mut app, Msg::SearchCancel);
    assert_eq!(app.view, View::Projects);
}

#[test]
fn focus_goes_round_three_panes_in_notes() {
    let (mut world, mut app) = seeded(1, 30);
    world.tell(&mut app, Msg::FocusRight);
    assert_eq!(app.focus, Focus::Entries);
    world.tell(&mut app, Msg::FocusRight);
    world.tell(&mut app, Msg::FocusRight);
    assert_eq!(app.focus, Focus::Detail, "端で止まっていない");
    world.tell(&mut app, Msg::FocusCycle);
    assert_eq!(app.focus, Focus::List);
    world.tell(&mut app, Msg::FocusLeft);
    assert_eq!(app.focus, Focus::List);
}

#[test]
fn pages_and_half_pages_are_turned() {
    let (mut world, mut app) = seeded(30, 30);
    app.viewport = 10;
    world.tell(&mut app, Msg::Move(Move::PageDown));
    assert_eq!(app.note_sel, 10);
    world.tell(&mut app, Msg::Move(Move::HalfDown));
    assert_eq!(app.note_sel, 15);
    world.tell(&mut app, Msg::Move(Move::PageUp));
    assert_eq!(app.note_sel, 5);
    world.tell(&mut app, Msg::Move(Move::HalfUp));
    assert_eq!(app.note_sel, 0);
    app.viewport = 1;
    world.tell(&mut app, Msg::Move(Move::HalfDown));
    assert_eq!(app.note_sel, 1, "少なくとも 1 行は動く");
    assert_eq!(shift(8, Move::HalfDown, 9, 6), 9);
    assert_eq!(shift(2, Move::HalfUp, 9, 7), 0);
}

#[test]
fn keys_lead_out_of_the_middle_pane() {
    let (mut world, mut app) = seeded(1, 30);
    world.tell(&mut app, Msg::FocusRight);
    assert_eq!(app.focus, Focus::Entries);
    let key = |c: char| KeyEvent { code: KeyCode::Char(c), ctrl: false };
    let left = handle(&app, key('h')).expect("意味がある");
    world.tell(&mut app, left);
    assert_eq!(app.focus, Focus::List);
    world.tell(&mut app, Msg::FocusRight);
    let right = handle(&app, key('l')).expect("意味がある");
    world.tell(&mut app, right);
    assert_eq!(app.focus, Focus::Detail);
}

// ---------------------------------------------------------------------- task list

fn mixed_day() -> (World, App) {
    let mut world = World::new();
    let body = "# ToDo\n- Beta\n  - [x] 完了した作業\n  - [ ] 未着手の作業\n- Alpha\n  - [-] 進行中の作業";
    let text = format!("# 2026-01-02\n\n{}", entry("2026-01-02", "m", "ToDo", body));
    world.note("2026-01-02", &text);
    let done = "# ToDo\n- Beta\n  - [x] 片付いた作業";
    let text = format!("# 2026-01-03\n\n{}", entry("2026-01-03", "n", "ToDo", done));
    world.note("2026-01-03", &text);
    let mut app = world.app(30, 5);
    world.tell(&mut app, Msg::SwitchView(View::Todo));
    world.tell(&mut app, Msg::Move(Move::Down));
    world.tell(&mut app, Msg::ToggleFocus);
    (world, app)
}

#[test]
fn the_order_of_tasks_goes_round() {
    let (mut world, mut app) = mixed_day();
    assert_eq!(titles(&app), vec!["完了した作業", "未着手の作業", "進行中の作業"]);
    world.tell(&mut app, Msg::CycleTodoSort);
    assert_eq!(app.todo_sort, TodoSort::Status);
    assert_eq!(titles(&app), vec!["未着手の作業", "進行中の作業", "完了した作業"]);
    world.tell(&mut app, Msg::CycleTodoSort);
    assert_eq!(app.todo_sort, TodoSort::Project);
    assert_eq!(titles(&app), vec!["進行中の作業", "完了した作業", "未着手の作業"]);
    assert_eq!(app.status.as_deref(), Some("ToDo をプロジェクト順に並べます"));
    world.tell(&mut app, Msg::CycleTodoSort);
    assert_eq!(app.todo_sort, TodoSort::Date);
}

#[test]
fn another_order_keeps_the_chosen_row() {
    let (mut world, mut app) = mixed_day();
    assert_eq!(titles(&app)[app.todo_sel], "完了した作業");
    world.tell(&mut app, Msg::CycleTodoSort);
    assert_eq!(titles(&app)[app.todo_sel], "完了した作業", "別の行に移っている");
    assert_eq!(app.todo_sel, 2);
    // 絞り込みで消える行を選んでいたら、範囲の中に戻す。
    world.tell(&mut app, Msg::ToggleTodoFilter);
    assert!(app.todo_sel < titles(&app).len(), "範囲外を指している");
}

#[test]
fn filtering_follows_the_chosen_row_to_its_day() {
    let (mut world, mut app) = mixed_day();
    world.tell(&mut app, Msg::Move(Move::Bottom));
    assert_eq!(titles(&app)[app.todo_sel], "進行中の作業");
    // 完了だけの日が消えて、日付の位置がずれる。
    world.tell(&mut app, Msg::ToggleTodoFilter);
    assert_eq!(app.visible_todo_dates(), vec!["2026-01-02"]);
    assert_eq!(titles(&app)[app.todo_sel], "進行中の作業");
    world.tell(&mut app, Msg::ToggleTodoFilter);
    assert_eq!(app.selected_todo_date().as_deref(), Some("2026-01-02"));
    assert_eq!(titles(&app)[app.todo_sel], "進行中の作業");
}

#[test]
fn the_filter_leaves_open_tasks() {
    let (mut world, mut app) = mixed_day();
    world.tell(&mut app, Msg::ToggleTodoFilter);
    assert!(app.todo_open_only);
    assert_eq!(titles(&app), vec!["未着手の作業", "進行中の作業"]);
    assert_eq!(app.status.as_deref(), Some("未完の 2 件だけ表示"));
    world.tell(&mut app, Msg::ToggleTodoFilter);
    assert_eq!(app.todo_dates_total(), 2);
}

#[test]
fn a_filtered_row_is_changed_where_it_stands() {
    let (mut world, mut app) = mixed_day();
    world.tell(&mut app, Msg::ToggleTodoFilter);
    world.tell(&mut app, Msg::Move(Move::Bottom));
    assert_eq!(titles(&app)[app.todo_sel], "進行中の作業");
    let before = world.text("2026-01-02");
    world.tell(&mut app, Msg::CycleTodo);
    assert_eq!(
        world.text("2026-01-02"),
        before.replace("- [-] 進行中の作業", "- [x] 進行中の作業")
    );
    assert_eq!(app.status.as_deref(), Some("進行中の作業 → Done"));
}

#[test]
fn rows_stand_under_their_project() {
    let (_, app) = mixed_day();
    let rows = app.todo_rows();
    assert_eq!(rows.len(), 5);
    assert!(matches!(&rows[0], TodoRow::Group(g) if g == "Beta"));
    assert!(matches!(rows[1], TodoRow::Task(0)));
    assert!(matches!(rows[2], TodoRow::Task(1)));
    assert!(matches!(&rows[3], TodoRow::Group(g) if g == "Alpha"));
    assert!(matches!(rows[4], TodoRow::Task(2)));
}

#[test]
fn the_list_is_copied_as_it_is_shown() {
    let (mut world, mut app) = mixed_day();
    world.tell(&mut app, Msg::CopyTodo);
    assert_eq!(
        world.clip.as_deref(),
        Some("# ToDo: 2026/01/02（金）\n- Beta\n  - [x] 完了した作業\n  - [ ] 未着手の作業\n- Alpha\n  - [-] 進行中の作業")
    );
    assert_eq!(
        app.status.as_deref(),
        Some("ToDo を Markdown でコピーしました（6 行 / pbcopy）")
    );
    world.tell(&mut app, Msg::SwitchView(View::Notes));
    world.tell(&mut app, Msg::CopyTodo);
    assert_eq!(app.status.as_deref(), Some("ToDo ビュー（2）でコピーできます"));
}

#[test]
fn a_refused_row_is_put_back() {
    let (mut world, mut app) = mixed_day();
    let before = app.notes[1].to_text();
    world.refuse = true;
    world.tell(&mut app, Msg::CycleTodo);
    assert_eq!(app.notes[1].to_text(), before);
    assert_eq!(app.status.as_deref(), Some("保存に失敗しました: 書けない"));
}

#[test]
fn a_refused_row_keeps_its_capital_mark() {
    let mut world = World::new();
    let body = "# ToDo\n- P\n  - [X] a";
    world.note("2026-01-02", &format!("# 2026-01-02\n\n{}", entry("2026-01-02", "m", "ToDo", body)));
    let mut app = world.app(30, 5);
    world.tell(&mut app, Msg::SwitchView(View::Todo));
    world.tell(&mut app, Msg::ToggleFocus);
    let before = app.notes[0].to_text();
    let rows = app.todos.len();
    world.refuse = true;
    world.tell(&mut app, Msg::CycleTodo);
    assert_eq!(app.notes[0].to_text(), before);
    assert!(before.contains("  - [X] a"));
    assert_eq!(app.todos.len(), rows);
    assert_eq!(app.todos[0].1.status, TaskStatus::Done);
    assert_eq!(app.status.as_deref(), Some("保存に失敗しました: 書けない"));
}

#[test]
fn the_body_takes_states_too() {
    let (mut world, mut app) = seeded(1, 30);
    world.tell(&mut app, Msg::CycleTodo);
    assert_eq!(app.focus, Focus::Detail);
    assert_eq!(world.writes, 0, "先にフォーカスだけが移る");
    assert_eq!(app.note_task_positions(), vec![2]);
    let before = app.notes[0].to_text();
    world.refuse = true;
    world.tell(&mut app, Msg::CycleTodo);
    assert_eq!(app.notes[0].to_text(), before, "失敗したら戻る");
    world.refuse = false;
    world.tell(&mut app, Msg::CycleTodo);
    assert!(world.text("2026-01-01").contains("  - [-] タスク1\n"));
}

// ------------------------------------------------------------------------ entries

#[test]
fn editing_an_entry_replaces_only_the_body() {
    let (mut world, mut app) = seeded(2, 30);
    world.tell(&mut app, Msg::EditEntry);
    let request = app.take_edit_request().expect("エディタ要求が出る");
    assert!(app.take_edit_request().is_none());
    assert!(matches!(
        request.target,
        EditTarget::EntryBody { note_idx: 0, entry_idx: 0 }
    ));
    // 渡されるのは 1 行目のタグと本文だけ。メタ行やマーカーは含まない。
    assert!(request.initial.starts_with("tags: ToDo\n\n"));
    assert!(request.initial.contains("- [ ] タスク2"));
    assert!(!request.initial.contains("acta:comment"));
    assert!(!request.initial.contains("created_ms"));
    world.edit(&mut app, request.target, Some("tags: ToDo\n\n書き換えた本文\n"));
    let text = world.text("2026-01-02");
    assert!(text.contains("-->\n書き換えた本文\n<!-- /acta:comment -->"));
    assert!(text.contains("id: id-2"), "メタ行が失われている");
    assert!(text.contains("created_ms: 2"));
    assert!(text.ends_with("\n\n"), "末尾が変わっている");
}

#[test]
fn closing_the_editor_unchanged_writes_nothing() {
    let (mut world, mut app) = seeded(1, 30);
    let before = world.text("2026-01-01");
    world.tell(&mut app, Msg::EditEntry);
    let request = app.take_edit_request().expect("要求が出る");
    world.edit(&mut app, request.target, None);
    assert_eq!(app.status.as_deref(), Some("変更はありません"));
    assert_eq!(world.text("2026-01-01"), before);
    assert_eq!(world.writes, 0);
}

#[test]
fn emptying_the_body_is_rejected() {
    let (mut world, mut app) = seeded(1, 30);
    let before = world.text("2026-01-01");
    world.tell(&mut app, Msg::EditEntry);
    let request = app.take_edit_request().expect("要求が出る");
    world.edit(&mut app, request.target, Some("tags: ToDo\n\n   \n"));
    assert_eq!(world.text("2026-01-01"), before);
    assert_eq!(world.writes, 0);
    assert_eq!(app.status.as_deref(), Some("本文が空のままなので変更しませんでした"));
}

#[test]
fn a_refused_edit_is_put_back() {
    let (mut world, mut app) = seeded(1, 30);
    let before = app.notes[0].to_text();
    world.tell(&mut app, Msg::EditEntry);
    let request = app.take_edit_request().expect("要求が出る");
    world.refuse = true;
    world.edit(&mut app, request.target, Some("別の本文"));
    assert_eq!(app.notes[0].to_text(), before);
    assert_eq!(app.status.as_deref(), Some("保存に失敗しました: 書けない"));
}

#[test]
fn creating_an_entry_appends_to_today() {
    let (mut world, mut app) = seeded(1, 30);
    world.tell(&mut app, Msg::NewEntry);
    let request = app.take_edit_request().expect("要求が出る");
    assert!(matches!(request.target, EditTarget::NewEntry));
    // タグ欄だけが入った状態で開く。
    assert_eq!(request.initial, "tags: \n\n");
    world.edit(&mut app, request.target, Some("tags: Memo, 検証\n\n新しく書いた本文\n"));
    assert_eq!(app.mode, Mode::Normal);
    let text = world.text(TODAY);
    assert!(text.starts_with("# 2026-01-31\n\n<!-- acta:comment\nid: new-id\ncreated: 2026-01-31 09:05\n"));
    assert!(text.contains("新しく書いた本文"));
    assert!(text.contains("tags: Memo, 検証"));
    assert!(text.contains("<!-- /acta:comment -->\n\n"));
    // 読み直しても壊れていない。
    let note = app.notes.iter().find(|n| n.date == TODAY).expect("ある");
    assert_eq!(note.entries.len(), 1);
    assert_eq!(note.to_text(), text);
    assert_eq!(app.view, View::Notes);
    assert_eq!(app.focus, Focus::Detail);
    assert_eq!(app.selected_note().expect("ある").date, TODAY);
    assert_eq!(app.status.as_deref(), Some("エントリを追加しました"));
}

#[test]
fn creating_with_an_empty_body_is_skipped() {
    let (mut world, mut app) = seeded(1, 30);
    world.tell(&mut app, Msg::NewEntry);
    let request = app.take_edit_request().expect("要求が出る");
    world.edit(&mut app, request.target, Some("tags: x\n\n  \n"));
    assert_eq!(app.notes.len(), 1, "ノートが増えている");
    assert_eq!(world.writes, 0);
    assert_eq!(app.status.as_deref(), Some("本文が空なので作成しませんでした"));
}

#[test]
fn deleting_asks_first() {
    let (mut world, mut app) = seeded(2, 30);
    let before = world.text("2026-01-02");
    world.tell(&mut app, Msg::DeleteEntry);
    assert_eq!(app.mode, Mode::Confirm);
    assert!(matches!(app.confirm, Some(Confirm::DeleteEntry { .. })));
    assert_eq!(world.text("2026-01-02"), before);

    world.tell(&mut app, Msg::ConfirmNo);
    assert_eq!(app.mode, Mode::Normal);
    assert_eq!(world.text("2026-01-02"), before);

    // y なら消える。
    world.tell(&mut app, Msg::DeleteEntry);
    world.tell(&mut app, Msg::ConfirmYes);
    let after = world.text("2026-01-02");
    assert!(!after.contains("acta:comment"), "エントリが残っている: {after}");
    assert!(after.starts_with("# 2026-01-02"), "見出しが消えている: {after}");
    assert_eq!(app.todos.len(), 1, "ToDo 一覧が更新されていない");
    assert_eq!(app.status.as_deref(), Some("削除しました"));
    world.tell(&mut app, Msg::DeleteEntry);
    assert_eq!(app.status.as_deref(), Some("削除するエントリがありません"));
}

#[test]
fn a_refused_delete_is_put_back() {
    let (mut world, mut app) = seeded(1, 30);
    let before = app.notes[0].to_text();
    world.refuse = true;
    world.tell(&mut app, Msg::DeleteEntry);
    world.tell(&mut app, Msg::ConfirmYes);
    assert_eq!(app.notes[0].to_text(), before);
    assert_eq!(app.notes[0].entries.len(), 1);
}

#[test]
fn editing_tags_from_the_first_line() {
    let (mut world, mut app) = seeded(1, 30);
    world.tell(&mut app, Msg::EditEntry);
    let request = app.take_edit_request().expect("要求が出る");
    world.edit(&mut app, request.target, Some("tags: ToDo, 追加したタグ\n\n本文\n"));
    let text = world.text("2026-01-01");
    assert!(text.contains("tags: ToDo, 追加したタグ\n"), "タグが入っていない: {text}");
    assert!(text.contains("id: id-1"), "メタ行が壊れている");
    assert_eq!(app.notes[0].entries[0].tags, vec!["ToDo", "追加したタグ"]);
}

#[test]
fn removing_the_tag_line_clears_tags() {
    let (mut world, mut app) = seeded(1, 30);
    world.tell(&mut app, Msg::EditEntry);
    let request = app.take_edit_request().expect("要求が出る");
    world.edit(&mut app, request.target, Some("本文だけ残す\n"));
    let text = world.text("2026-01-01");
    assert!(text.contains("tags: \n"), "タグが空になっていない: {text}");
    assert!(app.notes[0].entries[0].tags.is_empty());
}

#[test]
fn summaries_hold_time_title_and_tags() {
    let (_, app) = seeded(1, 30);
    let list = app.entry_summaries();
    assert_eq!(list.len(), 1);
    assert_eq!(list[0].time.as_deref(), Some("09:00"));
    assert_eq!(list[0].title, "ToDo: 2026-01-01");
    assert_eq!(list[0].tags, vec!["ToDo"]);
    assert!(list[0].todo);
}

#[test]
fn reloading_counts_the_notes() {
    let (mut world, mut app) = seeded(2, 30);
    world.note("2026-01-09", "# 2026-01-09\n\n");
    world.tell(&mut app, Msg::Reload);
    assert_eq!(app.notes.len(), 3);
    assert_eq!(app.status.as_deref(), Some("再読み込みしました（3 件）"));
}

// ----------------------------------------------------------------------- projects

#[test]
fn archived_projects_are_hidden_by_default() {
    let (mut world, mut app) = seeded_projects();
    assert_eq!(app.projects.len(), 2, "読み込み自体は全件");
    assert_eq!(app.visible_projects().len(), 1, "既定で絞られていない");
    assert_eq!(app.selected_project().expect("ある").name, "現役プロジェクト");
    let out = squashed(&projects_panel(&app).rows);
    assert!(!out.contains("終わったプロジェクト"), "隠れていない");
    world.tell(&mut app, Msg::ToggleArchived);
    assert_eq!(app.visible_projects().len(), 2);
    let out = squashed(&projects_panel(&app).rows);
    assert!(out.contains("終わったプロジェクト"), "出ていない");
    world.tell(&mut app, Msg::Move(Move::Bottom));
    assert_eq!(app.project_sel, 1);
    world.tell(&mut app, Msg::ToggleArchived);
    assert_eq!(app.project_sel, 0, "選択が範囲外に残っている");
}

#[test]
fn done_tasks_are_capped() {
    let (_, app) = seeded_projects();
    // 進行中 1 + 未着手 1 + 完了 2（上限）。
    assert_eq!(app.visible_tasks().len(), 4);
    assert_eq!(app.hidden_done(), 1);

    let out = squashed(&tasks_panel(&app).rows);
    assert!(out.contains("完了他1件"), "隠した件数が出ていない: {out}");
    assert!(out.contains("完了1") && out.contains("完了2"));
    assert!(!out.contains("完了3"), "上限を超えて出ている");
}

#[test]
fn zero_done_limit_shows_everything() {
    let (_, mut app) = seeded_projects();
    app.config.project_done_limit = 0;
    assert_eq!(app.visible_tasks().len(), 5);
    assert_eq!(app.hidden_done(), 0);
}

#[test]
fn space_first_leads_to_the_tasks() {
    let (mut world, mut app) = seeded_projects();
    assert_eq!(app.focus, Focus::List);
    world.tell(&mut app, Msg::CycleTodo);
    assert_eq!(app.focus, Focus::Detail, "タスク側へ移っていない");
    assert_eq!(world.writes, 0, "一番上を勝手に変えている");
    assert_eq!(app.visible_tasks()[app.task_sel].title, "未着手のタスク");
    world.tell(&mut app, Msg::CycleTodo);
    let v: serde_json::Value = serde_json::from_str(&world.project_text("active")).expect("JSON");
    assert_eq!(v["keep"], "me");
    let tasks = v["tasks"].as_array().expect("配列");
    let changed = tasks.iter().find(|t| t["title"] == "未着手のタスク").expect("ある");
    assert_eq!(changed["status"], "InProgress");
    assert_eq!(changed["updatedAtMs"], 1000);
    // カーソルは同じタスクを追う。
    assert_eq!(app.visible_tasks()[app.task_sel].title, "未着手のタスク");
}

#[test]
fn creating_a_project_selects_it() {
    let (mut world, mut app) = seeded_projects();
    world.tell(&mut app, Msg::NewEntry);
    let request = app.take_edit_request().expect("要求が出る");
    assert!(matches!(request.target, EditTarget::NewProject));
    world.edit(&mut app, request.target, Some("\n  later \n無視される行\n"));
    assert_eq!(app.selected_project().expect("ある").name, "later");
    assert_eq!(
        app.status.as_deref(),
        Some("later を作成しました（e でタスクを足せます）")
    );
}

#[test]
fn creating_a_project_needs_a_name() {
    let (mut world, mut app) = seeded_projects();
    let before = app.projects.len();
    world.tell(&mut app, Msg::NewEntry);
    let request = app.take_edit_request().expect("要求が出る");
    world.edit(&mut app, request.target, Some("\n   \n"));
    assert_eq!(app.projects.len(), before, "作られている");
    assert_eq!(world.projects.len(), 2);
    assert_eq!(app.status.as_deref(), Some("名前が空なので作成しませんでした"));
}

#[test]
fn o_still_creates_an_entry_outside_the_project_view() {
    let (mut world, mut app) = seeded_projects();
    world.tell(&mut app, Msg::SwitchView(View::Notes));
    world.tell(&mut app, Msg::NewEntry);
    let request = app.take_edit_request().expect("要求が出る");
    assert!(matches!(request.target, EditTarget::NewEntry));
}

#[test]
fn reordering_projects() {
    let (mut world, mut app) = seeded_projects();
    world.tell(&mut app, Msg::ToggleArchived);
    let names = |app: &App| -> Vec<String> {
        app.visible_projects()
            .iter()
            .map(|i| app.projects[*i].name.clone())
            .collect()
    };
    let before = names(&app);
    assert_eq!(before.len(), 2);
    world.tell(&mut app, Msg::MoveProject(1));
    let after = names(&app);
    assert_eq!(after, vec![before[1].clone(), before[0].clone()], "入れ替わっていない");
    assert_eq!(app.selected_project().expect("ある").name, before[0]);
    world.tell(&mut app, Msg::MoveProject(1));
    assert_eq!(names(&app), after);
    world.tell(&mut app, Msg::MoveProject(-1));
    assert_eq!(names(&app), before);
    assert_eq!(app.selected_project().expect("ある").name, before[0]);
    assert_eq!(app.project_sel, 0);

    // 保存されているので、開き直しても同じ並び。
    world.tell(&mut app, Msg::MoveProject(1));
    let expected = names(&app);
    world.projects.reverse();
    let mut again = world.app(30, 2);
    world.tell(&mut again, Msg::ToggleArchived);
    assert_eq!(names(&again), expected, "並びが残っていない");
}

#[test]
fn hidden_projects_stay_where_they_are() {
    let mut world = World::new();
    for (dir, archived) in [("a", 0), ("h", 9), ("b", 0)] {
        let text = format!(
            "{{\"name\": \"{dir}\", \"updatedAtMs\": 1, \"archivedAtMs\": {archived}, \"tasks\": []}}"
        );
        world.projects.push((dir.to_string(), text));
    }
    world.order = vec!["a".to_string(), "h".to_string(), "b".to_string()];
    let mut app = world.app(30, 5);
    world.tell(&mut app, Msg::SwitchView(View::Projects));
    world.tell(&mut app, Msg::MoveProject(1));
    assert_eq!(world.order, vec!["b", "h", "a"]);
    assert_eq!(app.selected_project().expect("ある").name, "a");
    assert_eq!(app.status.as_deref(), Some("a を 下 へ"));
    world.refuse = true;
    world.tell(&mut app, Msg::MoveProject(-1));
    assert_eq!(app.status.as_deref(), Some("並びを保存できません: 書けない"));
    assert_eq!(world.order, vec!["b", "h", "a"]);
}

#[test]
fn archiving_takes_a_project_off_the_list() {
    let (mut world, mut app) = seeded_projects();
    world.tell(&mut app, Msg::ToggleArchiveProject);
    assert!(app.visible_projects().is_empty());
    assert_eq!(
        app.status.as_deref(),
        Some("現役プロジェクト をアーカイブしました（A で表示）")
    );
    world.tell(&mut app, Msg::ToggleArchived);
    assert!(app.projects.iter().all(|p| p.is_archived()));
    world.tell(&mut app, Msg::ToggleArchiveProject);
    assert_eq!(app.projects.iter().filter(|p| p.is_archived()).count(), 1);
}

#[test]
fn a_checklist_replaces_the_tasks() {
    let (mut world, mut app) = seeded_projects();
    world.tell(&mut app, Msg::EditEntry);
    let request = app.take_edit_request().expect("要求が出る");
    assert_eq!(
        request.initial,
        "- [ ] 未着手のタスク\n- [-] 進行中のタスク\n- [x] 完了1\n- [x] 完了2\n- [x] 完了3\n"
    );
    // 状態の変更、追加、削除をまとめて行う。
    let edited = "- [-] 進行中のタスク\n- [x] 未着手のタスク\n- [ ] 追加したタスク\n- [x] 完了1\n";
    world.edit(&mut app, request.target, Some(edited));

    let v: serde_json::Value = serde_json::from_str(&world.project_text("active")).expect("JSON");
    let tasks = v["tasks"].as_array().expect("配列");
    assert_eq!(tasks.len(), 4, "件数が合わない");
    let titles: Vec<&str> = tasks.iter().map(|t| t["title"].as_str().expect("文字列")).collect();
    assert_eq!(titles, vec!["進行中のタスク", "未着手のタスク", "追加したタスク", "完了1"]);
    // 状態の変更が入り、既存タスクは id を保つ。
    assert_eq!(tasks[1]["status"], "Done");
    assert_eq!(tasks[1]["id"], "t2");
    assert_eq!(tasks[0]["sourceType"], "issue");
    // 追加分には新しい id が振られる。
    assert_ne!(tasks[2]["id"], serde_json::Value::Null);
    assert_eq!(tasks[2]["status"], "Backlog");
    assert_eq!(tasks[2]["source"], "local");
}

#[test]
fn a_checklist_takes_lines_without_a_box() {
    let (mut world, mut app) = seeded_projects();
    let edited = "- [-] 進行中のタスク\n名前だけの行\n";
    world.edit(&mut app, EditTarget::ProjectTasks { project_idx: 0 }, Some(edited));
    let p = app.selected_project().expect("ある");
    assert_eq!(p.tasks.len(), 2);
    assert_eq!(p.tasks[1].title, "名前だけの行");
    assert_eq!(p.tasks[1].status, TaskStatus::Backlog);
}

#[test]
fn emptying_the_checklist_is_rejected() {
    let (mut world, mut app) = seeded_projects();
    world.tell(&mut app, Msg::EditEntry);
    let request = app.take_edit_request().expect("要求が出る");
    world.edit(&mut app, request.target, Some("\n\n"));

    let v: serde_json::Value = serde_json::from_str(&world.project_text("active")).expect("JSON");
    assert_eq!(v["tasks"].as_array().expect("配列").len(), 5, "消えている");
    assert!(app.status.is_some());
}

#[test]
fn a_checklist_of_headings_is_rejected() {
    let (mut world, mut app) = seeded_projects();
    let before = world.project_text("active");
    world.edit(&mut app, EditTarget::ProjectTasks { project_idx: 0 }, Some("# 見出し\n"));
    assert_eq!(world.project_text("active"), before);
    assert_eq!(app.status.as_deref(), Some("タスクが空になったので変更しませんでした"));
}

#[test]
fn saving_the_bare_template_reports_nothing_read() {
    let (mut world, mut app) = seeded_projects();
    world.tell(&mut app, Msg::NewEntry);
    let request = app.take_edit_request().expect("要求が出る");
    world.edit(&mut app, request.target, Some("新規\n"));
    world.tell(&mut app, Msg::EditEntry);
    let request = app.take_edit_request().expect("要求が出る");
    world.edit(&mut app, request.target, Some("- [ ] \n"));
    assert!(app.selected_project().expect("ある").tasks.is_empty());
    let status = app.status.clone().expect("知らせがある");
    assert!(status.contains("読み取れる行がありません"), "黙って終わっている: {status}");
}

// ----------------------------------------------------------------------- today

#[test]
fn t_builds_todays_todo_from_in_progress_tasks() {
    let (mut world, mut app) = seeded_projects();
    world.tell(&mut app, Msg::TodayTodo);
    let request = app.take_edit_request().expect("要求が出る");
    assert!(matches!(request.target, EditTarget::NewEntry));
    let heading = "ToDo: 2026/01/31（土）";
    assert!(request.initial.starts_with("tags: ToDo\n\n"), "ToDo タグが入っていない");
    assert!(request.initial.contains(&format!("# {heading}")), "見出しがない");
    // 進行中のタスクだけが並ぶ。未着手と完了は入らない。
    assert!(request.initial.contains("- 現役プロジェクト\n  - [-] 進行中のタスク"));
    assert!(!request.initial.contains("未着手のタスク"));
    assert!(!request.initial.contains("完了1"));
    // アーカイブ済みのプロジェクトは対象外。
    assert!(!request.initial.contains("終わったプロジェクト"));
    assert_eq!(app.status.as_deref(), Some("進行中のタスク 1 件から作ります"));

    // そのまま保存すると今日のノートに入る。
    world.edit(&mut app, request.target, Some(&request.initial));
    let text = world.text(TODAY);
    assert!(text.contains("tags: ToDo\n"));
    assert!(text.contains(heading));
    // ToDo 一覧にも出る。
    assert_eq!(app.todos.len(), 1);
    assert_eq!(app.todos[0].1.group, "現役プロジェクト");
    assert_eq!(app.todos[0].1.title, "進行中のタスク");
}

#[test]
fn t_opens_the_existing_todo() {
    let (mut world, mut app) = seeded_projects();
    // 1 回目で作る。
    world.tell(&mut app, Msg::TodayTodo);
    let request = app.take_edit_request().expect("要求が出る");
    world.edit(&mut app, request.target, Some(&request.initial));
    assert_eq!(app.todos.len(), 1);

    // 2 回目は既存のエントリを開く。
    world.tell(&mut app, Msg::TodayTodo);
    let request = app.take_edit_request().expect("要求が出る");
    assert!(
        matches!(request.target, EditTarget::EntryBody { .. }),
        "新規として開こうとしている"
    );
    assert!(request.initial.contains("進行中のタスク"));

    // 追記して保存しても、エントリは増えない。
    let edited = format!("{}\n  - [ ] 手で足したタスク\n", request.initial.trim_end());
    world.edit(&mut app, request.target, Some(&edited));
    let note = app.notes.iter().find(|n| n.date == TODAY).expect("ある");
    assert_eq!(note.entries.len(), 1, "エントリが増えている");
    assert_eq!(app.todos.len(), 2);
}

#[test]
fn t_works_without_in_progress_tasks() {
    let (mut world, mut app) = seeded(1, 30);
    world.tell(&mut app, Msg::TodayTodo);
    let request = app.take_edit_request().expect("要求が出る");
    assert!(matches!(request.target, EditTarget::NewEntry));
    assert_eq!(request.initial, "tags: ToDo\n\n# ToDo: 2026/01/31（土）");
    assert_eq!(app.status.as_deref(), Some("今日の ToDo を作ります"));
}

#[test]
fn adding_a_project_task_reaches_the_todo_view() {
    let (mut world, mut app) = with_todays_todo();
    // 雛形の時点では進行中の 1 件だけ。
    assert_eq!(app.todos.len(), 1);
    world.tell(&mut app, Msg::EditEntry);
    let request = app.take_edit_request().expect("要求が出る");
    let edited = format!("{}- [-] 追加した作業\n", request.initial);
    world.edit(&mut app, request.target, Some(&edited));

    // ToDo ビューに増えている。
    assert_eq!(app.todos.len(), 2, "ToDo に反映されていない");
    let titles: Vec<&str> = app.todos.iter().map(|(_, t)| t.title.as_str()).collect();
    assert!(titles.contains(&"追加した作業"));
    assert_eq!(app.todos[1].1.group, "現役プロジェクト");
    // ファイルにも入っている。
    let text = world.text(TODAY);
    assert!(text.contains("  - [-] 追加した作業\n"), "書けていない: {text}");
}

#[test]
fn backlog_tasks_do_not_reach_the_todo_view() {
    let (mut world, mut app) = with_todays_todo();
    world.tell(&mut app, Msg::EditEntry);
    let request = app.take_edit_request().expect("要求が出る");
    let edited = format!("{}- [ ] まだ着手しない\n", request.initial);
    world.edit(&mut app, request.target, Some(&edited));
    assert_eq!(app.todos.len(), 1, "未着手まで入っている");
}

#[test]
fn an_added_task_leaves_rows_by_hand() {
    let (mut world, mut app) = with_a_row_by_hand();
    let edited = "- [ ] 未着手のタスク\n- [-] 進行中のタスク\n- [-] 追加した作業\n";
    world.edit(&mut app, EditTarget::ProjectTasks { project_idx: 0 }, Some(edited));
    let text = world.text(TODAY);
    assert!(text.contains("  - [-] 追加した作業\n"), "{text}");
    assert!(text.contains("  - [ ] 手で足した予定\n"), "手で足した行が消えた: {text}");
    assert!(!text.contains("未着手のタスク"), "未着手まで入っている: {text}");
    assert_eq!(app.status.as_deref(), Some("今日の ToDo に 1 件追加しました"));
}

#[test]
fn the_state_of_a_task_reaches_the_list_of_today() {
    let (mut world, mut app) = with_todays_todo();
    assert_eq!(app.todos[0].1.status, TaskStatus::InProgress);
    world.tell(&mut app, Msg::ToggleFocus);
    world.tell(&mut app, Msg::Move(Move::Down));
    assert_eq!(app.visible_tasks()[app.task_sel].title, "進行中のタスク");
    world.tell(&mut app, Msg::CycleTodo);
    assert_eq!(app.status.as_deref(), Some("今日の ToDo に 1 件更新しました"));
    world.tell(&mut app, Msg::SwitchView(View::Todo));
    assert_eq!(app.todos.len(), 1, "行が増えている");
    assert_eq!(app.todos[0].1.status, TaskStatus::Done, "追従していない");
    assert!(world.text(TODAY).contains("  - [x] 進行中のタスク\n"));
}

#[test]
fn a_checked_row_reaches_the_project() {
    let (mut world, mut app) = with_todays_todo();
    world.tell(&mut app, Msg::SwitchView(View::Todo));
    assert_eq!(app.visible_todos()[0].1.title, "進行中のタスク");
    world.tell(&mut app, Msg::ToggleFocus);
    world.tell(&mut app, Msg::CycleTodo);
    assert!(world.text(TODAY).contains("- [x] 進行中のタスク"));
    // プロジェクト側にも入る。
    let changed = task(&world, "進行中のタスク");
    assert_eq!(changed["status"], "Done", "プロジェクトに反映されていない");
    assert!(changed["completedAtMs"].as_i64().expect("数値") > 0);
    assert_eq!(changed["id"], "t1", "別のタスクとして作り直されている");
    // 解釈しない項目も残る。
    assert_eq!(changed["sourceType"], "issue");
    assert_eq!(app.selected_project().expect("ある").tasks.len(), 5, "他のタスクが消えている");
    assert_eq!(
        app.status.as_deref(),
        Some("進行中のタスク → Done（現役プロジェクト にも反映）")
    );
}

#[test]
fn a_row_of_its_own_stays_local() {
    let (mut world, mut app) = with_a_row_by_hand();
    let before = world.project_text("active");
    world.tell(&mut app, Msg::SwitchView(View::Todo));
    world.tell(&mut app, Msg::ToggleFocus);
    world.tell(&mut app, Msg::Move(Move::Down));
    world.tell(&mut app, Msg::CycleTodo);
    assert!(world.text(TODAY).contains("- [-] 手で足した予定"));
    assert_eq!(world.project_text("active"), before);
    assert_eq!(app.status.as_deref(), Some("手で足した予定 → InProgress"));
}

#[test]
fn editing_checkboxes_in_the_editor_reaches_the_project() {
    let (mut world, mut app) = with_todays_todo();
    world.tell(&mut app, Msg::SwitchView(View::Todo));
    // ToDo をエディタで開き、チェック欄を直接書き換える。
    world.tell(&mut app, Msg::EditEntry);
    let request = app.take_edit_request().expect("要求が出る");
    assert!(request.initial.contains("- [-] 進行中のタスク"));
    let edited = request.initial.replace("- [-] 進行中のタスク", "- [x] 進行中のタスク");
    world.edit(&mut app, request.target, Some(&edited));
    let task = task(&world, "進行中のタスク");
    assert_eq!(task["status"], "Done", "プロジェクトに反映されていない");
    assert_eq!(task["id"], "t1", "作り直されている");
}

#[test]
fn a_refused_edit_does_not_reach_the_project() {
    let (mut world, mut app) = with_todays_todo();
    let (note, project) = (world.text(TODAY), world.project_text("active"));
    world.tell(&mut app, Msg::TodayTodo);
    let request = app.take_edit_request().expect("要求が出る");
    let edited = request.initial.replace("- [-] 進行中のタスク", "- [x] 進行中のタスク");
    let job = app.apply_edit_at(request.target, Some(edited), &now(), "new-id");
    assert!(matches!(job, Some(Job::SaveNote { .. })));
    // ノートだけが書けない。
    assert!(app.resume_at(Event::Saved(Err("書けない".to_string())), &now()).is_none());
    assert_eq!(app.notes[0].to_text(), note);
    assert_eq!(world.text(TODAY), note);
    assert_eq!(world.project_text("active"), project);
    assert_eq!(app.todos[0].1.status, TaskStatus::InProgress);
    assert_eq!(app.status.as_deref(), Some("保存に失敗しました: 書けない"));
}

#[test]
fn rows_that_come_and_go_reach_the_project() {
    let (mut world, mut app) = with_a_row_by_hand();
    world.tell(&mut app, Msg::TodayTodo);
    let request = app.take_edit_request().expect("要求が出る");
    let edited = request
        .initial
        .replace("- [-] 進行中のタスク", "- [x] 進行中のタスク")
        .replace("- [ ] 手で足した予定", "- [ ] 差し替えた予定");
    world.edit(&mut app, request.target, Some(&edited));
    let p = read_project("active", &world.project_text("active"));
    assert_eq!(p.tasks[0].status, TaskStatus::Done);
    assert_eq!(p.tasks.len(), 6);
    assert_eq!(p.tasks[5].title, "差し替えた予定");
    assert_eq!(
        app.status.as_deref(),
        Some("保存しました（プロジェクト 1 件に反映・1 件追加・1 件削除）")
    );
}

#[test]
fn a_row_that_no_project_has_is_dropped_without_a_write() {
    let (mut world, mut app) = with_a_row_by_hand();
    let before = world.project_text("active");
    world.tell(&mut app, Msg::TodayTodo);
    let request = app.take_edit_request().expect("要求が出る");
    let edited = request.initial.replace("\n  - [ ] 手で足した予定", "");
    assert_ne!(edited, request.initial);
    world.edit(&mut app, request.target, Some(&edited));
    assert!(!world.text(TODAY).contains("手で足した予定"));
    assert_eq!(world.project_text("active"), before, "同じ内容なのに書いている");
    assert_eq!(app.status.as_deref(), Some("保存しました"));
}

#[test]
fn a_state_of_a_task_makes_no_list() {
    let (mut world, mut app) = seeded_projects();
    let before = app.notes.len();
    world.tell(&mut app, Msg::ToggleFocus);
    world.tell(&mut app, Msg::CycleTodo);
    assert_eq!(app.notes.len(), before, "ノートが増えている");
    assert!(app.todos.is_empty());
    assert!(world.notes.is_empty());
    // プロジェクト側の変更自体は保存されている。
    assert_eq!(task(&world, "未着手のタスク")["status"], "InProgress");
}

#[test]
fn an_edited_checklist_makes_no_list() {
    let (mut world, mut app) = seeded_projects();
    let edited = "- [-] 進行中のタスク\n- [-] 追加した作業\n";
    world.edit(&mut app, EditTarget::ProjectTasks { project_idx: 0 }, Some(edited));
    assert!(world.notes.is_empty());
    assert_eq!(
        app.status.as_deref(),
        Some("タスクを保存しました（今日の ToDo がまだ無いので反映していません。t で作れます）")
    );
}

#[test]
fn a_removed_task_leaves_the_todo() {
    let (mut world, mut app) = with_a_row_by_hand();
    let edited = "- [ ] 未着手のタスク\n";
    world.edit(&mut app, EditTarget::ProjectTasks { project_idx: 0 }, Some(edited));
    let text = world.text(TODAY);
    assert!(!text.contains("進行中のタスク"), "{text}");
    assert!(text.contains("手で足した予定"));
    assert_eq!(app.status.as_deref(), Some("今日の ToDo に 1 件削除しました"));
}

#[test]
fn a_project_that_cannot_be_written_is_told() {
    let (mut world, mut app) = seeded_projects();
    world.tell(&mut app, Msg::CycleTodo);
    world.refuse = true;
    world.tell(&mut app, Msg::CycleTodo);
    assert_eq!(app.status.as_deref(), Some("保存に失敗しました: 書けない"));
}

#[test]
fn the_clock_and_the_ids_are_real() {
    let (mut world, mut app) = seeded(1, 30);
    let job = app.apply_edit(EditTarget::NewEntry, Some("本文".to_string()));
    world.run(&mut app, job);
    let made = world.notes.iter().find(|(_, t)| t.contains("本文")).expect("ある");
    let line = made.1.lines().find(|l| l.starts_with("id: ")).expect("ある");
    assert_eq!(line.len(), "id: ".len() + 36);
    assert!(made.1.contains(&format!("created: {} ", made.0)));
}
