use nota::model::project::{Project, ProjectTask};
use nota::model::status::TaskStatus;
use nota::store::paths::{
    date_from_path, is_date_file, join_path, knowledge_path, place_project, project_name,
    project_path, slugify, sort_note_paths, sort_projects, unique_dir_name, visit, Store, Visit,
};
use nota::store::project_file::{
    edit_archived, edit_tasks, edit_tasks_with, order_text, parse_order, project_text,
    project_text_with, FileError,
};

fn project(dir_name: &str, updated_at_ms: i64) -> Project {
    Project {
        id: String::new(),
        name: dir_name.to_string(),
        dir_name: dir_name.to_string(),
        created_at_ms: 0,
        updated_at_ms,
        archived_at_ms: 0,
        issue_url: String::new(),
        tasks: Vec::<ProjectTask>::new(),
        knowledge: String::new(),
        source_dir: String::new(),
    }
}

fn value(text: &str) -> serde_json::Value {
    serde_json::from_str(text).expect("JSON")
}

#[test]
fn slugifies_like_acta() {
    assert_eq!(slugify("SRE 対応 Depot", 1), "sre-depot");
    assert_eq!(slugify("Terraform_Refactor", 1), "terraform_refactor");
    assert_eq!(slugify("  A  B  ", 1), "a-b");
    assert_eq!(slugify("a---b", 1), "a-b");
}

#[test]
fn falls_back_for_names_without_ascii() {
    assert_eq!(slugify("プロジェクト", 1234), "project-1234");
}

#[test]
fn accepts_canonical_date_file() {
    assert!(is_date_file("2026-02-26.md"));
}

#[test]
fn rejects_slug_and_other_files() {
    assert!(!is_date_file("2026-07-14_some-slug.md"));
    assert!(!is_date_file("knowledge.md"));
    assert!(!is_date_file("2026-02-26.txt"));
    assert!(!is_date_file("2026-02-2.md"));
    assert!(!is_date_file("20260226.md"));
}

#[test]
fn extracts_date_from_path() {
    assert_eq!(
        date_from_path("/a/posts/2026/02/26/2026-02-26.md").as_deref(),
        Some("2026-02-26")
    );
    assert_eq!(date_from_path("/a/knowledge.md"), None);
}

#[test]
fn avoids_existing_directories() {
    let taken = vec!["sre".to_string(), "sre-2".to_string()];
    assert_eq!(unique_dir_name(&taken, "SRE", 1), "sre-3");
    assert_eq!(unique_dir_name(&[], "SRE", 1), "sre");
}

#[test]
fn applies_the_saved_order() {
    let all = vec![project("alpha", 1), project("beta", 2), project("gamma", 3)];
    let names = |list: &Vec<Project>| -> Vec<String> {
        list.iter().map(|p| p.dir_name.clone()).collect()
    };
    assert_eq!(
        names(&sort_projects(&all, &vec![])),
        vec!["gamma", "beta", "alpha"]
    );
    let order = vec!["beta".to_string(), "alpha".to_string()];
    assert_eq!(
        names(&sort_projects(&all, &order)),
        vec!["beta", "alpha", "gamma"]
    );
}

#[test]
fn broken_order_file_is_ignored() {
    assert!(parse_order("{ 壊れている").is_empty());
    assert!(parse_order("[1, 2]").is_empty());
    assert_eq!(parse_order("[\"a\", \"b\"]"), vec!["a", "b"]);
}

#[test]
fn order_reads_back() {
    let order = vec!["beta".to_string(), "アルファ".to_string()];
    let text = order_text(&order).expect("書ける");
    assert_eq!(text, "[\n  \"beta\",\n  \"アルファ\"\n]");
    assert_eq!(parse_order(&text), order);
}

#[test]
fn creates_a_project() {
    let text = project_text_with("i".to_string(), "新しい取り組み Depot", "depot", 42).expect("書ける");
    let v = value(&text);
    assert_eq!(v["id"], "i");
    assert_eq!(v["name"], "新しい取り組み Depot");
    assert_eq!(v["dirName"], "depot");
    assert_eq!(v["createdAtMs"], 42);
    assert_eq!(v["updatedAtMs"], 42);
    assert_eq!(v["archivedAtMs"], 0);
    assert_eq!(v["issueUrl"], "");
    assert_eq!(v["tasks"].as_array().expect("配列").len(), 0);
}

#[test]
fn every_project_gets_its_own_id() {
    let a = value(&project_text("a", "a", 1).expect("書ける"));
    let b = value(&project_text("a", "a", 1).expect("書ける"));
    let id = a["id"].as_str().expect("文字列");
    assert_eq!(id.len(), 36);
    assert_ne!(a["id"], b["id"]);
}

const FILE: &str = "{\"name\": \"p\", \"sourceType\": \"github\", \"updatedAtMs\": 1, \"tasks\": [\
    {\"id\": \"t1\", \"title\": \"一つ目\", \"status\": \"Backlog\", \"sourceState\": \"open\"},\
    {\"id\": \"t2\", \"title\": \"二つ目\", \"status\": \"Done\", \"completedAtMs\": 5}]}";

#[test]
fn tasks_keep_what_is_not_understood() {
    let wanted = vec![
        (TaskStatus::Done, "一つ目".to_string()),
        (TaskStatus::InProgress, "三つ目".to_string()),
    ];
    let text = edit_tasks(FILE, &wanted, 9).expect("書ける");
    let v = value(&text);
    assert_eq!(v["sourceType"], "github");
    assert_eq!(v["updatedAtMs"], 9);
    let tasks = v["tasks"].as_array().expect("配列");
    assert_eq!(tasks.len(), 2);
    assert_eq!(tasks[0]["id"], "t1");
    assert_eq!(tasks[0]["sourceState"], "open");
    assert_eq!(tasks[0]["status"], "Done");
    assert_eq!(tasks[0]["completedAtMs"], 9);
    assert_eq!(tasks[1]["title"], "三つ目");
    assert_eq!(tasks[1]["status"], "InProgress");
    assert_eq!(tasks[1]["source"], "local");
    assert_eq!(tasks[1]["completedAtMs"], 0);
}

#[test]
fn a_task_in_its_state_is_left_alone() {
    let wanted = vec![
        (TaskStatus::Backlog, "一つ目".to_string()),
        (TaskStatus::Backlog, "二つ目".to_string()),
    ];
    let ids = vec!["x".to_string(), "y".to_string()];
    let v = value(&edit_tasks_with(FILE, &wanted, &ids, 9).expect("書ける"));
    assert_eq!(v["tasks"][0]["updatedAtMs"], serde_json::Value::Null);
    assert_eq!(v["tasks"][1]["updatedAtMs"], 9);
    assert_eq!(v["tasks"][1]["completedAtMs"], 0);
    assert_eq!(v["tasks"][1]["id"], "t2");
}

#[test]
fn archiving_changes_two_members() {
    let v = value(&edit_archived(FILE, 7, 9).expect("書ける"));
    assert_eq!(v["archivedAtMs"], 7);
    assert_eq!(v["updatedAtMs"], 9);
    assert_eq!(v["tasks"], value(FILE)["tasks"]);
    assert_eq!(v["sourceType"], "github");
}

#[test]
fn a_broken_file_is_refused() {
    assert!(matches!(edit_archived("{", 1, 1), Err(FileError::NotJson)));
    assert!(matches!(edit_archived("[1]", 1, 1), Err(FileError::NotObject)));
    assert!(matches!(edit_tasks("nope", &[], 1), Err(FileError::NotJson)));
    assert!(matches!(edit_tasks("3", &[], 1), Err(FileError::NotObject)));
}

#[test]
fn notes_lie_under_their_day() {
    let store = Store::new("/a".to_string());
    assert_eq!(
        store.note_path("2026-02-26").as_deref(),
        Some("/a/posts/2026/02/26/2026-02-26.md")
    );
    assert_eq!(store.note_path("2026-2-26"), None);
    assert_eq!(store.posts_dir(), "/a/posts");
    assert_eq!(store.projects_dir(), "/a/projects");
    assert_eq!(store.state_dir(), "/a/.nota");
    assert_eq!(store.order_path(), "/a/.nota/project-order.json");
    assert_eq!(project_path("/a/projects/x"), "/a/projects/x/project.json");
    assert_eq!(knowledge_path("/a/projects/x"), "/a/projects/x/knowledge.md");
}

#[test]
fn paths_are_joined_as_the_system_does() {
    assert_eq!(join_path("/a", "b"), "/a/b");
    assert_eq!(join_path("/a/", "b"), "/a/b");
    assert_eq!(join_path("/a", "/b"), "/b");
    assert_eq!(join_path("", "b"), "b");
}

#[test]
fn newest_note_comes_first() {
    let paths = vec![
        "/p/2026/01/01/2026-01-01.md".to_string(),
        "/p/2026/03/01/2026-03-01.md".to_string(),
        "/p/2026/02/01/2026-02-01.md".to_string(),
    ];
    assert_eq!(
        sort_note_paths(&paths),
        vec![
            "/p/2026/03/01/2026-03-01.md",
            "/p/2026/02/01/2026-02-01.md",
            "/p/2026/01/01/2026-01-01.md",
        ]
    );
}

#[test]
fn some_directories_are_not_entered() {
    assert!(matches!(visit("node_modules", true), Visit::Skip));
    assert!(matches!(visit("2026", true), Visit::Enter));
    assert!(matches!(visit("2026-02-26.md", false), Visit::Take));
    assert!(matches!(visit("images", false), Visit::Skip));
}

#[test]
fn a_project_without_a_name_takes_that_of_its_directory() {
    let mut p = project("x", 1);
    p.name = String::new();
    let placed = place_project(p, "entry".to_string(), "知識".to_string(), "/s".to_string());
    assert_eq!(placed.name, "entry");
    assert_eq!(placed.knowledge, "知識");
    assert_eq!(placed.source_dir, "/s");
}

#[test]
fn rejects_an_empty_name() {
    assert_eq!(project_name("   "), None);
    assert_eq!(project_name(" a b "), Some("a b".to_string()));
}

#[test]
fn a_written_file_reads_back_however_deep() {
    let nested = |n: usize| format!("{{\"deep\": {}{}}}", "[".repeat(n), "]".repeat(n));
    let once = edit_archived(&nested(126), 5, 6).unwrap();
    let twice = edit_archived(&once, 5, 6).unwrap();
    assert_eq!(value(&once), value(&twice));
    assert_eq!(value(&once)["deep"], value(&nested(126))["deep"]);
    assert_eq!(edit_archived(&nested(127), 5, 6), Err(FileError::NotJson));
}

#[test]
fn directories_have_small_letters() {
    assert_eq!(slugify("My PROJECT Ä", 1), "my-project");
    assert_eq!(slugify("\u{212a}elvin", 1), "kelvin");
    let taken = vec!["abc".to_string()];
    assert_eq!(unique_dir_name(&taken, "ABC", 1), "abc-2");
}
