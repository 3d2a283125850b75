use nota::calendar::CalendarDate;
use nota::model::block::{format_entry_block, initial_note_text};
use nota::model::entry::parse_tags;
use nota::model::line::parse_group_line;
use nota::model::note::DailyNote;
use nota::model::project::{parse_checklist, ProjectTask};
use nota::model::status::TaskStatus;
use nota::model::todo::{build_todo_body, todo_heading, upsert_todo_group};

const SAMPLE: &str = "# 2026-02-26\n\
    \n\
    <!-- acta:comment\n\
    id: abc-123\n\
    created: 2026-02-26 11:25\n\
    created_ms: 1772072708000\n\
    tags: ToDo, Terraform\n\
    -->\n\
    # ToDo: 2026/02/26（木）\n\
    - SRE対応依頼\n\
    \x20 - [ ] 未着手のタスク\n\
    \x20 - [-] 進行中のタスク\n\
    \x20 - [x] 完了のタスク\n\
    <!-- /acta:comment -->\n\
    \n\
    <!-- acta:comment\n\
    id: def-456\n\
    created: 2026-02-26 12:19\n\
    created_ms: 1772075960974\n\
    tags: JM_QA移行\n\
    -->\n\
    ## なるジョブ CI\n\
    \n\
    - 本文\n\
    <!-- /acta:comment -->\n";

fn sample() -> DailyNote {
    DailyNote::parse(
        "2026-02-26".to_string(),
        String::from("/tmp/2026-02-26.md"),
        SAMPLE,
    )
}

#[test]
fn parses_all_entries() {
    let note = sample();
    assert_eq!(note.entries.len(), 2);
    assert_eq!(note.entries[0].id, "abc-123");
    assert_eq!(note.entries[0].created_ms, 1772072708000);
    assert_eq!(note.entries[1].tags, vec!["JM_QA移行"]);
}

#[test]
fn keeps_body_lines() {
    let note = sample();
    let body = note.body_of(&note.entries[1]);
    assert_eq!(body, vec!["## なるジョブ CI", "", "- 本文"]);
}

/// 原文を壊さないことが編集機能の前提なので、往復を必ず検証する。
#[test]
fn round_trips_original_text() {
    let note = sample();
    assert_eq!(note.to_text(), SAMPLE);
}

#[test]
fn detects_todo_entry() {
    let note = sample();
    assert!(note.is_todo(&note.entries[0]));
    assert!(!note.is_todo(&note.entries[1]));
}

#[test]
fn extracts_todo_items_with_group() {
    let note = sample();
    let items = note.todo_items();
    assert_eq!(items.len(), 3);
    assert_eq!(items[0].group, "SRE対応依頼");
    assert_eq!(items[0].status, TaskStatus::Backlog);
    assert_eq!(items[1].status, TaskStatus::InProgress);
    assert_eq!(items[2].status, TaskStatus::Done);
    assert_eq!(items[0].title, "未着手のタスク");
}

#[test]
fn toggling_status_only_touches_the_marker() {
    let mut note = sample();
    let items = note.todo_items();
    let line = items[0].line;
    let before = note.lines[line].clone();
    assert!(note.set_task_status(line, TaskStatus::Done));
    assert_eq!(note.lines[line], before.replace("[ ]", "[x]"));
    // 他の行は変わらない。
    assert_eq!(note.entries.len(), 2);
    assert_eq!(note.lines.len(), sample().lines.len());
}

#[test]
fn status_cycles_through_three_states() {
    assert_eq!(TaskStatus::Backlog.next(), TaskStatus::InProgress);
    assert_eq!(TaskStatus::InProgress.next(), TaskStatus::Done);
    assert_eq!(TaskStatus::Done.next(), TaskStatus::Backlog);
}

#[test]
fn parses_a_checklist() {
    let tasks = parse_checklist("- [-] 進行中\n- [ ] 未着手\n- [x] 完了\n");
    assert_eq!(
        tasks,
        vec![
            (TaskStatus::InProgress, "進行中".to_string()),
            (TaskStatus::Backlog, "未着手".to_string()),
            (TaskStatus::Done, "完了".to_string()),
        ]
    );
}

/// 記法を知らずに名前だけ並べても、未着手のタスクとして拾う。
#[test]
fn parses_plain_lines_as_tasks() {
    let tasks = parse_checklist("最初の作業\n- 次の作業\n\n# 見出しは飛ばす\n");
    assert_eq!(
        tasks,
        vec![
            (TaskStatus::Backlog, "最初の作業".to_string()),
            (TaskStatus::Backlog, "次の作業".to_string()),
        ]
    );
}

#[test]
fn builds_the_todo_heading() {
    let date = CalendarDate::from_ymd_opt(2026, 8, 25).expect("日付");
    assert_eq!(todo_heading(date), "ToDo: 2026/08/25（火）");
}

#[test]
fn builds_a_todo_body_from_tasks() {
    let date = CalendarDate::from_ymd_opt(2026, 8, 25).expect("日付");
    let task = ProjectTask {
        id: "x".into(),
        title: "進行中の作業".into(),
        status: TaskStatus::InProgress,
        updated_at_ms: 0,
    };
    let body = build_todo_body(date, &[("プロジェクト", vec![&task]), ("空", vec![])]);
    assert_eq!(
        body,
        "# ToDo: 2026/08/25（火）\n- プロジェクト\n  - [-] 進行中の作業"
    );
    // 読み直すとタスクとして拾える。
    let text = format!(
        "<!-- acta:comment\nid: x\ncreated: 2026-08-25\ncreated_ms: 1\ntags: ToDo\n-->\n{body}\n<!-- /acta:comment -->\n"
    );
    let note = DailyNote::parse("2026-08-25".into(), String::from("/tmp/x.md"), &text);
    let items = note.todo_items();
    assert_eq!(items.len(), 1);
    assert_eq!(items[0].group, "プロジェクト");
    assert_eq!(items[0].status, TaskStatus::InProgress);
}

#[test]
fn builds_a_heading_only_body_without_tasks() {
    let date = CalendarDate::from_ymd_opt(2026, 8, 25).expect("日付");
    assert_eq!(build_todo_body(date, &[]), "# ToDo: 2026/08/25（火）");
}

fn to_lines(text: &str) -> Vec<String> {
    text.split('\n').map(str::to_string).collect()
}

const TODO_BODY: &str = "# ToDo: 2026/08/26（水）\n\
    - プロジェクト A\n\
    \x20 - [-] 進行中の作業\n\
    \x20 - [ ] 手で足した予定\n\
    - プロジェクト B\n\
    \x20 - [ ] 別の作業";

#[test]
fn adds_new_tasks_to_an_existing_group() {
    let (out, added, updated, _) = upsert_todo_group(
        &to_lines(TODO_BODY),
        "プロジェクト A",
        &[(TaskStatus::InProgress, "新しい作業".into(), true)],
        &[],
    );
    assert_eq!((added, updated), (1, 0));
    // グループの末尾に入り、次のグループは動かない。
    assert_eq!(
        out.join("\n"),
        "# ToDo: 2026/08/26（水）\n\
         - プロジェクト A\n\
         \x20 - [-] 進行中の作業\n\
         \x20 - [ ] 手で足した予定\n\
         \x20 - [-] 新しい作業\n\
         - プロジェクト B\n\
         \x20 - [ ] 別の作業"
    );
}

/// 同じタイトルの行はチェック欄だけ変える。二重に足さない。
#[test]
fn updates_the_marker_of_an_existing_task() {
    let (out, added, updated, _) = upsert_todo_group(
        &to_lines(TODO_BODY),
        "プロジェクト A",
        &[(TaskStatus::Done, "進行中の作業".into(), true)],
        &[],
    );
    assert_eq!((added, updated), (0, 1));
    assert!(out.join("\n").contains("  - [x] 進行中の作業"));
    assert_eq!(out.len(), to_lines(TODO_BODY).len(), "行が増えている");
}

/// ToDo 側にしか無い行は残す。手で足した予定を消さない。
#[test]
fn keeps_rows_that_only_exist_in_the_todo() {
    let (out, _, _, _) = upsert_todo_group(
        &to_lines(TODO_BODY),
        "プロジェクト A",
        &[(TaskStatus::InProgress, "進行中の作業".into(), true)],
        &[],
    );
    assert!(out.join("\n").contains("- [ ] 手で足した予定"));
}

/// append が false のものは、既存行の更新だけで新しくは足さない。
#[test]
fn does_not_append_when_not_requested() {
    let (out, added, _, _) = upsert_todo_group(
        &to_lines(TODO_BODY),
        "プロジェクト A",
        &[(TaskStatus::Done, "完了した別の作業".into(), false)],
        &[],
    );
    assert_eq!(added, 0);
    assert!(!out.join("\n").contains("完了した別の作業"));
}

/// グループが無ければ末尾に作る。
#[test]
fn creates_a_group_when_missing() {
    let (out, added, _, _) = upsert_todo_group(
        &to_lines(TODO_BODY),
        "新しいプロジェクト",
        &[(TaskStatus::InProgress, "作業".into(), true)],
        &[],
    );
    assert_eq!(added, 1);
    assert!(out
        .join("\n")
        .ends_with("- 新しいプロジェクト\n  - [-] 作業"));
}

/// 足すものが無ければグループも作らない。
#[test]
fn creates_nothing_when_there_is_nothing_to_add() {
    let before = to_lines(TODO_BODY);
    let (out, added, updated, _) = upsert_todo_group(
        &before,
        "新しいプロジェクト",
        &[(TaskStatus::Done, "完了".into(), false)],
        &[],
    );
    assert_eq!((added, updated), (0, 0));
    assert_eq!(out, before);
}

/// 見出しだけの ToDo にも足せる。
#[test]
fn adds_to_a_heading_only_todo() {
    let (out, added, _, _) = upsert_todo_group(
        &to_lines("# ToDo: 2026/08/26（水）"),
        "プロジェクト",
        &[(TaskStatus::InProgress, "作業".into(), true)],
        &[],
    );
    assert_eq!(added, 1);
    assert_eq!(
        out.join("\n"),
        "# ToDo: 2026/08/26（水）\n- プロジェクト\n  - [-] 作業"
    );
}

#[test]
fn parses_tags_like_acta() {
    assert_eq!(parse_tags("#a, b、 c"), vec!["a", "b", "c"]);
    assert_eq!(parse_tags(" , ,"), Vec::<String>::new());
    assert_eq!(parse_tags("dup, dup"), vec!["dup"]);
}

#[test]
fn ignores_unterminated_block() {
    let note = DailyNote::parse(
        "2026-01-01".to_string(),
        String::from("/tmp/x.md"),
        "<!-- acta:comment\nid: x\n-->\nbody without close\n",
    );
    assert!(note.entries.is_empty());
    // 原文は保持される（末尾改行の分を含めて 5 要素）。
    assert_eq!(note.lines.len(), 5);
    assert_eq!(
        note.to_text(),
        "<!-- acta:comment\nid: x\n-->\nbody without close\n"
    );
}

#[test]
fn group_line_ignores_checkbox_rows() {
    assert_eq!(
        parse_group_line("- プロジェクト"),
        Some("プロジェクト".into())
    );
    assert_eq!(parse_group_line("  - [ ] タスク"), None);
    assert_eq!(parse_group_line("- [ ] タスク"), None);
}

#[test]
fn replaces_only_the_target_body() {
    let mut note = sample();
    assert!(note.replace_entry_body(1, "書き換えた本文\n2 行目"));
    let text = note.to_text();
    // 対象の本文だけが変わる。
    assert!(text.contains("書き換えた本文\n2 行目\n<!-- /acta:comment -->"));
    assert!(!text.contains("## なるジョブ CI"));
    // メタ行と他のエントリは残る。
    assert!(text.contains("id: def-456"));
    assert!(text.contains("created_ms: 1772075960974"));
    assert!(text.contains("# ToDo: 2026/02/26（木）"));
    assert_eq!(note.entries.len(), 2);
    // 行範囲が作り直されている。
    assert_eq!(
        note.body_of(&note.entries[1]),
        vec!["書き換えた本文", "2 行目"]
    );
}

#[test]
fn deletes_an_entry_with_its_blank_lines() {
    let mut note = sample();
    assert!(note.delete_entry(0));
    assert_eq!(note.entries.len(), 1);
    let text = note.to_text();
    assert!(!text.contains("abc-123"));
    assert!(text.contains("id: def-456"));
    // 見出しは残り、余分な空行も残らない。
    assert!(text.starts_with("# 2026-02-26\n\n<!-- acta:comment\nid: def-456"));
}

#[test]
fn deleting_the_last_entry_keeps_a_trailing_newline() {
    let mut note = sample();
    assert!(note.delete_entry(1));
    assert_eq!(note.entries.len(), 1);
    let text = note.to_text();
    // Acta の形式ではブロックの後に空行が 1 つ入る。
    assert!(
        text.ends_with("<!-- /acta:comment -->\n\n"),
        "末尾が不正: {text:?}"
    );
}

/// 末尾が改行 1 つのファイルでも、ブロックの間に空行が 1 つ入る。
#[test]
fn appending_keeps_one_blank_line_between_blocks() {
    let mut note = sample();
    let block = format_entry_block(
        "new-id",
        "2026-02-26 15:00",
        1772000000000,
        &["Memo".to_string()],
        "新しい本文",
    );
    note.append_entry_block(&block);
    assert_eq!(note.entries.len(), 3);
    let text = note.to_text();
    assert!(text.contains("<!-- /acta:comment -->\n\n<!-- acta:comment\nid: new-id"));
    assert!(text.ends_with("新しい本文\n<!-- /acta:comment -->\n\n"));
    assert_eq!(note.entries[2].tags, vec!["Memo"]);
}

#[test]
fn block_format_matches_acta() {
    let block = format_entry_block(
        "i",
        "2026-01-01 09:00",
        1,
        &["a".into(), "b".into()],
        "本文\n",
    );
    assert_eq!(
        block,
        "<!-- acta:comment\nid: i\ncreated: 2026-01-01 09:00\ncreated_ms: 1\ntags: a, b\n-->\n本文\n<!-- /acta:comment -->\n\n"
    );
}

#[test]
fn block_format_allows_empty_tags() {
    let block = format_entry_block("i", "2026-01-01", 1, &[], "本文");
    assert!(block.contains("tags: \n"));
}

/// 追記したブロックを読み直しても壊れない。
#[test]
fn round_trips_after_appending() {
    let mut note = DailyNote::parse(
        "2026-01-01".into(),
        String::from("/tmp/x.md"),
        &initial_note_text("2026-01-01"),
    );
    assert!(note.entries.is_empty());
    note.append_entry_block(&format_entry_block("a", "2026-01-01", 1, &[], "一つ目"));
    note.append_entry_block(&format_entry_block(
        "b",
        "2026-01-01 10:00",
        2,
        &[],
        "二つ目",
    ));
    assert_eq!(note.entries.len(), 2);

    let text = note.to_text();
    let again = DailyNote::parse("2026-01-01".into(), String::from("/tmp/x.md"), &text);
    assert_eq!(again.to_text(), text);
    assert_eq!(again.entries.len(), 2);
    assert_eq!(again.body_of(&again.entries[0]), vec!["一つ目"]);
}

/// 末尾に空行が続くファイルも、そのままの形に戻る。
#[test]
fn round_trips_trailing_blank_lines() {
    for text in ["a\n", "a\n\n", "a\n\n\n", "a", "\n", "\n\n"] {
        let note = DailyNote::parse("2026-01-01".into(), String::from("/tmp/x.md"), text);
        assert_eq!(note.to_text(), text, "往復に失敗: {text:?}");
    }
}

#[test]
fn empty_file_round_trips() {
    let note = DailyNote::parse("2026-01-01".into(), String::from("/tmp/x.md"), "");
    assert_eq!(note.to_text(), "");
}

#[test]
fn a_task_list_begins_with_its_heading() {
    let read = |body: &str| {
        let text = format!("<!-- acta:comment\nid: x\n-->\n{body}<!-- /acta:comment -->\n");
        DailyNote::parse("2026-01-01".to_string(), "/tmp/x.md".to_string(), &text)
    };
    let late = read("intro\n# ToDo later\n- [ ] a\n");
    assert!(!late.is_todo(&late.entries[0]));
    assert!(late.todo_items().is_empty());
    let first = read("## todo list\n- [ ] a\n");
    assert!(first.is_todo(&first.entries[0]));
    assert_eq!(first.todo_items().len(), 1);
    let named = read("# ToDo: 2026/02/26（木）\n");
    assert!(named.is_todo(&named.entries[0]));
    let memo = read("# メモ\n");
    assert!(!memo.is_todo(&memo.entries[0]));
    let empty = read("");
    assert!(!empty.is_todo(&empty.entries[0]));
}

#[test]
fn an_appended_block_reads_back() {
    let mut note = sample();
    let before = note.to_text();
    let tags = vec!["Memo".to_string(), "二 語".to_string()];
    assert_eq!(parse_tags(&tags.join(", ")), tags);
    let block = format_entry_block("new", "2026-02-26 13:00", -7, &tags, "一行目\r\n二行目\n\n");
    note.append_entry_block(&block);
    assert!(note.to_text().starts_with(&before));
    assert!(note.to_text().ends_with(&block));
    assert_eq!(note.entries.len(), 3);
    assert_eq!(note.entries[0].id, "abc-123");
    let e = &note.entries[2];
    assert_eq!((e.id.as_str(), e.created.as_str(), e.created_ms), ("new", "2026-02-26 13:00", -7));
    assert_eq!(e.tags, tags);
    assert_eq!(note.body_of(e), vec!["一行目", "二行目"]);
}

#[test]
fn new_tags_leave_the_rest_alone() {
    let mut note = sample();
    let old = sample();
    let tags = vec!["一".to_string(), "二".to_string()];
    assert!(note.set_entry_tags(0, &tags));
    assert_eq!(note.entries[0].tags, tags);
    assert_eq!(note.entries[0].id, "abc-123");
    assert_eq!(note.body_of(&note.entries[0]), old.body_of(&old.entries[0]));
    assert_eq!(note.entries[1].tags, old.entries[1].tags);
    assert_eq!(note.body_of(&note.entries[1]), old.body_of(&old.entries[1]));
    assert_eq!(note.lines.len(), old.lines.len());

    let text = "<!-- acta:comment\nid: x\n-->\n本文\n<!-- /acta:comment -->\n";
    let mut bare = DailyNote::parse("2026-01-01".to_string(), "/tmp/x.md".to_string(), text);
    assert!(bare.set_entry_tags(0, &tags));
    assert_eq!(
        bare.to_text(),
        "<!-- acta:comment\nid: x\ntags: 一, 二\n-->\n本文\n<!-- /acta:comment -->\n"
    );
    assert_eq!(bare.entries[0].tags, tags);
}
