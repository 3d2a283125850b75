use nota::editor::{changed, compose, decompose, parse_editor};

#[test]
fn splits_editor_arguments() {
    assert_eq!(
        parse_editor(None, Some("nvim -u NONE")).expect("解決できる"),
        vec!["nvim", "-u", "NONE"]
    );
}

#[test]
fn visual_wins_over_editor() {
    assert_eq!(
        parse_editor(Some("code --wait"), Some("vi")).expect("解決できる"),
        vec!["code", "--wait"]
    );
}

#[test]
fn blank_values_fall_through() {
    assert_eq!(
        parse_editor(Some("   "), Some("vi")).expect("解決できる"),
        vec!["vi"]
    );
    let err = parse_editor(Some(""), Some("  "))
        .expect_err("エラーになる")
        .message()
        .to_string();
    assert!(err.contains("EDITOR"), "案内が出ていない: {err}");
    assert!(parse_editor(None, None).is_err());
}

#[test]
fn only_a_changed_text_comes_back() {
    assert_eq!(changed("そのまま", "そのまま".to_string()), None);
    assert_eq!(
        changed("もとの本文", "書き換え".to_string()),
        Some("書き換え".to_string())
    );
}

#[test]
fn tags_and_body_survive_the_editor() {
    let tags = vec!["ToDo".to_string(), "検証".to_string()];
    let text = compose(&tags, "# 見出し\n本文");
    let (back, body) = decompose(&text);
    assert_eq!(back, tags);
    assert_eq!(body, "# 見出し\n本文");
}

#[test]
fn text_without_a_tag_line_is_all_body() {
    let (tags, body) = decompose("本文だけ\n2 行目");
    assert!(tags.is_empty());
    assert_eq!(body, "本文だけ\n2 行目");
}
