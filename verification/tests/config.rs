use nota::config::{
    asks, candidates, candidates_with, data_dir_of, env_source, expand_tilde, expand_tilde_with,
    user_config_paths, user_config_paths_with, Config, ConfigError, ConfigFile,
};

fn home() -> String {
    dirs::home_dir()
        .expect("home")
        .to_str()
        .expect("home")
        .to_string()
}

fn file(data_dir: Option<&str>) -> ConfigFile {
    ConfigFile {
        data_dir: data_dir.map(|d| d.to_string()),
        recent_notes: None,
        project_done_limit: None,
    }
}

#[test]
fn expands_bare_tilde() {
    assert_eq!(expand_tilde("~"), home());
}

#[test]
fn expands_tilde_prefix() {
    assert_eq!(
        expand_tilde("~/Documents/Acta"),
        format!("{}/Documents/Acta", home())
    );
}

#[test]
fn keeps_absolute_path() {
    assert_eq!(expand_tilde("/tmp/Acta"), "/tmp/Acta");
}

#[test]
fn trims_surrounding_space() {
    assert_eq!(expand_tilde("  /tmp/Acta  "), "/tmp/Acta");
}

#[test]
fn prefers_dot_config_over_platform_dir() {
    let paths = user_config_paths(None);
    let expected = format!("{}/.config/nota/config.toml", home());
    let position = paths.iter().position(|p| *p == expected);
    assert!(position.is_some(), "~/.config が候補に含まれていない");
    if let Some(platform) = dirs::config_dir() {
        let platform = format!("{}/nota/config.toml", platform.to_str().expect("utf-8"));
        if let Some(other) = paths.iter().position(|p| *p == platform) {
            if platform != expected {
                assert!(position.unwrap() < other, "~/.config を先に見ていない");
            }
        }
    }
}

#[test]
fn explicit_data_dir_does_not_fall_back() {
    let others = candidates(&vec![]);
    let right = vec![true; others.len()];
    let err = Config::resolve(Some("/nonexistent-acta-data"), false, &others, &right)
        .expect_err("エラーになる")
        .message();
    assert!(
        err.contains("/nonexistent-acta-data"),
        "指定パスを示していない: {err}"
    );
}

#[test]
fn blank_explicit_falls_through() {
    let others = candidates(&vec![]);
    let wrong = vec![false; others.len()];
    let found = Config::resolve(Some("   "), false, &others, &wrong);
    assert!(matches!(found, Err(ConfigError::NotFound)));
}

#[test]
fn asked_place_is_taken_as_it_is() {
    let config = Config::resolve_with(Some(" ~/Acta "), Some("/home/a"), true, &vec![], &vec![])
        .expect("ある");
    assert_eq!(config.data_dir, "/home/a/Acta");
    assert_eq!(config.source, "--data-dir または NOTA_DATA_DIR");
    assert_eq!(config.recent_notes, 30);
}

#[test]
fn tilde_needs_a_home() {
    assert_eq!(expand_tilde_with("~", None), "~");
    assert_eq!(expand_tilde_with("~/a", None), "~/a");
    assert_eq!(expand_tilde_with("~a", Some("/home/a")), "~a");
    assert_eq!(expand_tilde_with("~/b", Some("/home/a")), "/home/a/b");
}

#[test]
fn user_files_come_in_order_and_once() {
    assert_eq!(
        user_config_paths_with(Some("~/x"), Some("/h"), Some("/h/Library")),
        vec![
            "/h/x/nota/config.toml",
            "/h/.config/nota/config.toml",
            "/h/Library/nota/config.toml",
        ]
    );
    assert_eq!(
        user_config_paths_with(Some("  "), Some("/h"), Some("/h/.config")),
        vec!["/h/.config/nota/config.toml"]
    );
}

#[test]
fn blank_directory_counts_as_none() {
    assert_eq!(data_dir_of(&file(Some("  "))), None);
    assert_eq!(data_dir_of(&file(None)), None);
    assert_eq!(data_dir_of(&file(Some(" /a "))), Some("/a".to_string()));
}

#[test]
fn first_candidate_with_data_wins() {
    let first = file(Some("/one"));
    let mut second = file(Some("/two"));
    second.recent_notes = Some(7);
    second.project_done_limit = Some(0);
    let files = vec![
        ("a.toml".to_string(), first),
        ("b.toml".to_string(), file(None)),
        ("c.toml".to_string(), second),
    ];
    let all = candidates_with(&files, Some("/h"));
    assert_eq!(all.len(), 3);
    assert_eq!(all[2].data_dir, "/h/Documents/Acta");
    assert_eq!(all[2].source, "既定値");
    let config = Config::resolve_with(None, Some("/h"), false, &all, &vec![false, true, true])
        .expect("ある");
    assert_eq!(config.data_dir, "/two");
    assert_eq!(config.source, "c.toml");
    assert_eq!(config.recent_notes, 7);
    assert_eq!(config.project_done_limit, 0);
}

#[test]
fn nothing_found_says_what_to_do() {
    let err = Config::resolve_with(None, None, false, &vec![], &vec![]).expect_err("無い");
    assert!(matches!(err, ConfigError::NotFound));
    assert!(err.message().contains("export NOTA_DATA_DIR=/path/to/Acta"));
}

#[test]
fn file_from_the_environment_names_its_variable() {
    assert_eq!(env_source("/c.toml"), "/c.toml (NOTA_CONFIG)");
}

#[test]
fn a_blank_place_is_not_asked_for() {
    assert!(asks(Some("/a")));
    assert!(!asks(Some("  ")));
    assert!(!asks(None));
}
