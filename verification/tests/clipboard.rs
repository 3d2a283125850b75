use nota::clipboard::{after, arguments, command_name, none_found, Attempt, Next, COMMANDS};

#[test]
fn commands_are_tried_in_order() {
    let names: Vec<&str> = (0..COMMANDS).map(command_name).collect();
    assert_eq!(names, vec!["pbcopy", "wl-copy", "xclip", "xsel"]);
    assert_eq!(arguments(0), Vec::<&str>::new());
    assert_eq!(arguments(2), vec!["-selection", "clipboard"]);
    assert_eq!(arguments(3), vec!["--clipboard", "--input"]);
}

#[test]
fn only_a_missing_command_leads_on() {
    assert!(matches!(after(0, Attempt::Taken), Next::Done));
    assert!(matches!(after(0, Attempt::Missing), Next::Try(1)));
    assert!(matches!(after(1, Attempt::Failed), Next::Report));
    assert!(matches!(after(COMMANDS - 1, Attempt::Missing), Next::Exhausted));
    assert!(none_found().contains("pbcopy / wl-copy / xclip / xsel"));
}
