use codex_silent::options::{
    is_path, log_base, options, session_name, Command, LogBase, Options, HELP, VERSION,
};

fn words(list: &[&str]) -> Vec<String> {
    list.iter().map(|word| word.to_string()).collect()
}

fn run(list: &[&str]) -> Options {
    match options(&words(list), "/here".to_string()) {
        Command::Run(o) => o,
        _ => panic!("not run"),
    }
}

fn invalid(list: &[&str]) -> String {
    match options(&words(list), "/here".to_string()) {
        Command::Invalid(reason) => reason,
        _ => panic!("not invalid"),
    }
}

#[test]
fn an_empty_command_line_has_defaults() {
    let o = run(&[]);
    assert_eq!(o.codex, "codex");
    assert_eq!(o.cwd, "/here");
    assert!(o.config.is_empty());
    assert!(o.resume.is_none() && o.model.is_none() && o.replay.is_none() && o.log_dir.is_none());
    assert!(!o.show && !o.check);
}

#[test]
fn every_option_is_taken() {
    let o = run(&[
        "--codex", "/bin/codex", "--cwd", "/w", "--resume", "T", "--model", "m", "-c", "a=1",
        "--config", "b=2", "--replay", "/log", "--log-dir", "/logs", "--show", "--check",
    ]);
    assert_eq!(o.codex, "/bin/codex");
    assert_eq!(o.cwd, "/w");
    assert_eq!(o.config, ["a=1", "b=2"]);
    assert_eq!(o.resume.as_deref(), Some("T"));
    assert_eq!(o.model.as_deref(), Some("m"));
    assert_eq!(o.replay.as_deref(), Some("/log"));
    assert_eq!(o.log_dir.as_deref(), Some("/logs"));
    assert!(o.show && o.check);
    let o = run(&["--model", "a", "--model", "--show"]);
    assert_eq!(o.model.as_deref(), Some("--show"));
    assert!(!o.show);
}

#[test]
fn bad_command_lines_are_explained() {
    assert_eq!(invalid(&["--wat"]), "Unknown option: --wat. Use --help.");
    assert_eq!(invalid(&["--show", "--cwd"]), "--cwd requires a value");
    assert_eq!(invalid(&["--wat", "--help"]), "Unknown option: --wat. Use --help.");
}

#[test]
fn help_and_version_come_first() {
    assert!(matches!(options(&words(&["--show", "-h", "--wat"]), String::new()), Command::Help));
    assert!(matches!(options(&words(&["--help"]), String::new()), Command::Help));
    assert!(matches!(options(&words(&["-V"]), String::new()), Command::Version));
    assert!(matches!(options(&words(&["--version"]), String::new()), Command::Version));
    assert!(HELP.starts_with("Codex Silent — answers first, activity on demand\n\nUsage:"));
    assert!(HELP.ends_with("No special prompt or MCP tool needed."));
    assert_eq!(VERSION, "0.2.0");
}

#[test]
fn logs_are_kept_in_the_first_directory_there_is() {
    assert_eq!(log_base(true, true, true), Some(LogBase::Given));
    assert_eq!(log_base(false, true, true), Some(LogBase::StateHome));
    assert_eq!(log_base(false, false, true), Some(LogBase::Home));
    assert_eq!(log_base(false, false, false), None);
    assert_eq!(LogBase::Given.below(), None);
    assert_eq!(LogBase::StateHome.below(), Some("codex-silent"));
    assert_eq!(LogBase::Home.below(), Some(".local/state/codex-silent"));
    assert_eq!(session_name(1700000000000000001, 42), "session-1700000000000000001-42");
}

#[test]
fn an_executable_with_a_directory_is_a_path() {
    for path in ["", "codex", ".", "/", "//", "codex/", "codex/.", "./.", ".codex", "codex//./"] {
        assert!(!is_path(path));
        assert!(std::path::Path::new(path).components().count() <= 1);
    }
    for path in ["./codex", "/codex", "//codex", "../codex", "a/b", "a/..", "/./a", "a/.b", "a//b/"] {
        assert!(is_path(path));
        assert!(std::path::Path::new(path).components().count() > 1);
    }
}
