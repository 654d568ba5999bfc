use terminal_history::cli::{AddArgs, FilterArgs, DEFAULT_LIMIT, DEFAULT_SHELL, MAX_LIMIT, MIN_LIMIT};
use terminal_history::history::{
    database_path, escape_like, is_internal_command, list_query, list_row, new_record,
    recall_pattern, selector_choice, selector_input, should_record, strip_trailing_nuls, AddError,
    PathError,
};

#[test]
fn escapes_sql_like_prefix() {
    assert_eq!(escape_like(r"50%_done\"), r"50\%\_done\\");
}

#[test]
fn hides_internal_commands() {
    assert!(is_internal_command("commandline edit foo"));
    assert!(is_internal_command(
        "^/tmp/terminal-history recall --prefix git"
    ));
    assert!(is_internal_command(
        "let selected = (^/tmp/terminal-history recall --prefix git)"
    ));
    assert!(!is_internal_command("cargo test"));
}

#[test]
fn internal_program_names_are_found_by_file_name() {
    assert!(is_internal_command("terminal-history list"));
    assert!(is_internal_command("^^/usr/bin/terminal-history/ list"));
    assert!(is_internal_command("  /bin/./commandline"));
    assert!(is_internal_command("/opt/terminal-history/. x"));
    assert!(!is_internal_command("/opt/terminal-history/.. x"));
    assert!(!is_internal_command("terminal-historyx"));
    assert!(!is_internal_command("/"));
    assert!(!is_internal_command(""));
    assert!(!is_internal_command("echo terminal-history"));
}

#[test]
fn blank_and_internal_commands_are_not_recorded() {
    assert!(!should_record(""));
    assert!(!should_record(" \t\n\u{3000}"));
    assert!(!should_record("terminal-history add --command ls"));
    assert!(should_record("ls -la"));
    assert!(should_record(" ls "));
}

#[test]
fn recall_pattern_matches_a_literal_prefix() {
    assert_eq!(recall_pattern("git_%"), r"git\_\%%");
    assert_eq!(recall_pattern(""), "%");
}

fn add_args(timestamp: Option<i64>, cwd: Option<&str>, hostname: Option<&str>) -> AddArgs {
    AddArgs {
        command: "make".to_string(),
        cwd: cwd.map(|c| c.to_string()),
        shell: "zsh".to_string(),
        hostname: hostname.map(|h| h.to_string()),
        status: Some(2),
        duration: None,
        timestamp,
    }
}

#[test]
fn record_takes_defaults_from_the_environment() {
    let rec = new_record(add_args(None, None, None), "/home/u".to_string(), Some("box".to_string()), 42)
        .unwrap();
    assert_eq!(rec.command, "make");
    assert_eq!(rec.executed_at, 42);
    assert_eq!(rec.cwd, "/home/u");
    assert_eq!(rec.shell, "zsh");
    assert_eq!(rec.hostname, "box");
    assert_eq!(rec.exit_status, Some(2));
    assert_eq!(rec.duration_ms, None);

    let rec = new_record(add_args(Some(7), Some("/tmp"), Some("h")), "/home/u".to_string(), Some("box".to_string()), 42)
        .unwrap();
    assert_eq!(rec.executed_at, 7);
    assert_eq!(rec.cwd, "/tmp");
    assert_eq!(rec.hostname, "h");

    let rec = new_record(add_args(None, None, None), "/".to_string(), None, 1).unwrap();
    assert_eq!(rec.hostname, "");
}

#[test]
fn record_refuses_a_clock_beyond_i64() {
    let too_late = i64::MAX as u128 + 1;
    assert_eq!(
        new_record(add_args(Some(1), None, None), "/".to_string(), None, too_late).err(),
        Some(AddError::ClockOutOfRange)
    );
    assert!(new_record(add_args(None, None, None), "/".to_string(), None, i64::MAX as u128).is_ok());
}

#[test]
fn list_filters_by_directory_unless_all() {
    let q = list_query(FilterArgs { limit: 30, cwd: None, all: false }, None, Some("/w".to_string()));
    assert_eq!(q.cwd.as_deref(), Some("/w"));
    assert_eq!(q.pattern, None);
    assert_eq!(q.limit, 30);

    let q = list_query(
        FilterArgs { limit: 5, cwd: Some("/other".to_string()), all: false },
        Some("dock".to_string()),
        Some("/w".to_string()),
    );
    assert_eq!(q.cwd.as_deref(), Some("/other"));
    assert_eq!(q.pattern.as_deref(), Some("%dock%"));

    let q = list_query(FilterArgs { limit: 1000, cwd: None, all: true }, Some("a_b".to_string()), None);
    assert_eq!(q.cwd, None);
    assert_eq!(q.pattern.as_deref(), Some("%a_b%"));
}

#[test]
fn list_rows_are_tab_separated() {
    assert_eq!(
        list_row("2024-01-02 03:04:05.000000001", "/w", "ls", Some(-12), Some(340)),
        "2024-01-02 03:04:05.000000001\t-12\t340ms\t/w\tls"
    );
    assert_eq!(list_row("t", "/", "x", None, None), "t\t-\t-\t/\tx");
    assert_eq!(
        list_row("t", "/", "x", Some(i64::MIN), Some(0)),
        "t\t-9223372036854775808\t0ms\t/\tx"
    );
}

#[test]
fn database_path_prefers_the_override() {
    assert_eq!(database_path(Some("/db".to_string()), Some("/home".to_string())), Ok("/db".to_string()));
    assert_eq!(
        database_path(None, Some("/home/u".to_string())),
        Ok("/home/u/.local/share/terminal-history/history.db".to_string())
    );
    assert_eq!(
        database_path(None, Some("/home/u/".to_string())),
        Ok("/home/u/.local/share/terminal-history/history.db".to_string())
    );
    assert_eq!(
        database_path(None, Some(String::new())),
        Ok(".local/share/terminal-history/history.db".to_string())
    );
    assert_eq!(database_path(None, None), Err(PathError::HomeNotSet));
    assert_eq!(PathError::HomeNotSet.message(), "HOME is not set; set HISTORY_DATABASE_PATH");
}

#[test]
fn selector_gets_nul_terminated_commands() {
    let commands = vec!["ls".to_string(), "é".to_string()];
    assert_eq!(selector_input(&commands), vec![b'l', b's', 0, 0xc3, 0xa9, 0]);
    assert_eq!(selector_input(&Vec::new()), Vec::<u8>::new());
}

#[test]
fn selector_choice_drops_trailing_nuls() {
    assert_eq!(selector_choice(b"git status\0\0"), "git status");
    assert_eq!(selector_choice(b"a\0b\0"), "a\0b");
    assert_eq!(selector_choice(&[0x66, 0xff, 0]), "f\u{fffd}");
    assert_eq!(strip_trailing_nuls("\0\0"), "");
}

#[test]
fn command_line_defaults_and_limits() {
    assert_eq!(DEFAULT_LIMIT, 30);
    assert_eq!((MIN_LIMIT, MAX_LIMIT), (1, 1000));
    assert_eq!(DEFAULT_SHELL, "unknown");
}
