use terminal_history::tui::{
    command_has_words, help_line, inline_height, picker_layout, HelpStyle, PROMPT, lowercase_words, matching, newest_match, sorted, Action,
    Body, Entry, Help, Key, KeyCode, LoadState, Picker, Received, Tone, CONTROL, NO_MODIFIERS,
    SHIFT,
};

fn key(code: KeyCode) -> Key {
    Key { modifiers: NO_MODIFIERS, code }
}

fn entry(command: &str, executed_at: i64) -> Entry {
    Entry {
        command: command.into(),
        executed_at,
        display_time: "08-05 12:00:00".into(),
    }
}

#[test]
fn sorts_by_timestamp_and_filters_case_insensitive_words() {
    let entries = vec![
        entry("git status", 10),
        entry("cargo test", 30),
        entry("git log", 20),
    ];
    let sorted = sorted(&entries);
    assert_eq!(
        sorted
            .iter()
            .map(|entry| entry.executed_at)
            .collect::<Vec<_>>(),
        [30, 20, 10]
    );
    assert_eq!(matching(&sorted, "LOG git"), vec![&sorted[1]]);
    assert_eq!(newest_match(&entries, "git"), Some(&entries[2]));
}

#[test]
fn edits_query_while_loading_and_ignores_enter() {
    let mut picker = Picker::new("git");

    assert_eq!(picker.handle_key(key(KeyCode::Char(' '))), Action::Continue);
    assert_eq!(picker.handle_key(key(KeyCode::Char('l'))), Action::Continue);
    assert_eq!(picker.query, "git l");
    assert_eq!(picker.handle_key(key(KeyCode::Enter)), Action::Continue);

    picker.finish_loading(Ok(vec![entry("git status", 20), entry("git log", 10)]));
    assert_eq!(picker.matches()[0].command, "git log");
}

#[test]
fn records_load_failure_and_allows_cancel() {
    let mut picker = Picker::new("");
    picker.finish_loading(Err("offline".into()));

    assert!(matches!(
        &picker.state,
        LoadState::Failed(error) if error == "offline"
    ));
    assert_eq!(picker.handle_key(key(KeyCode::Esc)), Action::Cancel);
}

#[test]
fn sorting_keeps_equal_times_in_order() {
    let entries = vec![entry("a", 5), entry("b", 7), entry("c", 5), entry("d", 7)];
    let order: Vec<String> = sorted(&entries).into_iter().map(|e| e.command).collect();
    assert_eq!(order, ["b", "d", "a", "c"]);
    let again: Vec<String> = sorted(&sorted(&entries)).into_iter().map(|e| e.command).collect();
    assert_eq!(again, order);
    assert!(sorted(&[]).is_empty());
}

#[test]
fn newest_match_takes_the_last_of_equal_times() {
    let entries = vec![entry("git a", 5), entry("git b", 9), entry("ls", 10), entry("git c", 9)];
    assert_eq!(newest_match(&entries, "git"), Some(&entries[3]));
    assert_eq!(newest_match(&entries, "svn"), None);
    assert_eq!(newest_match(&[], ""), None);
}

#[test]
fn blank_query_matches_everything() {
    let entries = vec![entry("a", 1), entry("b", 2)];
    assert_eq!(matching(&entries, "  "), vec![&entries[0], &entries[1]]);
    assert_eq!(matching(&entries, ""), vec![&entries[0], &entries[1]]);
}

#[test]
fn matching_lowercases_commands_and_words() {
    let entries = vec![entry("Docker PS", 1), entry("docker", 2), entry("ÉCHO", 3)];
    assert_eq!(matching(&entries, "dOcKeR ps"), vec![&entries[0]]);
    assert_eq!(matching(&entries, "écho"), vec![&entries[2]]);
    let words = lowercase_words("  LOG\tGit ");
    assert_eq!(words, vec![vec!['l', 'o', 'g'], vec!['g', 'i', 't']]);
}

#[test]
fn command_has_words_requires_every_word() {
    let text: Vec<char> = "git log --oneline".chars().collect();
    let w = |s: &str| s.chars().collect::<Vec<char>>();
    assert!(command_has_words(&text, &vec![w("log"), w("git")]));
    assert!(!command_has_words(&text, &vec![w("log"), w("LOG")]));
    assert!(command_has_words(&text, &vec![]));
    assert!(command_has_words(&text, &vec![w("")]));
}

fn loaded(query: &str, n: i64) -> Picker {
    let mut picker = Picker::new(query);
    picker.finish_loading(Ok((0..n).map(|i| entry(&format!("cmd {i}"), i)).collect()));
    picker
}

#[test]
fn movement_keys_stay_within_the_matches() {
    let mut p = loaded("", 15);
    assert_eq!(p.handle_key(key(KeyCode::Up)), Action::Continue);
    assert_eq!(p.selected, 0);
    p.handle_key(key(KeyCode::Down));
    assert_eq!(p.selected, 1);
    p.handle_key(key(KeyCode::PageDown));
    assert_eq!(p.selected, 11);
    p.handle_key(key(KeyCode::PageDown));
    assert_eq!(p.selected, 14);
    p.handle_key(key(KeyCode::Down));
    assert_eq!(p.selected, 14);
    p.handle_key(key(KeyCode::PageUp));
    assert_eq!(p.selected, 4);
    p.handle_key(key(KeyCode::PageUp));
    assert_eq!(p.selected, 0);
    p.handle_key(key(KeyCode::End));
    assert_eq!(p.selected, 14);
    assert_eq!(p.handle_key(key(KeyCode::Enter)), Action::Select(Some(entry("cmd 0", 0))));
    p.handle_key(key(KeyCode::Home));
    assert_eq!(p.selected, 0);
    assert_eq!(p.handle_key(key(KeyCode::Enter)), Action::Select(Some(entry("cmd 14", 14))));
}

#[test]
fn query_edits_reset_the_highlight() {
    let mut p = loaded("cmd", 3);
    p.handle_key(key(KeyCode::Down));
    assert_eq!(p.selected, 1);
    p.handle_key(key(KeyCode::Backspace));
    assert_eq!((p.query.as_str(), p.selected), ("cm", 0));
    p.handle_key(Key { modifiers: SHIFT, code: KeyCode::Char('D') });
    assert_eq!(p.query, "cmD");
    p.handle_key(Key { modifiers: CONTROL, code: KeyCode::Char('x') });
    assert_eq!(p.query, "cmD");
    p.handle_key(Key { modifiers: CONTROL, code: KeyCode::Char('u') });
    assert_eq!(p.query, "");
    p.handle_key(key(KeyCode::Backspace));
    assert_eq!(p.query, "");
    p.handle_key(key(KeyCode::Char('z')));
    assert_eq!(p.handle_key(key(KeyCode::Enter)), Action::Select(None));
    assert_eq!(
        p.handle_key(Key { modifiers: CONTROL, code: KeyCode::Char('c') }),
        Action::Cancel
    );
}

#[test]
fn failed_picker_ignores_everything_but_cancel() {
    let mut p = Picker::new("q");
    p.finish_loading(Err("boom".into()));
    assert_eq!(p.handle_key(key(KeyCode::Char('x'))), Action::Continue);
    assert_eq!(p.handle_key(Key { modifiers: CONTROL, code: KeyCode::Char('u') }), Action::Continue);
    assert_eq!(p.query, "q");
}

#[test]
fn loader_messages_drive_the_state() {
    let mut p = Picker::new("");
    assert_eq!(p.receive(Received::Nothing), Action::Continue);
    assert!(matches!(p.state, LoadState::Loading));
    assert_eq!(p.receive(Received::Loaded(Ok(vec![]))), Action::Cancel);
    assert!(matches!(p.state, LoadState::Loading));
    assert_eq!(p.receive(Received::Disconnected), Action::Continue);
    assert!(matches!(&p.state, LoadState::Failed(e) if e == "history loader stopped"));

    let mut p = Picker::new("");
    p.receive(Received::Loaded(Ok(vec![entry("a", 1), entry("b", 2)])));
    assert!(matches!(&p.state, LoadState::Ready(es) if es[0].command == "b"));
    assert_eq!(p.receive(Received::Disconnected), Action::Continue);
    assert!(matches!(&p.state, LoadState::Ready(_)));
    p.receive(Received::Loaded(Err("late".into())));
    assert!(matches!(&p.state, LoadState::Failed(e) if e == "late"));
}

#[test]
fn screen_while_loading_and_failed() {
    let p = Picker::new("");
    let s = p.screen(80, 80, 3);
    assert_eq!(s.status, "loading");
    assert!(matches!(&s.body, Body::Message { text, tone: Tone::Dim } if text == "\\ Loading history..."));
    assert_eq!(s.position, "0/0");
    assert_eq!(s.help, Help::Loading);

    let mut p = Picker::new("");
    p.finish_loading(Err("offline".into()));
    let s = p.screen(80, 80, 0);
    assert_eq!(s.status, "error");
    assert!(matches!(&s.body, Body::Message { text, tone: Tone::Error } if text == "Failed to load history: offline"));
    assert_eq!(s.help, Help::Failed);
}

#[test]
fn screen_lists_matches() {
    let mut p = Picker::new("git");
    p.finish_loading(Ok(vec![entry("git\nlog", 1), entry("ls", 2), entry("git st", 3)]));
    p.handle_key(key(KeyCode::Down));
    let s = p.screen(80, 60, 0);
    assert_eq!(s.status, "2 matches");
    assert_eq!(s.position, "2/2");
    assert_eq!(s.help, Help::Full);
    match &s.body {
        Body::Items(items) => {
            assert_eq!(items.len(), 2);
            assert_eq!(items[0].command, "git st");
            assert_eq!(items[0].time.as_deref(), Some("08-05 12:00:00  "));
            assert_eq!(items[1].command, "git log");
        }
        _ => panic!("expected items"),
    }
    let s = p.screen(63, 53, 0);
    assert_eq!(s.help, Help::Compact);
    match &s.body {
        Body::Items(items) => assert_eq!(items[0].time, None),
        _ => panic!("expected items"),
    }
    p.handle_key(key(KeyCode::Char('x')));
    let s = p.screen(80, 80, 0);
    assert_eq!(s.status, "0 matches");
    assert_eq!(s.position, "0/0");
    assert!(matches!(&s.body, Body::Message { text, tone: Tone::Dim } if text == "No matching commands"));
}

#[test]
fn screen_in_lays_out_three_rows() {
    let mut p = Picker::new("");
    p.finish_loading(Ok(vec![entry("a", 1)]));
    let s = p.screen_in(0, 0, 70, 10, 0);
    match &s.body {
        Body::Items(items) => assert!(items[0].time.is_some()),
        _ => panic!("expected items"),
    }
    let s = p.screen_in(0, 0, 53, 10, 0);
    match &s.body {
        Body::Items(items) => assert!(items[0].time.is_none()),
        _ => panic!("expected items"),
    }
}

#[test]
fn picker_layout_has_search_list_and_help_rows() {
    assert_eq!(
        picker_layout(2, 3, 70, 10),
        ((2, 3, 70, 1), (2, 4, 70, 8), (2, 12, 70, 1))
    );
}

#[test]
fn inline_height_is_two_fifths_within_bounds() {
    assert_eq!(inline_height(0), 5);
    assert_eq!(inline_height(20), 8);
    assert_eq!(inline_height(24), 9);
    assert_eq!(inline_height(100), 14);
}

#[test]
fn word_order_does_not_matter_and_words_narrow() {
    let entries = vec![entry("git log", 1), entry("log git x", 2), entry("git", 3), entry("x", 4)];
    assert_eq!(matching(&entries, "git log"), matching(&entries, "log git"));
    let both = matching(&entries, "git\tlog");
    let git = matching(&entries, "git");
    assert_eq!(both, vec![&entries[0], &entries[1]]);
    assert!(both.iter().all(|e| git.contains(e)));
}

#[test]
fn newest_match_is_the_first_offered_when_times_differ() {
    let entries = vec![entry("git a", 5), entry("git b", 9), entry("ls", 10), entry("git c", 7)];
    let ordered = sorted(&entries);
    assert_eq!(newest_match(&entries, "git"), matching(&ordered, "git").first().copied());
    assert_eq!(newest_match(&entries, "svn"), matching(&ordered, "svn").first().copied());
}

#[test]
fn screen_in_uses_the_clipped_width() {
    let mut p = Picker::new("");
    p.finish_loading(Ok(vec![entry("a", 1)]));
    let s = p.screen_in(u16::MAX - 40, 0, 200, 10, 0);
    match &s.body {
        Body::Items(items) => assert!(items[0].time.is_none()),
        _ => panic!("expected items"),
    }
    assert_eq!(picker_layout(u16::MAX - 40, 0, 200, 10).1 .2, 40);
}

#[test]
fn help_lines_name_the_keys() {
    let parts = |help, pos| {
        help_line(help, pos)
            .into_iter()
            .map(|p| (p.text, p.style))
            .collect::<Vec<_>>()
    };
    assert_eq!(
        parts(Help::Failed, "0/0"),
        vec![("esc".to_string(), HelpStyle::Key), (" cancel".to_string(), HelpStyle::Plain)]
    );
    assert_eq!(parts(Help::Loading, "0/0").len(), 4);
    let compact = parts(Help::Compact, "2/5");
    assert_eq!(compact[0], ("\u{2191}\u{2193}".to_string(), HelpStyle::Key));
    assert_eq!(compact[6], ("2/5".to_string(), HelpStyle::Dim));
    let full = parts(Help::Full, "1/1");
    assert_eq!(full.len(), 9);
    assert_eq!(full[0].0, "\u{2191}\u{2193}/pgup/pgdn");
    assert_eq!(full[8], ("1/1".to_string(), HelpStyle::Dim));
    assert_eq!(PROMPT, "> ");
}

#[test]
fn short_areas_keep_column_and_width() {
    let (a, b, c) = picker_layout(4, 0, 30, 2);
    assert_eq!((a.0, b.0, c.0), (4, 4, 4));
    assert_eq!((a.2, b.2, c.2), (30, 30, 30));
}
