use terminal_history::cli::Shell;
use terminal_history::shell::{init_script, quote_binary, render_script, script, BASH, FISH, NU, ZSH};

#[test]
fn every_hook_records_command_directory_and_status() {
    for script in [BASH, ZSH, FISH, NU] {
        assert!(script.contains("--command"));
        assert!(script.contains("--cwd"));
        assert!(script.contains("--shell"));
        assert!(script.contains("--status"));
    }
    for script in [ZSH, FISH, NU] {
        assert!(script.contains("--duration"));
    }
}

#[test]
fn hooks_append_and_avoid_duplicate_registration() {
    assert!(BASH.contains("PROMPT_COMMAND=('__terminal_history_status=$?'"));
    assert!(BASH.contains("__terminal_history_initialized=0"));
    assert!(ZSH.contains("add-zsh-hook -d preexec"));
    assert!(FISH.contains("--on-event fish_preexec"));
    assert!(FISH.contains("--on-event fish_postexec"));
    assert!(NU.contains("hooks.pre_execution") && NU.contains("| append"));
    assert!(NU.contains("let __terminal_history_loaded ="));
}

#[test]
fn history_keys_replace_native_bindings() {
    assert!(BASH.contains("bind -r"));
    assert!(ZSH.contains("bindkey -r"));
    assert!(FISH.contains("bind --erase"));
    assert!(NU.contains("where not"));
}

#[test]
fn nushell_history_hint_uses_recall() {
    assert!(NU.contains("$env.config.hinter.closure = {|ctx|"));
    assert!(NU.contains("recall --prefix $ctx.line"));
}

#[test]
fn nushell_history_navigation_stays_in_reedline() {
    assert!(NU.contains("name: terminal_history_menu"));
    assert!(NU.contains("candidates --prefix $buffer | complete"));
    assert!(NU.contains("send: executehostcommand"));
    assert!(NU.contains("recall --prefix"));
    assert!(NU.contains("--offset"));
    assert!(!NU.contains("{ send: menuup }"));
    assert!(!NU.contains("{ send: menudown }"));
    assert!(NU.contains("__terminal_history_offset"));
    assert!(NU.contains("__terminal_history_selected"));
}

#[test]
fn nushell_menu_and_bindings_are_replaced_idempotently() {
    assert!(NU.contains("where not ($it.name? == terminal_history_menu)"));
    assert!(NU.contains(
        "$it.name? in [terminal_history_search terminal_history_up terminal_history_down]"
    ));
}

#[test]
fn binary_is_single_quoted_for_posix_shells() {
    assert_eq!(quote_binary(Shell::Bash, "/opt/it's here/th"), r"'/opt/it'\''s here/th'");
    assert_eq!(quote_binary(Shell::Fish, "/bin/th"), "'/bin/th'");
}

#[test]
fn binary_is_a_string_literal_for_nushell() {
    assert_eq!(quote_binary(Shell::Nu, "/bin/a \"b\""), r#""/bin/a \"b\"""#);
}

#[test]
fn init_script_fills_in_the_binary() {
    let out = init_script(Shell::Zsh, "/usr/local/bin/terminal-history");
    assert!(out.starts_with("__terminal_history_bin='/usr/local/bin/terminal-history'\n"));
    assert!(!out.contains("__TERMINAL_HISTORY_BIN__"));
    assert_eq!(out, ZSH.replace("__TERMINAL_HISTORY_BIN__", "'/usr/local/bin/terminal-history'"));
    let nu = init_script(Shell::Nu, "/x");
    assert!(nu.contains("$env.__terminal_history_bin = \"/x\"\n"));
    assert_eq!(render_script(Shell::Bash, "B"), BASH.replace("__TERMINAL_HISTORY_BIN__", "B"));
    assert_eq!(script(Shell::Fish), FISH);
}
