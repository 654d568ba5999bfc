//! The shell integration scripts and how the program's path is written
//! into them.
use vstd::prelude::*;
use crate::cli::Shell;
use crate::text::{chars_of, occurs_at, replace_all, replace_chars, string_from_chars};

verus! {

/// The Bash integration; `__TERMINAL_HISTORY_BIN__` stands for the program.
pub const BASH: &'static str = r#"__terminal_history_bin=__TERMINAL_HISTORY_BIN__
__terminal_history_ready=0
__terminal_history_initialized=0
__terminal_history_last=$HISTCMD
__terminal_history_read_command() {
    local history_line
    history_line="$(HISTTIMEFORMAT= builtin history 1)"
    [[ $history_line =~ ^[[:space:]]*[0-9]+[[:space:]]+(.*)$ ]] && printf '%s' "${BASH_REMATCH[1]}"
}
__terminal_history_preexec() {
    local last_status=$? function_name
    for function_name in "${FUNCNAME[@]:1}"; do
        [[ $function_name == __terminal_history_* ]] && return "$last_status"
    done
    (( __terminal_history_ready )) || return "$last_status"
    [[ $BASH_COMMAND == __terminal_history_* ]] && return "$last_status"
    __terminal_history_ready=0
    __terminal_history_command="$(__terminal_history_read_command)"
    __terminal_history_cwd="$PWD"
    return "$last_status"
}
__terminal_history_prompt() {
    local prompt_status=$?
    if (( ! __terminal_history_initialized )); then
        __terminal_history_initialized=1
        __terminal_history_last=$HISTCMD
        __terminal_history_ready=1
        return "$prompt_status"
    fi
    if [[ -z "$__terminal_history_command" && $HISTCMD != "$__terminal_history_last" ]]; then
        __terminal_history_command="$(__terminal_history_read_command)"
        : "${__terminal_history_cwd:=$PWD}"
    fi
    if [[ -n "$__terminal_history_command" ]]; then
        ("$__terminal_history_bin" add --command "$__terminal_history_command" --cwd "$__terminal_history_cwd" --shell bash --status "$__terminal_history_status" >/dev/null 2>&1 &)
        unset __terminal_history_command __terminal_history_cwd
    fi
    __terminal_history_last=$HISTCMD
    __terminal_history_ready=1
    return "$prompt_status"
}
if [[ ${BASH_VERSINFO[0]} -ge 5 ]]; then
    __terminal_history_prompt_commands=()
    for __terminal_history_item in "${PROMPT_COMMAND[@]}"; do
        [[ $__terminal_history_item == '__terminal_history_status=$?' || $__terminal_history_item == __terminal_history_prompt ]] || __terminal_history_prompt_commands+=("$__terminal_history_item")
    done
    PROMPT_COMMAND=('__terminal_history_status=$?' "${__terminal_history_prompt_commands[@]}" __terminal_history_prompt)
    unset __terminal_history_prompt_commands __terminal_history_item
else
    PROMPT_COMMAND="__terminal_history_status=\$?${PROMPT_COMMAND:+;$PROMPT_COMMAND};__terminal_history_prompt"
fi
if declare -p preexec_functions >/dev/null 2>&1; then
    [[ " ${preexec_functions[*]} " == *" __terminal_history_preexec "* ]] || preexec_functions+=(__terminal_history_preexec)
elif [[ -z $(trap -p DEBUG) ]]; then
    trap '__terminal_history_preexec' DEBUG
fi

__terminal_history_search() {
    local selected
    selected="$("$__terminal_history_bin" pick --query "$READLINE_LINE")"
    if [[ -n "$selected" ]]; then
        READLINE_LINE="$selected"
        READLINE_POINT=${#READLINE_LINE}
    fi
}
__terminal_history_up() {
    if [[ "$READLINE_LINE" != "${__terminal_history_selected-}" ]]; then
        __terminal_history_prefix="$READLINE_LINE"
        __terminal_history_offset=0
    fi
    local selected
    selected="$("$__terminal_history_bin" recall --prefix "$__terminal_history_prefix" --offset "$__terminal_history_offset")"
    if [[ -n "$selected" ]]; then
        READLINE_LINE="$selected"
        READLINE_POINT=${#READLINE_LINE}
        __terminal_history_selected="$selected"
        ((__terminal_history_offset++))
    fi
}
__terminal_history_down() {
    if (( __terminal_history_offset <= 1 )); then
        READLINE_LINE="$__terminal_history_prefix"
        READLINE_POINT=${#READLINE_LINE}
        __terminal_history_selected="$READLINE_LINE"
        __terminal_history_offset=0
        return
    fi
    ((__terminal_history_offset-=2))
    __terminal_history_up
}
bind -r "${TERMINAL_HISTORY_SEARCH_KEY:-\\C-r}" 2>/dev/null
bind -r "${TERMINAL_HISTORY_UP_KEY:-\\e[A}" 2>/dev/null
bind -r "${TERMINAL_HISTORY_DOWN_KEY:-\\e[B}" 2>/dev/null
bind -x "\"${TERMINAL_HISTORY_SEARCH_KEY:-\\C-r}\":__terminal_history_search"
bind -x "\"${TERMINAL_HISTORY_UP_KEY:-\\e[A}\":__terminal_history_up"
bind -x "\"${TERMINAL_HISTORY_DOWN_KEY:-\\e[B}\":__terminal_history_down"
"#;

/// The Zsh integration; `__TERMINAL_HISTORY_BIN__` stands for the program.
pub const ZSH: &'static str = r#"__terminal_history_bin=__TERMINAL_HISTORY_BIN__
autoload -Uz add-zsh-hook
zmodload zsh/datetime 2>/dev/null
__terminal_history_preexec() {
    [[ -n "$1" ]] || return
    __terminal_history_command="$1"
    __terminal_history_cwd="$PWD"
    __terminal_history_started=${EPOCHREALTIME:-$SECONDS}
}
__terminal_history_precmd() {
    local command_status=$?
    if [[ -n "$__terminal_history_command" ]]; then
        local elapsed=$(( int((${EPOCHREALTIME:-$SECONDS} - __terminal_history_started) * 1000) ))
        "$__terminal_history_bin" add --command "$__terminal_history_command" --cwd "$__terminal_history_cwd" --shell zsh --status "$command_status" --duration "$elapsed" >/dev/null 2>&1 &
        unset __terminal_history_command
    fi
}
add-zsh-hook -d preexec __terminal_history_preexec 2>/dev/null
add-zsh-hook -d precmd __terminal_history_precmd 2>/dev/null
add-zsh-hook preexec __terminal_history_preexec
add-zsh-hook precmd __terminal_history_precmd

__terminal_history_search() {
    local selected="$("$__terminal_history_bin" pick --query "$BUFFER")"
    if [[ -n "$selected" ]]; then
        BUFFER="$selected"
        CURSOR=${#BUFFER}
    fi
    zle redisplay
}
__terminal_history_up() {
    if [[ "$BUFFER" != "${__terminal_history_selected-}" ]]; then
        __terminal_history_prefix="$BUFFER"
        __terminal_history_offset=0
    fi
    local selected="$("$__terminal_history_bin" recall --prefix "$__terminal_history_prefix" --offset "$__terminal_history_offset")"
    if [[ -n "$selected" ]]; then
        BUFFER="$selected"
        CURSOR=${#BUFFER}
        __terminal_history_selected="$selected"
        ((__terminal_history_offset++))
    fi
    zle redisplay
}
__terminal_history_down() {
    if (( __terminal_history_offset <= 1 )); then
        BUFFER="$__terminal_history_prefix"
        CURSOR=${#BUFFER}
        __terminal_history_selected="$BUFFER"
        __terminal_history_offset=0
        zle redisplay
        return
    fi
    ((__terminal_history_offset-=2))
    __terminal_history_up
}
zle -N __terminal_history_search
zle -N __terminal_history_up
zle -N __terminal_history_down
bindkey -r "${TERMINAL_HISTORY_SEARCH_KEY:-^R}" 2>/dev/null
bindkey -r "${TERMINAL_HISTORY_UP_KEY:-^[[A}" 2>/dev/null
bindkey -r "${TERMINAL_HISTORY_DOWN_KEY:-^[[B}" 2>/dev/null
bindkey "${TERMINAL_HISTORY_SEARCH_KEY:-^R}" __terminal_history_search
bindkey "${TERMINAL_HISTORY_UP_KEY:-^[[A}" __terminal_history_up
bindkey "${TERMINAL_HISTORY_DOWN_KEY:-^[[B}" __terminal_history_down
"#;

/// The Fish integration; `__TERMINAL_HISTORY_BIN__` stands for the program.
pub const FISH: &'static str = r#"set -g __terminal_history_bin __TERMINAL_HISTORY_BIN__
function __terminal_history_preexec --on-event fish_preexec
    test -n "$argv[1]"; or return
    set -g __terminal_history_command $argv[1]
    set -g __terminal_history_cwd $PWD
end
function __terminal_history_postexec --on-event fish_postexec
    set -l command_status $status
    if set -q __terminal_history_command
        command $__terminal_history_bin add --command "$__terminal_history_command" --cwd "$__terminal_history_cwd" --shell fish --status "$command_status" --duration "$CMD_DURATION" >/dev/null 2>&1 &
        set -e __terminal_history_command
        set -e __terminal_history_cwd
    end
end

function __terminal_history_search
    set -l selected (command $__terminal_history_bin pick --query (commandline))
    if test -n "$selected"
        commandline -- "$selected"
    end
    commandline -f repaint
end
function __terminal_history_up
    set -l line (commandline)
    if not set -q __terminal_history_selected; or test "$line" != "$__terminal_history_selected"
        set -g __terminal_history_prefix "$line"
        set -g __terminal_history_offset 0
    end
    set -l selected (command $__terminal_history_bin recall --prefix "$__terminal_history_prefix" --offset "$__terminal_history_offset")
    if test -n "$selected"
        commandline -- "$selected"
        set -g __terminal_history_selected "$selected"
        set -g __terminal_history_offset (math $__terminal_history_offset + 1)
    end
    commandline -f repaint
end
function __terminal_history_down
    if not set -q __terminal_history_offset
        return
    end
    if test "$__terminal_history_offset" -le 1
        commandline -- "$__terminal_history_prefix"
        set -g __terminal_history_selected "$__terminal_history_prefix"
        set -g __terminal_history_offset 0
        commandline -f repaint
        return
    end
    set -g __terminal_history_offset (math $__terminal_history_offset - 2)
    __terminal_history_up
end
bind --erase (set -q TERMINAL_HISTORY_SEARCH_KEY; and echo $TERMINAL_HISTORY_SEARCH_KEY; or echo '\cr') 2>/dev/null
bind --erase (set -q TERMINAL_HISTORY_UP_KEY; and echo $TERMINAL_HISTORY_UP_KEY; or echo '\e[A') 2>/dev/null
bind --erase (set -q TERMINAL_HISTORY_DOWN_KEY; and echo $TERMINAL_HISTORY_DOWN_KEY; or echo '\e[B') 2>/dev/null
bind (set -q TERMINAL_HISTORY_SEARCH_KEY; and echo $TERMINAL_HISTORY_SEARCH_KEY; or echo '\cr') __terminal_history_search
bind (set -q TERMINAL_HISTORY_UP_KEY; and echo $TERMINAL_HISTORY_UP_KEY; or echo '\e[A') __terminal_history_up
bind (set -q TERMINAL_HISTORY_DOWN_KEY; and echo $TERMINAL_HISTORY_DOWN_KEY; or echo '\e[B') __terminal_history_down
"#;

/// The Nushell integration; `__TERMINAL_HISTORY_BIN__` stands for the program.
pub const NU: &'static str = r#"let __terminal_history_loaded = ($env.config.keybindings? | default [] | any {|binding| $binding.name? == terminal_history_search })
$env.__terminal_history_bin = __TERMINAL_HISTORY_BIN__
if not $__terminal_history_loaded {
    $env.config = ($env.config
        | upsert hooks.pre_execution (($env.config.hooks.pre_execution? | default []) | append {||
            let command = (commandline)
            if ($command | is-not-empty) {
                $env.__terminal_history_command = $command
                $env.__terminal_history_cwd = $env.PWD
            }
        })
        | upsert hooks.pre_prompt (($env.config.hooks.pre_prompt? | default []) | append {||
            if ($env.__terminal_history_command? | is-not-empty) {
                let command = $env.__terminal_history_command
                let cwd = $env.__terminal_history_cwd
                let status = ($env.LAST_EXIT_CODE? | default 0)
                let duration = ($env.CMD_DURATION_MS? | default 0)
                hide-env __terminal_history_command
                hide-env __terminal_history_cwd
                ^$env.__terminal_history_bin add --command $command --cwd $cwd --shell nushell --status $status --duration $duration | complete | ignore
                $env.LAST_EXIT_CODE = $status
                $env.CMD_DURATION_MS = $duration
            }
        }))
}
$env.config = ($env.config
    | upsert menus (($env.config.menus? | default [])
        | where not ($it.name? == terminal_history_menu)
        | append [{
            name: terminal_history_menu
            only_buffer_difference: false
            marker: "history> "
            type: {
                layout: list
                page_size: 10
            }
            style: {
                text: white
                selected_text: cyan_reverse
                description_text: yellow
            }
            source: {|buffer, position|
                let output = (^$env.__terminal_history_bin candidates --prefix $buffer | complete)
                if $output.exit_code != 0 {
                    []
                } else {
                    $output.stdout
                    | split row (char nul)
                    | where {|command| $command | is-not-empty }
                    | each {|command|
                        {
                            value: $command
                            span: { start: 0 end: $position }
                        }
                    }
                }
            }
        }])
    | upsert keybindings (($env.config.keybindings? | default [])
        | where not (
            ($it.name? in [terminal_history_search terminal_history_up terminal_history_down]) or
            ($it.modifier == control and $it.keycode == ($env.TERMINAL_HISTORY_SEARCH_KEY? | default char_r)) or
            ($it.modifier == none and ($it.keycode == ($env.TERMINAL_HISTORY_UP_KEY? | default up) or $it.keycode == ($env.TERMINAL_HISTORY_DOWN_KEY? | default down)))
        )
        | append [{
            name: terminal_history_search
            modifier: control
            keycode: ($env.TERMINAL_HISTORY_SEARCH_KEY? | default char_r)
            mode: [emacs vi_insert vi_normal]
            event: { send: executehostcommand, cmd: 'commandline edit (^$env.__terminal_history_bin pick --query (commandline))' }
        } {
            name: terminal_history_up
            modifier: none
            keycode: ($env.TERMINAL_HISTORY_UP_KEY? | default up)
            mode: [emacs vi_insert vi_normal]
            event: { send: executehostcommand, cmd: 'let line = (commandline); if ($env.__terminal_history_offset? | is-empty) or ($line != ($env.__terminal_history_selected? | default $line)) { $env.__terminal_history_prefix = $line; $env.__terminal_history_offset = 0; $env.__terminal_history_selected = $line }; let selected = (^$env.__terminal_history_bin recall --prefix $env.__terminal_history_prefix --offset $env.__terminal_history_offset); if ($selected | is-not-empty) { commandline edit $selected; $env.__terminal_history_selected = $selected; $env.__terminal_history_offset = $env.__terminal_history_offset + 1 }' }
        } {
            name: terminal_history_down
            modifier: none
            keycode: ($env.TERMINAL_HISTORY_DOWN_KEY? | default down)
            mode: [emacs vi_insert vi_normal]
            event: { send: executehostcommand, cmd: 'if ($env.__terminal_history_offset? | is-not-empty) { let offset = $env.__terminal_history_offset; if $offset <= 1 { commandline edit ($env.__terminal_history_prefix? | default ""); hide-env __terminal_history_selected; hide-env __terminal_history_offset } else { let next_offset = $offset - 2; let prefix = ($env.__terminal_history_prefix? | default ""); let selected = (^$env.__terminal_history_bin recall --prefix $prefix --offset $next_offset); if ($selected | is-not-empty) { commandline edit $selected; $env.__terminal_history_selected = $selected; $env.__terminal_history_offset = $next_offset + 1 } } }' }
        }]))
$env.config.hinter.closure = {|ctx|
    if $ctx.pos != ($ctx.line | str length) or ($ctx.line | is-empty) {
        ""
    } else {
        let candidate = (^$env.__terminal_history_bin recall --prefix $ctx.line)
        if ($candidate | is-empty) or not ($candidate | str starts-with $ctx.line) {
            ""
        } else {
            $candidate | str substring ($ctx.line | str length)..
        }
    }
}
"#;

/// The placeholder for the program's path in the scripts.
pub const PLACEHOLDER: &'static str = "__TERMINAL_HISTORY_BIN__";

/// The integration script of `shell`, before the program's path is filled in.
pub open spec fn script_text(shell: Shell) -> Seq<char> {
    match shell {
        Shell::Bash => BASH@,
        Shell::Zsh => ZSH@,
        Shell::Fish => FISH@,
        Shell::Nu => NU@,
    }
}

/// The integration script of `shell`, before the program's path is filled in.
pub fn script(shell: Shell) -> (r: &'static str)
    ensures
        r@ == script_text(shell),
{
    match shell {
        Shell::Bash => BASH,
        Shell::Zsh => ZSH,
        Shell::Fish => FISH,
        Shell::Nu => NU,
    }
}

/// `path` as one single-quoted POSIX shell word: quoted as a whole, each
/// `'` in it written as `'\''`.
pub open spec fn single_quoted(path: Seq<char>) -> Seq<char> {
    seq!['\''] + replace_all(path, seq!['\''], seq!['\'', '\\', '\'', '\'']) + seq!['\'']
}

/// What Rust's `Debug` formatting of a string gives: the text in double
/// quotes with Rust's escapes.
pub uninterp spec fn debug_quoted(s: Seq<char>) -> Seq<char>;

/// Formats `s` with `{:?}`; claims only that the result is the named
/// quoting of the text.
#[verifier::external_body]
fn format_debug(s: &str) -> (r: String)
    ensures
        r@ == debug_quoted(s@),
{
    format!("{:?}", s)
}

/// The program's path as the script of `shell` writes it: a Rust string
/// literal for Nushell, a single-quoted word for the other shells.
pub fn quote_binary(shell: Shell, binary: &str) -> (r: String)
    ensures
        r@ == match shell {
            Shell::Nu => debug_quoted(binary@),
            _ => single_quoted(binary@),
        },
{
    match shell {
        Shell::Nu => format_debug(binary),
        _ => {
            let mut quote: Vec<char> = Vec::new();
            quote.push('\'');
            let mut escaped: Vec<char> = Vec::new();
            escaped.push('\'');
            escaped.push('\\');
            escaped.push('\'');
            escaped.push('\'');
            assert(quote@ =~= seq!['\'']);
            assert(escaped@ =~= seq!['\'', '\\', '\'', '\'']);
            let body = replace_chars(&chars_of(binary), &quote, &escaped);
            let mut out: Vec<char> = Vec::new();
            out.push('\'');
            crate::text::push_all(&mut out, &body);
            out.push('\'');
            assert(out@ =~= single_quoted(binary@));
            string_from_chars(&out)
        },
    }
}

/// The script of `shell` with every placeholder replaced by
/// `quoted_binary`.
pub fn render_script(shell: Shell, quoted_binary: &str) -> (r: String)
    ensures
        r@ == replace_all(script_text(shell), PLACEHOLDER@, quoted_binary@),
{
    let text = chars_of(script(shell));
    let pattern = chars_of(PLACEHOLDER);
    proof {
        reveal_strlit("__TERMINAL_HISTORY_BIN__");
    }
    string_from_chars(&replace_chars(&text, &pattern, &chars_of(quoted_binary)))
}

/// The integration code `init` prints for `shell` when the program lives
/// at `binary`.
pub fn init_script(shell: Shell, binary: &str) -> (r: String)
    ensures
        r@ == replace_all(
            script_text(shell),
            PLACEHOLDER@,
            match shell {
                Shell::Nu => debug_quoted(binary@),
                _ => single_quoted(binary@),
            },
        ),
{
    let quoted = quote_binary(shell, binary);
    render_script(shell, quoted.as_str())
}


/// `c` followed by the text `r` stands for, if it stands for one.
pub open spec fn prepend(c: char, r: Option<Seq<char>>) -> Option<Seq<char>> {
    match r {
        Some(t) => Some(seq![c] + t),
        None => None,
    }
}

/// The text a POSIX shell reads from a word made of single-quoted parts and
/// backslash-escaped characters; `None` for a word of any other shape or an
/// unterminated quote.
pub open spec fn shell_word(p: Seq<char>) -> Option<Seq<char>>
    decreases p.len(),
{
    if p.len() == 0 {
        Some(seq![])
    } else if p[0] == '\\' {
        if p.len() >= 2 {
            prepend(p[1], shell_word(p.skip(2)))
        } else {
            None
        }
    } else if p[0] == '\'' {
        shell_quoted(p.drop_first())
    } else {
        None
    }
}

/// The text a POSIX shell reads from `p`, the part of a word after an
/// opening single quote.
pub open spec fn shell_quoted(p: Seq<char>) -> Option<Seq<char>>
    decreases p.len(),
{
    if p.len() == 0 {
        None
    } else if p[0] == '\'' {
        shell_word(p.drop_first())
    } else {
        prepend(p[0], shell_quoted(p.drop_first()))
    }
}

proof fn lemma_quoted_body(b: Seq<char>)
    ensures
        shell_quoted(replace_all(b, seq!['\''], seq!['\'', '\\', '\'', '\'']) + seq!['\''])
            == Some(b),
    decreases b.len(),
{
    let q = seq!['\''];
    let esc = seq!['\'', '\\', '\'', '\''];
    if b.len() == 0 {
        let p = replace_all(b, q, esc) + q;
        assert(p =~= q);
        assert(p.drop_first() =~= Seq::<char>::empty());
        assert(shell_word(p.drop_first()) == Some(Seq::<char>::empty()));
        assert(b =~= Seq::<char>::empty());
    } else {
        lemma_quoted_body(b.drop_first());
        let rest = replace_all(b.drop_first(), q, esc) + q;
        if b[0] == '\'' {
            assert(b.subrange(0, 1) =~= q);
            assert(occurs_at(b, q, 0));
            assert(b.skip(1) == b.drop_first());
            let p = replace_all(b, q, esc) + q;
            assert(p =~= esc + rest);
            assert(p.drop_first() =~= seq!['\\', '\'', '\''] + rest);
            assert(p.drop_first().skip(2) =~= seq!['\''] + rest);
            assert((seq!['\''] + rest).drop_first() =~= rest);
            assert(shell_word(seq!['\''] + rest) == shell_quoted(rest));
            assert(shell_word(p.drop_first()) == prepend('\'', shell_word(p.drop_first().skip(2))));
            assert(shell_quoted(p) == shell_word(p.drop_first()));
            assert(seq![b[0]] + b.drop_first() =~= b);
        } else {
            assert(b.subrange(0, 1) != q) by {
                assert(b.subrange(0, 1)[0] == b[0]);
            }
            assert(!occurs_at(b, q, 0));
            let p = replace_all(b, q, esc) + q;
            assert(p =~= seq![b[0]] + rest);
            assert(p.drop_first() =~= rest);
            assert(shell_quoted(p) == prepend(b[0], shell_quoted(rest)));
            assert(seq![b[0]] + b.drop_first() =~= b);
        }
    }
}

/// A POSIX shell reads the single-quoted path back as exactly the path,
/// whatever characters it holds.
pub proof fn lemma_single_quoted_reads_back(path: Seq<char>)
    ensures
        shell_word(single_quoted(path)) == Some(path),
{
    let q = seq!['\''];
    let body = replace_all(path, q, seq!['\'', '\\', '\'', '\'']);
    lemma_quoted_body(path);
    assert(single_quoted(path) =~= seq!['\''] + (body + q));
    assert(single_quoted(path).drop_first() =~= body + q);
}


/// Each shell gets its own whole integration script: `init` for Bash,
/// Zsh, Fish and Nushell starts from `BASH`, `ZSH`, `FISH` and `NU`
/// respectively.
pub proof fn lemma_each_shell_has_its_script()
    ensures
        script_text(Shell::Bash) == BASH@,
        script_text(Shell::Zsh) == ZSH@,
        script_text(Shell::Fish) == FISH@,
        script_text(Shell::Nu) == NU@,
{
}

} // verus!
