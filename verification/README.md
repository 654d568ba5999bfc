# terminal-history

A cross-shell command history tool (Bash, Zsh, Fish, Nushell) that stores
every command execution in a local SQLite database through `turso`, with
optional Turso Cloud synchronisation, and offers prefix navigation and an
inline search picker.

## Layout

- `src/` — the library, verified with Verus:
  - `text.rs`: characters, words, searching, replacing and decimal numerals;
  - `cli.rs`: the command line as plain values;
  - `history.rs`: what is recorded, the `list`/`search`/`recall` query
    parameters and `LIKE` patterns, listed rows, the database path, and the
    external selector's input and output;
  - `shell.rs`: the integration scripts and how the program's path is
    quoted into them;
  - `tui.rs`: matching, ordering and the interactive picker's state machine
    and screen contents.
- `app/` — the program: clap parsing, the database, the environment, the
  terminal loop and drawing with ratatui and crossterm.
- `tests/` — tests of the library.
