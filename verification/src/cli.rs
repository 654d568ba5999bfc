//! The command line of the program, as plain values.  Parsing the command
//! line itself is done by the program around the library; these types are
//! what it hands over.
use vstd::prelude::*;

verus! {

/// The number of entries `list` and `search` show when no limit is given.
pub const DEFAULT_LIMIT: i64 = 30;

/// The smallest limit `list` and `search` accept.
pub const MIN_LIMIT: i64 = 1;

/// The largest limit `list` and `search` accept.
pub const MAX_LIMIT: i64 = 1000;

/// The shell `add` records when none is given.
pub const DEFAULT_SHELL: &'static str = "unknown";

/// The whole command line.
pub struct Cli {
    pub command: Command,
}

/// The sub-commands of the program.
pub enum Command {
    /// Insert a history entry.
    Add(AddArgs),
    /// List history from the current directory.
    List(FilterArgs),
    /// Search commands from the current directory.
    Search { query: String, filter: FilterArgs },
    /// Return one recent command matching a prefix.
    Recall { prefix: String, offset: i64 },
    /// Return matching commands for shell integration menus.
    Candidates { prefix: String },
    /// Interactively select a command.
    Pick { query: String },
    /// Print shell integration code.
    Init { shell: Shell },
    /// Reclaim unused SQLite pages.
    Compact,
}

/// The arguments of `add`.  Paths are held as text.
pub struct AddArgs {
    pub command: String,
    pub cwd: Option<String>,
    pub shell: String,
    pub hostname: Option<String>,
    pub status: Option<i64>,
    pub duration: Option<i64>,
    pub timestamp: Option<i64>,
}

/// The filter shared by `list` and `search`.  Paths are held as text.
pub struct FilterArgs {
    /// Maximum number of entries.
    pub limit: i64,
    /// Filter by this directory instead of the current directory.
    pub cwd: Option<String>,
    /// Include entries from every directory.
    pub all: bool,
}

/// The shells that have an integration script.
#[derive(Clone, Copy, Debug, PartialEq, Eq)]
pub enum Shell {
    Bash,
    Zsh,
    Fish,
    Nu,
}

} // verus!
