//! Command history for interactive shells: the rules that decide what is
//! recorded, how it is searched and ordered, how the interactive picker
//! reacts to keys, and what shell integration code is generated.
pub mod cli;
pub mod history;
pub mod text;
pub mod tui;
pub mod shell;
