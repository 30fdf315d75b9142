//! The user interface of the standalone command-line tool: its command line, the
//! decisions of its text interface, its colours and line-drawing characters.

pub mod cli;
pub mod tui;
pub mod ui_repo;
