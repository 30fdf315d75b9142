//! The utilities of the standalone command-line tool: its configuration file and its
//! parser, its directives, the framing of encrypted files, the paths it walks and
//! the text operations they share.

pub mod text;
pub mod config;
pub mod common;
pub mod parse;
pub mod path;
pub mod encryption;
pub mod directive;
