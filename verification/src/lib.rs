//! File encryption library: content hashing, compression and authenticated
//! encryption of files, the on-disk `.crypt` framing (a UUID prefix followed by
//! the ciphertext), the user configuration and the parser of its file, cloud
//! tokens, the decisions of the command line and of the Google Drive client, and
//! the file trees shown to the user.

pub mod encryption;
pub mod error;
pub mod filecrypt;
pub mod token;
pub mod config;
pub mod ui;
pub mod common;
pub mod filetree;
pub mod util;
pub mod cli;
pub mod directive;
pub mod cloud_storage;
pub mod drive;
