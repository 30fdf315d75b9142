//! Errors of file encryption, and the parts of a file's path.

use vstd::prelude::*;

verus! {

/// Errors of file encryption.
pub enum EncryptErrors {
    /// The hash of the decrypted contents differs from the recorded one; the text
    /// shows both.
    HashFail(String),
}

/// Takes a file's path apart: its full path, the path of its parent, its name up to
/// the first dot, and the rest of its name (the extension, with its dot). The full
/// path, the parent and the name are read from the file system by the caller.
pub fn get_file_info(full_path: String, parent: String, name: &str) -> (info: (String, String, String, String))
    requires
        name@.contains('.'),
    ensures
        info.0 == full_path,
        info.1 == parent,
        info.2@ + info.3@ == name@,
        info.3@.len() > 0 && info.3@[0] == '.',
        !info.2@.contains('.'),
{
    crate::filecrypt::get_file_info(full_path, parent, name)
}

} // verus!
