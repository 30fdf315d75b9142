//! A directory tree: directories, files and symbolic links, by name.

use vstd::prelude::*;

verus! {

/// An entry of a directory tree.
pub enum FileTree {
    DirNode(Directory),
    FileNode(File),
    LinkNode(Symlink),
}

/// A directory and its entries, in the order they are listed.
pub struct Directory {
    pub name: String,
    pub entries: Vec<FileTree>,
}

/// A file.
pub struct File {
    pub name: String,
}

/// A symbolic link and the path it points to.
pub struct Symlink {
    pub name: String,
    pub target: String,
}

/// Whether a name is shown in a walk: names that start with a dot are hidden.
pub fn is_not_hidden(name: &str) -> (shown: bool)
    ensures
        shown == !(name@.len() > 0 && name@[0] == '.'),
{
    let n = name.unicode_len();
    if n == 0 {
        return true;
    }
    name.get_char(0) != '.'
}

} // verus!
