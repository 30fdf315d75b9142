//! Paths as the directory walks see them.

use vstd::prelude::*;

verus! {

/// A path taken apart: its full path, whether it is a directory, the path of its
/// parent and its name. Paths are held as their display text.
pub struct PathInfo {
    pub full_path: String,
    pub is_dir: bool,
    pub parent: String,
    pub name: String,
}

impl Clone for PathInfo {
    fn clone(&self) -> (copy: Self)
        ensures
            copy == *self,
    {
        PathInfo {
            full_path: self.full_path.clone(),
            is_dir: self.is_dir,
            parent: self.parent.clone(),
            name: self.name.clone(),
        }
    }
}

/// A directory and its contents.
pub struct DirInfo {
    pub path: PathInfo,
    pub expanded: bool,
    pub contents: Vec<FileSystemEntity>,
}

/// A file-system entity.
pub enum FileSystemEntity {
    File(PathInfo),
    Directory(DirInfo),
}

} // verus!
