//! Directory trees read from disk, and their drawing as text.

pub mod tree;
pub mod treeprint;
