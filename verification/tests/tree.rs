use crypt_core::common::{build_tree, DirInfo, FileInfo, FsNode};
use crypt_core::filetree::tree::{is_not_hidden, Directory, File, FileTree, Symlink};
use crypt_core::filetree::treeprint::visit;

fn bold(code: &str, text: &str) -> String {
    format!("\u{1b}[1;{}m{}\u{1b}[0m", code, text)
}

fn label(name: &str, expanded: bool) -> String {
    format!("{}{}{}{}", bold("37", "["), bold("32", if expanded { "˅" } else { "˃" }), bold("37", "]"), bold("34", name))
}

fn file(name: &str) -> FsNode {
    FsNode::File(FileInfo::new(name.to_string(), format!("/r/{}", name)))
}

fn dir(name: &str, expanded: bool, contents: Vec<FsNode>) -> FsNode {
    FsNode::Directory(DirInfo::new(name.to_string(), format!("/r/{}", name), expanded, contents))
}

#[test]
fn build_tree_lists_files_first_then_directories() {
    let root = DirInfo::new(
        "Crypt".to_string(),
        "id0".to_string(),
        true,
        vec![
            dir("docs", true, vec![file("a.crypt"), dir("old", false, vec![file("hidden.crypt")])]),
            file("b.crypt"),
            dir("empty", true, vec![]),
        ],
    );
    let tree = build_tree(&root);
    let expected = vec![
        label("Crypt", true),
        " ├── b.crypt".to_string(),
        format!(" ├──{}", label("docs", true)),
        " │   ├── a.crypt".to_string(),
        format!(" │   ╰──{}", label("old", false)),
        format!(" ╰──{}", label("empty", true)),
    ];
    assert_eq!(tree, expected);
}

#[test]
fn build_tree_of_an_empty_directory_is_its_label() {
    let root = DirInfo::new("Crypt".to_string(), "id".to_string(), false, vec![]);
    assert_eq!(build_tree(&root), vec![label("Crypt", false)]);
}

#[test]
fn build_tree_marks_the_last_file_when_no_directory_follows() {
    let root = DirInfo::new("r".to_string(), "r".to_string(), true, vec![file("x"), file("y")]);
    assert_eq!(build_tree(&root), vec![label("r", true), " ├── x".to_string(), " ╰── y".to_string()]);
}

#[test]
fn fs_node_getters() {
    let d = dir("docs", true, vec![file("a")]);
    assert!(d.is_dir());
    assert_eq!(d.get_name(), "docs");
    assert_eq!(d.get_path_str(), "/r/docs");
    assert_eq!(d.get_path_string(), "/r/docs".to_string());
    assert_eq!(d.get_expanded(), Some(true));
    let contents = d.get_contents().unwrap();
    assert_eq!(contents.len(), 1);
    assert_eq!(contents[0].get_name(), "a");
    let f = file("a");
    assert!(!f.is_dir());
    assert_eq!(f.get_expanded(), None);
    assert!(f.get_contents().is_none());
    let copy = d.clone();
    assert_eq!(copy.get_name(), "docs");
}

#[test]
fn hidden_names_start_with_a_dot() {
    assert!(!is_not_hidden(".git"));
    assert!(is_not_hidden("src"));
    assert!(is_not_hidden(""));
    assert!(is_not_hidden("a.b"));
}

#[test]
fn visit_draws_and_counts() {
    let tree = Directory {
        name: "crypt".to_string(),
        entries: vec![
            FileTree::DirNode(Directory {
                name: "sub".to_string(),
                entries: vec![FileTree::FileNode(File { name: "one.crypt".to_string() })],
            }),
            FileTree::LinkNode(Symlink { name: "link".to_string(), target: "/elsewhere".to_string() }),
            FileTree::FileNode(File { name: "two.crypt".to_string() }),
        ],
    };
    let (lines, dirs, files) = visit(&tree, "");
    assert_eq!(
        lines,
        vec![
            "├── sub".to_string(),
            "│   └── one.crypt".to_string(),
            "├── link -> /elsewhere".to_string(),
            "└── two.crypt".to_string(),
        ]
    );
    assert_eq!(dirs, 2);
    assert_eq!(files, 3);
}

#[test]
fn visit_of_an_empty_directory() {
    let tree = Directory { name: "e".to_string(), entries: vec![] };
    let (lines, dirs, files) = visit(&tree, "  ");
    assert!(lines.is_empty());
    assert_eq!(dirs, 1);
    assert_eq!(files, 0);
}
