use crypt_core::common::{cropped, is_hidden_name, matches_item, path_diff, selection, Selection};
use crypt_core::ui::tui::{event_handler, format_directory, Cursor, Key};
use crypt_core::util::path::{DirInfo, FileSystemEntity, PathInfo};

fn info(name: &str) -> PathInfo {
    PathInfo { full_path: format!("/t/{}", name), is_dir: false, parent: "/t".to_string(), name: name.to_string() }
}

#[test]
fn cursor_moves_on_the_grid() {
    let mut cursor = Cursor { selected: 0 };
    assert!(!event_handler(&mut cursor, Key::Down));
    assert_eq!(cursor.selected, 1);
    assert!(!event_handler(&mut cursor, Key::Down));
    assert_eq!(cursor.selected, 1);
    assert!(!event_handler(&mut cursor, Key::Right));
    assert_eq!(cursor.selected, 3);
    assert!(!event_handler(&mut cursor, Key::Right));
    assert_eq!(cursor.selected, 3);
    assert!(!event_handler(&mut cursor, Key::Up));
    assert_eq!(cursor.selected, 2);
    assert!(!event_handler(&mut cursor, Key::Left));
    assert_eq!(cursor.selected, 0);
    assert!(!event_handler(&mut cursor, Key::Enter));
    assert!(event_handler(&mut cursor, Key::Quit));
    assert_eq!(cursor.selected, 0);
}

#[test]
fn directory_text() {
    let inner = DirInfo { path: info("sub"), expanded: true, contents: vec![FileSystemEntity::File(info("b.txt"))] };
    let root = DirInfo {
        path: info("root"),
        expanded: true,
        contents: vec![FileSystemEntity::File(info("a.txt")), FileSystemEntity::Directory(inner)],
    };
    assert_eq!(format_directory(&root, 0), "│  └─ a.txt\n├─ sub/\n    │  └─ b.txt\n");
}

#[test]
fn hidden_names() {
    let items = vec!["target".to_string()];
    assert!(is_hidden_name("", &items, false));
    assert!(is_hidden_name("target", &items, false));
    assert!(is_hidden_name("my_target_dir", &items, false));
    assert!(!is_hidden_name("src", &items, true));
    assert!(is_hidden_name("", &vec![], false));
}

#[test]
fn dot_names_are_hidden_exactly_when_hidden_files_are_ignored() {
    let items = vec!["target".to_string()];
    assert!(is_hidden_name(".git", &items, true));
    assert!(!is_hidden_name(".git", &items, false));
    assert!(is_hidden_name(".git", &vec![], true));
    assert!(!is_hidden_name(".git", &vec![], false));
    assert!(is_hidden_name(".target", &items, false));
}

#[test]
fn answers_pick_from_the_list() {
    assert!(selection("2\n", 3) == Selection::Pick(1));
    assert!(selection(" 3 \r\n", 3) == Selection::Pick(2));
    assert!(selection("4\n", 3) == Selection::Invalid);
    assert!(selection("0\n", 3) == Selection::Abort);
    assert!(selection("two\n", 3) == Selection::Abort);
    assert!(selection("\n", 3) == Selection::Abort);
}

#[test]
fn chooser_lists_entries_by_stem_or_name() {
    assert!(matches_item("Report", "Report.crypt", "port"));
    assert!(matches_item("a", "NOTES.CRYPT", "notes.crypt"));
    assert!(!matches_item("Report", "Report.crypt", "crypt"));
    assert!(!matches_item("Émile", "Émile.crypt", "é"));
}

#[test]
fn chooser_crops_long_paths() {
    assert_eq!(cropped("C:\\Users\\u\\crypt\\docs\\a.crypt", 6), "\\docs\\a.crypt");
    assert_eq!(cropped("C:\\Users\\u\\crypt\\docs", 0), "\\crypt\\docs");
    assert_eq!(cropped("/home/u/crypt/a.crypt", 6), "/home/u/crypt/a.crypt");
    let long = format!("/{}", "x".repeat(60));
    assert_eq!(cropped(&long, 6), "x".repeat(45));
}

#[test]
fn chooser_crops_by_bytes() {
    let path = format!("{}{}", "é".repeat(24), "abcdefghijk");
    assert_eq!(path.chars().count(), 35);
    let shown = cropped(&path, 0);
    assert_eq!(shown, format!("{}{}", "é".repeat(17), "abcdefghijk"));
    assert_eq!(shown.len(), 45);
    assert_eq!(shown.chars().count(), 28);
}

fn parts(p: &[&str]) -> Vec<String> {
    p.iter().map(|s| s.to_string()).collect()
}

#[test]
fn path_diff_is_relative_to_the_root() {
    assert_eq!(path_diff(&parts(&["/", "home", "u"]), &parts(&["docs", "a.txt"]), false), parts(&["docs", "a.txt"]));
    assert_eq!(path_diff(&parts(&["/", "home", "u"]), &parts(&["/", "home", "u", "docs"]), true), parts(&["docs"]));
    assert_eq!(path_diff(&parts(&["/", "home", "u"]), &parts(&["/", "etc"]), true), Vec::<String>::new());
    assert_eq!(path_diff(&parts(&["/", "home", "u"]), &parts(&["/", "home", "v", "x"]), true), Vec::<String>::new());
}
