//! The decisions of the text user interface: how the cursor moves over its four menu
//! buttons, and the text that shows a directory.

use vstd::prelude::*;

use crate::ui::ui_repo::CharacterSet;
use crate::util::path::{DirInfo, FileSystemEntity};

verus! {

/// Tracks the selected menu button: 0 and 1 are the left column (top, bottom), 2 and
/// 3 the right one.
pub struct Cursor {
    pub selected: usize,
}

/// The keys that the interface reacts to.
#[derive(PartialEq, Eq, Structural, Clone, Copy)]
pub enum Key {
    Up,
    Left,
    Down,
    Right,
    Enter,
    Quit,
    Other,
}

/// The button that a key moves the cursor to, on the two-by-two grid of buttons.
pub open spec fn moved(selected: int, key: Key) -> int {
    match key {
        Key::Up => if selected % 2 > 0 { selected - 1 } else { selected },
        Key::Left => if selected > 1 { selected - 2 } else { selected },
        Key::Down => if selected % 2 == 0 { selected + 1 } else { selected },
        Key::Right => if selected < 2 { selected + 2 } else { selected },
        _ => selected,
    }
}

/// Moves the cursor for a key, and tells whether the key quits the interface.
pub fn event_handler(cursor: &mut Cursor, key: Key) -> (quit: bool)
    requires
        old(cursor).selected < 4,
    ensures
        quit == (key == Key::Quit),
        final(cursor).selected == moved(old(cursor).selected as int, key),
        final(cursor).selected < 4,
{
    match key {
        Key::Up => {
            if cursor.selected % 2 > 0 {
                cursor.selected -= 1;
            }
        },
        Key::Left => {
            if cursor.selected > 1 {
                cursor.selected -= 2;
            }
        },
        Key::Down => {
            if cursor.selected % 2 == 0 {
                cursor.selected += 1;
            }
        },
        Key::Right => {
            if cursor.selected < 2 {
                cursor.selected += 2;
            }
        },
        Key::Enter => {},
        Key::Quit => return true,
        Key::Other => {},
    }
    false
}

/// `n` spaces.
pub open spec fn spaces(n: nat) -> Seq<char> {
    Seq::new(n, |i: int| ' ')
}

/// The text that shows `contents[i..]` at `indent`: each file on a line of its own
/// after a corner, each directory after a junction with a `/`, followed by its own
/// contents four spaces further in.
pub open spec fn directory_text(contents: Seq<FileSystemEntity>, i: int, indent: nat, set: CharacterSet) -> Seq<char>
    decreases contents, contents.len() - i,
{
    if i < 0 || i >= contents.len() {
        Seq::empty()
    } else {
        let rest = directory_text(contents, i + 1, indent, set);
        match contents[i] {
            FileSystemEntity::File(path) => spaces(indent) + seq![set.v_line, ' ', ' ', set.node, set.h_line, ' ']
                + path.name@ + seq!['\n'] + rest,
            FileSystemEntity::Directory(dir) => {
                proof {
                    assert(decreases_to!(contents => contents[i]));
                    assert(decreases_to!(contents[i] => dir));
                    assert(decreases_to!(dir => dir.contents));
                    assert(decreases_to!(dir.contents => dir.contents@));
                }
                spaces(indent) + seq![set.joint, set.h_line, ' '] + dir.path.name@ + seq!['/', '\n']
                    + directory_text(dir.contents@, 0, indent + 4, set) + rest
            },
        }
    }
}

/// Appends the text of one character to `s`.
fn push_char(s: &mut String, c: char)
    ensures
        final(s)@ == old(s)@.push(c),
{
    let mut buffer = [0u8; 4];
    let text = encode_char(c, &mut buffer);
    s.append(text.as_str());
}

/// Calls `char::encode_utf8` (std) and takes the text as a `String`. Claimed, as
/// documented: the text is the one character.
#[verifier::external_body]
fn encode_char(c: char, buffer: &mut [u8; 4]) -> (text: String)
    ensures
        text@ == seq![c],
{
    c.encode_utf8(buffer).to_string()
}

/// Formats a directory into the text that shows it, with its contents indented by
/// `indent` spaces, in the single-line character set.
pub fn format_directory(directory: &DirInfo, indent: usize) -> (text: String)
    requires
        indent + 4 * tree_depth(directory.contents@) <= usize::MAX,
    ensures
        text@ == directory_text(directory.contents@, 0, indent as nat, CharacterSet::u8_sline_spec()),
    decreases directory,
{
    let set = CharacterSet::u8_sline();
    let mut result = String::new();
    let contents = &directory.contents;
    let ghost items = contents@;
    let ghost sset = CharacterSet::u8_sline_spec();
    let mut i: usize = 0;
    while i < contents.len()
        invariant
            items == contents@,
            items == directory.contents@,
            set == sset,
            sset == CharacterSet::u8_sline_spec(),
            indent + 4 * tree_depth(items) <= usize::MAX,
            0 <= i <= items.len(),
            result@ + directory_text(items, i as int, indent as nat, sset) == directory_text(items, 0, indent as nat, sset),
        decreases items.len() - i,
    {
        let ghost before = result@;
        let mut line = String::new();
        let mut k: usize = 0;
        while k < indent
            invariant
                0 <= k <= indent,
                line@ == spaces(k as nat),
            decreases indent - k,
        {
            push_char(&mut line, ' ');
            k += 1;
            assert(line@ =~= spaces(k as nat));
        }
        match &contents[i] {
            FileSystemEntity::File(path) => {
                push_char(&mut line, set.v_line);
                push_char(&mut line, ' ');
                push_char(&mut line, ' ');
                push_char(&mut line, set.node);
                push_char(&mut line, set.h_line);
                push_char(&mut line, ' ');
                line.append(path.name.as_str());
                push_char(&mut line, '\n');
                result.append(line.as_str());
                assert(result@ + directory_text(items, i + 1, indent as nat, sset)
                    =~= before + directory_text(items, i as int, indent as nat, sset));
            },
            FileSystemEntity::Directory(dir) => {
                push_char(&mut line, set.joint);
                push_char(&mut line, set.h_line);
                push_char(&mut line, ' ');
                line.append(dir.path.name.as_str());
                push_char(&mut line, '/');
                push_char(&mut line, '\n');
                proof {
                    lemma_depth_below(items, i as int);
                    assert(decreases_to!(directory => directory.contents));
                    assert(decreases_to!(directory.contents => directory.contents@));
                    assert(decreases_to!(directory.contents@ => directory.contents@[i as int]));
                }
                let inner = format_directory(dir, indent + 4);
                line.append(inner.as_str());
                result.append(line.as_str());
                assert(result@ + directory_text(items, i + 1, indent as nat, sset)
                    =~= before + directory_text(items, i as int, indent as nat, sset));
            },
        }
        i += 1;
    }
    assert(directory_text(items, items.len() as int, indent as nat, sset) =~= Seq::<char>::empty());
    assert(result@ =~= directory_text(items, 0, indent as nat, sset));
    result
}

/// How many directories deep `contents` goes.
pub open spec fn tree_depth(contents: Seq<FileSystemEntity>) -> nat
    decreases contents,
{
    depth_from(contents, 0)
}

/// How many directories deep `contents[i..]` goes.
pub open spec fn depth_from(contents: Seq<FileSystemEntity>, i: int) -> nat
    decreases contents, contents.len() - i,
{
    if i < 0 || i >= contents.len() {
        0
    } else {
        let rest = depth_from(contents, i + 1);
        match contents[i] {
            FileSystemEntity::File(_) => rest,
            FileSystemEntity::Directory(dir) => {
                proof {
                    assert(decreases_to!(contents => contents[i]));
                    assert(decreases_to!(contents[i] => dir));
                    assert(decreases_to!(dir => dir.contents));
                    assert(decreases_to!(dir.contents => dir.contents@));
                }
                let below = 1 + depth_from(dir.contents@, 0);
                if below > rest {
                    below
                } else {
                    rest
                }
            },
        }
    }
}

/// A subdirectory goes at least one level less deep than its parent's contents.
proof fn lemma_depth_below(contents: Seq<FileSystemEntity>, i: int)
    requires
        0 <= i < contents.len(),
        contents[i] is Directory,
    ensures
        1 + tree_depth(contents[i]->Directory_0.contents@) <= tree_depth(contents),
    decreases contents.len() - i,
{
    lemma_depth_from_at_least(contents, 0, i);
}

/// The depth from `j` counts the subdirectories at `i >= j`.
proof fn lemma_depth_from_at_least(contents: Seq<FileSystemEntity>, j: int, i: int)
    requires
        0 <= j <= i < contents.len(),
        contents[i] is Directory,
    ensures
        1 + tree_depth(contents[i]->Directory_0.contents@) <= depth_from(contents, j),
    decreases i - j,
{
    if j < i {
        lemma_depth_from_at_least(contents, j + 1, i);
    }
}

} // verus!
