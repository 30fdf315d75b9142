//! Drawing a directory tree as lines of text, with the number of directories and
//! files it holds.

use vstd::prelude::*;

use crate::config::texts;
use crate::filetree::tree::{Directory, FileTree};

verus! {

/// The connector drawn before an entry: an elbow for the last entry of a directory, a
/// tee for the others.
pub open spec fn connector(last: bool) -> Seq<char> {
    if last {
        seq!['└', '─', '─', ' ']
    } else {
        seq!['├', '─', '─', ' ']
    }
}

/// What the entries of a subdirectory are prefixed with: blank under the last entry,
/// a pipe under the others.
pub open spec fn child_prefix(last: bool) -> Seq<char> {
    if last {
        seq![' ', ' ', ' ', ' ']
    } else {
        seq!['│', ' ', ' ', ' ']
    }
}

/// The lines that draw `entries[i..]` under `prefix`: each entry on a line of its
/// own (a link with ` -> ` and its target), each subdirectory followed by its own
/// entries under a longer prefix.
pub open spec fn listing(entries: Seq<FileTree>, i: int, prefix: Seq<char>) -> Seq<Seq<char>>
    decreases entries, entries.len() - i,
{
    if i < 0 || i >= entries.len() {
        Seq::empty()
    } else {
        let last = i == entries.len() - 1;
        let rest = listing(entries, i + 1, prefix);
        match entries[i] {
            FileTree::DirNode(d) => {
                proof {
                    assert(decreases_to!(entries => entries[i]));
                    assert(decreases_to!(entries[i] => d));
                    assert(decreases_to!(d => d.entries));
                    assert(decreases_to!(d.entries => d.entries@));
                }
                seq![prefix + connector(last) + d.name@] + listing(d.entries@, 0, prefix + child_prefix(last)) + rest
            },
            FileTree::LinkNode(l) => seq![prefix + connector(last) + l.name@ + seq![' ', '-', '>', ' '] + l.target@] + rest,
            FileTree::FileNode(f) => seq![prefix + connector(last) + f.name@] + rest,
        }
    }
}

/// Whether `line` begins with `p`.
pub open spec fn begins_with(line: Seq<char>, p: Seq<char>) -> bool {
    p.len() <= line.len() && line.take(p.len() as int) == p
}

/// Every line drawn under a prefix begins with that prefix, at any depth.
pub proof fn law_lines_begin_with_prefix(entries: Seq<FileTree>, i: int, prefix: Seq<char>)
    ensures
        forall|k: int| 0 <= k < listing(entries, i, prefix).len() ==> begins_with(#[trigger] listing(entries, i, prefix)[k], prefix),
    decreases entries, entries.len() - i,
{
    if 0 <= i < entries.len() {
        let last = i == entries.len() - 1;
        let rest = listing(entries, i + 1, prefix);
        law_lines_begin_with_prefix(entries, i + 1, prefix);
        let lines = listing(entries, i, prefix);
        match entries[i] {
            FileTree::DirNode(d) => {
                assert(decreases_to!(entries => entries[i]));
                assert(decreases_to!(entries[i] => d));
                assert(decreases_to!(d => d.entries));
                assert(decreases_to!(d.entries => d.entries@));
                let inner_prefix = prefix + child_prefix(last);
                let inner = listing(d.entries@, 0, inner_prefix);
                law_lines_begin_with_prefix(d.entries@, 0, inner_prefix);
                let first = prefix + connector(last) + d.name@;
                assert(lines == seq![first] + inner + rest);
                assert forall|k: int| 0 <= k < lines.len() implies begins_with(#[trigger] lines[k], prefix) by {
                    if k == 0 {
                        assert(first.take(prefix.len() as int) =~= prefix);
                    } else if k < 1 + inner.len() {
                        assert(lines[k] == inner[k - 1]);
                        assert(begins_with(inner[k - 1], inner_prefix));
                        assert(inner[k - 1].take(prefix.len() as int) =~= inner_prefix.take(prefix.len() as int));
                        assert(inner_prefix.take(prefix.len() as int) =~= prefix);
                    } else {
                        assert(lines[k] == rest[k - 1 - inner.len()]);
                    }
                }
            },
            FileTree::LinkNode(l) => {
                let first = prefix + connector(last) + l.name@ + seq![' ', '-', '>', ' '] + l.target@;
                assert(lines == seq![first] + rest);
                assert forall|k: int| 0 <= k < lines.len() implies begins_with(#[trigger] lines[k], prefix) by {
                    if k == 0 {
                        assert(first.take(prefix.len() as int) =~= prefix);
                    } else {
                        assert(lines[k] == rest[k - 1]);
                    }
                }
            },
            FileTree::FileNode(f) => {
                let first = prefix + connector(last) + f.name@;
                assert(lines == seq![first] + rest);
                assert forall|k: int| 0 <= k < lines.len() implies begins_with(#[trigger] lines[k], prefix) by {
                    if k == 0 {
                        assert(first.take(prefix.len() as int) =~= prefix);
                    } else {
                        assert(lines[k] == rest[k - 1]);
                    }
                }
            },
        }
    }
}

/// The last entry of a directory, where it is a directory itself, is drawn with an
/// elbow, and every line of its contents, at any depth, begins with the prefix and
/// four blanks: no line below a last entry carries a pipe at its column.
pub proof fn law_last_directory_is_blank_below(entries: Seq<FileTree>, prefix: Seq<char>)
    requires
        entries.len() > 0,
        entries.last() is DirNode,
    ensures
        ({
            let d = entries.last()->DirNode_0;
            let lines = listing(entries, entries.len() - 1, prefix);
            &&& lines.len() >= 1
            &&& lines[0] == prefix + seq!['└', '─', '─', ' '] + d.name@
            &&& forall|k: int| 1 <= k < lines.len() ==> begins_with(#[trigger] lines[k], prefix + seq![' ', ' ', ' ', ' '])
        }),
{
    let i = entries.len() - 1;
    let d = entries.last()->DirNode_0;
    assert(entries[i] == entries.last());
    assert(decreases_to!(entries => entries[i]));
    let inner_prefix = prefix + child_prefix(true);
    assert(inner_prefix =~= prefix + seq![' ', ' ', ' ', ' ']);
    let inner = listing(d.entries@, 0, inner_prefix);
    law_lines_begin_with_prefix(d.entries@, 0, inner_prefix);
    let lines = listing(entries, i, prefix);
    assert(listing(entries, i + 1, prefix) == Seq::<Seq<char>>::empty());
    assert(lines == seq![prefix + connector(true) + d.name@] + inner + Seq::<Seq<char>>::empty());
    assert forall|k: int| 1 <= k < lines.len() implies begins_with(#[trigger] lines[k], prefix + seq![' ', ' ', ' ', ' ']) by {
        assert(lines[k] == inner[k - 1]);
    }
}

/// An entry that is a directory but not the last one is drawn with a tee, and every
/// line of its contents, at any depth, begins with the prefix and a pipe; the lines of
/// the entries after it follow.
pub proof fn law_inner_directory_has_pipe_below(entries: Seq<FileTree>, i: int, prefix: Seq<char>)
    requires
        0 <= i < entries.len() - 1,
        entries[i] is DirNode,
    ensures
        ({
            let d = entries[i]->DirNode_0;
            let lines = listing(entries, i, prefix);
            let rest = listing(entries, i + 1, prefix);
            &&& lines.len() >= 1 + rest.len()
            &&& lines[0] == prefix + seq!['├', '─', '─', ' '] + d.name@
            &&& forall|k: int| 1 <= k < lines.len() - rest.len() ==> begins_with(#[trigger] lines[k], prefix + seq!['│', ' ', ' ', ' '])
            &&& lines.skip(lines.len() - rest.len()) == rest
        }),
{
    let d = entries[i]->DirNode_0;
    assert(decreases_to!(entries => entries[i]));
    let inner_prefix = prefix + child_prefix(false);
    assert(inner_prefix =~= prefix + seq!['│', ' ', ' ', ' ']);
    let inner = listing(d.entries@, 0, inner_prefix);
    law_lines_begin_with_prefix(d.entries@, 0, inner_prefix);
    let lines = listing(entries, i, prefix);
    let rest = listing(entries, i + 1, prefix);
    assert(lines == seq![prefix + connector(false) + d.name@] + inner + rest);
    assert forall|k: int| 1 <= k < lines.len() - rest.len() implies begins_with(#[trigger] lines[k], prefix + seq!['│', ' ', ' ', ' ']) by {
        assert(lines[k] == inner[k - 1]);
    }
    assert(lines.skip(lines.len() - rest.len()) =~= rest);
}

/// Each entry is drawn first on a line of its own, under the prefix, with an elbow
/// where it is the last entry of its directory and a tee otherwise, then its name.
pub proof fn law_entry_line(entries: Seq<FileTree>, i: int, prefix: Seq<char>)
    requires
        0 <= i < entries.len(),
    ensures
        ({
            let first = listing(entries, i, prefix)[0];
            let elbow = if i == entries.len() - 1 { seq!['└', '─', '─', ' '] } else { seq!['├', '─', '─', ' '] };
            let name = match entries[i] {
                FileTree::DirNode(d) => d.name@,
                FileTree::LinkNode(l) => l.name@,
                FileTree::FileNode(f) => f.name@,
            };
            &&& listing(entries, i, prefix).len() >= 1
            &&& begins_with(first, prefix + elbow + name)
        }),
{
    let lines = listing(entries, i, prefix);
    let last = i == entries.len() - 1;
    let elbow = if last { seq!['└', '─', '─', ' '] } else { seq!['├', '─', '─', ' '] };
    assert(connector(last) == elbow);
    match entries[i] {
        FileTree::DirNode(d) => {
            assert(decreases_to!(entries => entries[i]));
            assert(lines[0] == prefix + elbow + d.name@);
            assert(lines[0].take((prefix + elbow + d.name@).len() as int) =~= lines[0]);
        },
        FileTree::LinkNode(l) => {
            let head = prefix + elbow + l.name@;
            assert(lines[0] == head + seq![' ', '-', '>', ' '] + l.target@);
            assert(lines[0].take(head.len() as int) =~= head);
        },
        FileTree::FileNode(f) => {
            assert(lines[0] == prefix + elbow + f.name@);
            assert(lines[0].take((prefix + elbow + f.name@).len() as int) =~= lines[0]);
        },
    }
}

/// The number of directories below `entries[i..]`, counting each subdirectory and
/// the directories below it.
pub open spec fn dirs_below(entries: Seq<FileTree>, i: int) -> nat
    decreases entries, entries.len() - i,
{
    if i < 0 || i >= entries.len() {
        0
    } else {
        let rest = dirs_below(entries, i + 1);
        match entries[i] {
            FileTree::DirNode(d) => {
                proof {
                    assert(decreases_to!(entries => entries[i]));
                    assert(decreases_to!(entries[i] => d));
                    assert(decreases_to!(d => d.entries));
                    assert(decreases_to!(d.entries => d.entries@));
                }
                1 + dirs_below(d.entries@, 0) + rest
            },
            _ => rest,
        }
    }
}

/// The number of files and links below `entries[i..]`, at any depth.
pub open spec fn files_below(entries: Seq<FileTree>, i: int) -> nat
    decreases entries, entries.len() - i,
{
    if i < 0 || i >= entries.len() {
        0
    } else {
        let rest = files_below(entries, i + 1);
        match entries[i] {
            FileTree::DirNode(d) => {
                proof {
                    assert(decreases_to!(entries => entries[i]));
                    assert(decreases_to!(entries[i] => d));
                    assert(decreases_to!(d => d.entries));
                    assert(decreases_to!(d.entries => d.entries@));
                }
                files_below(d.entries@, 0) + rest
            },
            _ => 1 + rest,
        }
    }
}

/// Draws the entries of `node` under `prefix`. Returns the lines, the number of
/// directories (`node` itself and every directory below it) and the number of files
/// and links below it.
pub fn visit(node: &Directory, prefix: &str) -> (r: (Vec<String>, usize, usize))
    requires
        1 + dirs_below(node.entries@, 0) <= usize::MAX,
        files_below(node.entries@, 0) <= usize::MAX,
    ensures
        texts(r.0@) == listing(node.entries@, 0, prefix@),
        r.1 == 1 + dirs_below(node.entries@, 0),
        r.2 == files_below(node.entries@, 0),
{
    let mut lines: Vec<String> = Vec::new();
    let (dirs, files) = visit_into(node, prefix, &mut lines);
    assert(texts(lines@) =~= listing(node.entries@, 0, prefix@));
    (lines, dirs, files)
}

/// Appends the lines that draw the entries of `node` under `prefix` to `out`, and
/// returns the number of directories and of files, as `visit` does.
fn visit_into(node: &Directory, prefix: &str, out: &mut Vec<String>) -> (counts: (usize, usize))
    requires
        1 + dirs_below(node.entries@, 0) <= usize::MAX,
        files_below(node.entries@, 0) <= usize::MAX,
    ensures
        texts(final(out)@) == texts(old(out)@) + listing(node.entries@, 0, prefix@),
        counts.0 == 1 + dirs_below(node.entries@, 0),
        counts.1 == files_below(node.entries@, 0),
    decreases node,
{
    let other_child = "│   ";
    let other_entry = "├── ";
    let final_child = "    ";
    let final_entry = "└── ";
    let arrow = " -> ";
    proof {
        reveal_strlit("│   ");
        reveal_strlit("├── ");
        reveal_strlit("    ");
        reveal_strlit("└── ");
        reveal_strlit(" -> ");
        assert(other_child@ == child_prefix(false));
        assert(final_child@ == child_prefix(true));
        assert(other_entry@ == connector(false));
        assert(final_entry@ == connector(true));
        assert(arrow@ == seq![' ', '-', '>', ' ']);
    }
    let entries = &node.entries;
    let ghost items = entries@;
    let ghost start = texts(out@);
    let mut dirs: usize = 1;
    let mut files: usize = 0;
    let mut count: usize = entries.len();
    let mut i: usize = 0;
    while i < entries.len()
        invariant
            items == entries@,
            items == node.entries@,
            0 <= i <= items.len(),
            count == items.len() - i,
            dirs + dirs_below(items, i as int) == 1 + dirs_below(items, 0),
            files + files_below(items, i as int) == files_below(items, 0),
            1 + dirs_below(items, 0) <= usize::MAX,
            files_below(items, 0) <= usize::MAX,
            texts(out@) + listing(items, i as int, prefix@) == start + listing(items, 0, prefix@),
            other_child@ == child_prefix(false),
            final_child@ == child_prefix(true),
            other_entry@ == connector(false),
            final_entry@ == connector(true),
            arrow@ == seq![' ', '-', '>', ' '],
        decreases items.len() - i,
    {
        let ghost before = texts(out@);
        count -= 1;
        let last = count == 0;
        let connector_text = if last { final_entry } else { other_entry };
        let mut line = String::from_str(prefix);
        line.append(connector_text);
        match &entries[i] {
            FileTree::DirNode(sub_dir) => {
                line.append(sub_dir.name.as_str());
                let ghost expected = prefix@ + connector(last) + sub_dir.name@;
                assert(line@ == expected);
                out.push(line);
                let mut new_prefix = String::from_str(prefix);
                new_prefix.append(if last { final_child } else { other_child });
                assert(new_prefix@ == prefix@ + child_prefix(last));
                proof {
                    assert(decreases_to!(node => node.entries));
                    assert(decreases_to!(node.entries => node.entries@));
                    assert(decreases_to!(node.entries@ => node.entries@[i as int]));
                }
                let (d, f) = visit_into(sub_dir, new_prefix.as_str(), out);
                dirs = dirs + d;
                files = files + f;
                assert(listing(items, i as int, prefix@)
                    == seq![expected] + listing(sub_dir.entries@, 0, new_prefix@) + listing(items, i + 1, prefix@));
                assert(texts(out@) + listing(items, i + 1, prefix@) =~= before + listing(items, i as int, prefix@));
            },
            FileTree::LinkNode(symlink) => {
                line.append(symlink.name.as_str());
                line.append(arrow);
                line.append(symlink.target.as_str());
                let ghost expected = prefix@ + connector(last) + symlink.name@ + seq![' ', '-', '>', ' '] + symlink.target@;
                assert(line@ == expected);
                out.push(line);
                files = files + 1;
                assert(listing(items, i as int, prefix@) == seq![expected] + listing(items, i + 1, prefix@));
                assert(texts(out@) + listing(items, i + 1, prefix@) =~= before + listing(items, i as int, prefix@));
            },
            FileTree::FileNode(file) => {
                line.append(file.name.as_str());
                let ghost expected = prefix@ + connector(last) + file.name@;
                assert(line@ == expected);
                out.push(line);
                files = files + 1;
                assert(listing(items, i as int, prefix@) == seq![expected] + listing(items, i + 1, prefix@));
                assert(texts(out@) + listing(items, i + 1, prefix@) =~= before + listing(items, i as int, prefix@));
            },
        }
        i += 1;
    }
    assert(listing(items, items.len() as int, prefix@) == Seq::<Seq<char>>::empty());
    assert(texts(out@) =~= start + listing(items, 0, prefix@));
    (dirs, files)
}

} // verus!
