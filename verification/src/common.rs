//! File-system trees as the user sees them: files and directories, and the lines of
//! text that draw a directory as a tree.

use vstd::prelude::*;

use crate::config::texts;
use vstd::utf8::encode_utf8;
use crate::util::text::{
    chars_of, occurs, occurs_at, occurs_in, parse_usize, parse_usize_range, range_is, trim_range, trimmed, TrimSet,
};
use crate::ui::ui_repo::{bold_painted, paint_bold, Color};

verus! {

/// A path taken apart: its full path, whether it is a directory, the path of its
/// parent and its name. Paths are held as their display text.
pub struct PathInfo {
    pub full_path: String,
    pub is_dir: bool,
    pub parent: String,
    pub name: String,
}

/// A file-system entity: a file or a directory.
pub enum FsNode {
    File(FileInfo),
    Directory(DirInfo),
}

/// A file.
pub struct FileInfo {
    /// Name of the file.
    pub name: String,
    /// Path or ID of the file.
    pub path: String,
}

/// A directory and what it holds.
pub struct DirInfo {
    /// Name of the directory.
    pub name: String,
    /// Path or ID of the directory.
    pub path: String,
    /// Whether the contents are shown.
    pub expanded: bool,
    /// Contents of the directory.
    pub contents: Vec<FsNode>,
}

impl FsNode {
    /// Whether the entity is a directory.
    pub fn is_dir(&self) -> (dir: bool)
        ensures
            dir == (*self is Directory),
    {
        match self {
            FsNode::File(_) => false,
            FsNode::Directory(_) => true,
        }
    }

    /// The name of the entity.
    pub fn get_name(&self) -> (name: &str)
        ensures
            name@ == node_name(*self),
    {
        match self {
            FsNode::File(f) => f.name.as_str(),
            FsNode::Directory(d) => d.name.as_str(),
        }
    }

    /// The path of the entity.
    pub fn get_path_str(&self) -> (path: &str)
        ensures
            path@ == node_path(*self),
    {
        match self {
            FsNode::File(f) => f.path.as_str(),
            FsNode::Directory(d) => d.path.as_str(),
        }
    }

    /// The path of the entity, as an owned string.
    pub fn get_path_string(&self) -> (path: String)
        ensures
            path@ == node_path(*self),
    {
        match self {
            FsNode::File(f) => f.path.clone(),
            FsNode::Directory(d) => d.path.clone(),
        }
    }

    /// Whether a directory is expanded; `None` for a file.
    pub fn get_expanded(&self) -> (expanded: Option<bool>)
        ensures
            expanded == (match *self {
                FsNode::File(_) => None,
                FsNode::Directory(d) => Some(d.expanded),
            }),
    {
        match self {
            FsNode::File(_) => None,
            FsNode::Directory(d) => Some(d.expanded),
        }
    }

    /// A copy of the contents of a directory; `None` for a file.
    pub fn get_contents(&self) -> (contents: Option<Vec<FsNode>>)
        ensures
            (match *self {
                FsNode::File(_) => contents is None,
                FsNode::Directory(d) => contents matches Some(c) && same_nodes(d.contents@, c@, 0),
            }),
    {
        match self {
            FsNode::File(_) => None,
            FsNode::Directory(d) => Some(copy_nodes(&d.contents)),
        }
    }
}

/// The name of an entity.
pub open spec fn node_name(node: FsNode) -> Seq<char> {
    match node {
        FsNode::File(f) => f.name@,
        FsNode::Directory(d) => d.name@,
    }
}

/// The path of an entity.
pub open spec fn node_path(node: FsNode) -> Seq<char> {
    match node {
        FsNode::File(f) => f.path@,
        FsNode::Directory(d) => d.path@,
    }
}

impl FileInfo {
    /// A file of the given name and path.
    pub fn new(name: String, path: String) -> (file: Self)
        ensures
            file.name == name,
            file.path == path,
    {
        FileInfo { name, path }
    }
}

impl DirInfo {
    /// A directory of the given name, path, expansion and contents.
    pub fn new(name: String, path: String, expanded: bool, contents: Vec<FsNode>) -> (dir: Self)
        ensures
            dir.name == name,
            dir.path == path,
            dir.expanded == expanded,
            dir.contents == contents,
    {
        DirInfo { name, path, expanded, contents }
    }
}

/// Whether `b` is a copy of `a`: the same file, or a directory of the same name, path
/// and expansion whose contents are copies of the contents of `a`, in order.
pub open spec fn same_node(a: FsNode, b: FsNode) -> bool
    decreases a, 0int,
{
    match a {
        FsNode::File(x) => b == FsNode::File(x),
        FsNode::Directory(x) => match b {
            FsNode::File(_) => false,
            FsNode::Directory(y) => {
                proof {
                    assert(decreases_to!(a => x));
                    assert(decreases_to!(x => x.contents));
                    assert(decreases_to!(x.contents => x.contents@));
                }
                &&& x.name == y.name
                &&& x.path == y.path
                &&& x.expanded == y.expanded
                &&& same_nodes(x.contents@, y.contents@, 0)
            },
        },
    }
}

/// Whether `b[i..]` is a copy of `a[i..]`, entity by entity.
pub open spec fn same_nodes(a: Seq<FsNode>, b: Seq<FsNode>, i: int) -> bool
    decreases a, a.len() - i,
{
    if i < 0 || i >= a.len() {
        a.len() == b.len()
    } else {
        same_node(a[i], b[i]) && same_nodes(a, b, i + 1)
    }
}

/// A copy of an entity, down to the contents of its directories.
fn copy_node(node: &FsNode) -> (copy: FsNode)
    ensures
        same_node(*node, copy),
    decreases node, 1int,
{
    match node {
        FsNode::File(f) => FsNode::File(FileInfo { name: f.name.clone(), path: f.path.clone() }),
        FsNode::Directory(d) => {
            proof {
                assert(decreases_to!(d.contents => d.contents@));
            }
            let contents = copy_nodes(&d.contents);
            FsNode::Directory(DirInfo { name: d.name.clone(), path: d.path.clone(), expanded: d.expanded, contents })
        },
    }
}

/// A copy of a list of entities.
fn copy_nodes(nodes: &Vec<FsNode>) -> (copy: Vec<FsNode>)
    ensures
        same_nodes(nodes@, copy@, 0),
    decreases nodes@, 0int,
{
    let mut copy: Vec<FsNode> = Vec::new();
    let mut i: usize = 0;
    while i < nodes.len()
        invariant
            0 <= i <= nodes@.len(),
            copy@.len() == i,
            forall|j: int| 0 <= j < i ==> same_node(#[trigger] nodes@[j], copy@[j]),
        decreases nodes@.len() - i,
    {
        proof {
            assert(decreases_to!(nodes@ => nodes@[i as int]));
        }
        let c = copy_node(&nodes[i]);
        copy.push(c);
        i += 1;
    }
    proof {
        lemma_same_nodes_from(nodes@, copy@, 0);
    }
    copy
}

/// Entity-by-entity copies of equal length make `same_nodes` hold from any index.
proof fn lemma_same_nodes_from(a: Seq<FsNode>, b: Seq<FsNode>, i: int)
    requires
        0 <= i,
        a.len() == b.len(),
        forall|j: int| 0 <= j < a.len() ==> same_node(#[trigger] a[j], b[j]),
    ensures
        same_nodes(a, b, i),
    decreases a.len() - i,
{
    if i < a.len() {
        lemma_same_nodes_from(a, b, i + 1);
    }
}

impl Clone for FsNode {
    fn clone(&self) -> (copy: Self)
        ensures
            same_node(*self, copy),
    {
        copy_node(self)
    }
}

impl Clone for FileInfo {
    fn clone(&self) -> (copy: Self)
        ensures
            copy == *self,
    {
        FileInfo { name: self.name.clone(), path: self.path.clone() }
    }
}

impl Clone for DirInfo {
    fn clone(&self) -> (copy: Self)
        ensures
            same_node(FsNode::Directory(*self), FsNode::Directory(copy)),
    {
        DirInfo {
            name: self.name.clone(),
            path: self.path.clone(),
            expanded: self.expanded,
            contents: copy_nodes(&self.contents),
        }
    }
}

// ------------------------------------------------------------------------------------------------
// The tree drawing.

/// The arrow that shows whether a directory is expanded.
pub open spec fn arrow(expanded: bool) -> Seq<char> {
    if expanded {
        seq!['˅']
    } else {
        seq!['˃']
    }
}

/// The label of a directory: its arrow between brackets, then its name, each part
/// painted bold (brackets white, arrow green, name blue).
pub open spec fn dir_label(name: Seq<char>, expanded: bool) -> Seq<char> {
    bold_painted(Color::White, seq!['['])
        + bold_painted(Color::Green, arrow(expanded))
        + bold_painted(Color::White, seq![']'])
        + bold_painted(Color::Blue, name)
}

/// The branch drawn before an entry: a corner for the last entry of a directory, a
/// junction for the others.
pub open spec fn branch(last: bool) -> Seq<char> {
    if last {
        seq![' ', '╰', '─', '─']
    } else {
        seq![' ', '├', '─', '─']
    }
}

/// What the entries of a subdirectory are indented by: blank under the last entry, a
/// vertical line under the others.
pub open spec fn indent(last: bool) -> Seq<char> {
    if last {
        seq![' ', ' ', ' ', ' ']
    } else {
        seq![' ', '│', ' ', ' ']
    }
}

/// The number of files in `items[i..]`.
pub open spec fn count_files(items: Seq<FsNode>, i: int) -> nat
    decreases items.len() - i,
{
    if i < 0 || i >= items.len() {
        0
    } else {
        (if items[i] is File { 1nat } else { 0nat }) + count_files(items, i + 1)
    }
}

/// The number of directories in `items[i..]`.
pub open spec fn count_dirs(items: Seq<FsNode>, i: int) -> nat
    decreases items.len() - i,
{
    if i < 0 || i >= items.len() {
        0
    } else {
        (if items[i] is Directory { 1nat } else { 0nat }) + count_dirs(items, i + 1)
    }
}

/// The lines of the files among `items[i..]`, in order, under `path`. A file is the
/// last entry where no file follows it and no directory is listed after the files.
pub open spec fn file_lines(items: Seq<FsNode>, i: int, path: Seq<char>, dirs_follow: bool) -> Seq<Seq<char>>
    decreases items.len() - i,
{
    if i < 0 || i >= items.len() {
        Seq::empty()
    } else {
        let rest = file_lines(items, i + 1, path, dirs_follow);
        match items[i] {
            FsNode::File(f) => {
                let last = !dirs_follow && count_files(items, i + 1) == 0;
                seq![path + branch(last) + seq![' '] + f.name@] + rest
            },
            FsNode::Directory(_) => rest,
        }
    }
}

/// The lines of the directories among `items[i..]`, in order, under `path`: the label
/// of each, followed by the tree of its contents where it is expanded. A directory is
/// the last entry where no directory follows it.
pub open spec fn subdir_lines(items: Seq<FsNode>, i: int, path: Seq<char>) -> Seq<Seq<char>>
    decreases items, items.len() - i,
{
    if i < 0 || i >= items.len() {
        Seq::empty()
    } else {
        let rest = subdir_lines(items, i + 1, path);
        match items[i] {
            FsNode::File(_) => rest,
            FsNode::Directory(d) => {
                let last = count_dirs(items, i + 1) == 0;
                let label = path + branch(last) + dir_label(d.name@, d.expanded);
                let below = if d.expanded {
                    proof {
                        assert(decreases_to!(items => items[i]));
                        assert(decreases_to!(items[i] => d));
                        assert(decreases_to!(d => d.contents));
                        assert(decreases_to!(d.contents => d.contents@));
                    }
                    tree_lines(d.contents@, path + indent(last))
                } else {
                    Seq::empty()
                };
                seq![label] + below + rest
            },
        }
    }
}

/// The lines that draw the entries of a directory under `path`: its files first, then
/// its directories, each in their order.
pub open spec fn tree_lines(items: Seq<FsNode>, path: Seq<char>) -> Seq<Seq<char>>
    decreases items, items.len() + 1,
{
    file_lines(items, 0, path, count_dirs(items, 0) > 0) + subdir_lines(items, 0, path)
}

/// Lines drawn under `path`: each line with `path` before it.
pub open spec fn under(path: Seq<char>, lines: Seq<Seq<char>>) -> Seq<Seq<char>> {
    lines.map_values(|l: Seq<char>| path + l)
}

/// Drawing under two paths one after the other is drawing under both at once.
proof fn lemma_under_under(p: Seq<char>, q: Seq<char>, lines: Seq<Seq<char>>)
    ensures
        under(p, under(q, lines)) == under(p + q, lines),
{
    assert forall|k: int| 0 <= k < lines.len() implies under(p, under(q, lines))[k] == under(p + q, lines)[k] by {
        assert(p + (q + lines[k]) =~= (p + q) + lines[k]);
    }
    assert(under(p, under(q, lines)) =~= under(p + q, lines));
}

/// Drawing two runs of lines under a path is drawing each under it.
proof fn lemma_under_concat(p: Seq<char>, a: Seq<Seq<char>>, b: Seq<Seq<char>>)
    ensures
        under(p, a + b) == under(p, a) + under(p, b),
{
    assert(under(p, a + b) =~= under(p, a) + under(p, b));
}

/// The file lines under a path are those under no path, each with the path before it.
proof fn lemma_file_lines_under(items: Seq<FsNode>, i: int, path: Seq<char>, dirs_follow: bool)
    ensures
        file_lines(items, i, path, dirs_follow) == under(path, file_lines(items, i, Seq::empty(), dirs_follow)),
    decreases items.len() - i,
{
    if 0 <= i < items.len() {
        lemma_file_lines_under(items, i + 1, path, dirs_follow);
        let rest0 = file_lines(items, i + 1, Seq::empty(), dirs_follow);
        match items[i] {
            FsNode::File(f) => {
                let last = !dirs_follow && count_files(items, i + 1) == 0;
                let line0 = Seq::<char>::empty() + branch(last) + seq![' '] + f.name@;
                lemma_under_concat(path, seq![line0], rest0);
                assert(path + line0 =~= path + branch(last) + seq![' '] + f.name@);
                assert(under(path, seq![line0]) =~= seq![path + branch(last) + seq![' '] + f.name@]);
            },
            FsNode::Directory(_) => {},
        }
    } else {
        assert(under(path, Seq::<Seq<char>>::empty()) =~= Seq::<Seq<char>>::empty());
    }
}

/// The directory lines under a path are those under no path, each with the path
/// before it.
proof fn lemma_subdir_lines_under(items: Seq<FsNode>, i: int, path: Seq<char>)
    ensures
        subdir_lines(items, i, path) == under(path, subdir_lines(items, i, Seq::empty())),
    decreases items, items.len() - i,
{
    if 0 <= i < items.len() {
        lemma_subdir_lines_under(items, i + 1, path);
        let rest0 = subdir_lines(items, i + 1, Seq::empty());
        match items[i] {
            FsNode::File(_) => {},
            FsNode::Directory(d) => {
                let last = count_dirs(items, i + 1) == 0;
                let label0 = Seq::<char>::empty() + branch(last) + dir_label(d.name@, d.expanded);
                assert(path + label0 =~= path + branch(last) + dir_label(d.name@, d.expanded));
                let below0 = if d.expanded {
                    tree_lines(d.contents@, Seq::<char>::empty() + indent(last))
                } else {
                    Seq::empty()
                };
                if d.expanded {
                    assert(decreases_to!(items => items[i]));
                    assert(decreases_to!(items[i] => d));
                    assert(decreases_to!(d => d.contents));
                    assert(decreases_to!(d.contents => d.contents@));
                    lemma_tree_lines_under(d.contents@, path + indent(last));
                    lemma_tree_lines_under(d.contents@, Seq::<char>::empty() + indent(last));
                    lemma_under_under(path, Seq::<char>::empty() + indent(last), tree_lines(d.contents@, Seq::empty()));
                    assert(path + (Seq::<char>::empty() + indent(last)) =~= path + indent(last));
                } else {
                    assert(under(path, below0) =~= Seq::<Seq<char>>::empty());
                }
                lemma_under_concat(path, seq![label0], below0);
                lemma_under_concat(path, seq![label0] + below0, rest0);
                assert(under(path, seq![label0]) =~= seq![path + label0]);
            },
        }
    } else {
        assert(under(path, Seq::<Seq<char>>::empty()) =~= Seq::<Seq<char>>::empty());
    }
}

/// The lines of a directory's entries do not depend on the depth at which it is
/// drawn: under any path they are the lines under no path, each with the path before
/// it. So every expanded directory, at any depth, shows its contents, and each line
/// below it is one of its own tree's lines.
pub proof fn lemma_tree_lines_under(items: Seq<FsNode>, path: Seq<char>)
    ensures
        tree_lines(items, path) == under(path, tree_lines(items, Seq::empty())),
    decreases items, items.len() + 1,
{
    let df = count_dirs(items, 0) > 0;
    lemma_file_lines_under(items, 0, path, df);
    lemma_subdir_lines_under(items, 0, path);
    lemma_under_concat(path, file_lines(items, 0, Seq::empty(), df), subdir_lines(items, 0, Seq::empty()));
}

/// The tree of a directory holds, right after the label of an expanded subdirectory
/// (drawn with a corner where no directory follows it, and a junction otherwise), the
/// lines of that subdirectory's own tree, each with the indentation of its depth before
/// it (blanks under the last directory, a vertical line under the others), whatever
/// that depth is.
pub proof fn law_expanded_contents_at_any_depth(items: Seq<FsNode>, i: int, path: Seq<char>)
    requires
        0 <= i < items.len(),
        items[i] matches FsNode::Directory(d) && d.expanded,
    ensures
        ({
            let d = items[i]->Directory_0;
            let last = count_dirs(items, i + 1) == 0;
            let corner = if last { seq![' ', '╰', '─', '─'] } else { seq![' ', '├', '─', '─'] };
            let gap = if last { seq![' ', ' ', ' ', ' '] } else { seq![' ', '│', ' ', ' '] };
            subdir_lines(items, i, path) == seq![path + corner + dir_label(d.name@, d.expanded)]
                + under(path + gap, tree_lines(d.contents@, Seq::empty()))
                + subdir_lines(items, i + 1, path)
        }),
{
    let d = items[i]->Directory_0;
    let last = count_dirs(items, i + 1) == 0;
    lemma_tree_lines_under(d.contents@, path + indent(last));
}

/// The whole tree of a directory: its label, then the lines of its entries.
pub open spec fn dir_tree(dir: DirInfo) -> Seq<Seq<char>> {
    seq![dir_label(dir.name@, dir.expanded)] + tree_lines(dir.contents@, Seq::empty())
}

/// The label of a directory, painted.
fn label_of(name: &str, expanded: bool) -> (label: String)
    ensures
        label@ == dir_label(name@, expanded),
{
    let arrow_text = if expanded { "˅" } else { "˃" };
    proof {
        reveal_strlit("˅");
        reveal_strlit("˃");
        reveal_strlit("[");
        reveal_strlit("]");
    }
    let mut label = paint_bold(&Color::White, "[");
    let painted_arrow = paint_bold(&Color::Green, arrow_text);
    label.append(painted_arrow.as_str());
    let close = paint_bold(&Color::White, "]");
    label.append(close.as_str());
    let painted_name = paint_bold(&Color::Blue, name);
    label.append(painted_name.as_str());
    label
}

/// Builds the lines that draw a directory as a tree: the label of the directory, then
/// its files and its directories, and the contents of each expanded subdirectory below
/// it.
pub fn build_tree(dir_info: &DirInfo) -> (tree: Vec<String>)
    ensures
        texts(tree@) == dir_tree(*dir_info),
{
    let mut tree: Vec<String> = Vec::new();
    tree.push(label_of(dir_info.name.as_str(), dir_info.expanded));
    assert(texts(tree@) == seq![dir_label(dir_info.name@, dir_info.expanded)]);
    tree_recursion(dir_info, String::new(), &mut tree);
    tree
}

/// Appends the lines of the entries of `dir_info` under `path` to `tree`.
fn tree_recursion(dir_info: &DirInfo, path: String, tree: &mut Vec<String>)
    ensures
        texts(final(tree)@) == texts(old(tree)@) + tree_lines(dir_info.contents@, path@),
    decreases dir_info,
{
    let contents = &dir_info.contents;
    let ghost items = contents@;
    let junction = " ├──";
    let corner = " ╰──";
    let through = " │  ";
    let blank = "    ";
    let space = " ";
    proof {
        reveal_strlit(" ├──");
        reveal_strlit(" ╰──");
        reveal_strlit(" │  ");
        reveal_strlit("    ");
        reveal_strlit(" ");
        assert(junction@ == branch(false));
        assert(corner@ == branch(true));
        assert(through@ == indent(false));
        assert(blank@ == indent(true));
        assert(space@ == seq![' ']);
    }

    // Count the files and the directories.
    let n = contents.len();
    let mut files: usize = 0;
    let mut dirs: usize = 0;
    let mut i: usize = n;
    while i > 0
        invariant
            items == contents@,
            n == items.len(),
            0 <= i <= items.len(),
            files == count_files(items, i as int),
            dirs == count_dirs(items, i as int),
            files + dirs == items.len() - i,
        decreases i,
    {
        i -= 1;
        match &contents[i] {
            FsNode::File(_) => files += 1,
            FsNode::Directory(_) => dirs += 1,
        }
    }
    let dirs_follow = dirs > 0;

    // The files first.
    let ghost start = texts(tree@);
    let mut files_left: usize = files;
    let mut i: usize = 0;
    while i < contents.len()
        invariant
            items == contents@,
            0 <= i <= items.len(),
            files_left == count_files(items, i as int),
            dirs_follow == (count_dirs(items, 0) > 0),
            junction@ == branch(false),
            corner@ == branch(true),
            space@ == seq![' '],
            texts(tree@) + file_lines(items, i as int, path@, dirs_follow) == start + file_lines(items, 0, path@, dirs_follow),
        decreases items.len() - i,
    {
        let ghost before = texts(tree@);
        match &contents[i] {
            FsNode::File(file) => {
                files_left -= 1;
                let last = !dirs_follow && files_left == 0;
                let mut line = path.clone();
                line.append(if last { corner } else { junction });
                line.append(space);
                line.append(file.name.as_str());
                let ghost expected = path@ + branch(last) + seq![' '] + file.name@;
                assert(line@ == expected);
                tree.push(line);
                assert(texts(tree@) == before.push(expected));
                assert(file_lines(items, i as int, path@, dirs_follow)
                    == seq![expected] + file_lines(items, i + 1, path@, dirs_follow));
                assert(texts(tree@) + file_lines(items, i + 1, path@, dirs_follow)
                    =~= before + file_lines(items, i as int, path@, dirs_follow));
            },
            FsNode::Directory(_) => {},
        }
        i += 1;
    }

    // Then the directories.
    let ghost middle = texts(tree@);
    let mut dirs_left: usize = dirs;
    let mut i: usize = 0;
    while i < contents.len()
        invariant
            items == contents@,
            items == dir_info.contents@,
            0 <= i <= items.len(),
            dirs_left == count_dirs(items, i as int),
            junction@ == branch(false),
            corner@ == branch(true),
            through@ == indent(false),
            blank@ == indent(true),
            texts(tree@) + subdir_lines(items, i as int, path@) == middle + subdir_lines(items, 0, path@),
        decreases items.len() - i,
    {
        let ghost before = texts(tree@);
        match &contents[i] {
            FsNode::File(_) => {},
            FsNode::Directory(subdir) => {
                dirs_left -= 1;
                let last = dirs_left == 0;
                let mut line = path.clone();
                line.append(if last { corner } else { junction });
                let label = label_of(subdir.name.as_str(), subdir.expanded);
                line.append(label.as_str());
                let ghost expected = path@ + branch(last) + dir_label(subdir.name@, subdir.expanded);
                assert(line@ == expected);
                tree.push(line);
                assert(texts(tree@) == before.push(expected));
                let ghost sub = path@ + indent(last);
                let ghost below = if subdir.expanded {
                    tree_lines(subdir.contents@, sub)
                } else {
                    Seq::<Seq<char>>::empty()
                };
                assert(subdir_lines(items, i as int, path@)
                    == seq![expected] + below + subdir_lines(items, i + 1, path@));
                if subdir.expanded {
                    let mut sub_path = path.clone();
                    sub_path.append(if last { blank } else { through });
                    assert(sub_path@ == sub);
                    proof {
                        assert(decreases_to!(dir_info => dir_info.contents));
                        assert(decreases_to!(dir_info.contents => dir_info.contents@));
                        assert(decreases_to!(dir_info.contents@ => dir_info.contents@[i as int]));
                    }
                    tree_recursion(subdir, sub_path, tree);
                }
                assert(texts(tree@) == before.push(expected) + below);
                assert(texts(tree@) + subdir_lines(items, i + 1, path@)
                    =~= before + subdir_lines(items, i as int, path@));
            },
        }
        i += 1;
    }
    assert(file_lines(items, items.len() as int, path@, dirs_follow) == Seq::<Seq<char>>::empty());
    assert(subdir_lines(items, items.len() as int, path@) == Seq::<Seq<char>>::empty());
    assert(texts(tree@) == start + tree_lines(items, path@));
}

// ------------------------------------------------------------------------------------------------
// Hidden entries of a walk.

/// Whether a walk hides an entry of that name: an empty name, a name that holds one
/// of the ignored items, or, where hidden files are ignored, a name that starts with a
/// dot.
pub open spec fn hidden_name(name: Seq<char>, items: Seq<Seq<char>>, ignore_hidden: bool) -> bool {
    ||| name.len() == 0
    ||| (ignore_hidden && name[0] == '.')
    ||| exists|i: int| 0 <= i < items.len() && #[trigger] occurs(name, items[i])
}

/// Whether a walk hides an entry of that name, given the ignored items and the
/// `ignore_hidden` switch of the configuration.
pub fn is_hidden_name(name: &str, ignore_items: &Vec<String>, ignore_hidden: bool) -> (hidden: bool)
    ensures
        hidden == hidden_name(name@, texts(ignore_items@), ignore_hidden),
{
    let chars = chars_of(name);
    if chars.len() == 0 {
        return true;
    }
    if ignore_hidden && chars[0] == '.' {
        return true;
    }
    let mut i: usize = 0;
    while i < ignore_items.len()
        invariant
            chars@ == name@,
            0 <= i <= ignore_items@.len(),
            forall|j: int| 0 <= j < i ==> !#[trigger] occurs(name@, texts(ignore_items@)[j]),
        decreases ignore_items@.len() - i,
    {
        let item = chars_of(ignore_items[i].as_str());
        assert(texts(ignore_items@)[i as int] == ignore_items@[i as int]@);
        if occurs_in(&chars, &item) {
            return true;
        }
        i += 1;
    }
    proof {
        let items = texts(ignore_items@);
        assert(items.len() == ignore_items@.len());
    }
    false
}

/// A name that holds an ignored item is hidden, whether hidden files are ignored or
/// not.
pub proof fn law_ignored_items_hide(name: Seq<char>, items: Seq<Seq<char>>, i: int, ignore_hidden: bool, hidden: bool)
    requires
        hidden == hidden_name(name, items, ignore_hidden),
        0 <= i < items.len(),
        occurs(name, items[i]),
    ensures
        hidden,
{
}

/// Ignoring hidden files only hides more: what is hidden without the switch is hidden
/// with it.
pub proof fn law_ignoring_hidden_hides_more(name: Seq<char>, items: Seq<Seq<char>>, without: bool, with: bool)
    requires
        without == hidden_name(name, items, false),
        with == hidden_name(name, items, true),
    ensures
        without ==> with,
{
}

/// A name that starts with a dot is hidden where hidden files are ignored, and an
/// empty name always is.
pub proof fn law_dot_and_empty_names_hide(name: Seq<char>, items: Seq<Seq<char>>, ignore_hidden: bool, hidden: bool)
    requires
        hidden == hidden_name(name, items, ignore_hidden),
        name.len() == 0 || (ignore_hidden && name[0] == '.'),
    ensures
        hidden,
{
}

/// A name that is not empty and holds no ignored item is shown, unless it starts with
/// a dot while hidden files are ignored.
pub proof fn law_other_names_show(name: Seq<char>, items: Seq<Seq<char>>, ignore_hidden: bool, hidden: bool)
    requires
        hidden == hidden_name(name, items, ignore_hidden),
        name.len() > 0,
        !(ignore_hidden && name[0] == '.'),
        forall|i: int| 0 <= i < items.len() ==> !occurs(name, #[trigger] items[i]),
    ensures
        !hidden,
{
}

// ------------------------------------------------------------------------------------------------
// The choice of a listed file.

/// What the user's answer to a numbered list picks.
#[derive(PartialEq, Eq, Structural, Clone, Copy)]
pub enum Selection {
    /// 0, or an answer that is not a number: give up.
    Abort,
    /// A number past the end of the list: ask again.
    Invalid,
    /// The entry at this index of the list (the number minus one).
    Pick(usize),
}

/// What an answer picks from a list of `count` entries: the answer without white
/// space around it, read as an unsigned integer (0 where it is not one).
pub open spec fn selection_of(answer: Seq<char>, count: nat) -> Selection {
    let n: nat = match parse_usize(trimmed(answer, TrimSet::Whitespace)) {
        Some(n) => n as nat,
        None => 0,
    };
    if n == 0 {
        Selection::Abort
    } else if n > count {
        Selection::Invalid
    } else {
        Selection::Pick((n - 1) as usize)
    }
}

/// Reads the user's answer to a numbered list of `count` entries.
pub fn selection(answer: &str, count: usize) -> (choice: Selection)
    ensures
        choice == selection_of(answer@, count as nat),
{
    let chars = chars_of(answer);
    let n = chars.len();
    proof {
        assert(chars@.subrange(0, n as int) =~= chars@);
    }
    let (a, b) = trim_range(&chars, 0, n, TrimSet::Whitespace);
    let number = match parse_usize_range(&chars, a, b) {
        Some(v) => v,
        None => 0,
    };
    if number == 0 {
        Selection::Abort
    } else if number > count {
        Selection::Invalid
    } else {
        Selection::Pick(number - 1)
    }
}

// ------------------------------------------------------------------------------------------------
// The entries that the chooser lists, and how it shows them.

/// A character in ASCII lower case: `A` to `Z` become `a` to `z`, and any other
/// character stays as it is.
pub open spec fn ascii_lower_char(c: char) -> char {
    if 'A' <= c <= 'Z' {
        ((c as u32) + 32) as char
    } else {
        c
    }
}

/// A text in ASCII lower case.
pub open spec fn ascii_lower(s: Seq<char>) -> Seq<char> {
    s.map_values(|c: char| ascii_lower_char(c))
}

/// The characters of `s` in ASCII lower case.
fn ascii_lowercase(s: &str) -> (lower: Vec<char>)
    ensures
        lower@ == ascii_lower(s@),
{
    let chars = chars_of(s);
    let mut lower: Vec<char> = Vec::new();
    let mut i: usize = 0;
    while i < chars.len()
        invariant
            chars@ == s@,
            0 <= i <= chars@.len(),
            lower@ == ascii_lower(s@.take(i as int)),
        decreases chars@.len() - i,
    {
        let c = chars[i];
        let d = if 'A' <= c && c <= 'Z' {
            ((c as u8) + 32) as char
        } else {
            c
        };
        assert(d == ascii_lower_char(c));
        lower.push(d);
        i += 1;
        assert(ascii_lower(s@.take(i as int)) =~= ascii_lower(s@.take(i - 1)).push(d));
    }
    assert(s@.take(i as int) =~= s@);
    lower
}

/// Whether the chooser lists an entry for the word `item`: the entry's stem, in ASCII
/// lower case, holds the word, or its name, in ASCII lower case, is the word.
pub open spec fn lists_entry(stem: Seq<char>, name: Seq<char>, item: Seq<char>) -> bool {
    occurs(ascii_lower(stem), item) || ascii_lower(name) == item
}

/// Whether the chooser lists an entry, of that stem and name, for the word `item`.
pub fn matches_item(stem: &str, name: &str, item: &str) -> (listed: bool)
    ensures
        listed == lists_entry(stem@, name@, item@),
{
    let lower_stem = ascii_lowercase(stem);
    let item_chars = chars_of(item);
    if occurs_in(&lower_stem, &item_chars) {
        return true;
    }
    let lower_name = ascii_lowercase(name);
    let n = lower_name.len();
    proof {
        assert(lower_name@.subrange(0, n as int) =~= lower_name@);
    }
    range_is(&lower_name, 0, n, item)
}

/// Whether two characters differ at most in ASCII case.
pub open spec fn same_letter(a: char, b: char) -> bool {
    ||| a == b
    ||| ('A' <= a <= 'Z' && b as u32 == a as u32 + 32)
    ||| ('A' <= b <= 'Z' && a as u32 == b as u32 + 32)
}

/// Whether two texts differ at most in the ASCII case of their letters.
pub open spec fn same_but_case(a: Seq<char>, b: Seq<char>) -> bool {
    a.len() == b.len() && forall|i: int| 0 <= i < a.len() ==> same_letter(#[trigger] a[i], b[i])
}

/// Whether a text holds no ASCII capital.
pub open spec fn no_capitals(s: Seq<char>) -> bool {
    forall|i: int| 0 <= i < s.len() ==> !('A' <= #[trigger] s[i] <= 'Z')
}

/// Characters that differ at most in ASCII case are the same in ASCII lower case.
proof fn lemma_same_letter_lower(a: char, b: char)
    requires
        same_letter(a, b),
    ensures
        ascii_lower_char(a) == ascii_lower_char(b),
{
    if 'A' <= a <= 'Z' && b as u32 == a as u32 + 32 {
        assert(!('A' <= b <= 'Z'));
        assert(((a as u32) + 32) as char == b);
    } else if 'A' <= b <= 'Z' && a as u32 == b as u32 + 32 {
        assert(!('A' <= a <= 'Z'));
        assert(((b as u32) + 32) as char == a);
    }
}

/// Texts that differ at most in ASCII case are the same in ASCII lower case.
proof fn lemma_same_but_case_lower(a: Seq<char>, b: Seq<char>)
    requires
        same_but_case(a, b),
    ensures
        ascii_lower(a) == ascii_lower(b),
{
    assert forall|i: int| 0 <= i < a.len() implies ascii_lower(a)[i] == ascii_lower(b)[i] by {
        lemma_same_letter_lower(a[i], b[i]);
    }
    assert(ascii_lower(a) =~= ascii_lower(b));
}

/// The chooser's match does not depend on the ASCII case of the stem or of the name:
/// stems and names that differ only in the case of their letters are listed alike.
pub proof fn law_matching_ignores_case(stem: Seq<char>, other_stem: Seq<char>, name: Seq<char>, other_name: Seq<char>, item: Seq<char>)
    requires
        same_but_case(stem, other_stem),
        same_but_case(name, other_name),
    ensures
        lists_entry(stem, name, item) == lists_entry(other_stem, other_name, item),
{
    lemma_same_but_case_lower(stem, other_stem);
    lemma_same_but_case_lower(name, other_name);
}

/// A word without capitals that stands in the stem, in whatever ASCII case the stem
/// has it, lists the entry.
pub proof fn law_word_in_stem_lists(stem: Seq<char>, lower_stem: Seq<char>, name: Seq<char>, item: Seq<char>)
    requires
        same_but_case(stem, lower_stem),
        no_capitals(item),
        occurs(lower_stem, item),
    ensures
        lists_entry(stem, name, item),
{
    lemma_same_but_case_lower(stem, lower_stem);
    let k = choose|k: int| occurs_at(lower_stem, item, k);
    let window = lower_stem.subrange(k, k + item.len());
    assert(window == item);
    assert(ascii_lower(lower_stem).subrange(k, k + item.len()) =~= item) by {
        assert forall|j: int| 0 <= j < item.len() implies ascii_lower(lower_stem).subrange(k, k + item.len())[j] == item[j] by {
            assert(lower_stem[k + j] == window[j]);
            assert(!('A' <= item[j] <= 'Z'));
        }
    }
    assert(occurs_at(ascii_lower(stem), item, k));
}

/// A name that is the word, in whatever ASCII case, lists the entry, where the word
/// has no capitals.
pub proof fn law_name_as_word_lists(stem: Seq<char>, name: Seq<char>, item: Seq<char>)
    requires
        same_but_case(name, item),
        no_capitals(item),
    ensures
        lists_entry(stem, name, item),
{
    lemma_same_but_case_lower(name, item);
    assert(ascii_lower(item) =~= item) by {
        assert forall|j: int| 0 <= j < item.len() implies ascii_lower(item)[j] == item[j] by {
            assert(!('A' <= item[j] <= 'Z'));
        }
    }
}

/// The UTF-8 bytes of `\crypt`.
pub open spec fn crypt_marker() -> Seq<u8> {
    seq![92u8, 99u8, 114u8, 121u8, 112u8, 116u8]
}

/// Whether `pattern` stands in `b` from byte `i` on.
pub open spec fn bytes_at(b: Seq<u8>, pattern: Seq<u8>, i: int) -> bool {
    0 <= i && i + pattern.len() <= b.len() && b.subrange(i, i + pattern.len()) == pattern
}

/// The first byte at which `pattern` stands in `b`, where it does.
pub open spec fn first_bytes_at(b: Seq<u8>, pattern: Seq<u8>) -> Option<int> {
    if exists|i: int| bytes_at(b, pattern, i) {
        Some(choose|i: int| bytes_at(b, pattern, i) && forall|j: int| 0 <= j < i ==> !bytes_at(b, pattern, j))
    } else {
        None
    }
}

/// The widest path that the chooser shows, in bytes.
pub const SHOWN_WIDTH: usize = 45;

/// Where the shown part of a path starts, in bytes: `cut` bytes past the first
/// `\crypt` in it, where there is one, and otherwise at its start.
pub open spec fn crop_start(b: Seq<u8>, cut: nat) -> int {
    match first_bytes_at(b, crypt_marker()) {
        Some(f) => f + cut,
        None => 0,
    }
}

/// How the chooser shows a path, in UTF-8 bytes: from where `crop_start` says, and
/// then at most its last 45 bytes.
pub open spec fn cropped_bytes(b: Seq<u8>, cut: nat) -> Seq<u8> {
    let t = b.skip(crop_start(b, cut));
    if t.len() > SHOWN_WIDTH {
        t.skip(t.len() - SHOWN_WIDTH)
    } else {
        t
    }
}

/// Whether a path can be cut where the chooser cuts it: the start of the shown part,
/// and the start of its last 45 bytes where it is longer, fall within the path and on
/// the boundaries of its characters.
pub open spec fn croppable(b: Seq<u8>, cut: nat) -> bool {
    let start = crop_start(b, cut);
    &&& start <= b.len()
    &&& vstd::utf8::is_char_boundary(b, start)
    &&& b.len() - start > SHOWN_WIDTH ==> vstd::utf8::is_char_boundary(b.skip(start), b.len() - start - SHOWN_WIDTH)
}

/// How the chooser shows a path: from `cut` bytes past the first `\crypt` in it, where
/// there is one, and then at most its last 45 bytes.
pub fn cropped(path: &str, cut: usize) -> (shown: String)
    requires
        croppable(encode_utf8(path@), cut as nat),
    ensures
        encode_utf8(shown@) == cropped_bytes(encode_utf8(path@), cut as nat),
{
    let bytes = path.as_bytes();
    let n = bytes.len();
    let ghost b = encode_utf8(path@);
    let ghost marker = crypt_marker();
    let mut k: usize = 0;
    let mut found = false;
    loop
        invariant_except_break
            !found,
        invariant
            bytes@ == b,
            n == b.len(),
            marker == crypt_marker(),
            k <= n,
            forall|j: int| 0 <= j < k ==> !bytes_at(b, marker, j),
        ensures
            k <= n,
            forall|j: int| 0 <= j < k ==> !bytes_at(b, marker, j),
            found ==> bytes_at(b, marker, k as int),
            !found ==> k + 6 > n,
        decreases n - k,
    {
        if n < 6 || k > n - 6 {
            break;
        }
        if bytes[k] == 92u8 && bytes[k + 1] == 99u8 && bytes[k + 2] == 114u8 && bytes[k + 3] == 121u8
            && bytes[k + 4] == 112u8 && bytes[k + 5] == 116u8 {
            assert(b.subrange(k as int, k + 6) =~= marker);
            found = true;
            break;
        }
        assert(!bytes_at(b, marker, k as int)) by {
            if bytes_at(b, marker, k as int) {
                assert(b.subrange(k as int, k + 6)[0] == b[k as int]);
                assert(b.subrange(k as int, k + 6)[1] == b[k + 1]);
                assert(b.subrange(k as int, k + 6)[2] == b[k + 2]);
                assert(b.subrange(k as int, k + 6)[3] == b[k + 3]);
                assert(b.subrange(k as int, k + 6)[4] == b[k + 4]);
                assert(b.subrange(k as int, k + 6)[5] == b[k + 5]);
            }
        }
        k += 1;
    }
    let start = if found {
        proof {
            let f = first_bytes_at(b, marker)->Some_0;
            assert(exists|i: int| bytes_at(b, marker, i));
            assert(f == k) by {
                if f < k {
                    assert(!bytes_at(b, marker, f));
                }
                if f > k {
                    assert(!bytes_at(b, marker, k as int));
                }
            }
        }
        k + cut
    } else {
        proof {
            assert(!exists|i: int| bytes_at(b, marker, i)) by {
                if exists|i: int| bytes_at(b, marker, i) {
                    let j = choose|j: int| bytes_at(b, marker, j);
                    assert(j < k);
                }
            }
        }
        0
    };
    assert(start == crop_start(b, cut as nat));
    let rest = path.split_at(start).1;
    assert(encode_utf8(rest@) =~= b.skip(start as int));
    let len = rest.len();
    if len > SHOWN_WIDTH {
        let tail = rest.split_at(len - SHOWN_WIDTH).1;
        tail.to_owned()
    } else {
        rest.to_owned()
    }
}

/// The components of a path relative to a root, as joining the path onto the root and
/// taking the root off again leaves them: those of a relative path as they are; those
/// of an absolute path past the root's where it lies below the root, and otherwise
/// none.
pub open spec fn path_diff_of(root: Seq<Seq<char>>, target: Seq<Seq<char>>, absolute: bool) -> Seq<Seq<char>> {
    if !absolute {
        target
    } else if root.len() <= target.len() && target.take(root.len() as int) == root {
        target.skip(root.len() as int)
    } else {
        Seq::empty()
    }
}

/// The components of `target` relative to `root`, from the components of both and
/// whether `target` is absolute.
pub fn path_diff(root: &Vec<String>, target: &Vec<String>, absolute: bool) -> (diff: Vec<String>)
    ensures
        texts(diff@) == path_diff_of(texts(root@), texts(target@), absolute),
{
    let ghost r = texts(root@);
    let ghost t = texts(target@);
    if !absolute {
        let mut all: Vec<String> = Vec::new();
        let mut i: usize = 0;
        while i < target.len()
            invariant
                t == texts(target@),
                0 <= i <= target@.len(),
                texts(all@) == t.take(i as int),
            decreases target@.len() - i,
        {
            let c = target[i].clone();
            assert(t[i as int] == c@);
            let ghost before = all@;
            all.push(c);
            assert(texts(all@) =~= texts(before).push(c@));
            assert(texts(all@) =~= t.take(i + 1));
            i += 1;
        }
        assert(t.take(i as int) =~= t);
        assert(path_diff_of(r, t, absolute) == t);
        return all;
    }
    if root.len() > target.len() {
        assert(r.len() > t.len());
        let none: Vec<String> = Vec::new();
        assert(texts(none@) =~= Seq::<Seq<char>>::empty());
        return none;
    }
    let mut i: usize = 0;
    while i < root.len()
        invariant
            r == texts(root@),
            t == texts(target@),
            absolute,
            root@.len() <= target@.len(),
            0 <= i <= root@.len(),
            t.take(i as int) == r.take(i as int),
        decreases root@.len() - i,
    {
        let a = chars_of(root[i].as_str());
        let m = a.len();
        proof {
            assert(a@.subrange(0, m as int) =~= a@);
            assert(r[i as int] == root@[i as int]@);
            assert(t[i as int] == target@[i as int]@);
        }
        if !range_is(&a, 0, m, target[i].as_str()) {
            proof {
                assert(r.len() == root@.len());
                assert(t.take(r.len() as int)[i as int] != r[i as int]);
                assert(t.take(r.len() as int) != r);
            }
            let none: Vec<String> = Vec::new();
            assert(texts(none@) =~= Seq::<Seq<char>>::empty());
            return none;
        }
        assert(t.take(i + 1) =~= r.take(i + 1)) by {
            assert(t.take(i + 1) =~= t.take(i as int).push(t[i as int]));
            assert(r.take(i + 1) =~= r.take(i as int).push(r[i as int]));
        }
        i += 1;
    }
    assert(r.take(i as int) =~= r);
    let mut rest: Vec<String> = Vec::new();
    let mut j: usize = root.len();
    while j < target.len()
        invariant
            t == texts(target@),
            root@.len() <= j <= target@.len(),
            texts(rest@) == t.subrange(root@.len() as int, j as int),
        decreases target@.len() - j,
    {
        let c = target[j].clone();
        assert(t[j as int] == c@);
        let ghost before = rest@;
        rest.push(c);
        assert(texts(rest@) =~= texts(before).push(c@));
        assert(texts(rest@) =~= t.subrange(root@.len() as int, j + 1));
        j += 1;
    }
    assert(t.subrange(root@.len() as int, j as int) =~= t.skip(root@.len() as int));
    assert(r.len() == root@.len());
    assert(t.take(r.len() as int) == r);
    rest
}

} // verus!
