//! The configuration of the command-line tool, and the parser that reads it back from
//! the lines of its TOML file, repairing what it can.

use vstd::prelude::*;

use crate::config::{first_position, removes_first, texts};
use crate::util::text::{
    all_digits, decimal, in_set, is_digit, is_white_space, lemma_decimal_digits, lemma_decimal_plain, lemma_parse_signed_decimal,
    lemma_split_append, lemma_split_without, lemma_trim_end_skips, lemma_trim_start_skips,
    lemma_trimmed_unchanged, signed_decimal, trim_end, trim_start,
    chars_of, lowercase, occurs, occurs_at, occurs_in, parse_bool, parse_bool_range, parse_i32, parse_i32_range, range_is,
    split_on, split_ranges, to_lowercase, trim_range, trimmed, TrimSet,
};

verus! {

/// Holds the configuration of the program.
pub struct Config {
    /// Location of the SQLite database.
    pub database_path: String,
    /// Directories to ignore during folder encryption.
    pub ignore_items: Vec<String>,
    /// Whether the original file is kept after encryption, and the `.crypt` file after
    /// decryption.
    pub retain: bool,
    /// Zstandard level, from -7 (fastest) to 22 (smallest).
    pub zstd_level: i32,
}

impl Default for Config {
    /// The database `crypt_keeper.db`, files retained, `.` ignored, level 3.
    fn default() -> (config: Self)
        ensures
            config.database_path@ == "crypt_keeper.db"@,
            config.retain,
            texts(config.ignore_items@) == seq![seq!['.']],
            config.zstd_level == 3,
    {
        let mut ignore_items: Vec<String> = Vec::new();
        let dot = ".";
        proof {
            reveal_strlit(".");
            assert(dot@ =~= seq!['.']);
        }
        ignore_items.push(String::from_str(dot));
        proof {
            assert(texts(ignore_items@) =~= seq![seq!['.']]);
        }
        Config { database_path: String::from_str("crypt_keeper.db"), retain: true, ignore_items, zstd_level: 3 }
    }
}

impl Config {
    /// A configuration with the given values.
    fn new(database_path: String, retain: bool, ignore_directories: Vec<String>, zstd_level: i32) -> (config: Self)
        ensures
            config == (Config { database_path, ignore_items: ignore_directories, retain, zstd_level }),
    {
        Self { database_path, retain, ignore_items: ignore_directories, zstd_level }
    }

    /// The names of the fields of the configuration file.
    pub fn get_fields() -> (fields: Vec<&'static str>)
        ensures
            fields@.len() == 4,
            fields@[0]@ == "database_path"@,
            fields@[1]@ == "ignore_directories"@,
            fields@[2]@ == "retain"@,
            fields@[3]@ == "zstd_level"@,
    {
        let mut fields: Vec<&'static str> = Vec::new();
        fields.push("database_path");
        fields.push("ignore_directories");
        fields.push("retain");
        fields.push("zstd_level");
        fields
    }

    /// Changes the database path.
    pub fn change_db_path(&mut self, path: String)
        ensures
            *final(self) == (Config { database_path: path, ..*old(self) }),
    {
        self.database_path = path;
    }

    /// The database path.
    pub fn get_database_path(&self) -> (path: &str)
        ensures
            path@ == self.database_path@,
    {
        self.database_path.as_str()
    }

    /// Sets the database path; the caller saves the configuration.
    pub fn set_database_path(&mut self, path: &String)
        ensures
            *final(self) == (Config { database_path: *path, ..*old(self) }),
    {
        self.database_path = path.clone();
    }

    /// Whether files are retained.
    pub fn retain(&self) -> (retain: bool)
        ensures
            retain == self.retain,
    {
        self.retain
    }

    /// Sets whether files are retained from a text: `true` or `t`, `false` or `f`,
    /// in any case. Returns whether the text was one of those; the caller saves the
    /// configuration.
    pub fn set_retain(&mut self, retain: String) -> (changed: bool)
        ensures
            changed == retain_choice(lowercase(retain@)) is Some,
            retain_choice(lowercase(retain@)) matches Some(value) ==> *final(self) == (Config { retain: value, ..*old(self) }),
            !changed ==> *final(self) == *old(self),
    {
        let lower = to_lowercase(retain.as_str());
        let chars = chars_of(lower.as_str());
        let n = chars.len();
        proof {
            reveal_strlit("true");
            reveal_strlit("t");
            reveal_strlit("false");
            reveal_strlit("f");
            assert(chars@.subrange(0, n as int) =~= chars@);
        }
        if range_is(&chars, 0, n, "true") || range_is(&chars, 0, n, "t") {
            self.retain = true;
            true
        } else if range_is(&chars, 0, n, "false") || range_is(&chars, 0, n, "f") {
            self.retain = false;
            true
        } else {
            false
        }
    }

    /// The ignored items.
    pub fn ignore_items(&self) -> (items: &[String])
        ensures
            items@ == self.ignore_items@,
    {
        self.ignore_items.as_slice()
    }

    /// Replaces the ignored items; the caller saves the configuration.
    pub fn set_ignore_items(&mut self, ignore_directories: Vec<String>)
        ensures
            *final(self) == (Config { ignore_items: ignore_directories, ..*old(self) }),
    {
        self.ignore_items = ignore_directories;
    }

    /// Adds an item to the end of the ignored items; the caller saves the
    /// configuration.
    pub fn append_ignore_items(&mut self, item: &String)
        ensures
            final(self).ignore_items@ == old(self).ignore_items@.push(*item),
            final(self).database_path == old(self).database_path,
            final(self).retain == old(self).retain,
            final(self).zstd_level == old(self).zstd_level,
    {
        self.ignore_items.push(item.clone());
    }

    /// Removes the first occurrence of `item` from the ignored items, if there is one;
    /// the caller saves the configuration.
    pub fn remove_item(&mut self, item: &String)
        ensures
            removes_first(old(self).ignore_items@, final(self).ignore_items@, item@),
            !texts(old(self).ignore_items@).contains(item@) ==> *final(self) == *old(self),
            final(self).database_path == old(self).database_path,
            final(self).retain == old(self).retain,
            final(self).zstd_level == old(self).zstd_level,
    {
        let mut i: usize = 0;
        while i < self.ignore_items.len()
            invariant
                0 <= i <= self.ignore_items@.len(),
                *self == *old(self),
                forall|k: int| 0 <= k < i ==> texts(self.ignore_items@)[k] != item@,
            decreases self.ignore_items@.len() - i,
        {
            assert(texts(self.ignore_items@)[i as int] == self.ignore_items@[i as int]@);
            if self.ignore_items[i] == *item {
                self.ignore_items.remove(i);
                proof {
                    assert(first_position(texts(old(self).ignore_items@), item@, i as int));
                    assert(texts(old(self).ignore_items@).contains(item@));
                }
                return;
            }
            i += 1;
        }
        proof {
            assert forall|k: int| 0 <= k < texts(self.ignore_items@).len() implies texts(self.ignore_items@)[k] != item@ by {}
        }
    }

    /// The Zstandard compression level.
    pub fn get_zstd_level(&self) -> (level: i32)
        ensures
            level == self.zstd_level,
    {
        self.zstd_level
    }

    /// Sets the Zstandard compression level where it lies from -7 to 22, and tells
    /// whether it did; the caller saves the configuration, or reports the error.
    pub fn set_zstd_level(&mut self, level: i32) -> (changed: bool)
        ensures
            changed == (-7 <= level <= 22),
            changed ==> *final(self) == (Config { zstd_level: level, ..*old(self) }),
            !changed ==> *final(self) == *old(self),
    {
        if -7 <= level && level <= 22 {
            self.zstd_level = level;
            true
        } else {
            false
        }
    }
}

/// The value that a lowercased text chooses for `retain`: `true` or `t`, `false` or
/// `f`.
pub open spec fn retain_choice(lower: Seq<char>) -> Option<bool> {
    if lower == "true"@ || lower == "t"@ {
        Some(true)
    } else if lower == "false"@ || lower == "f"@ {
        Some(false)
    } else {
        None
    }
}


// ------------------------------------------------------------------------------------------------
// Reading the configuration file back.

/// What the parser keeps from one line of the configuration file to the next: the
/// values read so far, the ignored items collected so far, and whether a list of them
/// is still open.
pub struct ParseModel {
    pub database_path: Seq<char>,
    pub retain: bool,
    pub zstd_level: i32,
    pub ignore_dir: Seq<Seq<char>>,
    pub read_dir: bool,
}

/// An item of a list: the piece without white space around it, then without double
/// quotes around it.
pub open spec fn item_text(piece: Seq<char>) -> Seq<char> {
    trimmed(trimmed(piece, TrimSet::Whitespace), TrimSet::DoubleQuote)
}

/// The items of a text: its pieces between commas, each as `item_text` leaves it.
pub open spec fn items_of(s: Seq<char>) -> Seq<Seq<char>> {
    split_on(s, ',').map_values(|piece: Seq<char>| item_text(piece))
}

/// The items of a list: the text without the brackets, spaces and quotes around it,
/// then its items.
pub open spec fn list_items(s: Seq<char>) -> Seq<Seq<char>> {
    items_of(trimmed(s, TrimSet::ListDelimiters))
}

/// The pieces of a line between its `=` signs, each without white space around it.
pub open spec fn line_parts(line: Seq<char>) -> Seq<Seq<char>> {
    split_on(line, '=').map_values(|piece: Seq<char>| trimmed(piece, TrimSet::Whitespace))
}

/// What a `key = value` line sets. The database path is taken without quotes or
/// backslashes around it; the ignored items (under the key `ignore_items` that the
/// file is written with, or the older `ignore_directories`) from a list, which stays
/// open where the value starts with a bracket but does not end with one; the boolean and the level
/// where their values read as such, and otherwise are left as they were. Other keys
/// are ignored.
pub open spec fn value_step(m: ParseModel, key: Seq<char>, value: Seq<char>) -> ParseModel {
    if key == "database_path"@ {
        ParseModel { database_path: trimmed(trimmed(value, TrimSet::PathQuotes), TrimSet::Whitespace), ..m }
    } else if key == "ignore_items"@ || key == "ignore_directories"@ {
        let opens = value.len() > 0 && value[0] == '[';
        let closes = value.len() > 0 && value.last() == ']';
        if opens && closes {
            ParseModel { ignore_dir: list_items(value), ..m }
        } else if opens || (value.len() > 0 && value[0] == ']') {
            ParseModel { ignore_dir: list_items(value), read_dir: true, ..m }
        } else {
            m
        }
    } else if key == "retain"@ {
        ParseModel {
            retain: match parse_bool(value) {
                Some(b) => b,
                None => m.retain,
            },
            ..m
        }
    } else if key == "zstd_level"@ {
        ParseModel {
            zstd_level: match parse_i32(value) {
                Some(level) => level,
                None => m.zstd_level,
            },
            ..m
        }
    } else {
        m
    }
}

/// What a line read as `key = value` sets: nothing unless it has exactly one `=`.
pub open spec fn pair_step(m: ParseModel, line: Seq<char>) -> ParseModel {
    let parts = line_parts(line);
    if parts.len() == 2 {
        value_step(m, parts[0], parts[1])
    } else {
        m
    }
}

/// What one line of the file does. While a list is open, a line with `]` closes it
/// with its items, a line with ` = ` closes it, and any other line adds its items;
/// then only a line with ` = ` is read as `key = value`.
pub open spec fn line_step(m: ParseModel, line: Seq<char>) -> ParseModel {
    let assigns = occurs(line, seq![' ', '=', ' ']);
    if m.read_dir {
        let m1 = if occurs(line, seq![']']) {
            ParseModel { read_dir: false, ignore_dir: m.ignore_dir + list_items(line), ..m }
        } else if assigns {
            ParseModel { read_dir: false, ..m }
        } else {
            ParseModel { ignore_dir: m.ignore_dir + items_of(line), ..m }
        };
        if assigns {
            pair_step(m1, line)
        } else {
            m1
        }
    } else {
        pair_step(m, line)
    }
}

/// What the lines do, one after the other, starting from `m`.
pub open spec fn parsed(m: ParseModel, lines: Seq<Seq<char>>) -> ParseModel
    decreases lines.len(),
{
    if lines.len() == 0 {
        m
    } else {
        line_step(parsed(m, lines.drop_last()), lines.last())
    }
}

/// Where the parser starts from: the values of `config`, no items, no open list.
pub open spec fn initial_model(config: Config) -> ParseModel {
    ParseModel {
        database_path: config.database_path@,
        retain: config.retain,
        zstd_level: config.zstd_level,
        ignore_dir: Seq::empty(),
        read_dir: false,
    }
}

/// The items that are not empty, in order.
pub open spec fn nonempty_items(items: Seq<Seq<char>>) -> Seq<Seq<char>>
    decreases items.len(),
{
    if items.len() == 0 {
        Seq::empty()
    } else {
        let init = nonempty_items(items.drop_last());
        if items.last().len() > 0 {
            init.push(items.last())
        } else {
            init
        }
    }
}

/// The state of the parser in its variables.
pub open spec fn model_of(config: Config, ignore_dir: Seq<String>, read_dir: bool) -> ParseModel {
    ParseModel {
        database_path: config.database_path@,
        retain: config.retain,
        zstd_level: config.zstd_level,
        ignore_dir: texts(ignore_dir),
        read_dir,
    }
}

/// Appends the items of `chars[lo..hi]` to `out`; where `delimited`, the text is
/// first trimmed of the brackets, spaces and quotes around a list.
fn push_items(line: &str, chars: &Vec<char>, lo: usize, hi: usize, delimited: bool, out: &mut Vec<String>)
    requires
        chars@ == line@,
        lo <= hi <= chars@.len(),
    ensures
        texts(final(out)@) == texts(old(out)@) + (if delimited {
            list_items(chars@.subrange(lo as int, hi as int))
        } else {
            items_of(chars@.subrange(lo as int, hi as int))
        }),
{
    let ghost whole = chars@.subrange(lo as int, hi as int);
    let (a, b) = if delimited {
        trim_range(chars, lo, hi, TrimSet::ListDelimiters)
    } else {
        (lo, hi)
    };
    let ghost inner = chars@.subrange(a as int, b as int);
    assert(inner == (if delimited { trimmed(whole, TrimSet::ListDelimiters) } else { whole }));
    let pieces = split_ranges(chars, a, b, ',');
    let ghost items = items_of(inner);
    let ghost start = texts(out@);
    let mut k: usize = 0;
    while k < pieces.len()
        invariant
            chars@ == line@,
            a <= b <= chars@.len(),
            inner == chars@.subrange(a as int, b as int),
            items == items_of(inner),
            pieces@.len() == split_on(inner, ',').len(),
            forall|j: int| 0 <= j < pieces@.len() ==> {
                &&& a <= (#[trigger] pieces@[j]).0 <= pieces@[j].1 <= b
                &&& chars@.subrange(pieces@[j].0 as int, pieces@[j].1 as int) == split_on(inner, ',')[j]
            },
            0 <= k <= pieces@.len(),
            texts(out@) == start + items.take(k as int),
        decreases pieces@.len() - k,
    {
        let (p0, p1) = pieces[k];
        assert(a <= pieces@[k as int].0 <= pieces@[k as int].1 <= b);
        let (c, d) = trim_range(chars, p0, p1, TrimSet::Whitespace);
        let (e, f) = trim_range(chars, c, d, TrimSet::DoubleQuote);
        let item = line.substring_char(e, f).to_owned();
        assert(item@ == item_text(split_on(inner, ',')[k as int]));
        let ghost before = texts(out@);
        out.push(item);
        assert(texts(out@) =~= before.push(item@));
        assert(items.take(k + 1) =~= items.take(k as int).push(items[k as int]));
        k += 1;
    }
    assert(items.take(k as int) =~= items);
}

/// The bounds of the two pieces of a `key = value` line, each trimmed of white
/// space, where the line has exactly one `=`.
fn pair_ranges(chars: &Vec<char>) -> (r: Option<((usize, usize), (usize, usize))>)
    ensures
        r is Some <==> line_parts(chars@).len() == 2,
        r matches Some((key, value)) ==> {
            &&& key.0 <= key.1 <= chars@.len()
            &&& value.0 <= value.1 <= chars@.len()
            &&& chars@.subrange(key.0 as int, key.1 as int) == line_parts(chars@)[0]
            &&& chars@.subrange(value.0 as int, value.1 as int) == line_parts(chars@)[1]
        },
{
    let n = chars.len();
    assert(chars@.subrange(0, n as int) =~= chars@);
    let pieces = split_ranges(chars, 0, n, '=');
    if pieces.len() != 2 {
        return None;
    }
    let (k0, k1) = pieces[0];
    let (v0, v1) = pieces[1];
    assert(0 <= pieces@[0].0 <= pieces@[0].1 <= n);
    assert(0 <= pieces@[1].0 <= pieces@[1].1 <= n);
    let key = trim_range(chars, k0, k1, TrimSet::Whitespace);
    let value = trim_range(chars, v0, v1, TrimSet::Whitespace);
    Some((key, value))
}

/// Applies a `key = value` line whose pieces are `chars[key]` and `chars[value]`.
fn apply_value(
    config: &mut Config,
    ignore_dir: &mut Vec<String>,
    read_dir: &mut bool,
    line: &str,
    chars: &Vec<char>,
    key: (usize, usize),
    value: (usize, usize),
)
    requires
        chars@ == line@,
        key.0 <= key.1 <= chars@.len(),
        value.0 <= value.1 <= chars@.len(),
    ensures
        model_of(*final(config), final(ignore_dir)@, *final(read_dir)) == value_step(
            model_of(*old(config), old(ignore_dir)@, *old(read_dir)),
            chars@.subrange(key.0 as int, key.1 as int),
            chars@.subrange(value.0 as int, value.1 as int),
        ),
        final(config).ignore_items == old(config).ignore_items,
{
    let (k0, k1) = key;
    let (v0, v1) = value;
    let ghost v = chars@.subrange(v0 as int, v1 as int);
    if range_is(chars, k0, k1, "database_path") {
        let (a, b) = trim_range(chars, v0, v1, TrimSet::PathQuotes);
        let (c, d) = trim_range(chars, a, b, TrimSet::Whitespace);
        config.database_path = line.substring_char(c, d).to_owned();
    } else if range_is(chars, k0, k1, "ignore_items") || range_is(chars, k0, k1, "ignore_directories") {
        let opens = v0 < v1 && chars[v0] == '[';
        let closes = v0 < v1 && chars[v1 - 1] == ']';
        assert(opens == (v.len() > 0 && v[0] == '['));
        assert(closes == (v.len() > 0 && v.last() == ']'));
        if opens && closes {
            let mut items: Vec<String> = Vec::new();
            push_items(line, chars, v0, v1, true, &mut items);
            assert(texts(items@) =~= list_items(v));
            *ignore_dir = items;
        } else if opens || (v0 < v1 && chars[v0] == ']') {
            let mut items: Vec<String> = Vec::new();
            push_items(line, chars, v0, v1, true, &mut items);
            assert(texts(items@) =~= list_items(v));
            *ignore_dir = items;
            *read_dir = true;
        }
    } else if range_is(chars, k0, k1, "retain") {
        match parse_bool_range(chars, v0, v1) {
            Some(b) => config.retain = b,
            None => {},
        }
    } else if range_is(chars, k0, k1, "zstd_level") {
        match parse_i32_range(chars, v0, v1) {
            Some(level) => config.zstd_level = level,
            None => {},
        }
    }
}

/// Applies one line of the configuration file.
fn parse_line(config: &mut Config, ignore_dir: &mut Vec<String>, read_dir: &mut bool, line: &str)
    ensures
        model_of(*final(config), final(ignore_dir)@, *final(read_dir)) == line_step(
            model_of(*old(config), old(ignore_dir)@, *old(read_dir)),
            line@,
        ),
        final(config).ignore_items == old(config).ignore_items,
{
    let chars = chars_of(line);
    let n = chars.len();
    let ghost m = model_of(*config, ignore_dir@, *read_dir);
    let eq_text = chars_of(" = ");
    let close_text = chars_of("]");
    proof {
        reveal_strlit(" = ");
        reveal_strlit("]");
        assert(eq_text@ =~= seq![' ', '=', ' ']);
        assert(close_text@ =~= seq![']']);
        assert(chars@.subrange(0, n as int) =~= chars@);
    }
    let assigns = occurs_in(&chars, &eq_text);
    if *read_dir {
        if occurs_in(&chars, &close_text) {
            *read_dir = false;
            push_items(line, &chars, 0, n, true, ignore_dir);
        } else if assigns {
            *read_dir = false;
        } else {
            push_items(line, &chars, 0, n, false, ignore_dir);
        }
        if !assigns {
            return;
        }
    }
    match pair_ranges(&chars) {
        Some((key, value)) => apply_value(config, ignore_dir, read_dir, line, &chars, key, value),
        None => {},
    }
}

/// Reads the lines of a configuration file into `config`, repairing what it can: each
/// line applies as `line_step` says, and where any ignored items were read, the
/// non-empty ones replace the configured ones.
pub fn parse_lines(config: &mut Config, lines: &Vec<String>)
    ensures
        final(config).database_path@ == parsed(initial_model(*old(config)), texts(lines@)).database_path,
        final(config).retain == parsed(initial_model(*old(config)), texts(lines@)).retain,
        final(config).zstd_level == parsed(initial_model(*old(config)), texts(lines@)).zstd_level,
        parsed(initial_model(*old(config)), texts(lines@)).ignore_dir.len() > 0 ==> texts(final(config).ignore_items@)
            == nonempty_items(parsed(initial_model(*old(config)), texts(lines@)).ignore_dir),
        parsed(initial_model(*old(config)), texts(lines@)).ignore_dir.len() == 0 ==> final(config).ignore_items
            == old(config).ignore_items,
{
    let ghost init = initial_model(*config);
    let mut ignore_dir: Vec<String> = Vec::new();
    let mut read_dir = false;
    let mut i: usize = 0;
    assert(model_of(*config, ignore_dir@, read_dir) == init) by {
        assert(texts(ignore_dir@) =~= Seq::<Seq<char>>::empty());
    }
    while i < lines.len()
        invariant
            0 <= i <= lines@.len(),
            model_of(*config, ignore_dir@, read_dir) == parsed(init, texts(lines@).take(i as int)),
            config.ignore_items == old(config).ignore_items,
        decreases lines@.len() - i,
    {
        parse_line(config, &mut ignore_dir, &mut read_dir, lines[i].as_str());
        assert(texts(lines@).take(i + 1).drop_last() =~= texts(lines@).take(i as int));
        assert(texts(lines@).take(i + 1).last() == lines@[i as int]@);
        i += 1;
    }
    assert(texts(lines@).take(i as int) =~= texts(lines@));
    if ignore_dir.len() > 0 {
        let mut kept: Vec<String> = Vec::new();
        let mut k: usize = 0;
        while k < ignore_dir.len()
            invariant
                0 <= k <= ignore_dir@.len(),
                texts(kept@) == nonempty_items(texts(ignore_dir@).take(k as int)),
            decreases ignore_dir@.len() - k,
        {
            let item = ignore_dir[k].clone();
            assert(texts(ignore_dir@).take(k + 1).drop_last() =~= texts(ignore_dir@).take(k as int));
            assert(texts(ignore_dir@).take(k + 1).last() == item@);
            let ghost before = texts(kept@);
            if item.unicode_len() > 0 {
                kept.push(item);
                assert(texts(kept@) =~= before.push(item@));
            }
            k += 1;
        }
        assert(texts(ignore_dir@).take(k as int) =~= texts(ignore_dir@));
        config.ignore_items = kept;
    }
}

// ------------------------------------------------------------------------------------------------
// What the file gives back of what was written to it.

/// The line that sets `key` to `value`: `key = value`.
pub open spec fn setting_line(key: Seq<char>, value: Seq<char>) -> Seq<char> {
    key + seq![' ', '=', ' '] + value
}

/// The text of a boolean.
pub open spec fn bool_text(b: bool) -> Seq<char> {
    if b {
        seq!['t', 'r', 'u', 'e']
    } else {
        seq!['f', 'a', 'l', 's', 'e']
    }
}

/// A text between double quotes, as the file writes a string.
pub open spec fn quoted(p: Seq<char>) -> Seq<char> {
    seq!['"'] + p + seq!['"'] 
}

/// A path that the file gives back unchanged from between quotes: it has no `=`,
/// and no quote, backslash or white space at either end.
pub open spec fn plain_path(p: Seq<char>) -> bool {
    &&& !p.contains('=')
    &&& p.len() > 0 ==> {
        &&& !in_set(TrimSet::PathQuotes, p[0])
        &&& !in_set(TrimSet::PathQuotes, p.last())
        &&& !is_white_space(p[0])
        &&& !is_white_space(p.last())
    }
}

/// A text that stands as a key or a value of a line: not empty, without `=`, and
/// without white space at either end.
pub open spec fn plain_word(s: Seq<char>) -> bool {
    &&& s.len() > 0
    &&& !s.contains('=')
    &&& !is_white_space(s[0])
    &&& !is_white_space(s.last())
}

/// A `key = value` line is read as the pair of its key and its value.
proof fn lemma_line_parts(key: Seq<char>, value: Seq<char>)
    requires
        plain_word(key),
        plain_word(value),
    ensures
        line_parts(setting_line(key, value)) == seq![key, value],
{
    let left = key.push(' ');
    let right = seq![' '] + value;
    assert(setting_line(key, value) =~= left + seq!['='] + right);
    assert(!left.contains('=')) by {
        if left.contains('=') {
            let k = choose|k: int| 0 <= k < left.len() && left[k] == '=';
            if k < key.len() {
                assert(key[k] == '=');
            }
        }
    }
    assert(!right.contains('=')) by {
        if right.contains('=') {
            let k = choose|k: int| 0 <= k < right.len() && right[k] == '=';
            if k > 0 {
                assert(value[k - 1] == '=');
            }
        }
    }
    lemma_split_without(left, '=');
    lemma_split_append(left, right, '=');
    assert(split_on(setting_line(key, value), '=') =~= seq![left, right]);
    lemma_trim_end_skips(key, ' ', TrimSet::Whitespace);
    assert(trim_start(left, TrimSet::Whitespace) == left);
    lemma_trimmed_unchanged(key, TrimSet::Whitespace);
    assert(key.last() == key[key.len() - 1]);
    lemma_trim_start_skips(' ', value, TrimSet::Whitespace);
    assert(value.last() == value[value.len() - 1]);
    lemma_trimmed_unchanged(value, TrimSet::Whitespace);
    assert(line_parts(setting_line(key, value)) =~= seq![key, value]);
}

/// A line `database_path = "p"` sets the database path to `p`, for a path that
/// reads back unchanged from between quotes, where no list is open.
pub proof fn lemma_database_path_line(m: ParseModel, p: Seq<char>)
    requires
        !m.read_dir,
        plain_path(p),
    ensures
        line_step(m, setting_line("database_path"@, quoted(p))) == (ParseModel { database_path: p, ..m }),
{
    reveal_strlit("database_path");
    let v = quoted(p);
    assert(v[0] == '"');
    assert(v.last() == '"');
    assert(!v.contains('=')) by {
        if v.contains('=') {
            let k = choose|k: int| 0 <= k < v.len() && v[k] == '=';
            assert(p[k - 1] == '=');
        }
    }
    lemma_line_parts("database_path"@, v);
    assert(v =~= seq!['"'] + p.push('"'));
    lemma_trim_start_skips('"', p.push('"'), TrimSet::PathQuotes);
    if p.len() > 0 {
        assert(p.push('"')[0] == p[0]);
        assert(trim_start(p.push('"'), TrimSet::PathQuotes) == p.push('"'));
    } else {
        assert(p.push('"') =~= seq!['"']);
        lemma_trim_start_skips('"', Seq::<char>::empty(), TrimSet::PathQuotes);
        assert(seq!['"'] + Seq::<char>::empty() =~= seq!['"']);
        assert(p =~= Seq::<char>::empty());
    }
    lemma_trim_end_skips(p, '"', TrimSet::PathQuotes);
    assert(trim_end(p, TrimSet::PathQuotes) == p);
    assert(trimmed(v, TrimSet::PathQuotes) == p);
    lemma_trimmed_unchanged(p, TrimSet::Whitespace);
}

/// A line `retain = true` or `retain = false` sets `retain`, where no list is open.
pub proof fn lemma_retain_line(m: ParseModel, b: bool)
    requires
        !m.read_dir,
    ensures
        line_step(m, setting_line("retain"@, bool_text(b))) == (ParseModel { retain: b, ..m }),
{
    reveal_strlit("retain");
    reveal_strlit("database_path");
    reveal_strlit("ignore_directories");
    reveal_strlit("ignore_items");
    assert("retain"@ != "database_path"@ && "retain"@ != "ignore_directories"@ && "retain"@ != "ignore_items"@) by {
        assert("retain"@[0] != "database_path"@[0]);
        assert("retain"@.len() != "ignore_directories"@.len());
        assert("retain"@.len() != "ignore_items"@.len());
    }
    let v = bool_text(b);
    assert(!v.contains('=')) by {
        if v.contains('=') {
            let k = choose|k: int| 0 <= k < v.len() && v[k] == '=';
        }
    }
    lemma_line_parts("retain"@, v);
}

/// A line `zstd_level = l`, with the decimal text of any `i32`, sets the level, where
/// no list is open.
pub proof fn lemma_zstd_level_line(m: ParseModel, l: i32)
    requires
        !m.read_dir,
    ensures
        line_step(m, setting_line("zstd_level"@, signed_decimal(l))) == (ParseModel { zstd_level: l, ..m }),
{
    reveal_strlit("zstd_level");
    reveal_strlit("retain");
    reveal_strlit("database_path");
    reveal_strlit("ignore_directories");
    reveal_strlit("ignore_items");
    assert("zstd_level"@ != "database_path"@ && "zstd_level"@ != "ignore_directories"@ && "zstd_level"@ != "retain"@
        && "zstd_level"@ != "ignore_items"@) by {
        assert("zstd_level"@[0] != "database_path"@[0]);
        assert("zstd_level"@[0] != "ignore_directories"@[0]);
        assert("zstd_level"@[0] != "ignore_items"@[0]);
        assert("zstd_level"@[0] != "retain"@[0]);
    }
    let v = signed_decimal(l);
    let n: nat = if l < 0 { (-(l as int)) as nat } else { l as nat };
    lemma_decimal_plain(n);
    lemma_decimal_digits(n);
    assert(!v.contains('=')) by {
        if v.contains('=') {
            let k = choose|k: int| 0 <= k < v.len() && v[k] == '=';
            if l < 0 {
                if k > 0 {
                    assert(decimal(n)[k - 1] == '=');
                }
            } else {
                assert(decimal(n)[k] == '=');
            }
        }
    }
    if l < 0 {
        assert(v.last() == decimal(n).last());
    }
    lemma_line_parts("zstd_level"@, v);
    lemma_parse_signed_decimal(l);
}

/// A character that an ignored item may hold for the file to read it back as it is:
/// none of `,` `"` `[` `]` `=` `\`, and no control character.
pub open spec fn plain_item_char(c: char) -> bool {
    &&& c != ',' && c != '"' && c != '[' && c != ']' && c != '=' && c != '\\'
    &&& ' ' <= c && c != '\u{7f}'
}

/// An ignored item that the file writes as a plain quoted string and reads back as
/// it is: not empty, of plain characters, and without white space at either end.
pub open spec fn plain_item(x: Seq<char>) -> bool {
    &&& x.len() > 0
    &&& forall|i: int| 0 <= i < x.len() ==> plain_item_char(#[trigger] x[i])
    &&& !is_white_space(x[0])
    &&& !is_white_space(x.last())
}

/// The line of one item of a list written over several lines: indented, quoted, and
/// followed by a comma.
pub open spec fn item_line(x: Seq<char>) -> Seq<char> {
    seq![' ', ' ', ' ', ' '] + quoted(x) + seq![',']
}

/// The lines that set the ignored items, as the file writes a list: on one line where
/// it has at most one item, and otherwise one item a line between a line that opens
/// the list and a line that closes it.
pub open spec fn items_lines(items: Seq<Seq<char>>) -> Seq<Seq<char>> {
    if items.len() == 0 {
        seq![setting_line("ignore_items"@, seq!['[', ']'])]
    } else if items.len() == 1 {
        seq![setting_line("ignore_items"@, seq!['['] + quoted(items[0]) + seq![']'])]
    } else {
        seq![setting_line("ignore_items"@, seq!['['])] + items.map_values(|x: Seq<char>| item_line(x)) + seq![seq![']']]
    }
}

/// The lines of the configuration file, in the order of its fields: the database
/// path, the ignored items, `retain` and the level.
pub open spec fn settings_lines(p: Seq<char>, items: Seq<Seq<char>>, b: bool, l: i32) -> Seq<Seq<char>> {
    seq![setting_line("database_path"@, quoted(p))] + items_lines(items) + seq![
        setting_line("retain"@, bool_text(b)),
        setting_line("zstd_level"@, signed_decimal(l)),
    ]
}

/// The pieces that the item lines of a list leave: each item, then an empty piece for
/// the text after its comma.
pub open spec fn item_pieces(items: Seq<Seq<char>>) -> Seq<Seq<char>>
    decreases items.len(),
{
    if items.len() == 0 {
        Seq::empty()
    } else {
        item_pieces(items.drop_last()) + seq![items.last(), Seq::<char>::empty()]
    }
}

/// Reading lines one after the other: the lines of `a + b` leave what the lines of
/// `b` leave from where those of `a` leave off.
proof fn lemma_parsed_append(m: ParseModel, a: Seq<Seq<char>>, b: Seq<Seq<char>>)
    ensures
        parsed(m, a + b) == parsed(parsed(m, a), b),
    decreases b.len(),
{
    if b.len() == 0 {
        assert(a + b =~= a);
    } else {
        assert((a + b).drop_last() =~= a + b.drop_last());
        assert((a + b).last() == b.last());
        lemma_parsed_append(m, a, b.drop_last());
    }
}

/// The non-empty items of two lists one after the other.
proof fn lemma_nonempty_append(a: Seq<Seq<char>>, b: Seq<Seq<char>>)
    ensures
        nonempty_items(a + b) == nonempty_items(a) + nonempty_items(b),
    decreases b.len(),
{
    if b.len() == 0 {
        assert(a + b =~= a);
        assert(nonempty_items(a) + nonempty_items(b) =~= nonempty_items(a));
    } else {
        assert((a + b).drop_last() =~= a + b.drop_last());
        lemma_nonempty_append(a, b.drop_last());
        if b.last().len() > 0 {
            assert(nonempty_items(a) + nonempty_items(b.drop_last()).push(b.last())
                =~= (nonempty_items(a) + nonempty_items(b.drop_last())).push(b.last()));
        }
    }
}

/// The non-empty pieces of item lines are the items.
proof fn lemma_nonempty_pieces(items: Seq<Seq<char>>)
    requires
        forall|i: int| 0 <= i < items.len() ==> (#[trigger] items[i]).len() > 0,
    ensures
        nonempty_items(item_pieces(items)) == items,
    decreases items.len(),
{
    if items.len() > 0 {
        let init = items.drop_last();
        assert forall|i: int| 0 <= i < init.len() implies (#[trigger] init[i]).len() > 0 by {
            assert(init[i] == items[i]);
        }
        lemma_nonempty_pieces(init);
        let tail = seq![items.last(), Seq::<char>::empty()];
        lemma_nonempty_append(item_pieces(init), tail);
        assert(tail.drop_last() =~= seq![items.last()]);
        assert(seq![items.last()].drop_last() =~= Seq::<Seq<char>>::empty());
        assert(nonempty_items(Seq::<Seq<char>>::empty()) =~= Seq::<Seq<char>>::empty());
        assert(nonempty_items(seq![items.last()]) =~= seq![items.last()]);
        assert(nonempty_items(tail) =~= seq![items.last()]);
        assert(init.push(items.last()) =~= items);
    }
}

/// A text in which a pattern occurs holds each character of the pattern.
proof fn lemma_occurs_holds(s: Seq<char>, pattern: Seq<char>, j: int)
    requires
        occurs(s, pattern),
        0 <= j < pattern.len(),
    ensures
        s.contains(pattern[j]),
{
    let i = choose|i: int| occurs_at(s, pattern, i);
    assert(s.subrange(i, i + pattern.len())[j] == s[i + j]);
}

/// A quoted plain item, with brackets or spaces around it, is the item once those
/// and the quotes are trimmed away.
proof fn lemma_quoted_item_trims(x: Seq<char>)
    requires
        plain_item(x),
    ensures
        trimmed(seq!['['] + quoted(x) + seq![']'], TrimSet::ListDelimiters) == x,
        trimmed(trimmed(seq![' ', ' ', ' ', ' '] + quoted(x), TrimSet::Whitespace), TrimSet::DoubleQuote) == x,
        item_text(x) == x,
        !x.contains(','),
{
    assert(plain_item_char(x[0]));
    assert(plain_item_char(x.last())) by {
        assert(x.last() == x[x.len() - 1]);
    }
    assert(!x.contains(',')) by {
        if x.contains(',') {
            let k = choose|k: int| 0 <= k < x.len() && x[k] == ',';
            assert(plain_item_char(x[k]));
        }
    }
    // Within brackets.
    let inner = x.push('"').push(']');
    assert(seq!['['] + quoted(x) + seq![']'] =~= seq!['['] + (seq!['"'] + inner));
    lemma_trim_start_skips('[', seq!['"'] + inner, TrimSet::ListDelimiters);
    lemma_trim_start_skips('"', inner, TrimSet::ListDelimiters);
    assert(inner[0] == x[0]);
    assert(trim_start(inner, TrimSet::ListDelimiters) == inner);
    lemma_trim_end_skips(x.push('"'), ']', TrimSet::ListDelimiters);
    lemma_trim_end_skips(x, '"', TrimSet::ListDelimiters);
    assert(trim_end(x, TrimSet::ListDelimiters) == x);
    // Indented.
    let q = quoted(x);
    let ind = seq![' ', ' ', ' ', ' '] + q;
    assert(ind =~= seq![' '] + (seq![' '] + (seq![' '] + (seq![' '] + q))));
    lemma_trim_start_skips(' ', seq![' '] + (seq![' '] + (seq![' '] + q)), TrimSet::Whitespace);
    lemma_trim_start_skips(' ', seq![' '] + (seq![' '] + q), TrimSet::Whitespace);
    lemma_trim_start_skips(' ', seq![' '] + q, TrimSet::Whitespace);
    lemma_trim_start_skips(' ', q, TrimSet::Whitespace);
    assert(q[0] == '"' && q.last() == '"');
    assert(trim_start(q, TrimSet::Whitespace) == q);
    assert(trim_end(q, TrimSet::Whitespace) == q);
    assert(q =~= seq!['"'] + x.push('"'));
    lemma_trim_start_skips('"', x.push('"'), TrimSet::DoubleQuote);
    assert(x.push('"')[0] == x[0]);
    assert(trim_start(x.push('"'), TrimSet::DoubleQuote) == x.push('"'));
    lemma_trim_end_skips(x, '"', TrimSet::DoubleQuote);
    assert(trim_end(x, TrimSet::DoubleQuote) == x);
    lemma_trimmed_unchanged(x, TrimSet::Whitespace);
    lemma_trimmed_unchanged(x, TrimSet::DoubleQuote);
}

/// A line `ignore_items = v`, where no list is open, for a value `v` that stands as
/// the value of a line.
proof fn lemma_items_line(m: ParseModel, v: Seq<char>)
    requires
        !m.read_dir,
        plain_word(v),
    ensures
        line_step(m, setting_line("ignore_items"@, v)) == value_step(m, "ignore_items"@, v),
{
    reveal_strlit("ignore_items");
    lemma_line_parts("ignore_items"@, v);
}

/// A quoted plain item between brackets stands as the value of a line.
proof fn lemma_quoted_item_word(x: Seq<char>)
    requires
        plain_item(x),
    ensures
        plain_word(seq!['['] + quoted(x) + seq![']']),
{
    let v = seq!['['] + quoted(x) + seq![']'];
    assert(!v.contains('=')) by {
        if v.contains('=') {
            let k = choose|k: int| 0 <= k < v.len() && v[k] == '=';
            assert(plain_item_char(x[k - 2]));
        }
    }
}

/// The line of an item, while a list is open, adds the item and an empty piece.
proof fn lemma_item_line_step(m: ParseModel, x: Seq<char>)
    requires
        m.read_dir,
        plain_item(x),
    ensures
        line_step(m, item_line(x)) == (ParseModel { ignore_dir: m.ignore_dir + seq![x, Seq::<char>::empty()], ..m }),
{
    let line = item_line(x);
    let q = seq![' ', ' ', ' ', ' '] + quoted(x);
    assert(line =~= q + seq![','] + Seq::<char>::empty());
    assert forall|k: int| 0 <= k < line.len() implies line[k] != ']' && line[k] != '=' by {
        if 5 <= k < 5 + x.len() {
            assert(line[k] == x[k - 5]);
            assert(plain_item_char(x[k - 5]));
        }
    }
    if occurs(line, seq![']']) {
        lemma_occurs_holds(line, seq![']'], 0);
    }
    if occurs(line, seq![' ', '=', ' ']) {
        lemma_occurs_holds(line, seq![' ', '=', ' '], 1);
    }
    assert(!q.contains(',')) by {
        if q.contains(',') {
            let k = choose|k: int| 0 <= k < q.len() && q[k] == ',';
            assert(line[k] == ',');
            if 5 <= k < 5 + x.len() {
                assert(plain_item_char(x[k - 5]));
            }
        }
    }
    lemma_split_append(q, Seq::<char>::empty(), ',');
    lemma_split_without(q, ',');
    assert(split_on(line, ',') =~= seq![q, Seq::<char>::empty()]);
    lemma_quoted_item_trims(x);
    assert(item_text(q) == x);
    assert(item_text(Seq::<char>::empty()) =~= Seq::<char>::empty());
    assert(items_of(line) =~= seq![x, Seq::<char>::empty()]);
}

/// The item lines of a list, while it is open, add each item and an empty piece.
proof fn lemma_item_lines(m: ParseModel, items: Seq<Seq<char>>)
    requires
        m.read_dir,
        forall|i: int| 0 <= i < items.len() ==> plain_item(#[trigger] items[i]),
    ensures
        parsed(m, items.map_values(|x: Seq<char>| item_line(x))) == (ParseModel { ignore_dir: m.ignore_dir + item_pieces(items), ..m }),
    decreases items.len(),
{
    let lines = items.map_values(|x: Seq<char>| item_line(x));
    if items.len() == 0 {
        assert(lines =~= Seq::<Seq<char>>::empty());
        assert(m.ignore_dir + item_pieces(items) =~= m.ignore_dir);
    } else {
        let init = items.drop_last();
        assert forall|i: int| 0 <= i < init.len() implies plain_item(#[trigger] init[i]) by {
            assert(init[i] == items[i]);
        }
        lemma_item_lines(m, init);
        assert(lines.drop_last() =~= init.map_values(|x: Seq<char>| item_line(x)));
        assert(lines.last() == item_line(items.last()));
        let m1 = ParseModel { ignore_dir: m.ignore_dir + item_pieces(init), ..m };
        assert(plain_item(items[items.len() - 1]));
        lemma_item_line_step(m1, items.last());
        assert(m1.ignore_dir + seq![items.last(), Seq::<char>::empty()] =~= m.ignore_dir + item_pieces(items));
    }
}

/// The lines that set the ignored items, read where no list is open, leave the list
/// closed and pieces whose non-empty ones are the items.
proof fn lemma_items_lines(m: ParseModel, items: Seq<Seq<char>>)
    requires
        !m.read_dir,
        forall|i: int| 0 <= i < items.len() ==> plain_item(#[trigger] items[i]),
    ensures
        parsed(m, items_lines(items)) == (ParseModel { ignore_dir: parsed(m, items_lines(items)).ignore_dir, ..m }),
        parsed(m, items_lines(items)).ignore_dir.len() > 0,
        nonempty_items(parsed(m, items_lines(items)).ignore_dir) == items,
{
    reveal_strlit("ignore_items");
    reveal_strlit("database_path");
    assert("ignore_items"@ != "database_path"@) by {
        assert("ignore_items"@[0] != "database_path"@[0]);
    }
    let lines = items_lines(items);
    if items.len() == 0 {
        let v = seq!['[', ']'];
        lemma_items_line(m, v);
        assert(lines.drop_last() =~= Seq::<Seq<char>>::empty());
        assert(trim_start(v, TrimSet::ListDelimiters) =~= Seq::<char>::empty()) by {
            assert(v =~= seq!['['] + seq![']']);
            lemma_trim_start_skips('[', seq![']'], TrimSet::ListDelimiters);
            lemma_trim_start_skips(']', Seq::<char>::empty(), TrimSet::ListDelimiters);
            assert(seq![']'] =~= seq![']'] + Seq::<char>::empty());
        }
        assert(split_on(Seq::<char>::empty(), ',') == seq![Seq::<char>::empty()]);
        assert(item_text(Seq::<char>::empty()) =~= Seq::<char>::empty());
        assert(list_items(v) =~= seq![Seq::<char>::empty()]);
        assert(seq![Seq::<char>::empty()].drop_last() =~= Seq::<Seq<char>>::empty());
        assert(nonempty_items(Seq::<Seq<char>>::empty()) =~= Seq::<Seq<char>>::empty());
        assert(nonempty_items(seq![Seq::<char>::empty()]) =~= items);
        assert(parsed(m, Seq::<Seq<char>>::empty()) == m);
    } else if items.len() == 1 {
        let x = items[0];
        let v = seq!['['] + quoted(x) + seq![']'];
        lemma_quoted_item_word(x);
        lemma_items_line(m, v);
        assert(lines.drop_last() =~= Seq::<Seq<char>>::empty());
        lemma_quoted_item_trims(x);
        assert(v[0] == '[' && v.last() == ']');
        lemma_split_without(x, ',');
        assert(list_items(v) =~= seq![x]);
        assert(seq![x].drop_last() =~= Seq::<Seq<char>>::empty());
        assert(nonempty_items(Seq::<Seq<char>>::empty()) =~= Seq::<Seq<char>>::empty());
        assert(nonempty_items(seq![x]) =~= items);
        assert(parsed(m, Seq::<Seq<char>>::empty()) == m);
    } else {
        let open = seq![setting_line("ignore_items"@, seq!['['])];
        let body = items.map_values(|x: Seq<char>| item_line(x));
        let close = seq![seq![']']];
        assert(lines == open + body + close);
        // The line that opens the list.
        let v = seq!['['];
        lemma_items_line(m, v);
        assert(trim_start(v, TrimSet::ListDelimiters) =~= Seq::<char>::empty()) by {
            assert(v =~= seq!['['] + Seq::<char>::empty());
            lemma_trim_start_skips('[', Seq::<char>::empty(), TrimSet::ListDelimiters);
        }
        assert(item_text(Seq::<char>::empty()) =~= Seq::<char>::empty());
        assert(list_items(v) =~= seq![Seq::<char>::empty()]);
        assert(open.drop_last() =~= Seq::<Seq<char>>::empty());
        assert(parsed(m, Seq::<Seq<char>>::empty()) == m);
        let m1 = ParseModel { ignore_dir: seq![Seq::<char>::empty()], read_dir: true, ..m };
        assert(parsed(m, open) == m1);
        // The item lines.
        lemma_item_lines(m1, items);
        let m2 = ParseModel { ignore_dir: seq![Seq::<char>::empty()] + item_pieces(items), ..m1 };
        lemma_parsed_append(m, open, body);
        assert(parsed(m, open + body) == m2);
        // The line that closes it.
        let c = seq![']'];
        assert(occurs_at(c, seq![']'], 0)) by {
            assert(c.subrange(0, 1) =~= seq![']']);
        }
        if occurs(c, seq![' ', '=', ' ']) {
            lemma_occurs_holds(c, seq![' ', '=', ' '], 1);
        }
        assert(trim_start(c, TrimSet::ListDelimiters) =~= Seq::<char>::empty()) by {
            assert(c =~= seq![']'] + Seq::<char>::empty());
            lemma_trim_start_skips(']', Seq::<char>::empty(), TrimSet::ListDelimiters);
        }
        assert(list_items(c) =~= seq![Seq::<char>::empty()]);
        assert(close.drop_last() =~= Seq::<Seq<char>>::empty());
        assert(parsed(m2, Seq::<Seq<char>>::empty()) == m2);
        assert(occurs(c, seq![']']));
        let ghost pieces = seq![Seq::<char>::empty()] + item_pieces(items) + seq![Seq::<char>::empty()];
        assert(parsed(m2, close) == (ParseModel { ignore_dir: pieces, read_dir: false, ..m2 }));
        lemma_parsed_append(m, open + body, close);
        // The pieces.
        assert forall|i: int| 0 <= i < items.len() implies (#[trigger] items[i]).len() > 0 by {
            assert(plain_item(items[i]));
        }
        lemma_nonempty_pieces(items);
        lemma_nonempty_append(seq![Seq::<char>::empty()], item_pieces(items));
        lemma_nonempty_append(seq![Seq::<char>::empty()] + item_pieces(items), seq![Seq::<char>::empty()]);
        assert(seq![Seq::<char>::empty()].drop_last() =~= Seq::<Seq<char>>::empty());
        assert(nonempty_items(Seq::<Seq<char>>::empty()) =~= Seq::<Seq<char>>::empty());
        assert(nonempty_items(seq![Seq::<char>::empty()]) =~= Seq::<Seq<char>>::empty());
        assert(nonempty_items(pieces) =~= items);
    }
}

/// The file reads back what was written to it: the lines that the configuration
/// file is written with, read from any configuration, give its database path, its
/// ignored items (among pieces of which the parser keeps the non-empty ones), its
/// `retain` and its level, with no list left open, for a path that reads back
/// unchanged from between quotes and items that the file writes as plain strings.
pub proof fn lemma_settings_read_back(config: Config, p: Seq<char>, items: Seq<Seq<char>>, b: bool, l: i32)
    requires
        plain_path(p),
        forall|i: int| 0 <= i < items.len() ==> plain_item(#[trigger] items[i]),
    ensures
        parsed(initial_model(config), settings_lines(p, items, b, l)).database_path == p,
        parsed(initial_model(config), settings_lines(p, items, b, l)).retain == b,
        parsed(initial_model(config), settings_lines(p, items, b, l)).zstd_level == l,
        !parsed(initial_model(config), settings_lines(p, items, b, l)).read_dir,
        parsed(initial_model(config), settings_lines(p, items, b, l)).ignore_dir.len() > 0,
        nonempty_items(parsed(initial_model(config), settings_lines(p, items, b, l)).ignore_dir) == items,
{
    let m0 = initial_model(config);
    let first = seq![setting_line("database_path"@, quoted(p))];
    let middle = items_lines(items);
    let last = seq![setting_line("retain"@, bool_text(b)), setting_line("zstd_level"@, signed_decimal(l))];
    assert(settings_lines(p, items, b, l) == first + middle + last);
    lemma_database_path_line(m0, p);
    assert(first.drop_last() =~= Seq::<Seq<char>>::empty());
    assert(parsed(m0, Seq::<Seq<char>>::empty()) == m0);
    let m1 = ParseModel { database_path: p, ..m0 };
    assert(parsed(m0, first) == m1);
    lemma_items_lines(m1, items);
    lemma_parsed_append(m0, first, middle);
    let m2 = parsed(m1, middle);
    lemma_retain_line(m2, b);
    let m3 = ParseModel { retain: b, ..m2 };
    lemma_zstd_level_line(m3, l);
    assert(last.drop_last() =~= seq![setting_line("retain"@, bool_text(b))]);
    assert(last.drop_last().drop_last() =~= Seq::<Seq<char>>::empty());
    assert(parsed(m2, Seq::<Seq<char>>::empty()) == m2);
    assert(parsed(m2, last.drop_last()) == m3);
    assert(parsed(m2, last) == (ParseModel { zstd_level: l, ..m3 }));
    lemma_parsed_append(m0, first + middle, last);
}

// ------------------------------------------------------------------------------------------------
// The file as the TOML writer saves it, and its lines as they are read back.

/// The text of lines, each ended by a line feed.
pub open spec fn joined_lines(lines: Seq<Seq<char>>) -> Seq<char>
    decreases lines.len(),
{
    if lines.len() == 0 {
        Seq::empty()
    } else {
        joined_lines(lines.drop_last()) + lines.last() + seq!['\n']
    }
}

/// A text that TOML writes between double quotes as it is: no `"`, no `\`, and no
/// control character (tab included).
pub open spec fn toml_plain(s: Seq<char>) -> bool {
    forall|i: int| 0 <= i < s.len() ==> {
        let c = #[trigger] s[i];
        c != '"' && c != '\\' && ' ' <= c && c != '\u{7f}'
    }
}

/// The text of the configuration file for these settings, where its strings are
/// written as they are.
pub open spec fn settings_text(p: Seq<char>, items: Seq<Seq<char>>, b: bool, l: i32) -> Seq<char> {
    joined_lines(settings_lines(p, items, b, l))
}

/// The text that `toml::to_string_pretty` makes of a table with the keys
/// `database_path`, `ignore_items`, `retain` and `zstd_level` set to these values.
pub uninterp spec fn toml_settings_text(database_path: Seq<char>, ignore_items: Seq<Seq<char>>, retain: bool, zstd_level: i32) -> Seq<char>;

/// Calls `toml::to_string_pretty` (`toml` crate) on a table of the four settings, the
/// error dropped. Claimed: the text is named by `toml_settings_text`; and, as the
/// crate's pretty writer (`toml` `fmt.rs`, `toml_write` `string.rs`) shows, where the
/// strings hold no `"`, `\` or control character, each setting is a `key = value`
/// line, the strings between double quotes as they are, a list of at most one item on
/// its line and a longer one an item a line, as `settings_lines` says. What it writes
/// of other strings (escaped or in single quotes) is left to the name.
#[verifier::external_body]
fn toml_settings(database_path: &str, ignore_items: &Vec<String>, retain: bool, zstd_level: i32) -> (text: Option<String>)
    ensures
        text matches Some(t) ==> t@ == toml_settings_text(database_path@, texts(ignore_items@), retain, zstd_level),
        text matches Some(t) ==> (toml_plain(database_path@) && (forall|i: int|
            0 <= i < ignore_items@.len() ==> toml_plain(#[trigger] ignore_items@[i]@))
            ==> t@ == settings_text(database_path@, texts(ignore_items@), retain, zstd_level)),
{
    let mut table = toml::Table::new();
    table.insert("database_path".to_string(), toml::Value::String(database_path.to_string()));
    let items: Vec<toml::Value> = ignore_items.iter().map(|item| toml::Value::String(item.clone())).collect();
    table.insert("ignore_items".to_string(), toml::Value::Array(items));
    table.insert("retain".to_string(), toml::Value::Boolean(retain));
    table.insert("zstd_level".to_string(), toml::Value::Integer(i64::from(zstd_level)));
    toml::to_string_pretty(&table).ok()
}

/// The text of the configuration file for `config`, as the TOML writer saves it;
/// `None` where the writer fails.
pub fn settings_file_text(config: &Config) -> (text: Option<String>)
    ensures
        text matches Some(t) ==> t@ == toml_settings_text(
            config.database_path@,
            texts(config.ignore_items@),
            config.retain,
            config.zstd_level,
        ),
        text matches Some(t) ==> (toml_plain(config.database_path@) && (forall|i: int|
            0 <= i < config.ignore_items@.len() ==> toml_plain(#[trigger] config.ignore_items@[i]@))
            ==> t@ == settings_text(config.database_path@, texts(config.ignore_items@), config.retain, config.zstd_level)),
{
    toml_settings(config.database_path.as_str(), &config.ignore_items, config.retain, config.zstd_level)
}

/// A line without the carriage return that may end it.
pub open spec fn line_body(piece: Seq<char>) -> Seq<char> {
    if piece.len() > 0 && piece.last() == '\r' {
        piece.drop_last()
    } else {
        piece
    }
}

/// The lines of a text, as `str::lines` gives them: the pieces between line feeds,
/// each that a line feed ends without a carriage return before it, and the last piece
/// as it is, left out where it is empty.
pub open spec fn text_lines(s: Seq<char>) -> Seq<Seq<char>> {
    let pieces = split_on(s, '\n');
    let ended = pieces.drop_last().map_values(|p: Seq<char>| line_body(p));
    if pieces.last().len() == 0 {
        ended
    } else {
        ended.push(pieces.last())
    }
}

/// A text splits into at least one piece.
proof fn lemma_split_has_pieces(s: Seq<char>, sep: char)
    ensures
        split_on(s, sep).len() >= 1,
    decreases s.len(),
{
    if s.len() > 0 {
        lemma_split_has_pieces(s.drop_last(), sep);
    }
}

/// The lines of a text.
pub fn lines_of_text(text: &str) -> (lines: Vec<String>)
    ensures
        texts(lines@) == text_lines(text@),
{
    let chars = chars_of(text);
    let n = chars.len();
    let mut lines: Vec<String> = Vec::new();
    let mut start: usize = 0;
    let mut i: usize = 0;
    assert(text@.take(0) =~= Seq::<char>::empty());
    assert(split_on(Seq::<char>::empty(), '\n').drop_last() =~= Seq::<Seq<char>>::empty());
    while i < n
        invariant
            chars@ == text@,
            n == chars@.len(),
            start <= i <= n,
            texts(lines@) == split_on(text@.take(i as int), '\n').drop_last().map_values(|p: Seq<char>| line_body(p)),
            split_on(text@.take(i as int), '\n').len() >= 1,
            split_on(text@.take(i as int), '\n').last() == text@.subrange(start as int, i as int),
        decreases n - i,
    {
        let ghost before = text@.take(i as int);
        let ghost pieces = split_on(before, '\n');
        proof {
            lemma_split_has_pieces(before.push(chars@[i as int]), '\n');
        }
        let c = chars[i];
        assert(text@.take(i + 1) =~= before.push(c));
        assert(before.push(c).drop_last() =~= before);
        if c == '\n' {
            let end = if i > start && chars[i - 1] == '\r' {
                i - 1
            } else {
                i
            };
            let line = text.substring_char(start, end).to_owned();
            assert(line@ == line_body(text@.subrange(start as int, i as int))) by {
                let piece = text@.subrange(start as int, i as int);
                if i > start && chars@[i - 1] == '\r' {
                    assert(piece.last() == text@[i - 1]);
                    assert(piece.drop_last() =~= text@.subrange(start as int, i - 1));
                } else {
                    if piece.len() > 0 {
                        assert(piece.last() == text@[i - 1]);
                    }
                }
            }
            let ghost old_lines = texts(lines@);
            lines.push(line);
            assert(texts(lines@) =~= old_lines.push(line@));
            assert(split_on(before.push(c), '\n') == pieces.push(Seq::<char>::empty()));
            assert(pieces.push(Seq::<char>::empty()).drop_last() =~= pieces);
            assert(pieces.map_values(|p: Seq<char>| line_body(p)) =~= pieces.drop_last().map_values(
                |p: Seq<char>| line_body(p),
            ).push(line_body(pieces.last())));
            start = i + 1;
            i += 1;
            assert(text@.subrange(start as int, i as int) =~= Seq::<char>::empty());
        } else {
            let ghost next = pieces.update(pieces.len() - 1, pieces.last().push(c));
            assert(split_on(before.push(c), '\n') == next);
            assert(next.drop_last() =~= pieces.drop_last());
            assert(next.last() =~= text@.subrange(start as int, i + 1));
            i += 1;
        }
    }
    assert(text@.take(n as int) =~= text@);
    let ghost pieces = split_on(text@, '\n');
    proof {
        lemma_split_has_pieces(text@, '\n');
    }
    if start < n {
        let ghost old_lines = texts(lines@);
        let last = text.substring_char(start, n).to_owned();
        lines.push(last);
        assert(texts(lines@) =~= old_lines.push(last@));
    } else {
        assert(pieces.last().len() == 0);
    }
    lines
}

/// Reads the text of a configuration file into `config`, line by line, as
/// `parse_lines` reads its lines.
pub fn load_settings(config: &mut Config, text: &str)
    ensures
        final(config).database_path@ == parsed(initial_model(*old(config)), text_lines(text@)).database_path,
        final(config).retain == parsed(initial_model(*old(config)), text_lines(text@)).retain,
        final(config).zstd_level == parsed(initial_model(*old(config)), text_lines(text@)).zstd_level,
        parsed(initial_model(*old(config)), text_lines(text@)).ignore_dir.len() > 0 ==> texts(final(config).ignore_items@)
            == nonempty_items(parsed(initial_model(*old(config)), text_lines(text@)).ignore_dir),
        parsed(initial_model(*old(config)), text_lines(text@)).ignore_dir.len() == 0 ==> final(config).ignore_items
            == old(config).ignore_items,
{
    let lines = lines_of_text(text);
    parse_lines(config, &lines);
}

/// Whether a text holds neither a line feed nor a carriage return.
pub open spec fn no_breaks(s: Seq<char>) -> bool {
    forall|i: int| 0 <= i < s.len() ==> #[trigger] s[i] != '\n' && s[i] != '\r'
}

/// Texts without line breaks, one after the other, have none.
proof fn lemma_no_breaks_concat(a: Seq<char>, b: Seq<char>)
    requires
        no_breaks(a),
        no_breaks(b),
    ensures
        no_breaks(a + b),
{
    assert forall|i: int| 0 <= i < (a + b).len() implies #[trigger] (a + b)[i] != '\n' && (a + b)[i] != '\r' by {
        if i < a.len() {
            assert((a + b)[i] == a[i]);
        } else {
            assert((a + b)[i] == b[i - a.len()]);
        }
    }
}

/// The pieces of lines joined with line feeds are the lines, and an empty piece
/// after the last line feed.
proof fn lemma_split_joined(ls: Seq<Seq<char>>)
    requires
        forall|i: int| 0 <= i < ls.len() ==> no_breaks(#[trigger] ls[i]),
    ensures
        split_on(joined_lines(ls), '\n') == ls.push(Seq::<char>::empty()),
    decreases ls.len(),
{
    if ls.len() == 0 {
        assert(ls.push(Seq::<char>::empty()) =~= seq![Seq::<char>::empty()]);
    } else {
        let init = ls.drop_last();
        let last = ls.last();
        assert forall|i: int| 0 <= i < init.len() implies no_breaks(#[trigger] init[i]) by {
            assert(init[i] == ls[i]);
        }
        assert(no_breaks(last)) by {
            assert(ls[ls.len() - 1] == last);
        }
        assert(!last.contains('\n')) by {
            if last.contains('\n') {
                let k = choose|k: int| 0 <= k < last.len() && last[k] == '\n';
            }
        }
        lemma_split_joined(init);
        let j = joined_lines(init);
        assert(joined_lines(ls) =~= (j + last) + seq!['\n'] + Seq::<char>::empty());
        lemma_split_append(j + last, Seq::<char>::empty(), '\n');
        if init.len() == 0 {
            assert(j + last =~= last);
            lemma_split_without(last, '\n');
            assert(ls =~= seq![last]);
        } else {
            let j0 = j.drop_last();
            assert(j =~= j0 + seq!['\n'] + Seq::<char>::empty());
            lemma_split_append(j0, Seq::<char>::empty(), '\n');
            assert(split_on(j0, '\n').push(Seq::<char>::empty()) == init.push(Seq::<char>::empty()));
            assert(split_on(j0, '\n') =~= init) by {
                assert(split_on(j0, '\n') =~= split_on(j0, '\n').push(Seq::<char>::empty()).drop_last());
                assert(init =~= init.push(Seq::<char>::empty()).drop_last());
            }
            assert(j + last =~= j0 + seq!['\n'] + last);
            lemma_split_append(j0, last, '\n');
            assert(init.push(last) =~= ls);
        }
    }
}

/// The lines of lines joined with line feeds are those lines, where none holds a line
/// break.
proof fn lemma_text_lines_joined(ls: Seq<Seq<char>>)
    requires
        forall|i: int| 0 <= i < ls.len() ==> no_breaks(#[trigger] ls[i]),
    ensures
        text_lines(joined_lines(ls)) == ls,
{
    lemma_split_joined(ls);
    let pieces = ls.push(Seq::<char>::empty());
    assert(pieces.drop_last() =~= ls);
    assert forall|i: int| 0 <= i < ls.len() implies line_body(#[trigger] ls[i]) == ls[i] by {
        assert(no_breaks(ls[i]));
        if ls[i].len() > 0 {
            assert(ls[i].last() == ls[i][ls[i].len() - 1]);
        }
    }
    assert(ls.map_values(|p: Seq<char>| line_body(p)) =~= ls);
}

/// The lines of the configuration file hold no line breaks, where its strings are
/// written as they are.
proof fn lemma_settings_lines_unbroken(p: Seq<char>, items: Seq<Seq<char>>, b: bool, l: i32)
    requires
        toml_plain(p),
        forall|i: int| 0 <= i < items.len() ==> toml_plain(#[trigger] items[i]),
    ensures
        forall|i: int| 0 <= i < settings_lines(p, items, b, l).len() ==> no_breaks(#[trigger] settings_lines(p, items, b, l)[i]),
{
    reveal_strlit("database_path");
    reveal_strlit("ignore_items");
    reveal_strlit("retain");
    reveal_strlit("zstd_level");
    let sep = seq![' ', '=', ' '];
    assert(no_breaks(sep));
    assert(no_breaks("database_path"@));
    assert(no_breaks("ignore_items"@));
    assert(no_breaks("retain"@));
    assert(no_breaks("zstd_level"@));
    assert forall|x: Seq<char>| toml_plain(x) implies #[trigger] no_breaks(quoted(x)) by {
        assert forall|i: int| 0 <= i < quoted(x).len() implies #[trigger] quoted(x)[i] != '\n' && quoted(x)[i] != '\r' by {
            if 0 < i < quoted(x).len() - 1 {
                assert(quoted(x)[i] == x[i - 1]);
            }
        }
    }
    // The database path line.
    lemma_no_breaks_concat("database_path"@, sep);
    lemma_no_breaks_concat("database_path"@ + sep, quoted(p));
    // The lines of the items.
    lemma_no_breaks_concat("ignore_items"@, sep);
    let key = "ignore_items"@ + sep;
    assert(no_breaks(seq!['[', ']']));
    assert(no_breaks(seq!['[']));
    assert(no_breaks(seq![']']));
    lemma_no_breaks_concat(key, seq!['[', ']']);
    lemma_no_breaks_concat(key, seq!['[']);
    if items.len() == 1 {
        assert(toml_plain(items[0]));
        lemma_no_breaks_concat(seq!['['], quoted(items[0]));
        lemma_no_breaks_concat(seq!['['] + quoted(items[0]), seq![']']);
        lemma_no_breaks_concat(key, seq!['['] + quoted(items[0]) + seq![']']);
    }
    assert forall|i: int| 0 <= i < items.len() implies no_breaks(#[trigger] item_line(items[i])) by {
        assert(toml_plain(items[i]));
        assert(no_breaks(seq![' ', ' ', ' ', ' ']));
        assert(no_breaks(seq![',']));
        lemma_no_breaks_concat(seq![' ', ' ', ' ', ' '], quoted(items[i]));
        lemma_no_breaks_concat(seq![' ', ' ', ' ', ' '] + quoted(items[i]), seq![',']);
    }
    // `retain` and the level.
    assert(no_breaks(bool_text(b)));
    lemma_no_breaks_concat("retain"@, sep);
    lemma_no_breaks_concat("retain"@ + sep, bool_text(b));
    let n: nat = if l < 0 { (-(l as int)) as nat } else { l as nat };
    lemma_decimal_digits(n);
    assert(no_breaks(decimal(n))) by {
        assert forall|i: int| 0 <= i < decimal(n).len() implies #[trigger] decimal(n)[i] != '\n' && decimal(n)[i] != '\r' by {
            assert(is_digit(decimal(n)[i]));
        }
    }
    assert(no_breaks(seq!['-']));
    lemma_no_breaks_concat(seq!['-'], decimal(n));
    assert(no_breaks(signed_decimal(l)));
    lemma_no_breaks_concat("zstd_level"@, sep);
    lemma_no_breaks_concat("zstd_level"@ + sep, signed_decimal(l));
    let lines = settings_lines(p, items, b, l);
    let middle = items_lines(items);
    assert forall|i: int| 0 <= i < middle.len() implies no_breaks(#[trigger] middle[i]) by {
        if items.len() >= 2 {
            let body = items.map_values(|x: Seq<char>| item_line(x));
            if 1 <= i < 1 + items.len() {
                assert(middle[i] == body[i - 1]);
                assert(body[i - 1] == item_line(items[i - 1]));
            }
        }
    }
    assert forall|i: int| 0 <= i < lines.len() implies no_breaks(#[trigger] lines[i]) by {
        if 1 <= i < 1 + middle.len() {
            assert(lines[i] == middle[i - 1]);
        }
    }
}

/// What the configuration file is saved with, it loads back: the lines of the text
/// of a configuration's settings, read from any configuration, give its database
/// path, its ignored items (the non-empty pieces read), its `retain` and its level,
/// with no list left open, for strings without `=`, quotes, backslashes or control
/// characters, a path without white space at its ends and items without `,`, brackets
/// or white space at their ends, and none empty.
pub proof fn lemma_saved_settings_load_back(config: Config, saved: Config)
    requires
        plain_path(saved.database_path@),
        toml_plain(saved.database_path@),
        forall|i: int| 0 <= i < saved.ignore_items@.len() ==> plain_item(#[trigger] saved.ignore_items@[i]@),
    ensures
        ({
            let m = parsed(
                initial_model(config),
                text_lines(settings_text(saved.database_path@, texts(saved.ignore_items@), saved.retain, saved.zstd_level)),
            );
            &&& m.database_path == saved.database_path@
            &&& m.retain == saved.retain
            &&& m.zstd_level == saved.zstd_level
            &&& !m.read_dir
            &&& m.ignore_dir.len() > 0
            &&& nonempty_items(m.ignore_dir) == texts(saved.ignore_items@)
        }),
{
    let items = texts(saved.ignore_items@);
    assert forall|i: int| 0 <= i < items.len() implies plain_item(#[trigger] items[i]) && toml_plain(items[i]) by {
        assert(items[i] == saved.ignore_items@[i]@);
        assert(plain_item(saved.ignore_items@[i]@));
        assert forall|k: int| 0 <= k < items[i].len() implies {
            let c = #[trigger] items[i][k];
            c != '"' && c != '\\' && ' ' <= c && c != '\u{7f}'
        } by {
            assert(plain_item_char(items[i][k]));
        }
    }
    lemma_settings_lines_unbroken(saved.database_path@, items, saved.retain, saved.zstd_level);
    lemma_text_lines_joined(settings_lines(saved.database_path@, items, saved.retain, saved.zstd_level));
    lemma_settings_read_back(config, saved.database_path@, items, saved.retain, saved.zstd_level);
}

} // verus!
