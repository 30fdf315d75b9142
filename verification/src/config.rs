//! The user configuration, and the tasks that change it. Reading and saving the
//! configuration file is left to the caller: each setter here only changes the value.

use vstd::prelude::*;


verus! {

/// Smallest Zstandard compression level accepted in the configuration.
pub const ZSTD_LEVEL_MIN: i32 = -7;

/// Largest Zstandard compression level accepted in the configuration.
pub const ZSTD_LEVEL_MAX: i32 = 22;

/// The configuration of the program.
pub struct Config {
    /// Location of the SQLite database.
    pub database_path: String,
    /// Location of the `.crypt` files.
    pub crypt_path: String,
    /// Whether hidden files (beginning with `.`) are ignored.
    pub ignore_hidden: bool,
    /// Items ignored by encryption and by the cloud services.
    pub ignore_items: Vec<String>,
    /// Name of the current computer.
    pub hwid: String,
    /// Zstandard compression level, from -7 (fastest) to 22 (smallest); 3 by default.
    pub zstd_level: i32,
}

/// Each item of the configuration.
#[derive(PartialEq, Eq, Structural, Clone, Copy)]
pub enum ConfigOptions {
    DatabasePath,
    CryptPath,
    IgnoreHidden,
    IgnoreItems,
    Hwid,
    ZstdLevel,
}

/// Ways to change the ignored items.
pub enum ItemsTask {
    Add,
    Remove,
    Default,
}

/// Tasks that change the configuration.
pub enum ConfigTask {
    DatabasePath,
    CryptPath,
    IgnoreHidden(bool),
    IgnoreItems(ItemsTask, String),
    Hwid,
    ZstdLevel(i32),
    LoadDefault,
}

/// The name of each configuration item, as in the configuration file.
pub open spec fn option_name(option: ConfigOptions) -> Seq<char> {
    match option {
        ConfigOptions::DatabasePath => "database_path"@,
        ConfigOptions::IgnoreHidden => "ignore_hidden"@,
        ConfigOptions::IgnoreItems => "ignore_items"@,
        ConfigOptions::Hwid => "hwid"@,
        ConfigOptions::ZstdLevel => "zstd_level"@,
        ConfigOptions::CryptPath => "crypt_path"@,
    }
}

impl ConfigOptions {
    /// The name of the item, as in the configuration file.
    pub fn to_string(&self) -> (name: String)
        ensures
            name@ == option_name(*self),
    {
        match self {
            ConfigOptions::DatabasePath => String::from_str("database_path"),
            ConfigOptions::IgnoreHidden => String::from_str("ignore_hidden"),
            ConfigOptions::IgnoreItems => String::from_str("ignore_items"),
            ConfigOptions::Hwid => String::from_str("hwid"),
            ConfigOptions::ZstdLevel => String::from_str("zstd_level"),
            ConfigOptions::CryptPath => String::from_str("crypt_path"),
        }
    }
}

/// The texts of a list of strings.
pub open spec fn texts(items: Seq<String>) -> Seq<Seq<char>> {
    items.map_values(|s: String| s@)
}

/// Whether `level` is a compression level the configuration accepts.
pub open spec fn valid_zstd_level(level: int) -> bool {
    ZSTD_LEVEL_MIN <= level <= ZSTD_LEVEL_MAX
}

/// `i` is the first position of `item` in `items`.
pub open spec fn first_position(items: Seq<Seq<char>>, item: Seq<char>, i: int) -> bool {
    &&& 0 <= i < items.len()
    &&& items[i] == item
    &&& forall|k: int| 0 <= k < i ==> items[k] != item
}

/// `new_items` is `old_items` without the first item whose text is `item`, or
/// `old_items` itself where there is none.
pub open spec fn removes_first(old_items: Seq<String>, new_items: Seq<String>, item: Seq<char>) -> bool {
    &&& !texts(old_items).contains(item) ==> new_items == old_items
    &&& texts(old_items).contains(item) ==> exists|i: int|
        first_position(texts(old_items), item, i) && #[trigger] old_items.remove(i) == new_items
}

impl Config {
    /// A configuration with the given values.
    fn _new(database_path: String, crypt_path: String, ignore_hidden: bool, ignore_items: Vec<String>, hwid: String, zstd_level: i32) -> (config: Self)
        ensures
            config == (Config { database_path, crypt_path, ignore_hidden, ignore_items, hwid, zstd_level }),
    {
        Self { database_path, crypt_path, ignore_hidden, ignore_items, hwid, zstd_level }
    }

    /// Changes the database path.
    pub fn change_db_path(&mut self, path: String)
        ensures
            *final(self) == (Config { database_path: path, ..*old(self) }),
    {
        self.database_path = path;
    }

    /// The database path.
    pub fn get_database_path(&self) -> (path: &str)
        ensures
            path@ == self.database_path@,
    {
        self.database_path.as_str()
    }

    /// Sets the database path.
    pub fn set_database_path(&mut self, path: &str)
        ensures
            final(self).database_path@ == path@,
            final(self).crypt_path == old(self).crypt_path,
            final(self).ignore_hidden == old(self).ignore_hidden,
            final(self).ignore_items == old(self).ignore_items,
            final(self).hwid == old(self).hwid,
            final(self).zstd_level == old(self).zstd_level,
    {
        self.database_path = path.to_owned();
    }

    /// The path of the crypt folder.
    pub fn get_crypt_path(&self) -> (path: &str)
        ensures
            path@ == self.crypt_path@,
    {
        self.crypt_path.as_str()
    }

    /// Sets the path of the crypt folder.
    pub fn set_crypt_path(&mut self, path: &str)
        ensures
            final(self).crypt_path@ == path@,
            final(self).database_path == old(self).database_path,
            final(self).ignore_hidden == old(self).ignore_hidden,
            final(self).ignore_items == old(self).ignore_items,
            final(self).hwid == old(self).hwid,
            final(self).zstd_level == old(self).zstd_level,
    {
        self.crypt_path = path.to_owned();
    }

    /// The name of the current computer.
    pub fn get_system_name(&self) -> (name: &str)
        ensures
            name@ == self.hwid@,
    {
        self.hwid.as_str()
    }

    /// Sets the name of the current computer.
    pub fn set_system_name(&mut self, name: &str)
        ensures
            final(self).hwid@ == name@,
            final(self).database_path == old(self).database_path,
            final(self).crypt_path == old(self).crypt_path,
            final(self).ignore_hidden == old(self).ignore_hidden,
            final(self).ignore_items == old(self).ignore_items,
            final(self).zstd_level == old(self).zstd_level,
    {
        self.hwid = name.to_owned();
    }

    /// Sets whether hidden files are ignored.
    pub fn set_ignore_hidden(&mut self, choice: bool)
        ensures
            *final(self) == (Config { ignore_hidden: choice, ..*old(self) }),
    {
        self.ignore_hidden = choice;
    }

    /// The ignored items.
    pub fn get_ignore_items(&self) -> (items: &[String])
        ensures
            items@ == self.ignore_items@,
    {
        self.ignore_items.as_slice()
    }

    /// Replaces the ignored items.
    pub fn set_ignore_items(&mut self, ignore_directories: Vec<String>)
        ensures
            *final(self) == (Config { ignore_items: ignore_directories, ..*old(self) }),
    {
        self.ignore_items = ignore_directories;
    }

    /// Adds an item to the end of the ignored items.
    pub fn append_ignore_items(&mut self, item: &str)
        ensures
            texts(final(self).ignore_items@) == texts(old(self).ignore_items@).push(item@),
            final(self).database_path == old(self).database_path,
            final(self).crypt_path == old(self).crypt_path,
            final(self).ignore_hidden == old(self).ignore_hidden,
            final(self).hwid == old(self).hwid,
            final(self).zstd_level == old(self).zstd_level,
    {
        self.ignore_items.push(item.to_owned());
        proof {
            assert(texts(self.ignore_items@) =~= texts(old(self).ignore_items@).push(item@));
        }
    }

    /// Removes the first occurrence of `item` from the ignored items, if there is one.
    pub fn remove_ignore_item(&mut self, item: &str)
        ensures
            removes_first(old(self).ignore_items@, final(self).ignore_items@, item@),
            !texts(old(self).ignore_items@).contains(item@) ==> *final(self) == *old(self),
            final(self).database_path == old(self).database_path,
            final(self).crypt_path == old(self).crypt_path,
            final(self).ignore_hidden == old(self).ignore_hidden,
            final(self).hwid == old(self).hwid,
            final(self).zstd_level == old(self).zstd_level,
    {
        let target = item.to_owned();
        let mut i: usize = 0;
        while i < self.ignore_items.len()
            invariant
                0 <= i <= self.ignore_items@.len(),
                *self == *old(self),
                target@ == item@,
                forall|k: int| 0 <= k < i ==> texts(self.ignore_items@)[k] != item@,
            decreases self.ignore_items@.len() - i,
        {
            assert(texts(self.ignore_items@)[i as int] == self.ignore_items@[i as int]@);
            if self.ignore_items[i] == target {
                self.ignore_items.remove(i);
                proof {
                    assert(first_position(texts(old(self).ignore_items@), item@, i as int));
                    assert(texts(old(self).ignore_items@).contains(item@));
                }
                return;
            }
            i += 1;
        }
        proof {
            assert forall|k: int| 0 <= k < texts(self.ignore_items@).len() implies texts(self.ignore_items@)[k] != item@ by {}
        }
    }

    /// The Zstandard compression level.
    pub fn get_zstd_level(&self) -> (level: i32)
        ensures
            level == self.zstd_level,
    {
        self.zstd_level
    }

    /// Sets the Zstandard compression level where it lies from -7 to 22, and tells
    /// whether it did.
    pub fn set_zstd_level(&mut self, level: i32) -> (changed: bool)
        ensures
            changed == valid_zstd_level(level as int),
            changed ==> *final(self) == (Config { zstd_level: level, ..*old(self) }),
            !changed ==> *final(self) == *old(self),
    {
        if ZSTD_LEVEL_MIN <= level && level <= ZSTD_LEVEL_MAX {
            self.zstd_level = level;
            true
        } else {
            false
        }
    }
}

} // verus!
