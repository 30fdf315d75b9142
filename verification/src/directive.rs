//! The decisions of the program's commands: how a configuration task changes the
//! configuration and what is shown for it, what a `keeper` subcommand asks for, how a
//! purge is confirmed, which crypt folder `ls` shows, and where in the cloud a file
//! of the crypt folder goes. Prompts, files, the database and the cloud are the
//! caller's.

use vstd::prelude::*;

use crate::cli::{KeeperCommand, KeeperPurgeSubCommand};
use crate::config::{removes_first, texts, Config, ConfigTask, ItemsTask};
use crate::util::text::{chars_of, lowercase, range_is, to_lowercase, trim_range, trimmed, TrimSet};

verus! {

/// What is shown, or asked, after a configuration task.
pub enum ConfigReply {
    /// Show the current database path.
    ShowDatabasePath,
    /// Warn that a new database path hides the existing files, and ask to confirm.
    ConfirmDatabasePath,
    /// Show the current crypt folder path.
    ShowCryptPath,
    /// Warn that a new crypt folder desynchronises the cloud, and ask to confirm.
    ConfirmCryptPath,
    /// The ignored items changed; nothing is shown.
    ItemsChanged,
    /// The compression level changed to this value.
    LevelChanged(i32),
    /// The compression level was out of range and did not change.
    LevelRejected,
    /// Restore and save the default configuration, and tell whether it worked.
    RestoreDefault,
    /// Show this computer name, which stays as it is.
    ShowSystemName(String),
    /// Tell that the computer name changes to the given path.
    RenameSystem,
}

/// The ignored items of a default configuration: `target`.
pub open spec fn default_ignore_items() -> Seq<Seq<char>> {
    seq![seq!['t', 'a', 'r', 'g', 'e', 't']]
}

/// The ignored items of a default configuration.
pub fn default_items() -> (items: Vec<String>)
    ensures
        texts(items@) == default_ignore_items(),
{
    let target = "target";
    proof {
        reveal_strlit("target");
        assert(target@ =~= seq!['t', 'a', 'r', 'g', 'e', 't']);
    }
    let mut items: Vec<String> = Vec::new();
    items.push(String::from_str(target));
    proof {
        assert(texts(items@) =~= default_ignore_items());
    }
    items
}

/// `b` equals `a` but for its ignored items.
pub open spec fn same_but_items(a: Config, b: Config) -> bool {
    &&& b.database_path == a.database_path
    &&& b.crypt_path == a.crypt_path
    &&& b.ignore_hidden == a.ignore_hidden
    &&& b.hwid == a.hwid
    &&& b.zstd_level == a.zstd_level
}

/// Applies a configuration task with its path argument, as far as it changes the
/// configuration in memory, and tells what to show or ask. Saving the configuration,
/// and the prompts, are the caller's.
pub fn config(conf: &mut Config, path: &str, config_task: ConfigTask) -> (reply: ConfigReply)
    requires
        !(config_task is IgnoreHidden),
    ensures
        (match config_task {
            ConfigTask::DatabasePath => {
                &&& *final(conf) == *old(conf)
                &&& reply == (if lowercase(path@).len() == 0 {
                    ConfigReply::ShowDatabasePath
                } else {
                    ConfigReply::ConfirmDatabasePath
                })
            },
            ConfigTask::CryptPath => {
                &&& *final(conf) == *old(conf)
                &&& reply == (if lowercase(path@).len() == 0 {
                    ConfigReply::ShowCryptPath
                } else {
                    ConfigReply::ConfirmCryptPath
                })
            },
            ConfigTask::IgnoreItems(ItemsTask::Add, item) => {
                &&& texts(final(conf).ignore_items@) == texts(old(conf).ignore_items@).push(item@)
                &&& same_but_items(*old(conf), *final(conf))
                &&& reply is ItemsChanged
            },
            ConfigTask::IgnoreItems(ItemsTask::Remove, item) => {
                &&& removes_first(old(conf).ignore_items@, final(conf).ignore_items@, item@)
                &&& same_but_items(*old(conf), *final(conf))
                &&& reply is ItemsChanged
            },
            ConfigTask::IgnoreItems(ItemsTask::Default, _) => {
                &&& texts(final(conf).ignore_items@) == default_ignore_items()
                &&& same_but_items(*old(conf), *final(conf))
                &&& reply is ItemsChanged
            },
            ConfigTask::ZstdLevel(level) => if -7 <= level <= 22 {
                *final(conf) == (Config { zstd_level: level, ..*old(conf) }) && reply == ConfigReply::LevelChanged(level)
            } else {
                *final(conf) == *old(conf) && reply is LevelRejected
            },
            ConfigTask::LoadDefault => *final(conf) == *old(conf) && reply is RestoreDefault,
            ConfigTask::Hwid => if path@.len() == 0 {
                &&& *final(conf) == *old(conf)
                &&& reply matches ConfigReply::ShowSystemName(name) && name == old(conf).hwid
            } else {
                &&& final(conf).hwid@ == path@
                &&& final(conf).database_path == old(conf).database_path
                &&& final(conf).crypt_path == old(conf).crypt_path
                &&& final(conf).ignore_hidden == old(conf).ignore_hidden
                &&& final(conf).ignore_items == old(conf).ignore_items
                &&& final(conf).zstd_level == old(conf).zstd_level
                &&& reply is RenameSystem
            },
            ConfigTask::IgnoreHidden(_) => false,
        }),
{
    match config_task {
        ConfigTask::DatabasePath => {
            let lower = to_lowercase(path);
            if lower.unicode_len() == 0 {
                ConfigReply::ShowDatabasePath
            } else {
                ConfigReply::ConfirmDatabasePath
            }
        },
        ConfigTask::CryptPath => {
            let lower = to_lowercase(path);
            if lower.unicode_len() == 0 {
                ConfigReply::ShowCryptPath
            } else {
                ConfigReply::ConfirmCryptPath
            }
        },
        ConfigTask::IgnoreItems(option, item) => {
            match option {
                ItemsTask::Add => conf.append_ignore_items(item.as_str()),
                ItemsTask::Remove => conf.remove_ignore_item(item.as_str()),
                ItemsTask::Default => conf.set_ignore_items(default_items()),
            }
            ConfigReply::ItemsChanged
        },
        ConfigTask::ZstdLevel(level) => {
            if conf.set_zstd_level(level) {
                ConfigReply::LevelChanged(level)
            } else {
                ConfigReply::LevelRejected
            }
        },
        ConfigTask::LoadDefault => ConfigReply::RestoreDefault,
        ConfigTask::Hwid => {
            if path.unicode_len() == 0 {
                ConfigReply::ShowSystemName(conf.hwid.clone())
            } else {
                conf.set_system_name(path);
                ConfigReply::RenameSystem
            }
        },
        ConfigTask::IgnoreHidden(_) => {
            proof {
                assert(false);
            }
            ConfigReply::ItemsChanged
        },
    }
}

/// The answer typed at a (Y/N) prompt.
#[derive(PartialEq, Eq, Structural, Clone, Copy)]
pub enum Confirmation {
    /// `y`: go ahead.
    Yes,
    /// `n`: leave things as they are.
    No,
    /// Anything else: ask again.
    AskAgain,
}

/// What a lower-cased answer to a (Y/N) prompt says.
pub open spec fn confirmation_of(lower: Seq<char>) -> Confirmation {
    if lower == "y"@ {
        Confirmation::Yes
    } else if lower == "n"@ {
        Confirmation::No
    } else {
        Confirmation::AskAgain
    }
}

/// Reads a lower-cased answer to a (Y/N) prompt.
pub fn answer_of(lower: &str) -> (answer: Confirmation)
    ensures
        answer == confirmation_of(lower@),
{
    let chars = chars_of(lower);
    let n = chars.len();
    proof {
        assert(chars@.subrange(0, n as int) =~= chars@);
    }
    if range_is(&chars, 0, n, "y") {
        Confirmation::Yes
    } else if range_is(&chars, 0, n, "n") {
        Confirmation::No
    } else {
        Confirmation::AskAgain
    }
}

/// Reads a line typed at a (Y/N) prompt: the line without white space around it,
/// lower-cased, is `y` or `n`; anything else asks again.
pub fn confirmation(line: &str) -> (answer: Confirmation)
    ensures
        answer == confirmation_of(lowercase(trimmed(line@, TrimSet::Whitespace))),
{
    let chars = chars_of(line);
    let n = chars.len();
    proof {
        assert(chars@.subrange(0, n as int) =~= chars@);
    }
    let (a, b) = trim_range(&chars, 0, n, TrimSet::Whitespace);
    let lower = to_lowercase(line.substring_char(a, b));
    answer_of(lower.as_str())
}

/// Applies the confirmed answer to the change of the database path or of the crypt
/// folder path that `config_task` asked for: on `y`, where the new path exists, the
/// path is set; otherwise the configuration stays as it is. Tells whether the path
/// changed, and so whether the configuration is to be saved.
pub fn confirm_path(conf: &mut Config, config_task: &ConfigTask, path: &str, answer: Confirmation, path_exists: bool) -> (changed: bool)
    requires
        match *config_task {
            ConfigTask::DatabasePath => true,
            ConfigTask::CryptPath => true,
            _ => false,
        },
    ensures
        changed == (answer == Confirmation::Yes && path_exists),
        !changed ==> *final(conf) == *old(conf),
        changed ==> {
            &&& final(conf).ignore_hidden == old(conf).ignore_hidden
            &&& final(conf).ignore_items == old(conf).ignore_items
            &&& final(conf).hwid == old(conf).hwid
            &&& final(conf).zstd_level == old(conf).zstd_level
            &&& match *config_task {
                ConfigTask::DatabasePath => final(conf).database_path@ == path@ && final(conf).crypt_path == old(conf).crypt_path,
                _ => final(conf).crypt_path@ == path@ && final(conf).database_path == old(conf).database_path,
            }
        },
{
    if answer != Confirmation::Yes || !path_exists {
        return false;
    }
    match config_task {
        ConfigTask::DatabasePath => conf.set_database_path(path),
        _ => conf.set_crypt_path(path),
    }
    true
}

/// What a `keeper` subcommand asks for.
pub enum KeeperStep {
    /// Show this message (an import without a path).
    Show(String),
    /// Import the database from this CSV file.
    Import(String),
    /// Export the database, to this path or to the default one.
    Export(Option<String>),
    /// Purge the cloud tokens.
    PurgeTokens,
    /// Warn, and ask for the phrase that confirms the deletion of the database.
    ConfirmPurgeDatabase,
    /// Tell that the entry was invalid.
    InvalidEntry,
    /// List the files of the database.
    List,
}

/// Decides what a `keeper` subcommand asks for.
pub fn keeper(kc: &KeeperCommand) -> (step: KeeperStep)
    ensures
        (match *kc {
            KeeperCommand::Import { path } => if path@.len() == 0 {
                step matches KeeperStep::Show(m) && m@ == "please add a path to the csv"@
            } else {
                step == KeeperStep::Import(path)
            },
            KeeperCommand::Export { alt_path } => if alt_path@.len() == 0 {
                step == KeeperStep::Export(None)
            } else {
                step == KeeperStep::Export(Some(alt_path))
            },
            KeeperCommand::Purge { category } => match category {
                Some(KeeperPurgeSubCommand::Token) => step is PurgeTokens,
                Some(KeeperPurgeSubCommand::Database) => step is ConfirmPurgeDatabase,
                None => step is InvalidEntry,
            },
            KeeperCommand::List => step is List,
        }),
{
    match kc {
        KeeperCommand::Import { path } => match KeeperCommand::import(path) {
            Some(message) => KeeperStep::Show(message),
            None => KeeperStep::Import(path.clone()),
        },
        KeeperCommand::Export { alt_path } => {
            if alt_path.unicode_len() == 0 {
                KeeperStep::Export(None)
            } else {
                KeeperStep::Export(Some(alt_path.clone()))
            }
        },
        KeeperCommand::Purge { category } => match category {
            Some(KeeperPurgeSubCommand::Token) => KeeperStep::PurgeTokens,
            Some(KeeperPurgeSubCommand::Database) => KeeperStep::ConfirmPurgeDatabase,
            None => KeeperStep::InvalidEntry,
        },
        KeeperCommand::List => KeeperStep::List,
    }
}

/// The answer to the prompt that confirms the deletion of the database.
#[derive(PartialEq, Eq, Structural, Clone, Copy)]
pub enum PurgeReply {
    /// The phrase `delete database`: delete it.
    Delete,
    /// `q`: give up.
    Quit,
    /// Anything else: ask again.
    AskAgain,
}

/// The answer of the prompt to the line typed, and the text to keep for the next
/// line: whether the line without white space around it is the phrase that deletes,
/// `q`, or neither. A line that is neither is dropped, so the next line is read
/// afresh; otherwise the trimmed line is kept.
pub fn purge_reply(phrase: &str) -> (r: (PurgeReply, String))
    ensures
        r.0 == (if trimmed(phrase@, TrimSet::Whitespace) == "delete database"@ {
            PurgeReply::Delete
        } else if trimmed(phrase@, TrimSet::Whitespace) == "q"@ {
            PurgeReply::Quit
        } else {
            PurgeReply::AskAgain
        }),
        r.1@ == (if r.0 == PurgeReply::AskAgain {
            Seq::<char>::empty()
        } else {
            trimmed(phrase@, TrimSet::Whitespace)
        }),
{
    let chars = chars_of(phrase);
    let n = chars.len();
    proof {
        assert(chars@.subrange(0, n as int) =~= chars@);
    }
    let (a, b) = trim_range(&chars, 0, n, TrimSet::Whitespace);
    if range_is(&chars, a, b, "delete database") {
        (PurgeReply::Delete, phrase.substring_char(a, b).to_owned())
    } else if range_is(&chars, a, b, "q") {
        (PurgeReply::Quit, phrase.substring_char(a, b).to_owned())
    } else {
        (PurgeReply::AskAgain, String::new())
    }
}

/// The Dropbox upload, not provided: it does nothing.
pub fn dropbox_upload(_path: &str) {
}

/// The Dropbox download, not provided: it does nothing.
pub fn dropbox_download(_path: &str) {
}

/// The Dropbox view, not provided: it does nothing.
pub fn dropbox_view(_path: &str) {
}

/// Which crypt folder `ls` shows.
#[derive(PartialEq, Eq, Structural, Clone, Copy)]
pub enum LsView {
    /// The local crypt folder, as a tree.
    Local,
    /// The crypt folder of Google Drive.
    Cloud,
    /// Both: the local tree, then the cloud folder.
    Both,
}

/// Decides which crypt folder `ls` shows: both where `local` and `cloud` are set, the
/// cloud one where only `cloud` is, and otherwise the local one.
pub fn ls(local: &bool, cloud: &bool) -> (view: LsView)
    ensures
        view == (if *local && *cloud {
            LsView::Both
        } else if *cloud {
            LsView::Cloud
        } else {
            LsView::Local
        }),
{
    if *local && *cloud {
        LsView::Both
    } else if *cloud {
        LsView::Cloud
    } else {
        LsView::Local
    }
}

/// What becomes of a file of the crypt folder on a folder upload.
#[derive(PartialEq, Eq, Structural, Clone, Copy)]
pub enum UploadStep {
    /// Its Drive copy was updated in place: keep the new id and go on to the next file.
    Updated,
    /// Upload it anew, along its route below the cloud crypt folder.
    Upload,
}

/// Whether the Drive copy of a file is to be updated in place: where its record has
/// a Drive id and a file of that id exists in the Drive.
pub open spec fn updates_in_place(drive_id: Seq<char>, exists: bool) -> bool {
    drive_id.len() > 0 && exists
}

/// Decides what becomes of a file of the crypt folder on a folder upload, from its
/// recorded Drive id, whether a file of that id exists in the Drive (asked only where
/// the id is not empty), and what updating that file gave back (`None` where the
/// update failed or was not made). Where the copy is to be updated in place and the
/// update gave back an id, the file is done with that id; where the update gave back
/// none, the id is dropped and the file is uploaded anew; otherwise it is uploaded
/// with its id as it was. Returns the step and the Drive id to record.
pub fn upload_step(drive_id: &str, exists: bool, updated: Option<String>) -> (r: (UploadStep, String))
    ensures
        updates_in_place(drive_id@, exists) ==> (if updated matches Some(id) && id@.len() > 0 {
            r.0 == UploadStep::Updated && r.1 == updated->Some_0
        } else {
            r.0 == UploadStep::Upload && r.1@.len() == 0
        }),
        !updates_in_place(drive_id@, exists) ==> r.0 == UploadStep::Upload && r.1@ == drive_id@,
{
    if drive_id.unicode_len() > 0 && exists {
        match updated {
            Some(id) => if id.unicode_len() > 0 {
                (UploadStep::Updated, id)
            } else {
                (UploadStep::Upload, String::new())
            },
            None => (UploadStep::Upload, String::new()),
        }
    } else {
        (UploadStep::Upload, drive_id.to_owned())
    }
}

/// The index of the first component named `crypt`, if there is one.
pub open spec fn crypt_index(components: Seq<Seq<char>>) -> Option<int> {
    if exists|i: int| 0 <= i < components.len() && components[i] == "crypt"@ {
        Some(choose|i: int| 0 <= i < components.len() && components[i] == "crypt"@
            && forall|j: int| 0 <= j < i ==> components[j] != "crypt"@)
    } else {
        None
    }
}

/// Where a file of the crypt folder goes in the cloud, from the components of its
/// path: after the first component named `crypt`, the folders to create in turn under
/// the cloud crypt folder, and the name of the file. `None` where no component is
/// named `crypt` or none follows it.
pub fn upload_route(components: &Vec<String>) -> (route: Option<(Vec<String>, String)>)
    ensures
        route is None <==> (crypt_index(texts(components@)) is None
            || crypt_index(texts(components@))->Some_0 == components@.len() - 1),
        route matches Some((folders, file)) ==> {
            let k = crypt_index(texts(components@))->Some_0;
            &&& texts(folders@) == texts(components@).subrange(k + 1, components@.len() - 1)
            &&& file@ == texts(components@).last()
        },
{
    let ghost names = texts(components@);
    let mut k: usize = 0;
    loop
        invariant
            names == texts(components@),
            0 <= k <= components@.len(),
            forall|j: int| 0 <= j < k ==> names[j] != "crypt"@,
        ensures
            names == texts(components@),
            0 <= k <= components@.len(),
            forall|j: int| 0 <= j < k ==> names[j] != "crypt"@,
            k < components@.len() ==> names[k as int] == "crypt"@,
        decreases components@.len() - k,
    {
        if k == components.len() {
            break;
        }
        let chars = chars_of(components[k].as_str());
        let n = chars.len();
        proof {
            assert(chars@.subrange(0, n as int) =~= chars@);
            assert(names[k as int] == components@[k as int]@);
        }
        if range_is(&chars, 0, n, "crypt") {
            break;
        }
        k += 1;
    }
    if k == components.len() {
        proof {
            assert(!exists|i: int| 0 <= i < names.len() && names[i] == "crypt"@);
        }
        return None;
    }
    proof {
        assert(names[k as int] == "crypt"@);
        let c = crypt_index(names)->Some_0;
        assert(crypt_index(names) is Some);
        assert(c == k) by {
            if c < k {
                assert(names[c] != "crypt"@);
            }
            if c > k {
                assert(names[k as int] != "crypt"@);
            }
        }
    }
    if k + 1 == components.len() {
        return None;
    }
    let mut folders: Vec<String> = Vec::new();
    let mut i: usize = k + 1;
    let last = components.len() - 1;
    while i < last
        invariant
            names == texts(components@),
            k + 1 <= i <= last,
            last == components@.len() - 1,
            texts(folders@) == names.subrange(k + 1, i as int),
        decreases last - i,
    {
        let ghost before = folders@;
        let c = components[i].clone();
        assert(names[i as int] == c@);
        folders.push(c);
        assert(texts(folders@) =~= texts(before).push(c@));
        i += 1;
        assert(texts(folders@) =~= names.subrange(k + 1, i as int));
    }
    let file = components[last].clone();
    assert(names.last() == file@);
    Some((folders, file))
}

} // verus!
