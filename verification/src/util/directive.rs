//! Directives of the command-line tool: the path they act on, the cloud platforms and
//! tasks, and how a configuration task changes the configuration.

use vstd::prelude::*;

use crate::config::removes_first;
use crate::util::config::Config;
use crate::util::path::PathInfo;
use crate::util::text::{lowercase, to_lowercase};

verus! {

/// Supported cloud platforms.
#[derive(PartialEq, Eq, Structural, Clone, Copy)]
pub enum CloudPlatform {
    Google,
    DropBox,
}

/// Supported tasks for cloud platforms.
#[derive(PartialEq, Eq, Structural, Clone, Copy)]
pub enum CloudTask {
    Upload,
    Download,
    View,
}

/// Tasks that change the configuration.
pub enum ConfigTask {
    DatabasePath,
    Retain(bool),
    IgnoreItems(ItemsTask, String),
    ZstdLevel(i32),
}

/// Ways to change the ignored items.
#[derive(PartialEq, Eq, Structural, Clone, Copy)]
pub enum ItemsTask {
    Add,
    Remove,
}

/// The path a directive acts on.
pub struct Directive {
    pub path: String,
}

/// What is shown, or asked, after a configuration task.
pub enum DirectiveReply {
    /// Show the current database path.
    ShowDatabasePath,
    /// Warn that a new database path hides the existing files, and ask to confirm.
    ConfirmDatabasePath,
    /// Tell that `retain` changed to this value.
    RetainChanged(bool),
    /// The ignored items changed; nothing is shown.
    ItemsChanged,
    /// The compression level changed to this value.
    LevelChanged(i32),
    /// The compression level was out of range and did not change.
    LevelRejected,
}

impl Directive {
    /// A directive on `path`.
    pub fn new(path: String) -> (directive: Self)
        ensures
            directive.path == path,
    {
        Directive { path }
    }

    /// Applies a configuration task, as far as it changes the configuration in memory,
    /// and tells what to show or ask. Saving the configuration, and the prompts, are
    /// the caller's.
    pub fn config(&self, config: &mut Config, config_task: ConfigTask) -> (reply: DirectiveReply)
        ensures
            (match config_task {
                ConfigTask::DatabasePath => {
                    &&& *final(config) == *old(config)
                    &&& reply == (if lowercase(self.path@).len() == 0 {
                        DirectiveReply::ShowDatabasePath
                    } else {
                        DirectiveReply::ConfirmDatabasePath
                    })
                },
                ConfigTask::Retain(value) => *final(config) == (Config { retain: value, ..*old(config) })
                    && reply == DirectiveReply::RetainChanged(value),
                ConfigTask::IgnoreItems(ItemsTask::Add, item) => {
                    &&& final(config).ignore_items@ == old(config).ignore_items@.push(item)
                    &&& final(config).database_path == old(config).database_path
                    &&& final(config).retain == old(config).retain
                    &&& final(config).zstd_level == old(config).zstd_level
                    &&& reply is ItemsChanged
                },
                ConfigTask::IgnoreItems(ItemsTask::Remove, item) => {
                    &&& removes_first(old(config).ignore_items@, final(config).ignore_items@, item@)
                    &&& final(config).database_path == old(config).database_path
                    &&& final(config).retain == old(config).retain
                    &&& final(config).zstd_level == old(config).zstd_level
                    &&& reply is ItemsChanged
                },
                ConfigTask::ZstdLevel(level) => if -7 <= level <= 22 {
                    *final(config) == (Config { zstd_level: level, ..*old(config) })
                        && reply == DirectiveReply::LevelChanged(level)
                } else {
                    *final(config) == *old(config) && reply is LevelRejected
                },
            }),
    {
        match config_task {
            ConfigTask::DatabasePath => {
                let lower = to_lowercase(self.path.as_str());
                if lower.unicode_len() == 0 {
                    DirectiveReply::ShowDatabasePath
                } else {
                    DirectiveReply::ConfirmDatabasePath
                }
            },
            ConfigTask::Retain(value) => {
                config.retain = value;
                DirectiveReply::RetainChanged(value)
            },
            ConfigTask::IgnoreItems(add_remove, item) => {
                match add_remove {
                    ItemsTask::Add => config.append_ignore_items(&item),
                    ItemsTask::Remove => config.remove_item(&item),
                }
                DirectiveReply::ItemsChanged
            },
            ConfigTask::ZstdLevel(level) => {
                if config.set_zstd_level(level) {
                    DirectiveReply::LevelChanged(level)
                } else {
                    DirectiveReply::LevelRejected
                }
            },
        }
    }
}

/// The entries of a walk that an upload creates as folders: those that are
/// directories and are not named `root_name`, in the walk's order.
pub open spec fn upload_folders(paths: Seq<PathInfo>, root_name: Seq<char>) -> Seq<PathInfo>
    decreases paths.len(),
{
    if paths.len() == 0 {
        Seq::empty()
    } else {
        let init = upload_folders(paths.drop_last(), root_name);
        let p = paths.last();
        if p.is_dir && p.name@ != root_name {
            init.push(p)
        } else {
            init
        }
    }
}

/// The entries of a walk that an upload sends as files: those that are not
/// directories and are not named `root_name`, in the walk's order.
pub open spec fn upload_files(paths: Seq<PathInfo>, root_name: Seq<char>) -> Seq<PathInfo>
    decreases paths.len(),
{
    if paths.len() == 0 {
        Seq::empty()
    } else {
        let init = upload_files(paths.drop_last(), root_name);
        let p = paths.last();
        if !p.is_dir && p.name@ != root_name {
            init.push(p)
        } else {
            init
        }
    }
}

/// Plans the upload of a walked directory to the cloud: the walk's entries other
/// than those named like the root, split into the folders to create first and the
/// files to upload after them, each in the walk's order. Creating and uploading,
/// and finding each parent's cloud folder, are the caller's.
pub fn upload_plan(root: &PathInfo, paths: &Vec<PathInfo>) -> (plan: (Vec<PathInfo>, Vec<PathInfo>))
    ensures
        plan.0@ == upload_folders(paths@, root.name@),
        plan.1@ == upload_files(paths@, root.name@),
{
    let mut folders: Vec<PathInfo> = Vec::new();
    let mut files: Vec<PathInfo> = Vec::new();
    let mut i: usize = 0;
    while i < paths.len()
        invariant
            0 <= i <= paths@.len(),
            folders@ == upload_folders(paths@.take(i as int), root.name@),
            files@ == upload_files(paths@.take(i as int), root.name@),
        decreases paths@.len() - i,
    {
        let p = &paths[i];
        assert(paths@.take(i + 1).drop_last() =~= paths@.take(i as int));
        assert(paths@.take(i + 1).last() == paths@[i as int]);
        if p.name != root.name {
            if p.is_dir {
                folders.push(p.clone());
            } else {
                files.push(p.clone());
            }
        }
        i += 1;
    }
    assert(paths@.take(i as int) =~= paths@);
    (folders, files)
}

} // verus!
