//! The command line of the command-line tool, and the cloud request a `cloud`
//! command makes.

use vstd::prelude::*;

use crate::util::directive::{CloudPlatform, CloudTask};

verus! {

/// Command-line arguments.
pub struct CommandLineArgs {
    /// Enable debug mode.
    pub debug: bool,
    /// Start the text user interface.
    pub tui: bool,
    /// The command, if one was given.
    pub command: Option<Commands>,
}

/// Commands of the tool.
pub enum Commands {
    /// Encrypt a file or folder of files, in place or not.
    Encrypt { path: String, in_place: bool },
    /// Decrypt a file or folder of files.
    Decrypt { path: String, output: Option<String> },
    /// Upload, download, or view a file or folder with a cloud provider.
    Cloud { category: Option<CloudCommand> },
    /// View or change the configuration.
    Config { category: Option<ConfigCommand> },
}

/// Cloud providers.
pub enum CloudCommand {
    /// Google Drive.
    Google { task: Option<DriveCommand> },
    /// DropBox.
    Dropbox { task: Option<DriveCommand> },
}

/// What to do with a cloud provider, and on which path.
pub enum DriveCommand {
    Upload { path: String },
    Download { path: String },
    View { path: String },
}

/// Subcommands of `config`.
pub enum ConfigCommand {
    /// View or update the database path.
    DatabasePath { path: String },
    /// Change whether files are retained.
    Retain { value: String },
    /// Add or remove an ignored directory.
    IgnoreDirectories { value: String, value2: String },
    /// Change the compression level.
    ZstdLevel { value: String },
}

/// The cloud request of a `cloud` command: its platform, its task and its path. A
/// command without a task views the empty path. `None` for a `cloud` command without
/// a provider.
pub fn cloud_request(category: Option<CloudCommand>) -> (request: Option<(CloudPlatform, CloudTask, String)>)
    ensures
        (match category {
            None => request is None,
            Some(CloudCommand::Google { task }) => request matches Some((platform, t, path))
                && platform == CloudPlatform::Google && task_request(task, t, path),
            Some(CloudCommand::Dropbox { task }) => request matches Some((platform, t, path))
                && platform == CloudPlatform::DropBox && task_request(task, t, path),
        }),
{
    match category {
        None => None,
        Some(CloudCommand::Google { task }) => {
            let (t, path) = task_of(task);
            Some((CloudPlatform::Google, t, path))
        },
        Some(CloudCommand::Dropbox { task }) => {
            let (t, path) = task_of(task);
            Some((CloudPlatform::DropBox, t, path))
        },
    }
}

/// Whether `t` and `path` are the task and path of a drive command.
pub open spec fn task_request(task: Option<DriveCommand>, t: CloudTask, path: String) -> bool {
    match task {
        Some(DriveCommand::Upload { path: p }) => t == CloudTask::Upload && path == p,
        Some(DriveCommand::Download { path: p }) => t == CloudTask::Download && path == p,
        Some(DriveCommand::View { path: p }) => t == CloudTask::View && path == p,
        None => t == CloudTask::View && path@ == Seq::<char>::empty(),
    }
}

/// The task and path of a drive command.
fn task_of(task: Option<DriveCommand>) -> (r: (CloudTask, String))
    ensures
        task_request(task, r.0, r.1),
{
    match task {
        Some(DriveCommand::Upload { path }) => (CloudTask::Upload, path),
        Some(DriveCommand::Download { path }) => (CloudTask::Download, path),
        Some(DriveCommand::View { path }) => (CloudTask::View, path),
        None => (CloudTask::View, String::new()),
    }
}

} // verus!
