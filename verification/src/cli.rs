//! The command line of the program, and what each command asks the program to do.

use vstd::prelude::*;

use crate::config::{ConfigTask, ItemsTask};
use crate::util::text::{chars_of, lowercase, parse_i32, parse_i32_range, range_is, to_lowercase};

verus! {

/// Command-line arguments.
pub struct CommandLineArgs {
    /// Enable debug mode.
    pub debug: bool,
    /// Generate a markdown document for the commands.
    pub md: bool,
    /// Run the test routine.
    pub test: bool,
    /// The command, if one was given.
    pub command: Option<Commands>,
}

/// Commands of the program.
pub enum Commands {
    /// Upload, download, or view a file or folder with a cloud provider.
    Cloud { category: Option<CloudCommand> },
    /// View or change the configuration.
    Config { category: Option<ConfigCommand> },
    /// Encrypt a file or folder of files.
    Encrypt { path: String, output: Option<String> },
    /// Decrypt a file or folder of files.
    Decrypt { path: String, output: Option<String> },
    /// Import, export or purge the database.
    Keeper { category: Option<KeeperCommand> },
    /// Show the local or cloud crypt folder.
    Ls { local: bool, cloud: bool },
}

/// Cloud providers.
pub enum CloudCommand {
    /// Google Drive.
    Google { task: Option<DriveCommand> },
    /// DropBox.
    Dropbox { task: Option<DriveCommand> },
}

/// What to do with a cloud provider.
pub enum DriveCommand {
    /// Upload a file or folder.
    Upload,
    /// Download a file or folder.
    Download { path: String },
    /// View a file or folder.
    View { path: String },
}

/// Subcommands of `config`.
pub enum ConfigCommand {
    /// View or update the database path.
    DatabasePath { path: String },
    /// View or update the crypt folder path.
    CryptPath { path: String },
    /// View, add or remove ignored items.
    IgnoreItems { add_remove: String, item: String },
    /// View the name of this computer.
    Hwid,
    /// View or change the compression level.
    ZstdLevel { level: String },
    /// Revert the configuration to its defaults.
    LoadDefault,
}

/// Subcommands of `keeper`.
pub enum KeeperCommand {
    /// Import the database from a CSV file.
    Import { path: String },
    /// Export the database to a CSV file.
    Export { alt_path: String },
    /// Purge tokens or the database.
    Purge { category: Option<KeeperPurgeSubCommand> },
    /// List each file in the database.
    List,
}

/// What `keeper purge` purges.
pub enum KeeperPurgeSubCommand {
    /// The Google and DropBox tokens.
    Token,
    /// The database file.
    Database,
}

impl KeeperCommand {
    /// Checks the path of a CSV file to import: `None` where there is one to import
    /// from, and otherwise the message to show.
    pub fn import(path: &String) -> (message: Option<String>)
        ensures
            message is None <==> path@.len() > 0,
            message matches Some(m) ==> m@ == "please add a path to the csv"@,
    {
        if path.unicode_len() == 0 {
            Some(String::from_str("please add a path to the csv"))
        } else {
            None
        }
    }
}

/// What the program does for a command.
pub enum Action {
    /// Nothing (the help screen is shown).
    Nothing,
    /// Show the crypt folder.
    Ls { local: bool, cloud: bool },
    /// Encrypt a file or folder.
    Encrypt { path: String, output: Option<String> },
    /// Decrypt a file or folder.
    Decrypt { path: String, output: Option<String> },
    /// Upload to Google Drive.
    GoogleUpload,
    /// Download from Google Drive.
    GoogleDownload { path: String },
    /// View a Google Drive folder.
    GoogleView { path: String },
    /// Upload to DropBox.
    DropboxUpload,
    /// Download from DropBox.
    DropboxDownload { path: String },
    /// View a DropBox folder.
    DropboxView { path: String },
    /// Run a `keeper` subcommand.
    Keeper(KeeperCommand),
    /// Change the configuration.
    Configure { path: String, task: ConfigTask },
    /// Show the name of this computer.
    ShowMachineName,
    /// Show the ignored items of the configuration.
    ShowIgnoreItems,
    /// Show the compression level of the configuration.
    ShowZstdLevel,
}

/// Why a command cannot be run.
pub enum CliError {
    /// A cloud command without a task, or an ignore-items change that is neither
    /// an addition nor a removal.
    InvalidInput,
    /// `keeper` without a subcommand.
    MissingKeeperCommand,
    /// A compression level that is not an integer.
    InvalidLevel,
}

/// The ignore-items change that a lowercased word names: `add` or `a`, `remove` or
/// `r`.
pub open spec fn items_task_of(lower: Seq<char>) -> Option<ItemsTask> {
    if lower == "add"@ || lower == "a"@ {
        Some(ItemsTask::Add)
    } else if lower == "remove"@ || lower == "r"@ {
        Some(ItemsTask::Remove)
    } else {
        None
    }
}

/// What a cloud task asks for, with Google Drive or DropBox.
pub open spec fn drive_action(google: bool, task: Option<DriveCommand>) -> Result<Action, CliError> {
    match task {
        None => Err(CliError::InvalidInput),
        Some(DriveCommand::Upload) => Ok(if google { Action::GoogleUpload } else { Action::DropboxUpload }),
        Some(DriveCommand::Download { path }) => Ok(
            if google {
                Action::GoogleDownload { path }
            } else {
                Action::DropboxDownload { path }
            },
        ),
        Some(DriveCommand::View { path }) => Ok(
            if google {
                Action::GoogleView { path }
            } else {
                Action::DropboxView { path }
            },
        ),
    }
}

/// Whether `r` is a change of the configuration by `task`, with an empty path.
pub open spec fn configures(r: Result<Action, CliError>, task: ConfigTask) -> bool {
    r matches Ok(Action::Configure { path, task: t }) && path@.len() == 0 && t == task
}

/// Whether `r` is what a `config` subcommand asks for.
pub open spec fn config_plan(category: Option<ConfigCommand>, r: Result<Action, CliError>) -> bool {
    match category {
        None => r == Ok::<Action, CliError>(Action::Nothing),
        Some(ConfigCommand::DatabasePath { path }) => r == Ok::<Action, CliError>(Action::Configure { path, task: ConfigTask::DatabasePath }),
        Some(ConfigCommand::CryptPath { path }) => r == Ok::<Action, CliError>(Action::Configure { path, task: ConfigTask::CryptPath }),
        Some(ConfigCommand::IgnoreItems { add_remove, item }) => if add_remove@.len() == 0 {
            r == Ok::<Action, CliError>(Action::ShowIgnoreItems)
        } else {
            match items_task_of(lowercase(add_remove@)) {
                Some(task) => configures(r, ConfigTask::IgnoreItems(task, item)),
                None => r == Err::<Action, CliError>(CliError::InvalidInput),
            }
        },
        Some(ConfigCommand::ZstdLevel { level }) => if level@.len() == 0 {
            r == Ok::<Action, CliError>(Action::ShowZstdLevel)
        } else {
            match parse_i32(level@) {
                Some(l) => configures(r, ConfigTask::ZstdLevel(l)),
                None => r == Err::<Action, CliError>(CliError::InvalidLevel),
            }
        },
        Some(ConfigCommand::Hwid) => r == Ok::<Action, CliError>(Action::ShowMachineName),
        Some(ConfigCommand::LoadDefault) => configures(r, ConfigTask::LoadDefault),
    }
}

/// Whether `r` is what a command asks the program to do, or why it cannot be run.
pub open spec fn plans(command: Option<Commands>, r: Result<Action, CliError>) -> bool {
    match command {
        None => r == Ok::<Action, CliError>(Action::Nothing),
        Some(Commands::Ls { local, cloud }) => r == Ok::<Action, CliError>(Action::Ls { local, cloud }),
        Some(Commands::Encrypt { path, output }) => r == Ok::<Action, CliError>(Action::Encrypt { path, output }),
        Some(Commands::Decrypt { path, output }) => r == Ok::<Action, CliError>(Action::Decrypt { path, output }),
        Some(Commands::Cloud { category }) => match category {
            None => r == Ok::<Action, CliError>(Action::Nothing),
            Some(CloudCommand::Google { task }) => r == drive_action(true, task),
            Some(CloudCommand::Dropbox { task }) => r == drive_action(false, task),
        },
        Some(Commands::Keeper { category }) => match category {
            None => r == Err::<Action, CliError>(CliError::MissingKeeperCommand),
            Some(kc) => r == Ok::<Action, CliError>(Action::Keeper(kc)),
        },
        Some(Commands::Config { category }) => config_plan(category, r),
    }
}

/// Decides what a command asks the program to do: the action to run, or the reason
/// it cannot be run (a cloud command without a task, `keeper` without a subcommand,
/// an ignore-items change other than `add`/`a`/`remove`/`r` in any case, or a level
/// that does not read as an `i32`). An ignore-items or level command without a value
/// shows the current setting.
pub fn plan(command: Option<Commands>) -> (r: Result<Action, CliError>)
    ensures
        plans(command, r),
{
    match command {
        None => Ok(Action::Nothing),
        Some(Commands::Ls { local, cloud }) => Ok(Action::Ls { local, cloud }),
        Some(Commands::Encrypt { path, output }) => Ok(Action::Encrypt { path, output }),
        Some(Commands::Decrypt { path, output }) => Ok(Action::Decrypt { path, output }),
        Some(Commands::Cloud { category }) => match category {
            None => Ok(Action::Nothing),
            Some(CloudCommand::Google { task }) => plan_drive(true, task),
            Some(CloudCommand::Dropbox { task }) => plan_drive(false, task),
        },
        Some(Commands::Keeper { category }) => match category {
            None => Err(CliError::MissingKeeperCommand),
            Some(kc) => Ok(Action::Keeper(kc)),
        },
        Some(Commands::Config { category }) => plan_config(category),
    }
}

/// Decides what a cloud task asks for.
fn plan_drive(google: bool, task: Option<DriveCommand>) -> (r: Result<Action, CliError>)
    ensures
        r == drive_action(google, task),
{
    match task {
        None => Err(CliError::InvalidInput),
        Some(DriveCommand::Upload) => Ok(if google { Action::GoogleUpload } else { Action::DropboxUpload }),
        Some(DriveCommand::Download { path }) => Ok(
            if google {
                Action::GoogleDownload { path }
            } else {
                Action::DropboxDownload { path }
            },
        ),
        Some(DriveCommand::View { path }) => Ok(
            if google {
                Action::GoogleView { path }
            } else {
                Action::DropboxView { path }
            },
        ),
    }
}

/// Decides what a `config` subcommand asks for.
fn plan_config(category: Option<ConfigCommand>) -> (r: Result<Action, CliError>)
    ensures
        config_plan(category, r),
{
    match category {
        None => Ok(Action::Nothing),
        Some(ConfigCommand::DatabasePath { path }) => Ok(Action::Configure { path, task: ConfigTask::DatabasePath }),
        Some(ConfigCommand::CryptPath { path }) => Ok(Action::Configure { path, task: ConfigTask::CryptPath }),
        Some(ConfigCommand::IgnoreItems { add_remove, item }) => {
            if add_remove.unicode_len() == 0 {
                return Ok(Action::ShowIgnoreItems);
            }
            let lower = to_lowercase(add_remove.as_str());
            let chars = chars_of(lower.as_str());
            let n = chars.len();
            proof {
                assert(chars@.subrange(0, n as int) =~= chars@);
            }
            proof {
                reveal_strlit("add");
                reveal_strlit("a");
                reveal_strlit("remove");
                reveal_strlit("r");
            }
            let task = if range_is(&chars, 0, n, "add") || range_is(&chars, 0, n, "a") {
                ItemsTask::Add
            } else if range_is(&chars, 0, n, "remove") || range_is(&chars, 0, n, "r") {
                ItemsTask::Remove
            } else {
                return Err(CliError::InvalidInput);
            };
            Ok(Action::Configure { path: String::new(), task: ConfigTask::IgnoreItems(task, item) })
        },
        Some(ConfigCommand::ZstdLevel { level }) => {
            if level.unicode_len() == 0 {
                return Ok(Action::ShowZstdLevel);
            }
            let chars = chars_of(level.as_str());
            let n = chars.len();
            proof {
                assert(chars@.subrange(0, n as int) =~= chars@);
            }
            match parse_i32_range(&chars, 0, n) {
                Some(l) => Ok(Action::Configure { path: String::new(), task: ConfigTask::ZstdLevel(l) }),
                None => Err(CliError::InvalidLevel),
            }
        },
        Some(ConfigCommand::Hwid) => Ok(Action::ShowMachineName),
        Some(ConfigCommand::LoadDefault) => Ok(Action::Configure { path: String::new(), task: ConfigTask::LoadDefault }),
    }
}

/// The decrypt command is planned as a decryption of its path to its output, for
/// every path and output.
pub proof fn law_decrypt_is_planned_as_decryption(path: String, output: Option<String>, r: Result<Action, CliError>)
    requires
        plans(Some(Commands::Decrypt { path, output }), r),
    ensures
        r matches Ok(Action::Decrypt { path: p, output: o }) && p == path && o == output,
{
}

/// The encrypt command is planned as an encryption of its path to its output, for
/// every path and output.
pub proof fn law_encrypt_is_planned_as_encryption(path: String, output: Option<String>, r: Result<Action, CliError>)
    requires
        plans(Some(Commands::Encrypt { path, output }), r),
    ensures
        r matches Ok(Action::Encrypt { path: p, output: o }) && p == path && o == output,
{
}

/// Only the encrypt command encrypts, and only the decrypt command decrypts, each
/// with the path and output it was given.
pub proof fn law_only_crypt_commands_crypt(command: Option<Commands>, r: Result<Action, CliError>)
    requires
        plans(command, r),
    ensures
        r matches Ok(Action::Encrypt { path, output }) ==> command == Some(Commands::Encrypt { path, output }),
        r matches Ok(Action::Decrypt { path, output }) ==> command == Some(Commands::Decrypt { path, output }),
{
    match command {
        Some(Commands::Cloud { category }) => match category {
            Some(CloudCommand::Google { task }) => {
                assert(r == drive_action(true, task));
            },
            Some(CloudCommand::Dropbox { task }) => {
                assert(r == drive_action(false, task));
            },
            None => {},
        },
        _ => {},
    }
}

/// `ls` is planned with the flags it was given, and a keeper command as that keeper
/// command; without a subcommand `keeper` cannot be run.
pub proof fn law_ls_and_keeper_keep_their_arguments(command: Option<Commands>, r: Result<Action, CliError>)
    requires
        plans(command, r),
    ensures
        command matches Some(Commands::Ls { local, cloud }) ==> r matches Ok(Action::Ls { local: l, cloud: c }) && l == local && c == cloud,
        command matches Some(Commands::Keeper { category: Some(kc) }) ==> r matches Ok(Action::Keeper(k)) && k == kc,
        command matches Some(Commands::Keeper { category: None }) ==> r matches Err(CliError::MissingKeeperCommand),
{
}

/// A Google Drive task is planned as the same task with Google Drive, and a Dropbox
/// task as the same task with Dropbox, with the path it was given; a cloud command
/// without a task cannot be run.
pub proof fn law_cloud_tasks_keep_their_provider(google: bool, task: Option<DriveCommand>, r: Result<Action, CliError>)
    requires
        plans(Some(Commands::Cloud {
            category: Some(if google { CloudCommand::Google { task } } else { CloudCommand::Dropbox { task } }),
        }), r),
    ensures
        task is None ==> r matches Err(CliError::InvalidInput),
        task matches Some(DriveCommand::Upload) ==> r == Ok::<Action, CliError>(if google { Action::GoogleUpload } else { Action::DropboxUpload }),
        task matches Some(DriveCommand::Download { path }) ==> (if google {
            r matches Ok(Action::GoogleDownload { path: p }) && p == path
        } else {
            r matches Ok(Action::DropboxDownload { path: p }) && p == path
        }),
        task matches Some(DriveCommand::View { path }) ==> (if google {
            r matches Ok(Action::GoogleView { path: p }) && p == path
        } else {
            r matches Ok(Action::DropboxView { path: p }) && p == path
        }),
{
}

} // verus!
