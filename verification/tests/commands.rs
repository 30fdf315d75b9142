use crypt_core::cli::{
    plan, Action, CliError, CloudCommand, Commands, ConfigCommand, DriveCommand, KeeperCommand,
    KeeperPurgeSubCommand,
};
use crypt_core::config::{Config, ConfigTask, ItemsTask};
use crypt_core::directive::{
    answer_of, config, confirm_path, confirmation, default_items, dropbox_download, dropbox_upload, dropbox_view, keeper,
    ls, purge_reply, upload_route, upload_step, ConfigReply, Confirmation, KeeperStep, LsView, PurgeReply, UploadStep,
};

fn core_config() -> Config {
    Config {
        database_path: "/db".to_string(),
        crypt_path: "/crypt".to_string(),
        ignore_hidden: true,
        ignore_items: vec!["target".to_string(), "x".to_string()],
        hwid: "pc".to_string(),
        zstd_level: 3,
    }
}

#[test]
fn plan_maps_commands_to_actions() {
    assert!(matches!(plan(None), Ok(Action::Nothing)));
    assert!(matches!(plan(Some(Commands::Ls { local: true, cloud: false })), Ok(Action::Ls { local: true, cloud: false })));
    match plan(Some(Commands::Encrypt { path: "f.txt".to_string(), output: Some("o".to_string()) })) {
        Ok(Action::Encrypt { path, output }) => {
            assert_eq!(path, "f.txt");
            assert_eq!(output, Some("o".to_string()));
        }
        _ => panic!(),
    }
    let google_view = Commands::Cloud { category: Some(CloudCommand::Google { task: Some(DriveCommand::View { path: "Crypt".to_string() }) }) };
    assert!(matches!(plan(Some(google_view)), Ok(Action::GoogleView { path }) if path == "Crypt"));
    let dropbox_up = Commands::Cloud { category: Some(CloudCommand::Dropbox { task: Some(DriveCommand::Upload) }) };
    assert!(matches!(plan(Some(dropbox_up)), Ok(Action::DropboxUpload)));
    let keeper_list = Commands::Keeper { category: Some(KeeperCommand::List) };
    assert!(matches!(plan(Some(keeper_list)), Ok(Action::Keeper(KeeperCommand::List))));
}

#[test]
fn plan_refuses_incomplete_commands() {
    let no_task = Commands::Cloud { category: Some(CloudCommand::Google { task: None }) };
    assert!(matches!(plan(Some(no_task)), Err(CliError::InvalidInput)));
    assert!(matches!(plan(Some(Commands::Keeper { category: None })), Err(CliError::MissingKeeperCommand)));
    let bad_items = Commands::Config {
        category: Some(ConfigCommand::IgnoreItems { add_remove: "toggle".to_string(), item: "a".to_string() }),
    };
    assert!(matches!(plan(Some(bad_items)), Err(CliError::InvalidInput)));
    let bad_level = Commands::Config { category: Some(ConfigCommand::ZstdLevel { level: "high".to_string() }) };
    assert!(matches!(plan(Some(bad_level)), Err(CliError::InvalidLevel)));
}

#[test]
fn plan_reads_config_subcommands() {
    let add = Commands::Config {
        category: Some(ConfigCommand::IgnoreItems { add_remove: "ADD".to_string(), item: "node_modules".to_string() }),
    };
    match plan(Some(add)) {
        Ok(Action::Configure { path, task: ConfigTask::IgnoreItems(ItemsTask::Add, item) }) => {
            assert_eq!(path, "");
            assert_eq!(item, "node_modules");
        }
        _ => panic!(),
    }
    let remove = Commands::Config { category: Some(ConfigCommand::IgnoreItems { add_remove: "r".to_string(), item: "y".to_string() }) };
    assert!(matches!(plan(Some(remove)), Ok(Action::Configure { task: ConfigTask::IgnoreItems(ItemsTask::Remove, _), .. })));
    let level = Commands::Config { category: Some(ConfigCommand::ZstdLevel { level: "-3".to_string() }) };
    assert!(matches!(plan(Some(level)), Ok(Action::Configure { task: ConfigTask::ZstdLevel(-3), .. })));
    let db = Commands::Config { category: Some(ConfigCommand::DatabasePath { path: "/new".to_string() }) };
    assert!(matches!(plan(Some(db)), Ok(Action::Configure { path, task: ConfigTask::DatabasePath }) if path == "/new"));
    assert!(matches!(plan(Some(Commands::Config { category: Some(ConfigCommand::Hwid) })), Ok(Action::ShowMachineName)));
    assert!(matches!(plan(Some(Commands::Config { category: Some(ConfigCommand::LoadDefault) })), Ok(Action::Configure { task: ConfigTask::LoadDefault, .. })));
}

#[test]
fn config_subcommands_without_a_value_show_the_setting() {
    let items = Commands::Config { category: Some(ConfigCommand::IgnoreItems { add_remove: String::new(), item: String::new() }) };
    assert!(matches!(plan(Some(items)), Ok(Action::ShowIgnoreItems)));
    let level = Commands::Config { category: Some(ConfigCommand::ZstdLevel { level: String::new() }) };
    assert!(matches!(plan(Some(level)), Ok(Action::ShowZstdLevel)));
}

#[test]
fn import_needs_a_path() {
    assert_eq!(KeeperCommand::import(&String::new()), Some("please add a path to the csv".to_string()));
    assert_eq!(KeeperCommand::import(&"keeper.csv".to_string()), None);
}

#[test]
fn config_tasks_change_the_configuration() {
    let mut conf = core_config();
    assert!(matches!(config(&mut conf, "", ConfigTask::DatabasePath), ConfigReply::ShowDatabasePath));
    assert!(matches!(config(&mut conf, "/elsewhere", ConfigTask::DatabasePath), ConfigReply::ConfirmDatabasePath));
    assert!(matches!(config(&mut conf, "", ConfigTask::CryptPath), ConfigReply::ShowCryptPath));
    assert_eq!(conf.database_path, "/db");
    assert!(matches!(config(&mut conf, "", ConfigTask::IgnoreItems(ItemsTask::Add, "y".to_string())), ConfigReply::ItemsChanged));
    assert_eq!(conf.ignore_items, vec!["target".to_string(), "x".to_string(), "y".to_string()]);
    config(&mut conf, "", ConfigTask::IgnoreItems(ItemsTask::Remove, "x".to_string()));
    assert_eq!(conf.ignore_items, vec!["target".to_string(), "y".to_string()]);
    config(&mut conf, "", ConfigTask::IgnoreItems(ItemsTask::Default, String::new()));
    assert_eq!(conf.ignore_items, vec!["target".to_string()]);
    assert!(matches!(config(&mut conf, "", ConfigTask::ZstdLevel(19)), ConfigReply::LevelChanged(19)));
    assert_eq!(conf.zstd_level, 19);
    assert!(matches!(config(&mut conf, "", ConfigTask::ZstdLevel(40)), ConfigReply::LevelRejected));
    assert_eq!(conf.zstd_level, 19);
    assert!(matches!(config(&mut conf, "", ConfigTask::LoadDefault), ConfigReply::RestoreDefault));
    assert!(matches!(config(&mut conf, "laptop", ConfigTask::Hwid), ConfigReply::RenameSystem));
    assert_eq!(conf.hwid, "laptop");
    match config(&mut conf, "", ConfigTask::Hwid) {
        ConfigReply::ShowSystemName(name) => assert_eq!(name, "laptop"),
        _ => panic!(),
    }
    assert_eq!(conf.hwid, "laptop");
    assert_eq!(default_items(), vec!["target".to_string()]);
}

#[test]
fn keeper_steps() {
    assert!(matches!(keeper(&KeeperCommand::Import { path: String::new() }), KeeperStep::Show(m) if m == "please add a path to the csv"));
    assert!(matches!(keeper(&KeeperCommand::Import { path: "k.csv".to_string() }), KeeperStep::Import(p) if p == "k.csv"));
    assert!(matches!(keeper(&KeeperCommand::Export { alt_path: String::new() }), KeeperStep::Export(None)));
    assert!(matches!(keeper(&KeeperCommand::Export { alt_path: "o.csv".to_string() }), KeeperStep::Export(Some(p)) if p == "o.csv"));
    assert!(matches!(keeper(&KeeperCommand::Purge { category: Some(KeeperPurgeSubCommand::Token) }), KeeperStep::PurgeTokens));
    assert!(matches!(keeper(&KeeperCommand::Purge { category: Some(KeeperPurgeSubCommand::Database) }), KeeperStep::ConfirmPurgeDatabase));
    assert!(matches!(keeper(&KeeperCommand::Purge { category: None }), KeeperStep::InvalidEntry));
    assert!(matches!(keeper(&KeeperCommand::List), KeeperStep::List));
}

#[test]
fn purge_needs_the_exact_phrase() {
    assert!(purge_reply("delete database\n") == (PurgeReply::Delete, "delete database".to_string()));
    assert!(purge_reply("  q\r\n") == (PurgeReply::Quit, "q".to_string()));
    assert!(purge_reply("delete\n") == (PurgeReply::AskAgain, String::new()));
}

#[test]
fn a_wrong_line_only_asks_again() {
    let mut phrase = String::new();
    phrase.push_str("oops\n");
    let (reply, kept) = purge_reply(&phrase);
    assert!(reply == PurgeReply::AskAgain);
    phrase = kept;
    phrase.push_str("delete database\n");
    assert!(purge_reply(&phrase).0 == PurgeReply::Delete);
}

#[test]
fn path_changes_wait_for_a_yes() {
    assert!(confirmation("y\n") == Confirmation::Yes);
    assert!(confirmation(" N \r\n") == Confirmation::No);
    assert!(confirmation("yes\n") == Confirmation::AskAgain);
    assert!(answer_of("y") == Confirmation::Yes);
    assert!(answer_of("Y") == Confirmation::AskAgain);
    let mut conf = core_config();
    assert!(!confirm_path(&mut conf, &ConfigTask::DatabasePath, "/new.db", Confirmation::No, true));
    assert!(!confirm_path(&mut conf, &ConfigTask::DatabasePath, "/new.db", Confirmation::Yes, false));
    assert_eq!(conf.database_path, "/db");
    assert!(confirm_path(&mut conf, &ConfigTask::DatabasePath, "/new.db", Confirmation::Yes, true));
    assert_eq!(conf.database_path, "/new.db");
    assert_eq!(conf.crypt_path, "/crypt");
    assert!(confirm_path(&mut conf, &ConfigTask::CryptPath, "/c2", Confirmation::Yes, true));
    assert_eq!(conf.crypt_path, "/c2");
    assert_eq!(conf.database_path, "/new.db");
}

#[test]
fn ls_shows_the_cloud_only_when_asked() {
    assert!(ls(&false, &true) == LsView::Cloud);
    assert!(ls(&true, &false) == LsView::Local);
    assert!(ls(&false, &false) == LsView::Local);
    assert!(ls(&true, &true) == LsView::Both);
}

#[test]
fn dropbox_tasks_do_nothing() {
    dropbox_upload("");
    dropbox_download("a");
    dropbox_view("b");
}

fn parts(p: &[&str]) -> Vec<String> {
    p.iter().map(|s| s.to_string()).collect()
}

#[test]
fn upload_route_follows_the_crypt_folder() {
    let route = upload_route(&parts(&["/", "home", "u", "crypt", "docs", "2024", "a.crypt"]));
    assert_eq!(route, Some((parts(&["docs", "2024"]), "a.crypt".to_string())));
    assert_eq!(upload_route(&parts(&["crypt", "a.crypt"])), Some((vec![], "a.crypt".to_string())));
    assert_eq!(upload_route(&parts(&["home", "crypt"])), None);
    assert_eq!(upload_route(&parts(&["home", "a.crypt"])), None);
    assert_eq!(upload_route(&parts(&["crypt", "x", "crypt", "b"])), Some((parts(&["x", "crypt"]), "b".to_string())));
}

#[test]
fn upload_updates_an_existing_drive_copy_or_uploads_anew() {
    assert!(upload_step("id1", true, Some("id2".to_string())) == (UploadStep::Updated, "id2".to_string()));
    assert!(upload_step("id1", true, Some(String::new())) == (UploadStep::Upload, String::new()));
    assert!(upload_step("id1", true, None) == (UploadStep::Upload, String::new()));
    assert!(upload_step("id1", false, None) == (UploadStep::Upload, "id1".to_string()));
    assert!(upload_step("", false, None) == (UploadStep::Upload, String::new()));
}
