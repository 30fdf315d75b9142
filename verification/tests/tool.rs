use crypt_core::ui::cli::{cloud_request, CloudCommand, DriveCommand};
use crypt_core::ui::ui_repo::CharacterSet;
use crypt_core::util::common::{prepend_uuid, token_key, Cloud};
use crypt_core::util::config::Config;
use crypt_core::util::directive::{upload_plan, CloudPlatform, CloudTask, ConfigTask, Directive, DirectiveReply, ItemsTask};
use crypt_core::util::path::PathInfo;
use crypt_core::util::encryption::{get_file_info, EncryptErrors};
use crypt_core::util::parse;

#[test]
fn prepend_uuid_moves_the_contents() {
    let uuid = "550e8400-e29b-41d4-a716-446655440000".to_string();
    let mut contents = vec![1u8, 2, 3];
    let framed = prepend_uuid(&uuid, &mut contents);
    assert_eq!(&framed[..36], uuid.as_bytes());
    assert_eq!(&framed[36..], &[1, 2, 3]);
    assert!(contents.is_empty());
    let mut more = vec![4u8];
    let framed = parse::prepend_uuid(&uuid, &mut more);
    assert_eq!(framed.len(), 37);
    assert!(more.is_empty());
}

#[test]
fn token_variables() {
    assert_eq!(token_key(Cloud::Drive), "CRYPT_DRIVE_TOKEN");
    assert_eq!(token_key(Cloud::Dropbox), "CRYPT_DROPBOX_TOKEN");
}

#[test]
fn directive_config_tasks() {
    let directive = Directive::new(String::new());
    assert_eq!(directive.path, "");
    let mut config = Config::default();
    assert!(matches!(directive.config(&mut config, ConfigTask::DatabasePath), DirectiveReply::ShowDatabasePath));
    assert!(matches!(directive.config(&mut config, ConfigTask::Retain(false)), DirectiveReply::RetainChanged(false)));
    assert!(!config.retain);
    directive.config(&mut config, ConfigTask::IgnoreItems(ItemsTask::Add, "t".to_string()));
    directive.config(&mut config, ConfigTask::IgnoreItems(ItemsTask::Remove, ".".to_string()));
    assert_eq!(config.ignore_items, vec!["t".to_string()]);
    assert!(matches!(directive.config(&mut config, ConfigTask::ZstdLevel(-8)), DirectiveReply::LevelRejected));
    assert!(matches!(directive.config(&mut config, ConfigTask::ZstdLevel(-7)), DirectiveReply::LevelChanged(-7)));
    let other = Directive::new("x.db".to_string());
    assert!(matches!(other.config(&mut config, ConfigTask::DatabasePath), DirectiveReply::ConfirmDatabasePath));
}

#[test]
fn cloud_requests() {
    assert!(cloud_request(None).is_none());
    let (platform, task, path) = cloud_request(Some(CloudCommand::Google { task: None })).unwrap();
    assert!(platform == CloudPlatform::Google && task == CloudTask::View && path.is_empty());
    let (platform, task, path) =
        cloud_request(Some(CloudCommand::Dropbox { task: Some(DriveCommand::Upload { path: "f".to_string() }) })).unwrap();
    assert!(platform == CloudPlatform::DropBox && task == CloudTask::Upload && path == "f");
}

#[test]
fn file_info_and_errors() {
    let (fp, parent, name, ext) = get_file_info("/w/file.txt".to_string(), "/w".to_string(), "file.txt");
    assert_eq!((fp.as_str(), parent.as_str(), name.as_str(), ext.as_str()), ("/w/file.txt", "/w", "file", ".txt"));
    let EncryptErrors::HashFail(message) = EncryptErrors::HashFail("m".to_string());
    assert_eq!(message, "m");
}

#[test]
fn character_sets() {
    let set = CharacterSet::u8_sline_curve();
    assert_eq!((set.h_line, set.v_line, set.joint, set.node), ('─', '│', '├', '╰'));
    assert_eq!(CharacterSet::ascii_sline().node, '`');
    assert_eq!(CharacterSet::u8_dline().joint, '╠');
    assert_eq!(CharacterSet::u8_sline_bold().h_line, '━');
    assert_eq!(CharacterSet::u8_sline().node, '└');
}

#[test]
fn upload_plan_puts_folders_first() {
    let entry = |name: &str, is_dir: bool| PathInfo {
        full_path: format!("/r/{}", name),
        is_dir,
        parent: "/r".to_string(),
        name: name.to_string(),
    };
    let root = entry("r", true);
    let paths = vec![entry("r", true), entry("a.txt", false), entry("d", true), entry("b.txt", false), entry("e", true)];
    let (folders, files) = upload_plan(&root, &paths);
    let names = |v: &Vec<PathInfo>| v.iter().map(|p| p.name.clone()).collect::<Vec<_>>();
    assert_eq!(names(&folders), vec!["d", "e"]);
    assert_eq!(names(&files), vec!["a.txt", "b.txt"]);
}
