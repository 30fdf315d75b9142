use crypt_core::config::{Config, ConfigOptions};
use crypt_core::util::config::{lines_of_text, load_settings, parse_lines, settings_file_text, Config as ToolConfig};

fn core_config() -> Config {
    Config {
        database_path: "/home/u/crypt_config/.config/crypt_keeper.db".to_string(),
        crypt_path: "/home/u/crypt".to_string(),
        ignore_hidden: true,
        ignore_items: vec!["target".to_string()],
        hwid: "machine".to_string(),
        zstd_level: 3,
    }
}

#[test]
fn zstd_level_accepts_its_range_only() {
    let mut config = core_config();
    assert!(config.set_zstd_level(22));
    assert_eq!(config.get_zstd_level(), 22);
    assert!(config.set_zstd_level(-7));
    assert_eq!(config.zstd_level, -7);
    assert!(!config.set_zstd_level(23));
    assert!(!config.set_zstd_level(-8));
    assert_eq!(config.zstd_level, -7);
}

#[test]
fn ignore_items_append_and_remove_first() {
    let mut config = core_config();
    config.append_ignore_items("node_modules");
    config.append_ignore_items("target");
    assert_eq!(config.get_ignore_items(), &["target".to_string(), "node_modules".to_string(), "target".to_string()]);
    config.remove_ignore_item("target");
    assert_eq!(config.ignore_items, vec!["node_modules".to_string(), "target".to_string()]);
    config.remove_ignore_item("absent");
    assert_eq!(config.ignore_items, vec!["node_modules".to_string(), "target".to_string()]);
}

#[test]
fn setters_change_one_field() {
    let mut config = core_config();
    config.set_database_path("/db");
    config.set_crypt_path("/c");
    config.set_system_name("box");
    config.set_ignore_hidden(false);
    assert_eq!(config.get_database_path(), "/db");
    assert_eq!(config.get_crypt_path(), "/c");
    assert_eq!(config.get_system_name(), "box");
    assert!(!config.ignore_hidden);
    config.change_db_path("/other".to_string());
    assert_eq!(config.database_path, "/other");
    config.set_ignore_items(vec![]);
    assert!(config.ignore_items.is_empty());
}

#[test]
fn option_names_are_the_file_keys() {
    assert_eq!(ConfigOptions::DatabasePath.to_string(), "database_path");
    assert_eq!(ConfigOptions::CryptPath.to_string(), "crypt_path");
    assert_eq!(ConfigOptions::IgnoreHidden.to_string(), "ignore_hidden");
    assert_eq!(ConfigOptions::IgnoreItems.to_string(), "ignore_items");
    assert_eq!(ConfigOptions::Hwid.to_string(), "hwid");
    assert_eq!(ConfigOptions::ZstdLevel.to_string(), "zstd_level");
}

fn lines(text: &[&str]) -> Vec<String> {
    text.iter().map(|s| s.to_string()).collect()
}

#[test]
fn tool_config_defaults() {
    let config = ToolConfig::default();
    assert_eq!(config.database_path, "crypt_keeper.db");
    assert!(config.retain);
    assert_eq!(config.ignore_items, vec![".".to_string()]);
    assert_eq!(config.zstd_level, 3);
    assert_eq!(ToolConfig::get_fields(), vec!["database_path", "ignore_directories", "retain", "zstd_level"]);
}

#[test]
fn parse_lines_reads_written_settings() {
    let mut config = ToolConfig::default();
    parse_lines(
        &mut config,
        &lines(&["database_path = \"/var/db/keeper.db\"", "retain = false", "zstd_level = -5"]),
    );
    assert_eq!(config.database_path, "/var/db/keeper.db");
    assert!(!config.retain);
    assert_eq!(config.zstd_level, -5);
    assert_eq!(config.ignore_items, vec![".".to_string()]);
}

#[test]
fn parse_lines_keeps_values_it_cannot_read() {
    let mut config = ToolConfig::default();
    parse_lines(&mut config, &lines(&["retain = maybe", "zstd_level = 99999999999", "garbage", "a = b = c"]));
    assert!(config.retain);
    assert_eq!(config.zstd_level, 3);
    assert_eq!(config.database_path, "crypt_keeper.db");
}

#[test]
fn parse_lines_reads_an_inline_list() {
    let mut config = ToolConfig::default();
    parse_lines(&mut config, &lines(&["ignore_directories = [\"target\", \"\", \".git\"]"]));
    assert_eq!(config.ignore_items, vec!["target".to_string(), ".git".to_string()]);
}

#[test]
fn parse_lines_reads_a_list_over_several_lines() {
    let mut config = ToolConfig::default();
    parse_lines(
        &mut config,
        &lines(&["ignore_directories = [", "    \"target\",", "    \"build\",", "]", "retain = false"]),
    );
    assert_eq!(config.ignore_items, vec!["target".to_string(), "build".to_string()]);
    assert!(!config.retain);
}

#[test]
fn parse_lines_closes_an_unfinished_list_at_the_next_setting() {
    let mut config = ToolConfig::default();
    parse_lines(&mut config, &lines(&["ignore_directories = [\"a\",", "zstd_level = 7"]));
    assert_eq!(config.ignore_items, vec!["a".to_string()]);
    assert_eq!(config.zstd_level, 7);
}

#[test]
fn parse_lines_trims_quotes_from_paths() {
    let mut config = ToolConfig::default();
    parse_lines(&mut config, &lines(&["database_path = '\\\\server\\share\\db'"]));
    assert_eq!(config.database_path, "server\\share\\db");
}

#[test]
fn set_retain_reads_booleans_in_any_case() {
    let mut config = ToolConfig::default();
    assert!(config.set_retain("F".to_string()));
    assert!(!config.retain());
    assert!(config.set_retain("TRUE".to_string()));
    assert!(config.retain);
    assert!(!config.set_retain("yes".to_string()));
    assert!(config.retain);
}

#[test]
fn tool_config_items_and_level() {
    let mut config = ToolConfig::default();
    config.append_ignore_items(&"x".to_string());
    config.remove_item(&".".to_string());
    assert_eq!(config.ignore_items(), &["x".to_string()]);
    assert!(!config.set_zstd_level(30));
    assert!(config.set_zstd_level(10));
    assert_eq!(config.get_zstd_level(), 10);
    config.set_database_path(&"/d".to_string());
    assert_eq!(config.get_database_path(), "/d");
}

fn written_file(path: &str, items: &[&str], retain: bool, level: i64) -> Vec<String> {
    let mut table = toml::Table::new();
    table.insert("database_path".to_string(), toml::Value::String(path.to_string()));
    table.insert(
        "ignore_items".to_string(),
        toml::Value::Array(items.iter().map(|s| toml::Value::String(s.to_string())).collect()),
    );
    table.insert("retain".to_string(), toml::Value::Boolean(retain));
    table.insert("zstd_level".to_string(), toml::Value::Integer(level));
    let text = toml::to_string_pretty(&table).unwrap();
    text.lines().map(|l| l.to_string()).collect()
}

#[test]
fn parse_lines_reads_back_a_written_file() {
    for items in [vec![], vec!["target"], vec!["target", "node modules", ".git"]] {
        let mut config = ToolConfig::default();
        config.retain = true;
        parse_lines(&mut config, &written_file("/var/db/keeper.db", &items, false, 19));
        assert_eq!(config.database_path, "/var/db/keeper.db");
        assert_eq!(config.ignore_items, items.iter().map(|s| s.to_string()).collect::<Vec<_>>());
        assert!(!config.retain);
        assert_eq!(config.zstd_level, 19);
    }
}

#[test]
fn parse_lines_reads_the_ignore_items_key() {
    let mut config = ToolConfig::default();
    parse_lines(&mut config, &lines(&["ignore_items = [", "    \"a\",", "    \"b\",", "]"]));
    assert_eq!(config.ignore_items, vec!["a".to_string(), "b".to_string()]);
}

fn tool_config(path: &str, items: &[&str], retain: bool, level: i32) -> ToolConfig {
    let mut config = ToolConfig::default();
    config.database_path = path.to_string();
    config.ignore_items = items.iter().map(|s| s.to_string()).collect();
    config.retain = retain;
    config.zstd_level = level;
    config
}

#[test]
fn settings_file_text_is_the_pretty_toml_file() {
    let one = settings_file_text(&tool_config("crypt_keeper.db", &["."], true, 3)).unwrap();
    assert_eq!(one, "database_path = \"crypt_keeper.db\"\nignore_items = [\".\"]\nretain = true\nzstd_level = 3\n");
    let none = settings_file_text(&tool_config("/db", &[], false, -7)).unwrap();
    assert_eq!(none, "database_path = \"/db\"\nignore_items = []\nretain = false\nzstd_level = -7\n");
    let two = settings_file_text(&tool_config("/db", &["a", "b"], false, 22)).unwrap();
    assert_eq!(
        two,
        "database_path = \"/db\"\nignore_items = [\n    \"a\",\n    \"b\",\n]\nretain = false\nzstd_level = 22\n"
    );
}

#[test]
fn a_saved_configuration_loads_back() {
    for items in [vec![], vec!["target"], vec!["target", "node modules", "été"]] {
        let saved = tool_config("/var/db/keeper.db", &items, false, -5);
        let text = settings_file_text(&saved).unwrap();
        let mut loaded = ToolConfig::default();
        load_settings(&mut loaded, &text);
        assert_eq!(loaded.database_path, saved.database_path);
        assert_eq!(loaded.ignore_items, saved.ignore_items);
        assert_eq!(loaded.retain, saved.retain);
        assert_eq!(loaded.zstd_level, saved.zstd_level);
    }
}

#[test]
fn lines_of_text_splits_as_str_lines() {
    for text in ["", "\n", "a", "a\n", "a\r\nb\n", "foo\nbar\n\r\nbaz\r", "x\n\ny"] {
        let expected: Vec<String> = text.lines().map(|l| l.to_string()).collect();
        assert_eq!(lines_of_text(text), expected, "{:?}", text);
    }
}
