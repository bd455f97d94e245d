use tembo::codec::{parse_config, serialize_config};
use tembo::config::{full_path, Config};
use tembo::context::{tembo_context_file_path, tembo_home_dir};
use tembo::extension::ExtensionLocation;
use tembo::file_utils::FileUtils;
use tembo::instance::{Database, EnabledExtension, InstalledExtension, Instance};

fn sample_instance() -> Instance {
    Instance {
        name: Some("mydb".to_string()),
        stack_type: Some("standard".to_string()),
        port: Some("5432".to_string()),
        version: Some("14.1".to_string()),
        created_at: Some(1700000000),
        installed_extensions: vec![InstalledExtension {
            name: Some("pgmq".to_string()),
            version: Some("1.0".to_string()),
            created_at: None,
        }],
        enabled_extensions: vec![EnabledExtension {
            name: Some("pg_partman".to_string()),
            version: Some("1.0".to_string()),
            created_at: Some(1700000001),
            locations: vec![ExtensionLocation {
                database: "public".to_string(),
                enabled: "true".to_string(),
                version: "1.0".to_string(),
            }],
        }],
        databases: vec![Database { name: "postgres".to_string() }],
    }
}

#[test]
fn write_then_load_returns_the_config_written() {
    let config = Config {
        version: "1.0".to_string(),
        jwt: Some("tok.en".to_string()),
        org_id: Some("org_1234".to_string()),
        instances: vec![sample_instance()],
    };
    let text = serialize_config(&config);
    let loaded = parse_config(text.as_str()).expect("written file must load");
    assert_eq!(loaded, config);
}

#[test]
fn write_then_load_round_trips_the_empty_config() {
    let config = Config::default();
    let text = serialize_config(&config);
    let loaded = parse_config(text.as_str()).expect("written file must load");
    assert_eq!(loaded, config);
    assert_eq!(loaded.version, "1.0");
    assert!(loaded.instances.is_empty());
}

#[test]
fn parse_rejects_garbage_and_trailing_text() {
    assert!(parse_config("").is_none());
    assert!(parse_config("not a config").is_none());
    let config = Config::default();
    let mut text = serialize_config(&config);
    text.push('x');
    assert!(parse_config(text.as_str()).is_none());
}

#[test]
fn full_path_prefers_an_explicit_absolute_path() {
    let cwd = "/work".to_string();
    let explicit = "/etc/tembo.toml".to_string();
    let r = full_path(Some(&explicit), &cwd, None);
    assert_eq!(r, "/etc/tembo.toml");
}

#[test]
fn full_path_joins_a_relative_path_to_the_current_directory() {
    let cwd = "/work".to_string();
    let explicit = "conf/tembo.toml".to_string();
    let r = full_path(Some(&explicit), &cwd, None);
    assert_eq!(r, "/work/conf/tembo.toml");
}

#[test]
fn full_path_defaults_to_the_home_configuration_file() {
    let cwd = "/work".to_string();
    let home = "/home/user".to_string();
    let r = full_path(None, &cwd, Some(&home));
    assert_eq!(r, "/home/user/.config/tembo/configuration.toml");
}

#[test]
fn full_path_falls_back_to_the_current_directory() {
    let cwd = "/work".to_string();
    let r = full_path(None, &cwd, None);
    assert_eq!(r, "/work");
}

#[test]
fn context_paths_hang_off_the_home_directory() {
    let home = "/home/user".to_string();
    assert_eq!(tembo_home_dir(&home), "/home/user/.tembo");
    assert_eq!(tembo_context_file_path(&home), "/home/user/.tembo/context");
}

#[test]
fn append_succeeds_without_effect() {
    assert!(Config::append().is_ok());
}

#[test]
fn creating_a_path_twice_changes_nothing_the_second_time() {
    let mut existing: Vec<String> = vec!["/a".to_string()];
    let path = "/a/b".to_string();
    assert!(FileUtils::needs_creation(&existing, &path));
    FileUtils::record_created(&mut existing, &path);
    let snapshot = existing.clone();
    assert!(!FileUtils::needs_creation(&existing, &path));
    assert_eq!(existing, snapshot);
}
