use cdu::ip::Ipv4;
use cdu::state::{Config, LoadError};
use cdu::timestamp::is_valid_timestamp;

fn base_config() -> Config {
    let mut c = Config::default();
    c.last_updated = String::from("2024-03-10T13:54:04.032435Z");
    c
}

#[test]
fn test_load() {
    let mut config = base_config();

    // A missing file is a quiet first run.
    let result = config.load(None);
    assert!(
        result.is_ok(),
        "Expected Ok(()) when loading non-existent file, got {result:?}"
    );

    // A valid file loads.
    let file_content = r#"
        outside_ip = "1.2.3.4"
        cloudflare_ip = "1.2.3.4"
        last_updated = "2024-03-10T13:54:04.032435Z"
        save_dir = "/config"
        file_name = "cdu.toml"
    "#;
    let result = config.load(Some(file_content));
    assert!(result.is_ok(), "Expected successful load, got {result:?}");
    assert_eq!(config.outside_ip, Some(Ipv4 { a: 1, b: 2, c: 3, d: 4 }));
    assert_eq!(config.cloudflare_ip, Some(Ipv4 { a: 1, b: 2, c: 3, d: 4 }));
    assert_eq!(config.last_updated, "2024-03-10T13:54:04.032435Z");

    // An invalid IP field fails.
    let file_content = r#"
        outside_ip = "invalid ip"
        cloudflare_ip = "invalid ip"
        last_updated = "2024-03-10T13:54:04.032435Z"
        save_dir = "/config"
        file_name = "cdu.toml"
    "#;
    let result = config.load(Some(file_content));
    assert!(
        result.is_err(),
        "Expected error when loading file with invalid IP, got {result:?}"
    );
    assert_eq!(result, Err(LoadError::InvalidIp));
}

#[test]
fn test_save() {
    let config = base_config();
    let text = config.save();
    let mut reread = base_config();
    let result = reread.load(Some(text.as_str()));
    assert!(result.is_ok(), "Expected successful save, got {result:?}");
}

#[test]
fn save_produces_exact_text() {
    let mut config = base_config();
    config.outside_ip = Some(Ipv4 { a: 1, b: 2, c: 3, d: 4 });
    config.cloudflare_ip = Some(Ipv4 { a: 5, b: 6, c: 7, d: 8 });
    config.webhook_url = Some(String::from("https://hooks.example/x"));
    let expected = "outside_ip = \"1.2.3.4\"\ncloudflare_ip = \"5.6.7.8\"\nlast_updated = \"2024-03-10T13:54:04.032435Z\"\nsave_dir = \".\"\nfile_name = \"cdu.toml\"\nwebhook_url = \"https://hooks.example/x\"\n";
    assert_eq!(config.save(), expected);
}

#[test]
fn save_then_load_round_trips_all_fields() {
    let mut config = base_config();
    config.outside_ip = Some(Ipv4 { a: 10, b: 0, c: 0, d: 7 });
    config.cloudflare_ip = None;
    config.webhook_url = Some(String::from("https://hooks.example/y"));
    let text = config.save();

    let mut reread = base_config();
    reread.outside_ip = Some(Ipv4 { a: 9, b: 9, c: 9, d: 9 });
    reread.cloudflare_ip = Some(Ipv4 { a: 8, b: 8, c: 8, d: 8 });
    reread.last_updated = String::from("1999-01-01T00:00:00Z");
    let result = reread.load(Some(text.as_str()));
    assert!(result.is_ok());
    assert_eq!(reread.outside_ip, config.outside_ip);
    assert_eq!(reread.cloudflare_ip, config.cloudflare_ip);
    assert_eq!(reread.last_updated, config.last_updated);
    assert_eq!(reread.webhook_url, config.webhook_url);
    assert_eq!(reread.save_dir, config.save_dir);
    assert_eq!(reread.file_name, config.file_name);
}

#[test]
fn load_rejects_duplicate_keys() {
    let mut config = base_config();
    let content = "outside_ip = \"1.2.3.4\"\noutside_ip = \"5.6.7.8\"\n";
    assert_eq!(config.load(Some(content)), Err(LoadError::DuplicateKey));
}

#[test]
fn load_rejects_bad_timestamp() {
    let mut config = base_config();
    let content = "last_updated = \"yesterday\"\n";
    assert_eq!(config.load(Some(content)), Err(LoadError::InvalidTimestamp));
}

#[test]
fn load_rejects_unquoted_value() {
    let mut config = base_config();
    assert_eq!(config.load(Some("outside_ip = 1.2.3.4\n")), Err(LoadError::Syntax));
    assert_eq!(config.load(Some("just some words\n")), Err(LoadError::Syntax));
}

#[test]
fn load_ignores_unknown_keys_and_blank_lines() {
    let mut config = base_config();
    let content = "\n\nnote = \"kept elsewhere\"\noutside_ip = \"4.3.2.1\"\n\n";
    assert!(config.load(Some(content)).is_ok());
    assert_eq!(config.outside_ip, Some(Ipv4 { a: 4, b: 3, c: 2, d: 1 }));
}

#[test]
fn absent_address_fields_clear_and_absent_timestamp_keeps() {
    let mut config = base_config();
    config.outside_ip = Some(Ipv4 { a: 1, b: 1, c: 1, d: 1 });
    config.cloudflare_ip = Some(Ipv4 { a: 2, b: 2, c: 2, d: 2 });
    let before = config.last_updated.clone();
    assert!(config.load(Some("save_dir = \"/config\"\n")).is_ok());
    assert_eq!(config.outside_ip, None);
    assert_eq!(config.cloudflare_ip, None);
    assert_eq!(config.last_updated, before);
    // The file's location fields are not taken from the file.
    assert_eq!(config.save_dir, ".");
}

#[test]
fn load_accepts_missing_final_newline_and_crlf() {
    let mut config = base_config();
    assert!(config.load(Some("outside_ip = \"4.4.4.4\"")).is_ok());
    assert_eq!(config.outside_ip, Some(Ipv4 { a: 4, b: 4, c: 4, d: 4 }));

    let mut config = base_config();
    assert!(config.load(Some("outside_ip = \"2.2.2.2\"\r\ncloudflare_ip = \"3.3.3.3\"\r\n")).is_ok());
    assert_eq!(config.outside_ip, Some(Ipv4 { a: 2, b: 2, c: 2, d: 2 }));
    assert_eq!(config.cloudflare_ip, Some(Ipv4 { a: 3, b: 3, c: 3, d: 3 }));
}

#[test]
fn quoted_values_keep_inner_spaces() {
    let mut config = base_config();
    config.webhook_url = Some(String::from(" padded url "));
    let text = config.save();
    let mut reread = base_config();
    assert!(reread.load(Some(text.as_str())).is_ok());
    assert_eq!(reread.webhook_url, Some(String::from(" padded url ")));
}

#[test]
fn default_config_is_well_formed() {
    let config = Config::default();
    assert_eq!(config.outside_ip, None);
    assert_eq!(config.cloudflare_ip, None);
    assert_eq!(config.save_dir, ".");
    assert_eq!(config.file_name, "cdu.toml");
    assert_eq!(config.webhook_url, None);
    assert!(is_valid_timestamp(config.last_updated.as_str()));
}

#[test]
fn describe_lists_every_field() {
    let mut config = base_config();
    config.outside_ip = Some(Ipv4 { a: 1, b: 2, c: 3, d: 4 });
    assert_eq!(
        config.describe(),
        "Config { outside_ip: 1.2.3.4, cloudflare_ip: None, last_updated: 2024-03-10T13:54:04.032435Z, save_dir: ., file_name: cdu.toml, webhook_url: None }"
    );
}

#[test]
fn config_path_joins_directory_and_file() {
    let mut config = base_config();
    config.save_dir = String::from("/config");
    assert_eq!(config.config_path(), "/config/cdu.toml");
}

#[test]
fn timestamp_shapes() {
    assert!(is_valid_timestamp("2024-03-10T13:54:04.032435Z"));
    assert!(is_valid_timestamp("1970-01-01T00:00:00Z"));
    assert!(!is_valid_timestamp("2024-03-10 13:54:04Z"));
    assert!(!is_valid_timestamp("2024-13-10T13:54:04Z"));
    assert!(!is_valid_timestamp("2024-03-10T13:54:04"));
    assert!(!is_valid_timestamp("2024-03-10T13:54:04.Z"));
    assert!(!is_valid_timestamp(""));
}

#[test]
fn timestamp_calendar_bounds() {
    assert!(is_valid_timestamp("2024-02-29T00:00:00Z"));
    assert!(!is_valid_timestamp("2023-02-29T00:00:00Z"));
    assert!(!is_valid_timestamp("2024-02-31T13:54:04Z"));
    assert!(!is_valid_timestamp("2024-04-31T00:00:00Z"));
    assert!(is_valid_timestamp("2000-02-29T00:00:00Z"));
    assert!(!is_valid_timestamp("1900-02-29T00:00:00Z"));
    assert!(is_valid_timestamp("2024-01-31T00:00:00Z"));
    assert!(!is_valid_timestamp("2024-01-00T00:00:00Z"));
}
