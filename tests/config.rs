use ovos_bus::config::{Config, RootConfig, WebSocketConfig};
use std::collections::HashMap;

fn section() -> WebSocketConfig {
    WebSocketConfig {
        host: Some("127.0.0.1".to_string()),
        port: None,
        route: Some("/bus".to_string()),
        ssl: Some(true),
        max_msg_size: Some(10),
        extra: HashMap::new(),
    }
}

#[test]
fn defaults_are_the_built_in_settings() {
    let c = Config::defaults();
    assert_eq!(c.host, "0.0.0.0");
    assert_eq!(c.port, 8181);
    assert_eq!(c.route, "/core");
    assert!(!c.ssl);
    assert_eq!(c.max_msg_size, 25);
    assert!(c.extra.is_empty());
}

#[test]
fn max_msg_bytes_converts_megabytes() {
    assert_eq!(Config::defaults().max_msg_bytes(), 26_214_400);
}

#[test]
fn file_section_overrides_given_keys() {
    let c = Config::apply_config(RootConfig { websocket: Some(section()) }, Config::defaults());
    assert_eq!(c.host, "127.0.0.1");
    assert_eq!(c.port, 8181);
    assert_eq!(c.route, "/bus");
    assert!(c.ssl);
    assert_eq!(c.max_msg_size, 10);
}

#[test]
fn missing_section_keeps_config() {
    let c = Config::apply_config(RootConfig { websocket: None }, Config::defaults());
    assert_eq!(c.host, "0.0.0.0");
    assert_eq!(c.route, "/core");
}

#[test]
fn environment_overrides_file() {
    let c = Config::new(
        Some(RootConfig { websocket: Some(section()) }),
        Some("10.0.0.1".to_string()),
        Some("9000".to_string()),
        Some("+3".to_string()),
    );
    assert_eq!(c.host, "10.0.0.1");
    assert_eq!(c.port, 9000);
    assert_eq!(c.route, "/bus");
    assert_eq!(c.max_msg_size, 3);
}

#[test]
fn unparsable_environment_numbers_are_ignored() {
    let c = Config::apply_env(
        Config::defaults(),
        None,
        Some("70000".to_string()),
        Some("-1".to_string()),
    );
    assert_eq!(c.port, 8181);
    assert_eq!(c.max_msg_size, 25);
    let d = Config::apply_env(Config::defaults(), None, Some(" 80".to_string()), Some("".to_string()));
    assert_eq!(d.port, 8181);
    assert_eq!(d.max_msg_size, 25);
}

#[test]
fn no_file_no_environment_gives_defaults() {
    let c = Config::new(None, None, None, None);
    assert_eq!(c.host, "0.0.0.0");
    assert_eq!(c.port, 8181);
    assert_eq!(c.max_msg_size, 25);
}
