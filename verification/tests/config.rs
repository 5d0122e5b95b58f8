use portpal::config::{
    initialize_config, sample_config, validate_config_file, ConfigFile, ConnectionConfig,
};
use portpal::paths::{application_support_dir, config_path, socket_path};

fn connection(name: &str, local_port: u16) -> ConnectionConfig {
    ConnectionConfig {
        name: name.to_string(),
        ssh_host: "box".to_string(),
        local_port,
        remote_host: "127.0.0.1".to_string(),
        remote_port: 5432,
        auto_start: true,
        reconnect_delay_seconds: 10,
        startup_grace_period_seconds: None,
    }
}

fn parse_config(text: &str) -> ConfigFile {
    let value: toml::Value = toml::from_str(text).unwrap();
    let mut connections = Vec::new();
    if let Some(list) = value.get("connections").and_then(|v| v.as_array()) {
        for entry in list {
            connections.push(ConnectionConfig {
                name: entry["name"].as_str().unwrap().to_string(),
                ssh_host: entry["ssh_host"].as_str().unwrap().to_string(),
                local_port: entry["local_port"].as_integer().unwrap() as u16,
                remote_host: entry["remote_host"].as_str().unwrap().to_string(),
                remote_port: entry["remote_port"].as_integer().unwrap() as u16,
                auto_start: entry["auto_start"].as_bool().unwrap(),
                reconnect_delay_seconds: entry["reconnect_delay_seconds"].as_integer().unwrap()
                    as u64,
                startup_grace_period_seconds: entry
                    .get("startup_grace_period_seconds")
                    .and_then(|v| v.as_integer())
                    .map(|v| v as u64),
            });
        }
    }
    ConfigFile { connections }
}

#[test]
fn rejects_duplicate_names() {
    let config = ConfigFile {
        connections: vec![connection("db", 15432), connection("db", 15433)],
    };

    let error = config.validate().unwrap_err().message();
    assert!(error.contains("duplicate connection name"));
}

#[test]
fn rejects_duplicate_local_ports() {
    let config = ConfigFile {
        connections: vec![connection("db-a", 15432), connection("db-b", 15432)],
    };

    let error = config.validate().unwrap_err().message();
    assert!(error.contains("duplicate local port"));
}

#[test]
fn rejects_blank_name() {
    let connection = connection("", 15432);
    let error = connection.validate().unwrap_err().message();
    assert!(error.contains("connection name is required"));
}

#[test]
fn rejects_blank_ssh_host() {
    let mut connection = connection("db", 15432);
    connection.ssh_host = "   ".to_string();

    let error = connection.validate().unwrap_err().message();
    assert!(error.contains("ssh_host is required"));
}

#[test]
fn rejects_blank_remote_host() {
    let mut connection = connection("db", 15432);
    connection.remote_host = "   ".to_string();

    let error = connection.validate().unwrap_err().message();
    assert!(error.contains("remote_host is required"));
}

#[test]
fn rejects_zero_ports() {
    let mut local_port_connection = connection("db", 15432);
    local_port_connection.local_port = 0;
    let local_port_error = local_port_connection.validate().unwrap_err().message();
    assert!(local_port_error.contains("local_port must be between 1 and 65535"));

    let mut remote_port_connection = connection("db", 15432);
    remote_port_connection.remote_port = 0;
    let remote_port_error = remote_port_connection.validate().unwrap_err().message();
    assert!(remote_port_error.contains("remote_port must be between 1 and 65535"));
}

#[test]
fn sample_config_is_valid_toml() {
    let config = parse_config(&sample_config());
    assert_eq!(config.connections.len(), 1);
    assert_eq!(config.connections[0].name, "example-postgres");
    config.validate().unwrap();
}

#[test]
fn validate_config_file_requires_existing_path() {
    let path = "/tmp/portpal-missing-config.toml";

    let error = validate_config_file(path, None).unwrap_err().message();
    assert!(error.contains("config file does not exist"));
}

#[test]
fn validate_config_file_accepts_existing_valid_file() {
    let path = "/tmp/portpal-valid-config.toml";
    let config = parse_config(&sample_config());
    validate_config_file(path, Some(config)).unwrap();
}

#[test]
fn config_commands_use_home_scoped_paths() {
    let home = "/tmp/pp-config-commands";

    assert_eq!(config_path(home), "/tmp/pp-config-commands/.config/portpal/portpal.toml");
    assert_eq!(socket_path(home), "/tmp/pp-config-commands/.config/portpal/portpal.sock");

    let contents = initialize_config(&config_path(home), false).unwrap();
    assert_eq!(contents, sample_config());

    validate_config_file(&config_path(home), Some(parse_config(&contents))).unwrap();

    let second = initialize_config(&config_path(home), true).unwrap_err().message();
    assert!(second.contains("config already exists"));
}

#[test]
fn paths_join_without_doubling_separators() {
    assert_eq!(application_support_dir("/home/me/"), "/home/me/.config/portpal");
    assert_eq!(application_support_dir(""), ".config/portpal");
}

#[test]
fn validation_reports_problems_in_file_order_with_names() {
    let mut first = connection("first", 1);
    first.remote_port = 0;
    let second = connection("", 2);
    let config = ConfigFile { connections: vec![first, second] };
    assert_eq!(
        config.validate().unwrap_err().message(),
        "remote_port must be between 1 and 65535 for first"
    );

    let mut blank_host = connection("db", 15432);
    blank_host.ssh_host = "\t\u{3000}\n".to_string();
    assert_eq!(blank_host.validate().unwrap_err().message(), "ssh_host is required for db");

    let config = ConfigFile {
        connections: vec![connection("a", 15432), connection("b", 15433), connection("c", 15432)],
    };
    assert_eq!(config.validate().unwrap_err().message(), "duplicate local port: 15432");

    let config = ConfigFile {
        connections: vec![connection("a", 15432), connection("a", 15432)],
    };
    assert_eq!(config.validate().unwrap_err().message(), "duplicate connection name: a");
}

#[test]
fn names_with_inner_spaces_are_accepted() {
    let config = ConfigFile {
        connections: vec![connection(" db one ", 15432), connection("db two", 15433)],
    };
    config.validate().unwrap();
}

#[test]
fn startup_grace_period_defaults_to_three_seconds() {
    let mut c = connection("db", 15432);
    assert_eq!(c.startup_grace_period_secs(), 3);
    c.startup_grace_period_seconds = Some(7);
    assert_eq!(c.startup_grace_period_secs(), 7);
}

#[test]
fn load_without_file_is_empty_and_load_validates() {
    let empty = ConfigFile::load(None).unwrap();
    assert!(empty.connections.is_empty());

    let bad = ConfigFile { connections: vec![connection("db", 0)] };
    let error = ConfigFile::load(Some(bad)).unwrap_err().message();
    assert_eq!(error, "local_port must be between 1 and 65535 for db");
}

#[test]
fn config_equality_compares_every_field() {
    let a = connection("db", 15432);
    let mut b = connection("db", 15432);
    assert!(a.same_as(&b));
    b.startup_grace_period_seconds = Some(3);
    assert!(!a.same_as(&b));
}
