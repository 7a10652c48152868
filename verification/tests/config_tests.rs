//! Resolution of the configuration: defaults, supplied values, lenient
//! enum-like strings, and rejection of malformed sources.

use startup::config::{ApplicationConfig, ConfigError, ConfigFile, LogLevel, Rotation};

fn dir() -> String {
    String::from("/srv/app")
}

#[test]
fn absent_source_uses_all_defaults() {
    let cfg = ApplicationConfig::from_source(None, dir()).unwrap();
    assert_eq!(cfg.server_name, "startup");
    assert_eq!(cfg.server_url, "0.0.0.0:8000");
    assert_eq!(cfg.log_level, LogLevel::Info);
    assert_eq!(cfg.log_split, Rotation::Daily);
    assert_eq!(cfg.exe_dir, "/srv/app");
    assert_eq!(cfg.sync_interval, 30);
}

#[test]
fn empty_source_uses_all_defaults() {
    let cfg = ApplicationConfig::from_source(Some(""), dir()).unwrap();
    assert_eq!(cfg.server_name, "startup");
    assert_eq!(cfg.server_url, "0.0.0.0:8000");
    assert_eq!(cfg.log_level, LogLevel::Info);
    assert_eq!(cfg.log_split, Rotation::Daily);
    assert_eq!(cfg.sync_interval, 30);
}

#[test]
fn absent_server_name_defaults_to_package_name() {
    let cfg = ApplicationConfig::from_source(Some("port = 80\n"), dir()).unwrap();
    assert_eq!(cfg.server_name, "startup");
}

#[test]
fn absent_port_defaults_to_8000() {
    let cfg = ApplicationConfig::from_source(Some("server_name = \"x\"\n"), dir()).unwrap();
    assert_eq!(cfg.server_url, "0.0.0.0:8000");
}

#[test]
fn absent_log_level_defaults_to_info() {
    let cfg = ApplicationConfig::from_source(Some("port = 80\n"), dir()).unwrap();
    assert_eq!(cfg.log_level, LogLevel::Info);
}

#[test]
fn absent_log_split_defaults_to_daily() {
    let cfg = ApplicationConfig::from_source(Some("port = 80\n"), dir()).unwrap();
    assert_eq!(cfg.log_split, Rotation::Daily);
}

#[test]
fn absent_sync_interval_defaults_to_30() {
    let cfg = ApplicationConfig::from_source(Some("port = 80\n"), dir()).unwrap();
    assert_eq!(cfg.sync_interval, 30);
}

#[test]
fn supplied_fields_keep_their_values() {
    let src = "server_name = \"gateway\"\nport = 9090\nlog_level = \"error\"\nlog_split = \"hour\"\nsync_interval = 120\n";
    let cfg = ApplicationConfig::from_source(Some(src), dir()).unwrap();
    assert_eq!(cfg.server_name, "gateway");
    assert_eq!(cfg.server_url, "0.0.0.0:9090");
    assert_eq!(cfg.log_level, LogLevel::Error);
    assert_eq!(cfg.log_split, Rotation::Hourly);
    assert_eq!(cfg.sync_interval, 120);
}

#[test]
fn unrecognized_log_level_falls_back_to_info() {
    let cfg = ApplicationConfig::from_source(Some("log_level = \"verbose\"\n"), dir()).unwrap();
    assert_eq!(cfg.log_level, LogLevel::Info);
}

#[test]
fn unrecognized_log_split_falls_back_to_daily() {
    let cfg = ApplicationConfig::from_source(Some("log_split = \"weekly\"\n"), dir()).unwrap();
    assert_eq!(cfg.log_split, Rotation::Daily);
}

#[test]
fn recognized_levels_resolve_exactly() {
    for (text, level) in [
        ("trace", LogLevel::Trace),
        ("debug", LogLevel::Debug),
        ("info", LogLevel::Info),
        ("warn", LogLevel::Warn),
        ("error", LogLevel::Error),
    ] {
        let src = format!("log_level = \"{}\"\n", text);
        let cfg = ApplicationConfig::from_source(Some(&src), dir()).unwrap();
        assert_eq!(cfg.log_level, level);
    }
}

#[test]
fn minute_split_resolves_to_minutely() {
    let cfg = ApplicationConfig::from_source(Some("log_split = \"minute\"\n"), dir()).unwrap();
    assert_eq!(cfg.log_split, Rotation::Minutely);
}

#[test]
fn invalid_syntax_is_a_fatal_error() {
    let r = ApplicationConfig::from_source(Some("this is not toml"), dir());
    assert_eq!(r.unwrap_err(), ConfigError::Syntax);
}

#[test]
fn unterminated_string_is_a_syntax_error() {
    let r = ApplicationConfig::from_source(Some("server_name = \"oops\n"), dir());
    assert_eq!(r.unwrap_err(), ConfigError::Syntax);
}

#[test]
fn missing_value_is_a_syntax_error() {
    let r = ApplicationConfig::from_source(Some("port =\n"), dir());
    assert_eq!(r.unwrap_err(), ConfigError::Syntax);
}

#[test]
fn duplicate_key_is_rejected() {
    let r = ApplicationConfig::from_source(Some("port = 1\nport = 2\n"), dir());
    assert_eq!(r.unwrap_err(), ConfigError::Invalid);
}

#[test]
fn ill_typed_port_is_rejected() {
    let r = ApplicationConfig::from_source(Some("port = \"eighty\"\n"), dir());
    assert_eq!(r.unwrap_err(), ConfigError::Invalid);
}

#[test]
fn out_of_range_port_is_rejected() {
    let r = ApplicationConfig::from_source(Some("port = 70000\n"), dir());
    assert_eq!(r.unwrap_err(), ConfigError::Invalid);
}

#[test]
fn negative_sync_interval_is_rejected() {
    let r = ApplicationConfig::from_source(Some("sync_interval = -5\n"), dir());
    assert_eq!(r.unwrap_err(), ConfigError::Invalid);
}

#[test]
fn end_to_end_port_and_level() {
    let cfg =
        ApplicationConfig::from_source(Some("port = 3000\nlog_level = \"warn\"\n"), dir()).unwrap();
    assert_eq!(cfg.server_url, "0.0.0.0:3000");
    assert_eq!(cfg.log_level, LogLevel::Warn);
    assert_eq!(cfg.server_name, "startup");
}

#[test]
fn resolve_keeps_supplied_raw_fields() {
    let raw = ConfigFile {
        server_name: Some(String::from("svc")),
        port: Some(81),
        log_level: Some(String::from("debug")),
        log_split: Some(String::from("minute")),
        sync_interval: Some(7),
    };
    let cfg = ApplicationConfig::resolve(raw, dir());
    assert_eq!(cfg.server_name, "svc");
    assert_eq!(cfg.server_url, "0.0.0.0:81");
    assert_eq!(cfg.log_level, LogLevel::Debug);
    assert_eq!(cfg.log_split, Rotation::Minutely);
    assert_eq!(cfg.sync_interval, 7);
    assert_eq!(cfg.exe_dir, "/srv/app");
}
