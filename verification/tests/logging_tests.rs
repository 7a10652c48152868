//! The logging plan, the per-target filter, and the install-once guard.

use startup::config::{ApplicationConfig, LogLevel, Rotation};
use startup::logging::{
    build_plan, record_enabled, InitError, LogInitializer, Profile, Sink,
};

fn sample_config() -> ApplicationConfig {
    ApplicationConfig::from_source(
        Some("server_name = \"gateway\"\nlog_level = \"warn\"\nlog_split = \"hour\"\n"),
        String::from("/srv/app"),
    )
    .unwrap()
}

#[test]
fn dev_plan_logs_to_stdout_at_debug() {
    let plan = build_plan(Profile::Dev, &sample_config());
    assert_eq!(plan.sink, Sink::Stdout);
    assert_eq!(plan.max_level, LogLevel::Debug);
    assert!(plan.ansi);
    assert!(plan.pretty);
}

#[test]
fn prod_plan_logs_to_rotated_file_from_config() {
    let plan = build_plan(Profile::Prod, &sample_config());
    match plan.sink {
        Sink::File { dir, file_name, rotation } => {
            assert_eq!(dir, "/srv/app/logs");
            assert_eq!(file_name, "gateway.log");
            assert_eq!(rotation, Rotation::Hourly);
        },
        Sink::Stdout => panic!("expected a file sink"),
    }
    assert_eq!(plan.max_level, LogLevel::Warn);
    assert!(!plan.ansi);
    assert!(!plan.pretty);
}

#[test]
fn h1_target_is_always_suppressed() {
    for level in [
        LogLevel::Trace,
        LogLevel::Debug,
        LogLevel::Info,
        LogLevel::Warn,
        LogLevel::Error,
    ] {
        assert!(!record_enabled("h1", level, LogLevel::Trace));
        assert!(!record_enabled("h1", level, LogLevel::Debug));
    }
}

#[test]
fn other_targets_appear_at_debug_and_above() {
    assert!(record_enabled("app", LogLevel::Debug, LogLevel::Trace));
    assert!(record_enabled("app", LogLevel::Info, LogLevel::Debug));
    assert!(record_enabled("hyper", LogLevel::Error, LogLevel::Warn));
}

#[test]
fn trace_records_stay_below_the_per_target_default() {
    assert!(!record_enabled("app", LogLevel::Trace, LogLevel::Trace));
}

#[test]
fn global_floor_still_applies() {
    assert!(!record_enabled("app", LogLevel::Info, LogLevel::Warn));
}

#[test]
fn second_initialization_is_rejected() {
    let cfg = sample_config();
    let mut init = LogInitializer::new();
    assert!(init.init(Profile::Dev, &cfg).is_ok());
    assert_eq!(
        init.init(Profile::Dev, &cfg).unwrap_err(),
        InitError::AlreadyInitialized
    );
}

#[test]
fn first_initialization_hands_out_the_plan() {
    let cfg = sample_config();
    let mut init = LogInitializer::new();
    let plan = init.init(Profile::Prod, &cfg).unwrap();
    assert_eq!(plan.max_level, LogLevel::Warn);
}
