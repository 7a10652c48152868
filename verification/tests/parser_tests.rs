//! The configuration grammar: comments, whitespace, escapes, integers.

use startup::config::{ApplicationConfig, ConfigError, LogLevel};
use startup::toml::{parse_document, TomlValue};

fn dir() -> String {
    String::from("/srv/app")
}

#[test]
fn comments_and_blank_lines_are_ignored() {
    let src = "# leading comment\n\n   \nport = 81  # trailing comment\n# done\n";
    let cfg = ApplicationConfig::from_source(Some(src), dir()).unwrap();
    assert_eq!(cfg.server_url, "0.0.0.0:81");
}

#[test]
fn whitespace_around_key_and_value_is_accepted() {
    let src = "   port   =   82   \n";
    let cfg = ApplicationConfig::from_source(Some(src), dir()).unwrap();
    assert_eq!(cfg.server_url, "0.0.0.0:82");
}

#[test]
fn carriage_returns_are_tolerated() {
    let src = "port = 83\r\nlog_level = \"warn\"\r\n";
    let cfg = ApplicationConfig::from_source(Some(src), dir()).unwrap();
    assert_eq!(cfg.server_url, "0.0.0.0:83");
    assert_eq!(cfg.log_level, LogLevel::Warn);
}

#[test]
fn string_escapes_are_decoded() {
    let src = "server_name = \"a\\\"b\\\\c\\td\"\n";
    let cfg = ApplicationConfig::from_source(Some(src), dir()).unwrap();
    assert_eq!(cfg.server_name, "a\"b\\c\td");
}

#[test]
fn unknown_escapes_are_rejected() {
    let r = ApplicationConfig::from_source(Some("server_name = \"a\\qb\"\n"), dir());
    assert_eq!(r.unwrap_err(), ConfigError::Syntax);
}

#[test]
fn unknown_keys_are_ignored() {
    let src = "workers = 4\nlabel = \"x\"\nport = 84\n";
    let cfg = ApplicationConfig::from_source(Some(src), dir()).unwrap();
    assert_eq!(cfg.server_url, "0.0.0.0:84");
}

#[test]
fn document_pairs_come_out_in_order() {
    let src = "a = 1\nb = \"two\"\nc = -3\n";
    let ps = parse_document(src).unwrap();
    assert_eq!(ps.len(), 3);
    assert_eq!(ps[0].0, "a");
    assert!(matches!(ps[0].1, TomlValue::Int(1)));
    assert_eq!(ps[1].0, "b");
    match &ps[1].1 {
        TomlValue::Str(s) => assert_eq!(s, "two"),
        TomlValue::Int(_) => panic!("expected a string value"),
    }
    assert_eq!(ps[2].0, "c");
    assert!(matches!(ps[2].1, TomlValue::Int(-3)));
}

#[test]
fn last_line_without_newline_counts() {
    let ps = parse_document("port = 85").unwrap();
    assert_eq!(ps.len(), 1);
    assert!(matches!(ps[0].1, TomlValue::Int(85)));
}

#[test]
fn empty_document_holds_no_pairs() {
    let ps = parse_document("").unwrap();
    assert!(ps.is_empty());
}

#[test]
fn huge_integer_is_rejected() {
    assert!(parse_document("x = 99999999999999999999\n").is_err());
}

#[test]
fn largest_integer_is_accepted() {
    let ps = parse_document("x = 9223372036854775807\n").unwrap();
    assert!(matches!(ps[0].1, TomlValue::Int(9223372036854775807)));
}

#[test]
fn table_headers_are_not_part_of_the_grammar() {
    assert!(parse_document("[server]\nport = 1\n").is_err());
}
