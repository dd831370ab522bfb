use hydrogen::api::{ApiError, Command};

fn parse_ok(line: &str) -> Command {
    match Command::parse(line) {
        Ok(c) => c,
        Err(_) => panic!("line should parse: {line}"),
    }
}

fn parse_err(line: &str) {
    match Command::parse(line) {
        Ok(_) => panic!("line should not parse: {line}"),
        Err(ApiError::InvalidCommand(_)) => {}
        Err(_) => panic!("parse failures are InvalidCommand"),
    }
}

#[test]
fn set_unquoted_collapses_whitespace() {
    match parse_ok("SET k  a   b \t c") {
        Command::Put { key, value } => {
            assert_eq!(key, "k");
            assert_eq!(value, "a b c");
        }
        _ => panic!("expected a SET"),
    }
}

#[test]
fn set_quoted_keeps_whitespace() {
    match parse_ok("SET k \"a   b\"") {
        Command::Put { key, value } => {
            assert_eq!(key, "k");
            assert_eq!(value, "a   b");
        }
        _ => panic!("expected a SET"),
    }
}

#[test]
fn set_quoted_empty_value() {
    match parse_ok("SET k \"\"") {
        Command::Put { key, value } => {
            assert_eq!(key, "k");
            assert_eq!(value, "");
        }
        _ => panic!("expected a SET"),
    }
}

#[test]
fn set_lone_quote_is_collapsed_value() {
    match parse_ok("SET k \"") {
        Command::Put { value, .. } => assert_eq!(value, "\""),
        _ => panic!("expected a SET"),
    }
}

#[test]
fn set_missing_value_is_rejected() {
    parse_err("SET k");
    parse_err("SET");
    parse_err("SET k   ");
}

#[test]
fn commands_are_case_insensitive() {
    assert!(matches!(parse_ok("set k v"), Command::Put { .. }));
    assert!(matches!(parse_ok("get k"), Command::Get { .. }));
    assert!(matches!(parse_ok("dEl k"), Command::Delete { .. }));
    assert!(matches!(parse_ok("delete k"), Command::Delete { .. }));
    assert!(matches!(parse_ok("keys"), Command::Keys));
}

#[test]
fn del_and_delete_are_aliases() {
    match parse_ok("DEL k") {
        Command::Delete { key } => assert_eq!(key, "k"),
        _ => panic!("expected a DEL"),
    }
    match parse_ok("DELETE k") {
        Command::Delete { key } => assert_eq!(key, "k"),
        _ => panic!("expected a DEL"),
    }
}

#[test]
fn keys_takes_no_arguments() {
    assert!(matches!(parse_ok("KEYS"), Command::Keys));
    parse_err("KEYS now");
}

#[test]
fn unknown_command_is_rejected() {
    parse_err("FOO bar");
    parse_err("SETT k v");
}

#[test]
fn empty_line_is_rejected_by_parse() {
    parse_err("");
    parse_err("   \t  ");
}

#[test]
fn get_requires_exactly_one_key() {
    parse_err("GET");
    parse_err("GET a b");
    match parse_ok("GET k1") {
        Command::Get { key } => assert_eq!(key, "k1"),
        _ => panic!("expected a GET"),
    }
}

#[test]
fn key_validation_scenarios() {
    parse_err("GET key-");
    parse_err("GET -key");
    parse_err("GET key__name");
    parse_err("GET \"has space\"");
    assert!(matches!(parse_ok("GET valid-key_1"), Command::Get { .. }));
    // A leading digit breaks no rule of the key grammar.
    assert!(matches!(parse_ok("GET 1key"), Command::Get { .. }));
}

#[test]
fn validate_key_rules() {
    assert!(Command::validate_key("abc-def_9").is_ok());
    assert!(Command::validate_key("a").is_ok());
    assert!(Command::validate_key("").is_err());
    assert!(Command::validate_key("a b").is_err());
    assert!(Command::validate_key("a!b").is_err());
    assert!(Command::validate_key("_a").is_err());
    assert!(Command::validate_key("a_").is_err());
    assert!(Command::validate_key("a--b").is_err());
    assert!(Command::validate_key("a-_b").is_err());
    assert!(Command::validate_key("-").is_err());
}
