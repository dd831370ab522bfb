use hydrogen::hydrogen_cli::{parse_command_line, parse_quoted_value, ParsedCommand};

#[test]
fn bare_words() {
    assert!(matches!(parse_command_line("quit"), Some(ParsedCommand::Quit)));
    assert!(matches!(parse_command_line("exit"), Some(ParsedCommand::Quit)));
    assert!(matches!(parse_command_line("help"), Some(ParsedCommand::Help)));
}

#[test]
fn empty_and_address_only_lines_reprompt() {
    assert!(parse_command_line("").is_none());
    assert!(parse_command_line("   ").is_none());
    assert!(parse_command_line("127.0.0.1:8080").is_none());
}

#[test]
fn set_with_plain_value_joins_tokens() {
    match parse_command_line("127.0.0.1:8080 set k hello   world") {
        Some(ParsedCommand::Put { address, key, value }) => {
            assert_eq!(address, "127.0.0.1:8080");
            assert_eq!(key, "k");
            assert_eq!(value, "hello world");
        }
        _ => panic!("expected a set"),
    }
}

#[test]
fn set_with_quoted_value_is_verbatim() {
    match parse_command_line("addr set k \"hello   world\"") {
        Some(ParsedCommand::Put { address, key, value }) => {
            assert_eq!(address, "addr");
            assert_eq!(key, "k");
            assert_eq!(value, "hello   world");
        }
        _ => panic!("expected a set"),
    }
}

#[test]
fn set_with_one_quote_reprompts() {
    assert!(parse_command_line("addr set k \"broken value").is_none());
}

#[test]
fn set_usage_error() {
    match parse_command_line("addr set k") {
        Some(ParsedCommand::Error(m)) => assert_eq!(m, "Usage: addr set <key> <value>"),
        _ => panic!("expected a usage error"),
    }
}

#[test]
fn get_del_keys_shapes() {
    match parse_command_line("addr get k") {
        Some(ParsedCommand::Get { address, key }) => {
            assert_eq!(address, "addr");
            assert_eq!(key, "k");
        }
        _ => panic!("expected a get"),
    }
    match parse_command_line("addr del k") {
        Some(ParsedCommand::Del { address, key }) => {
            assert_eq!(address, "addr");
            assert_eq!(key, "k");
        }
        _ => panic!("expected a del"),
    }
    match parse_command_line("addr keys") {
        Some(ParsedCommand::Keys { address }) => assert_eq!(address, "addr"),
        _ => panic!("expected a keys"),
    }
}

#[test]
fn wrong_argument_counts_are_usage_errors() {
    match parse_command_line("addr get") {
        Some(ParsedCommand::Error(m)) => assert_eq!(m, "Usage: addr get <key>"),
        _ => panic!("expected a usage error"),
    }
    match parse_command_line("addr del a b") {
        Some(ParsedCommand::Error(m)) => assert_eq!(m, "Usage: addr del <key>"),
        _ => panic!("expected a usage error"),
    }
    match parse_command_line("addr keys now") {
        Some(ParsedCommand::Error(m)) => assert_eq!(m, "Usage: addr keys"),
        _ => panic!("expected a usage error"),
    }
}

#[test]
fn unknown_client_command() {
    match parse_command_line("addr frobnicate k") {
        Some(ParsedCommand::Error(m)) => assert_eq!(m, "Unknown command: frobnicate"),
        _ => panic!("expected an error"),
    }
}

#[test]
fn quoted_value_extraction() {
    assert_eq!(parse_quoted_value("say \"hi there\" now"), Some("hi there".to_string()));
    assert_eq!(parse_quoted_value("say \"\" now"), Some("".to_string()));
    assert_eq!(parse_quoted_value("no quotes"), None);
    assert_eq!(parse_quoted_value("one \" quote"), None);
}
