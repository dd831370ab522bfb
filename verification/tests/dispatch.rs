use hydrogen::api::{execute_command, process_line, process_request, Command};
use hydrogen::cache::Hydrogen;

fn line(store: &mut Hydrogen, text: &str) -> String {
    match process_line(store, text) {
        Some(reply) => reply.response,
        None => panic!("line should get a response: {text}"),
    }
}

#[test]
fn set_answers_ok_and_get_answers_the_value() {
    let mut store = Hydrogen::new();
    assert_eq!(line(&mut store, "SET k hello"), "OK");
    assert_eq!(line(&mut store, "GET k"), "hello");
}

#[test]
fn quoted_set_round_trips_inner_whitespace() {
    let mut store = Hydrogen::new();
    assert_eq!(line(&mut store, "SET k \"a   b\""), "OK");
    assert_eq!(line(&mut store, "GET k"), "a   b");
}

#[test]
fn get_miss_answers_null() {
    let mut store = Hydrogen::new();
    assert_eq!(line(&mut store, "GET missing"), "NULL");
}

#[test]
fn del_answers_one_then_zero() {
    let mut store = Hydrogen::new();
    assert_eq!(line(&mut store, "SET k v"), "OK");
    assert_eq!(line(&mut store, "DEL k"), "1");
    assert_eq!(line(&mut store, "DEL k"), "0");
    assert_eq!(line(&mut store, "DEL k"), "0");
}

#[test]
fn keys_empty_then_both_keys() {
    let mut store = Hydrogen::new();
    assert_eq!(line(&mut store, "KEYS"), "(empty)");
    assert_eq!(line(&mut store, "SET a 1"), "OK");
    assert_eq!(line(&mut store, "SET b 2"), "OK");
    let response = line(&mut store, "KEYS");
    let mut keys: Vec<&str> = response.split(' ').collect();
    keys.sort();
    assert_eq!(keys, vec!["a", "b"]);
}

#[test]
fn unknown_command_answers_fixed_error() {
    let mut store = Hydrogen::new();
    assert_eq!(line(&mut store, "FOO bar"), "ERROR: Invalid endpoint format");
    // The store is untouched and the connection would go on.
    assert_eq!(line(&mut store, "KEYS"), "(empty)");
}

#[test]
fn invalid_key_answers_fixed_error() {
    let mut store = Hydrogen::new();
    assert_eq!(line(&mut store, "SET -k v"), "ERROR: Invalid endpoint format");
    assert_eq!(line(&mut store, "GET key--name"), "ERROR: Invalid endpoint format");
}

#[test]
fn blank_line_gets_no_response() {
    let mut store = Hydrogen::new();
    assert!(process_line(&mut store, "").is_none());
    assert!(process_line(&mut store, " \t  ").is_none());
}

#[test]
fn log_lines_record_the_command() {
    let mut store = Hydrogen::new();
    assert_eq!(process_line(&mut store, "SET k v").unwrap().log, "SET k v");
    assert_eq!(process_line(&mut store, "GET k").unwrap().log, "GET k");
    assert_eq!(process_line(&mut store, "DEL k").unwrap().log, "DEL k");
    assert_eq!(process_line(&mut store, "KEYS").unwrap().log, "KEYS");
    assert_eq!(
        process_line(&mut store, "what is this").unwrap().log,
        "Invalid endpoint: what is this"
    );
}

#[test]
fn non_utf8_bytes_answer_fixed_error() {
    let mut store = Hydrogen::new();
    let reply = process_request(&mut store, vec![0xff, 0xfe, 0x20]).unwrap();
    assert_eq!(reply.response, "ERROR: Invalid UTF-8");
    assert_eq!(reply.log, "Invalid UTF-8 request");
}

#[test]
fn utf8_bytes_are_served_as_a_line() {
    let mut store = Hydrogen::new();
    let reply = process_request(&mut store, b"SET k v".to_vec()).unwrap();
    assert_eq!(reply.response, "OK");
    assert!(process_request(&mut store, b"   ".to_vec()).is_none());
    let reply = process_request(&mut store, b"GET k".to_vec()).unwrap();
    assert_eq!(reply.response, "v");
}

#[test]
fn execute_command_runs_a_parsed_command() {
    let mut store = Hydrogen::new();
    let cmd = Command::parse("SET k v").unwrap();
    assert_eq!(execute_command(&mut store, cmd), "OK");
    let cmd = Command::parse("GET k").unwrap();
    assert_eq!(execute_command(&mut store, cmd), "v");
}

#[test]
fn whitespace_only_set_value_variants() {
    let mut store = Hydrogen::new();
    // An unquoted value collapses runs of whitespace between tokens.
    assert_eq!(line(&mut store, "SET k  a \t b   c "), "OK");
    assert_eq!(line(&mut store, "GET k"), "a b c");
}
