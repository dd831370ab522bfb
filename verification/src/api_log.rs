//! The log lines the protocol layer emits, one per parsed request. Building
//! the text is the library's work; handing it to a log sink is the caller's.

use vstd::prelude::*;
use vstd::string::StringExecFns;

use crate::text::concat2;

verus! {

/// The log line for a `SET`, carrying key and value.
pub fn log_set_endpoint(key: &str, value: &str) -> (r: String)
    ensures
        r@ == "SET "@ + key@ + " "@ + value@,
{
    let mut r = String::from_str("SET ");
    r.append(key);
    r.append(" ");
    r.append(value);
    r
}

/// The log line for a `GET`.
pub fn log_get_endpoint(key: &str) -> (r: String)
    ensures
        r@ == "GET "@ + key@,
{
    concat2("GET ", key)
}

/// The log line for a `DEL`.
pub fn log_delete_endpoint(key: &str) -> (r: String)
    ensures
        r@ == "DEL "@ + key@,
{
    concat2("DEL ", key)
}

/// The log line for a `KEYS`.
pub fn log_keys_endpoint() -> (r: String)
    ensures
        r@ == "KEYS"@,
{
    String::from_str("KEYS")
}

/// The log line for a line that does not parse, carrying the offending text.
pub fn log_invalid_endpoint(command: &str) -> (r: String)
    ensures
        r@ == "Invalid endpoint: "@ + command@,
{
    concat2("Invalid endpoint: ", command)
}

/// The log line for a request that is not UTF-8.
pub fn log_invalid_utf8() -> (r: String)
    ensures
        r@ == "Invalid UTF-8 request"@,
{
    String::from_str("Invalid UTF-8 request")
}

} // verus!
