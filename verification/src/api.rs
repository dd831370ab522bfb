//! The text-command grammar: one trimmed line becomes a [`Command`] or a
//! parse error, with key validation and quoted-value handling.

use vstd::prelude::*;
use vstd::string::StrSliceExecFns;
use vstd::string::StringExecFns;

use crate::api_log::{
    log_delete_endpoint, log_get_endpoint, log_invalid_endpoint, log_invalid_utf8,
    log_keys_endpoint, log_set_endpoint,
};
use crate::cache::{bytes_to_string, stored_value, CacheError, Hydrogen};
use crate::text::{
    collapse_ws, collapse_ws_exec, chars_to_string, is_ws, scan_tok, scan_ws, subvec, to_chars,
    tok_end, trim, trim_vec, lemma_trim, lemma_tok_end, lemma_trim_of_suffix, concat2,
    join_space, join_strings,
};
use vstd::utf8::{decode_utf8, encode_utf8_decode_utf8, valid_utf8};

verus! {

/// A request the protocol layer could not serve.
#[derive(Debug)]
pub enum ApiError {
    /// The line does not fit the command grammar; the message names the rule broken.
    InvalidCommand(String),
    /// The store failed underneath a well-formed command.
    CacheError(CacheError),
}

/// One parsed client request.
#[derive(Debug, Clone)]
pub enum Command {
    Put { key: String, value: String },
    Get { key: String },
    Delete { key: String },
    Keys,
}

/// The mathematical shape of a parsed request.
pub enum SpecCommand {
    Put { key: Seq<char>, value: Seq<char> },
    Get { key: Seq<char> },
    Delete { key: Seq<char> },
    Keys,
}

impl View for Command {
    type V = SpecCommand;

    open spec fn view(&self) -> SpecCommand {
        match self {
            Command::Put { key, value } => SpecCommand::Put { key: key@, value: value@ },
            Command::Get { key } => SpecCommand::Get { key: key@ },
            Command::Delete { key } => SpecCommand::Delete { key: key@ },
            Command::Keys => SpecCommand::Keys,
        }
    }
}

/// A key character that is a separator: a hyphen or an underscore.
pub open spec fn is_key_sep(c: char) -> bool {
    c == '-' || c == '_'
}

/// An ASCII letter or digit.
pub open spec fn key_alnum(c: char) -> bool {
    ('0' as u32 <= c as u32 && c as u32 <= '9' as u32) || ('A' as u32 <= c as u32 && c as u32
        <= 'Z' as u32) || ('a' as u32 <= c as u32 && c as u32 <= 'z' as u32)
}

/// A character a key may hold.
pub open spec fn key_char_ok(c: char) -> bool {
    key_alnum(c) || is_key_sep(c)
}

/// A well-formed key: non-empty, only ASCII letters, digits, hyphens and
/// underscores; separators neither at an edge nor adjacent to each other.
pub open spec fn valid_key(k: Seq<char>) -> bool {
    &&& k.len() > 0
    &&& forall|i: int| 0 <= i < k.len() ==> key_char_ok(#[trigger] k[i])
    &&& !is_key_sep(k[0])
    &&& !is_key_sep(k[k.len() - 1])
    &&& forall|i: int|
        0 <= i < k.len() - 1 ==> !(is_key_sep(#[trigger] k[i]) && is_key_sep(k[i + 1]))
}

/// The word `SET`, compared without regard to ASCII case.
pub open spec fn cmd_word_set(t: Seq<char>) -> bool {
    t.len() == 3 && (t[0] == 'S' || t[0] == 's') && (t[1] == 'E' || t[1] == 'e') && (t[2] == 'T'
        || t[2] == 't')
}

/// The word `GET`, compared without regard to ASCII case.
pub open spec fn cmd_word_get(t: Seq<char>) -> bool {
    t.len() == 3 && (t[0] == 'G' || t[0] == 'g') && (t[1] == 'E' || t[1] == 'e') && (t[2] == 'T'
        || t[2] == 't')
}

/// The word `DEL`, compared without regard to ASCII case.
pub open spec fn cmd_word_del(t: Seq<char>) -> bool {
    t.len() == 3 && (t[0] == 'D' || t[0] == 'd') && (t[1] == 'E' || t[1] == 'e') && (t[2] == 'L'
        || t[2] == 'l')
}

/// The word `DELETE`, compared without regard to ASCII case.
pub open spec fn cmd_word_delete(t: Seq<char>) -> bool {
    t.len() == 6 && (t[0] == 'D' || t[0] == 'd') && (t[1] == 'E' || t[1] == 'e') && (t[2] == 'L'
        || t[2] == 'l') && (t[3] == 'E' || t[3] == 'e') && (t[4] == 'T' || t[4] == 't') && (t[5]
        == 'E' || t[5] == 'e')
}

/// The word `KEYS`, compared without regard to ASCII case.
pub open spec fn cmd_word_keys(t: Seq<char>) -> bool {
    t.len() == 4 && (t[0] == 'K' || t[0] == 'k') && (t[1] == 'E' || t[1] == 'e') && (t[2] == 'Y'
        || t[2] == 'y') && (t[3] == 'S' || t[3] == 's')
}

/// The value part of a `SET`: a full double-quoted wrap is taken verbatim
/// inside the quotes, anything else has its whitespace runs collapsed.
pub open spec fn unquote(vp: Seq<char>) -> Seq<char> {
    if vp.len() >= 2 && vp[0] == '"' && vp[vp.len() - 1] == '"' {
        vp.subrange(1, vp.len() - 1)
    } else {
        collapse_ws(vp)
    }
}

/// The key and value of a `SET`, parsed out of everything after the command
/// word: the key is the first token, the rest (trimmed) is the value part.
/// `None` when key or value is missing.
pub open spec fn set_args(rest: Seq<char>) -> Option<(Seq<char>, Seq<char>)> {
    if rest.len() == 0 {
        None
    } else {
        let k = rest.subrange(0, tok_end(rest, 0));
        let vp = trim(rest.skip(tok_end(rest, 0)));
        if vp.len() == 0 {
            None
        } else {
            Some((k, unquote(vp)))
        }
    }
}

/// What one line of input parses to: `None` is a parse failure, and a
/// whitespace-only line is one as well.
pub open spec fn spec_parse(line: Seq<char>) -> Option<SpecCommand> {
    let t = trim(line);
    if t.len() == 0 {
        None
    } else {
        let cmd = t.subrange(0, tok_end(t, 0));
        let rest = trim(t.skip(tok_end(t, 0)));
        if cmd_word_set(cmd) {
            match set_args(rest) {
                Some((k, v)) => if valid_key(k) {
                    Some(SpecCommand::Put { key: k, value: v })
                } else {
                    None
                },
                None => None,
            }
        } else if cmd_word_get(cmd) {
            if valid_key(rest) {
                Some(SpecCommand::Get { key: rest })
            } else {
                None
            }
        } else if cmd_word_del(cmd) || cmd_word_delete(cmd) {
            if valid_key(rest) {
                Some(SpecCommand::Delete { key: rest })
            } else {
                None
            }
        } else if cmd_word_keys(cmd) {
            if rest.len() == 0 {
                Some(SpecCommand::Keys)
            } else {
                None
            }
        } else {
            None
        }
    }
}

/// A response line that reports a fault: `ERROR: ` followed by a message.
pub open spec fn error_line(s: Seq<char>) -> bool {
    exists|m: Seq<char>| s == "ERROR: "@ + m
}

/// A well-formed `KEYS` response for the key set `dom`: `(empty)` on an empty
/// store, otherwise the keys joined with single spaces, each exactly once, in
/// no promised order.
pub open spec fn keys_response(dom: Set<Seq<char>>, r: Seq<char>) -> bool {
    if dom == Set::<Seq<char>>::empty() {
        r == "(empty)"@
    } else {
        exists|ks: Seq<Seq<char>>|
            #![trigger join_space(ks)]
            ks.to_set() == dom && ks.no_duplicates() && r == join_space(ks)
    }
}

/// What one executed command does to the store and answers, per the response
/// grammar: `m0` and `m1` are the store before and after, `r` the response.
pub open spec fn dispatch_ok(
    m0: Map<Seq<char>, Seq<u8>>,
    m1: Map<Seq<char>, Seq<u8>>,
    c: SpecCommand,
    r: Seq<char>,
) -> bool {
    match c {
        SpecCommand::Put { key, value } => {
            ||| (r == "OK"@ && m1 == m0.insert(key, m1[key]) && stored_value(m1[key]) == Some(
                value,
            ))
            ||| (m1 == m0 && error_line(r))
        },
        SpecCommand::Get { key } => m1 == m0 && if !m0.contains_key(key) {
            r == "NULL"@
        } else {
            match stored_value(m0[key]) {
                Some(v) => r == v,
                None => error_line(r),
            }
        },
        SpecCommand::Delete { key } => m1 == m0.remove(key) && r == (if m0.contains_key(key) {
            "1"@
        } else {
            "0"@
        }),
        SpecCommand::Keys => m1 == m0 && keys_response(m0.dom(), r),
    }
}

/// The log line a parsed command is recorded under, before it runs.
pub open spec fn log_line_for(c: SpecCommand) -> Seq<char> {
    match c {
        SpecCommand::Put { key, value } => "SET "@ + key + " "@ + value,
        SpecCommand::Get { key } => "GET "@ + key,
        SpecCommand::Delete { key } => "DEL "@ + key,
        SpecCommand::Keys => "KEYS"@,
    }
}

/// Executable test for [`key_alnum`].
fn alnum_char(c: char) -> (r: bool)
    ensures
        r == key_alnum(c),
{
    let u = c as u32;
    ('0' as u32 <= u && u <= '9' as u32) || ('A' as u32 <= u && u <= 'Z' as u32) || ('a' as u32
        <= u && u <= 'z' as u32)
}

/// Executable test for [`is_key_sep`].
fn sep_char(c: char) -> (r: bool)
    ensures
        r == is_key_sep(c),
{
    c == '-' || c == '_'
}

/// Executable test for [`cmd_word_set`].
fn word_set(c: &Vec<char>) -> (r: bool)
    ensures
        r == cmd_word_set(c@),
{
    c.len() == 3 && (c[0] == 'S' || c[0] == 's') && (c[1] == 'E' || c[1] == 'e') && (c[2] == 'T'
        || c[2] == 't')
}

/// Executable test for [`cmd_word_get`].
fn word_get(c: &Vec<char>) -> (r: bool)
    ensures
        r == cmd_word_get(c@),
{
    c.len() == 3 && (c[0] == 'G' || c[0] == 'g') && (c[1] == 'E' || c[1] == 'e') && (c[2] == 'T'
        || c[2] == 't')
}

/// Executable test for [`cmd_word_del`].
fn word_del(c: &Vec<char>) -> (r: bool)
    ensures
        r == cmd_word_del(c@),
{
    c.len() == 3 && (c[0] == 'D' || c[0] == 'd') && (c[1] == 'E' || c[1] == 'e') && (c[2] == 'L'
        || c[2] == 'l')
}

/// Executable test for [`cmd_word_delete`].
fn word_delete(c: &Vec<char>) -> (r: bool)
    ensures
        r == cmd_word_delete(c@),
{
    c.len() == 6 && (c[0] == 'D' || c[0] == 'd') && (c[1] == 'E' || c[1] == 'e') && (c[2] == 'L'
        || c[2] == 'l') && (c[3] == 'E' || c[3] == 'e') && (c[4] == 'T' || c[4] == 't') && (c[5]
        == 'E' || c[5] == 'e')
}

/// Executable test for [`cmd_word_keys`].
fn word_keys(c: &Vec<char>) -> (r: bool)
    ensures
        r == cmd_word_keys(c@),
{
    c.len() == 4 && (c[0] == 'K' || c[0] == 'k') && (c[1] == 'E' || c[1] == 'e') && (c[2] == 'Y'
        || c[2] == 'y') && (c[3] == 'S' || c[3] == 's')
}

fn invalid(msg: &str) -> (r: ApiError)
    ensures
        r is InvalidCommand,
{
    ApiError::InvalidCommand(String::from_str(msg))
}

impl Command {
    /// Parses one line of input against the command grammar, validating the
    /// key; a parse failure names the rule broken.
    pub fn parse(input: &str) -> (r: Result<Command, ApiError>)
        ensures
            spec_parse(input@) matches Some(c) ==> r matches Ok(cmd) && cmd@ == c,
            spec_parse(input@) is None ==> r matches Err(ApiError::InvalidCommand(_)),
    {
        let chars = to_chars(input);
        let t = trim_vec(&chars);
        proof {
            lemma_trim(input@);
        }
        if t.len() == 0 {
            return Err(invalid("Empty command"));
        }
        let ghost ts = t@;
        let ce = scan_tok(&t, 0);
        let rs = scan_ws(&t, ce);
        let rest = subvec(&t, rs, t.len());
        let cmd = subvec(&t, 0, ce);
        proof {
            lemma_tok_end(ts, 0);
            lemma_trim_of_suffix(ts, ce as int);
            assert(rest@ == trim(ts.skip(ce as int)));
        }
        let ghost rr = rest@;
        if word_set(&cmd) {
            proof {
                lemma_trim(ts.skip(ce as int));
            }
            let (key, value) = match Self::parse_set_args(&rest) {
                Ok(kv) => kv,
                Err(e) => {
                    return Err(e);
                },
            };
            match Self::validate_key(key.as_str()) {
                Ok(()) => Ok(Command::Put { key, value }),
                Err(e) => Err(e),
            }
        } else if word_get(&cmd) {
            if rest.len() == 0 {
                return Err(invalid("GET command requires exactly one key"));
            }
            let key = chars_to_string(&rest, 0, rest.len());
            proof {
                assert(rr.subrange(0, rr.len() as int) =~= rr);
            }
            match Self::validate_key(key.as_str()) {
                Ok(()) => Ok(Command::Get { key }),
                Err(e) => Err(e),
            }
        } else if word_del(&cmd) || word_delete(&cmd) {
            if rest.len() == 0 {
                return Err(invalid("DEL command requires exactly one key"));
            }
            let key = chars_to_string(&rest, 0, rest.len());
            proof {
                assert(rr.subrange(0, rr.len() as int) =~= rr);
            }
            match Self::validate_key(key.as_str()) {
                Ok(()) => Ok(Command::Delete { key }),
                Err(e) => Err(e),
            }
        } else if word_keys(&cmd) {
            if rest.len() > 0 {
                return Err(invalid("KEYS command takes no arguments"));
            }
            Ok(Command::Keys)
        } else {
            let mut m = String::from_str("Unknown command: ");
            let word = chars_to_string(&cmd, 0, cmd.len());
            m.append(word.as_str());
            m.append(". Supported commands: SET, GET, DEL, KEYS");
            Err(ApiError::InvalidCommand(m))
        }
    }

    /// Splits everything after the `SET` word into key and value, per
    /// [`set_args`]; the key is not yet validated here.
    fn parse_set_args(rest: &Vec<char>) -> (r: Result<(String, String), ApiError>)
        requires
            rest@.len() > 0 ==> !is_ws(rest@[rest@.len() - 1]),
        ensures
            match set_args(rest@) {
                Some((k, v)) => r matches Ok(kv) && kv.0@ == k && kv.1@ == v,
                None => r matches Err(ApiError::InvalidCommand(_)),
            },
    {
        let ghost rr = rest@;
        if rest.len() == 0 {
            return Err(invalid("SET command requires key and value"));
        }
        let ke = scan_tok(rest, 0);
        let vs = scan_ws(rest, ke);
        let vp = subvec(rest, vs, rest.len());
        proof {
            lemma_trim_of_suffix(rr, ke as int);
            assert(vp@ == trim(rr.skip(ke as int)));
        }
        if vp.len() == 0 {
            return Err(invalid("SET command requires key and value"));
        }
        let key = chars_to_string(rest, 0, ke);
        let value_chars = if vp.len() >= 2 && vp[0] == '"' && vp[vp.len() - 1] == '"' {
            subvec(&vp, 1, vp.len() - 1)
        } else {
            collapse_ws_exec(&vp)
        };
        let value = chars_to_string(&value_chars, 0, value_chars.len());
        proof {
            assert(value_chars@.subrange(0, value_chars@.len() as int) =~= value_chars@);
        }
        Ok((key, value))
    }

    /// Checks a key against the key grammar; an `Err` names the rule broken.
    pub fn validate_key(key: &str) -> (r: Result<(), ApiError>)
        ensures
            r is Ok <==> valid_key(key@),
            r is Err ==> r matches Err(ApiError::InvalidCommand(_)),
    {
        let v = to_chars(key);
        if v.len() == 0 {
            return Err(invalid("Key cannot be empty"));
        }
        let mut i: usize = 0;
        while i < v.len()
            invariant
                v@ == key@,
                i <= v@.len(),
                forall|j: int| 0 <= j < i ==> key_char_ok(#[trigger] v@[j]) && v@[j] != ' ',
            decreases v@.len() - i,
        {
            if v[i] == ' ' {
                return Err(invalid("Key cannot contain spaces"));
            }
            if !alnum_char(v[i]) && !sep_char(v[i]) {
                let mut m = String::from_str("Key contains invalid character '");
                crate::text::push_char(&mut m, v[i]);
                m.append(
                    "'. Keys can only contain letters, numbers, hyphens, and underscores",
                );
                return Err(ApiError::InvalidCommand(m));
            }
            i = i + 1;
        }
        let mut i: usize = 0;
        while i < v.len()
            invariant
                v@ == key@,
                v@.len() > 0,
                i <= v@.len(),
                forall|j: int| 0 <= j < v@.len() ==> key_char_ok(#[trigger] v@[j]),
                forall|j: int|
                    0 <= j < i && is_key_sep(#[trigger] v@[j]) ==> j != 0 && j != v@.len() - 1
                        && key_alnum(v@[j - 1]) && key_alnum(v@[j + 1]),
            decreases v@.len() - i,
        {
            if sep_char(v[i]) {
                if i == 0 || i == v.len() - 1 {
                    return Err(
                        invalid(
                            "Key cannot start or end with a separator. Hyphens and underscores must be between letters or numbers",
                        ),
                    );
                }
                if !alnum_char(v[i - 1]) || !alnum_char(v[i + 1]) {
                    return Err(
                        invalid(
                            "Invalid key format. Hyphens and underscores must be between letters or numbers",
                        ),
                    );
                }
            }
            i = i + 1;
        }
        proof {
            assert forall|j: int|
                0 <= j < v@.len() - 1 implies !(is_key_sep(#[trigger] v@[j]) && is_key_sep(
                v@[j + 1],
            )) by {
                if is_key_sep(v@[j]) {
                    assert(key_alnum(v@[j + 1]));
                }
            }
            assert(!is_key_sep(v@[0]));
            assert(!is_key_sep(v@[v@.len() - 1]));
        }
        Ok(())
    }
}

/// Runs one parsed command against the store and renders the response line.
pub fn execute_command(cache: &mut Hydrogen, command: Command) -> (r: String)
    ensures
        dispatch_ok(old(cache)@, final(cache)@, command@, r@),
{
    match command {
        Command::Put { key, value } => {
            match cache.set(key, value) {
                Ok(()) => String::from_str("OK"),
                Err(e) => {
                    let msg = e.message();
                    concat2("ERROR: ", msg.as_str())
                },
            }
        },
        Command::Get { key } => {
            match cache.get(key.as_str()) {
                Ok(value) => value,
                Err(e) => {
                    match e {
                        CacheError::KeyNotFound(_) => String::from_str("NULL"),
                        e => {
                            let msg = e.message();
                            concat2("ERROR: ", msg.as_str())
                        },
                    }
                },
            }
        },
        Command::Delete { key } => {
            if cache.delete(key.as_str()) {
                String::from_str("1")
            } else {
                String::from_str("0")
            }
        },
        Command::Keys => {
            let ks = cache.keys();
            if ks.len() == 0 {
                proof {
                    assert(ks.deep_view().to_set() =~= Set::<Seq<char>>::empty());
                }
                String::from_str("(empty)")
            } else {
                proof {
                    assert(ks.deep_view().to_set().contains(ks.deep_view()[0]));
                    assert(cache@.dom() != Set::<Seq<char>>::empty());
                }
                join_strings(&ks)
            }
        },
    }
}

/// The response and the log line that one protocol line produces.
pub struct Reply {
    pub response: String,
    pub log: String,
}

/// The views of a reply's two lines.
pub open spec fn reply_view(r: Option<Reply>) -> Option<(Seq<char>, Seq<char>)> {
    match r {
        Some(rep) => Some((rep.response@, rep.log@)),
        None => None,
    }
}

/// What one line of protocol input must produce: nothing on a blank line, a
/// fixed error on a line that does not parse, and on a parsed command the
/// response grammar together with that command's log line. The store changes
/// only as the command says.
pub open spec fn line_reply(
    m0: Map<Seq<char>, Seq<u8>>,
    m1: Map<Seq<char>, Seq<u8>>,
    line: Seq<char>,
    r: Option<(Seq<char>, Seq<char>)>,
) -> bool {
    if trim(line).len() == 0 {
        r is None && m1 == m0
    } else {
        match r {
            None => false,
            Some((resp, log)) => match spec_parse(line) {
                None => resp == "ERROR: Invalid endpoint format"@ && log == "Invalid endpoint: "@
                    + trim(line) && m1 == m0,
                Some(c) => dispatch_ok(m0, m1, c, resp) && log == log_line_for(c),
            },
        }
    }
}

/// Serves one line of input: a blank line is skipped, anything else yields a
/// response to send back and a log line to emit.
pub fn process_line(cache: &mut Hydrogen, line: &str) -> (r: Option<Reply>)
    ensures
        line_reply(old(cache)@, final(cache)@, line@, reply_view(r)),
{
    let chars = to_chars(line);
    let t = trim_vec(&chars);
    if t.len() == 0 {
        return None;
    }
    match Command::parse(line) {
        Ok(command) => {
            let log = match &command {
                Command::Put { key, value } => log_set_endpoint(key.as_str(), value.as_str()),
                Command::Get { key } => log_get_endpoint(key.as_str()),
                Command::Delete { key } => log_delete_endpoint(key.as_str()),
                Command::Keys => log_keys_endpoint(),
            };
            let response = execute_command(cache, command);
            Some(Reply { response, log })
        },
        Err(_) => {
            let trimmed = chars_to_string(&t, 0, t.len());
            proof {
                assert(t@.subrange(0, t@.len() as int) =~= t@);
            }
            Some(
                Reply {
                    response: String::from_str("ERROR: Invalid endpoint format"),
                    log: log_invalid_endpoint(trimmed.as_str()),
                },
            )
        },
    }
}

/// Serves one raw request frame: bytes that are not UTF-8 get the fixed
/// `ERROR: Invalid UTF-8` response, anything else is served as a line.
pub fn process_request(cache: &mut Hydrogen, raw: Vec<u8>) -> (r: Option<Reply>)
    ensures
        valid_utf8(raw@) ==> line_reply(old(cache)@, final(cache)@, decode_utf8(raw@), reply_view(r)),
        !valid_utf8(raw@) ==> (r matches Some(rep) && rep.response@ == "ERROR: Invalid UTF-8"@
            && rep.log@ == "Invalid UTF-8 request"@ && final(cache)@ == old(cache)@),
{
    let ghost bytes = raw@;
    match bytes_to_string(raw) {
        Some(line) => {
            proof {
                encode_utf8_decode_utf8(line@);
            }
            process_line(cache, line.as_str())
        },
        None => Some(
            Reply {
                response: String::from_str("ERROR: Invalid UTF-8"),
                log: log_invalid_utf8(),
            },
        ),
    }
}

} // verus!
