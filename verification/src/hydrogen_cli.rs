//! The interactive client's command line: `<address> <command> [args...]`,
//! with `quit`, `exit` and `help` as bare words, and double-quoted `set`
//! values taken verbatim.

use vstd::prelude::*;
use vstd::string::StrSliceExecFns;
use vstd::string::StringExecFns;

use crate::text::{
    chars_to_string, join_space, join_space_exec, subvec, to_chars, tokens, tokens_exec, trim,
};

verus! {

/// One parsed client-side command.
#[derive(Debug)]
pub enum ParsedCommand {
    Quit,
    Help,
    Put { address: String, key: String, value: String },
    Get { address: String, key: String },
    Del { address: String, key: String },
    Keys { address: String },
    Error(String),
}

/// The mathematical shape of a parsed client-side command.
pub enum SpecParsedCommand {
    Quit,
    Help,
    Put { address: Seq<char>, key: Seq<char>, value: Seq<char> },
    Get { address: Seq<char>, key: Seq<char> },
    Del { address: Seq<char>, key: Seq<char> },
    Keys { address: Seq<char> },
    Error(Seq<char>),
}

impl View for ParsedCommand {
    type V = SpecParsedCommand;

    open spec fn view(&self) -> SpecParsedCommand {
        match self {
            ParsedCommand::Quit => SpecParsedCommand::Quit,
            ParsedCommand::Help => SpecParsedCommand::Help,
            ParsedCommand::Put { address, key, value } => SpecParsedCommand::Put {
                address: address@,
                key: key@,
                value: value@,
            },
            ParsedCommand::Get { address, key } => SpecParsedCommand::Get {
                address: address@,
                key: key@,
            },
            ParsedCommand::Del { address, key } => SpecParsedCommand::Del {
                address: address@,
                key: key@,
            },
            ParsedCommand::Keys { address } => SpecParsedCommand::Keys { address: address@ },
            ParsedCommand::Error(m) => SpecParsedCommand::Error(m@),
        }
    }
}

/// The first index at or after `i` holding a double quote, or the length.
pub open spec fn quote_from(s: Seq<char>, i: int) -> int
    decreases s.len() - i,
{
    if i < 0 || i >= s.len() {
        s.len() as int
    } else if s[i] == '"' {
        i
    } else {
        quote_from(s, i + 1)
    }
}

/// The last index before `i` holding a double quote, or `-1`.
pub open spec fn quote_back(s: Seq<char>, i: int) -> int
    decreases i,
{
    if i <= 0 || i > s.len() {
        -1
    } else if s[i - 1] == '"' {
        i - 1
    } else {
        quote_back(s, i - 1)
    }
}

/// What lies between the first and the last double quote of `s`, when they
/// are two different characters.
pub open spec fn spec_quoted_value(s: Seq<char>) -> Option<Seq<char>> {
    let f = quote_from(s, 0);
    let l = quote_back(s, s.len() as int);
    if f < s.len() && 0 <= l && f != l {
        Some(s.subrange(f + 1, l))
    } else {
        None
    }
}

/// What one client line parses to: `None` asks the caller to re-prompt,
/// `Error` carries a usage message to print.
pub open spec fn spec_parse_command_line(line: Seq<char>) -> Option<SpecParsedCommand> {
    let ts = tokens(line);
    if trim(line).len() == 0 || ts.len() == 0 {
        None
    } else if ts[0] == "quit"@ || ts[0] == "exit"@ {
        Some(SpecParsedCommand::Quit)
    } else if ts[0] == "help"@ {
        Some(SpecParsedCommand::Help)
    } else if ts.len() < 2 {
        None
    } else {
        let address = ts[0];
        let cmd = ts[1];
        if cmd == "set"@ {
            if ts.len() < 4 {
                Some(
                    SpecParsedCommand::Error(
                        "Usage: "@ + address + " set <key> <value>"@,
                    ),
                )
            } else if quote_from(line, 0) < line.len() {
                match spec_quoted_value(line) {
                    Some(v) => Some(
                        SpecParsedCommand::Put { address, key: ts[2], value: v },
                    ),
                    None => None,
                }
            } else {
                Some(
                    SpecParsedCommand::Put {
                        address,
                        key: ts[2],
                        value: join_space(ts.skip(3)),
                    },
                )
            }
        } else if cmd == "get"@ {
            if ts.len() != 3 {
                Some(SpecParsedCommand::Error("Usage: "@ + address + " get <key>"@))
            } else {
                Some(SpecParsedCommand::Get { address, key: ts[2] })
            }
        } else if cmd == "del"@ {
            if ts.len() != 3 {
                Some(SpecParsedCommand::Error("Usage: "@ + address + " del <key>"@))
            } else {
                Some(SpecParsedCommand::Del { address, key: ts[2] })
            }
        } else if cmd == "keys"@ {
            if ts.len() != 2 {
                Some(SpecParsedCommand::Error("Usage: "@ + address + " keys"@))
            } else {
                Some(SpecParsedCommand::Keys { address })
            }
        } else {
            Some(SpecParsedCommand::Error("Unknown command: "@ + cmd))
        }
    }
}

/// Compares a character vector against a string.
fn chars_eq_str(t: &Vec<char>, s: &str) -> (r: bool)
    ensures
        r == (t@ == s@),
{
    let n = s.unicode_len();
    if t.len() != n {
        return false;
    }
    let mut i: usize = 0;
    while i < n
        invariant
            i <= n,
            n == t@.len(),
            n == s@.len(),
            forall|j: int| 0 <= j < i ==> t@[j] == s@[j],
        decreases n - i,
    {
        if t[i] != s.get_char(i) {
            return false;
        }
        i = i + 1;
    }
    proof {
        assert(t@ =~= s@);
    }
    true
}

/// Copies a whole character vector into a string.
fn vec_to_string(t: &Vec<char>) -> (r: String)
    ensures
        r@ == t@,
{
    let r = chars_to_string(t, 0, t.len());
    proof {
        assert(t@.subrange(0, t@.len() as int) =~= t@);
    }
    r
}

fn usage(address: &Vec<char>, tail: &str) -> (r: String)
    ensures
        r@ == "Usage: "@ + address@ + tail@,
{
    let mut r = String::from_str("Usage: ");
    let a = vec_to_string(address);
    r.append(a.as_str());
    r.append(tail);
    r
}

/// The text between the first and the last double quote of the line, when
/// those are two different characters.
pub fn parse_quoted_value(input: &str) -> (r: Option<String>)
    ensures
        match spec_quoted_value(input@) {
            Some(v) => r matches Some(s) && s@ == v,
            None => r is None,
        },
{
    let v = to_chars(input);
    let ghost s = v@;
    let n = v.len();
    let mut f: usize = 0;
    while f < n && v[f] != '"'
        invariant
            f <= n,
            n == s.len(),
            s == v@,
            quote_from(s, 0) == quote_from(s, f as int),
        decreases n - f,
    {
        f = f + 1;
    }
    let mut l: usize = n;
    while l > 0 && v[l - 1] != '"'
        invariant
            l <= n,
            n == s.len(),
            s == v@,
            quote_back(s, n as int) == quote_back(s, l as int),
            forall|j: int| l <= j < n ==> s[j] != '"',
        decreases l,
    {
        l = l - 1;
    }
    if f < n && l > 0 && f != l - 1 {
        proof {
            // The first quote cannot lie beyond the last one.
            assert(s[f as int] == '"');
            assert(f < l);
        }
        Some(chars_to_string(&v, f + 1, l - 1))
    } else {
        None
    }
}

/// Parses one line typed at the client prompt.
pub fn parse_command_line(input: &str) -> (r: Option<ParsedCommand>)
    ensures
        match spec_parse_command_line(input@) {
            Some(c) => r matches Some(p) && p@ == c,
            None => r is None,
        },
{
    let chars = to_chars(input);
    let ts = tokens_exec(&chars);
    let ghost d = ts.deep_view();
    if ts.len() == 0 {
        return None;
    }
    proof {
        assert(d[0] == ts@[0]@);
        // A line with a token is not whitespace only.
        crate::text::lemma_trim(input@);
        if crate::text::ws_end(input@, 0) == input@.len() {
            assert(tokens(input@).len() == 0);
        }
    }
    if chars_eq_str(&ts[0], "quit") || chars_eq_str(&ts[0], "exit") {
        return Some(ParsedCommand::Quit);
    }
    if chars_eq_str(&ts[0], "help") {
        return Some(ParsedCommand::Help);
    }
    if ts.len() < 2 {
        return None;
    }
    proof {
        assert(d[1] == ts@[1]@);
    }
    let address = vec_to_string(&ts[0]);
    if chars_eq_str(&ts[1], "set") {
        if ts.len() < 4 {
            return Some(ParsedCommand::Error(usage(&ts[0], " set <key> <value>")));
        }
        proof {
            assert(d[2] == ts@[2]@);
        }
        let key = vec_to_string(&ts[2]);
        let mut has_quote = false;
        let mut qi: usize = 0;
        while qi < chars.len() && chars[qi] != '"'
            invariant
                qi <= chars@.len(),
                chars@ == input@,
                quote_from(input@, 0) == quote_from(input@, qi as int),
            decreases chars@.len() - qi,
        {
            qi = qi + 1;
        }
        has_quote = qi < chars.len();
        if has_quote {
            match parse_quoted_value(input) {
                Some(value) => Some(ParsedCommand::Put { address, key, value }),
                None => None,
            }
        } else {
            let mut tail: Vec<Vec<char>> = Vec::new();
            let mut i: usize = 3;
            proof {
                assert(tail.deep_view() =~= d.skip(3).take(0));
            }
            while i < ts.len()
                invariant
                    3 <= i <= ts@.len(),
                    d == ts.deep_view(),
                    d.len() == ts@.len(),
                    tail.deep_view() == d.skip(3).take(i - 3),
                decreases ts@.len() - i,
            {
                let ghost t0 = tail.deep_view();
                let t = subvec(&ts[i], 0, ts[i].len());
                proof {
                    assert(t@ =~= ts@[i as int]@);
                    assert(d[i as int] == ts@[i as int]@);
                }
                tail.push(t);
                proof {
                    assert(tail.deep_view() =~= t0.push(d[i as int]));
                    assert(tail.deep_view() =~= d.skip(3).take(i - 3 + 1));
                }
                i = i + 1;
            }
            proof {
                assert(tail.deep_view() =~= d.skip(3));
            }
            let joined = join_space_exec(&tail);
            let value = vec_to_string(&joined);
            Some(ParsedCommand::Put { address, key, value })
        }
    } else if chars_eq_str(&ts[1], "get") {
        if ts.len() != 3 {
            return Some(ParsedCommand::Error(usage(&ts[0], " get <key>")));
        }
        proof {
            assert(d[2] == ts@[2]@);
        }
        let key = vec_to_string(&ts[2]);
        Some(ParsedCommand::Get { address, key })
    } else if chars_eq_str(&ts[1], "del") {
        if ts.len() != 3 {
            return Some(ParsedCommand::Error(usage(&ts[0], " del <key>")));
        }
        proof {
            assert(d[2] == ts@[2]@);
        }
        let key = vec_to_string(&ts[2]);
        Some(ParsedCommand::Del { address, key })
    } else if chars_eq_str(&ts[1], "keys") {
        if ts.len() != 2 {
            return Some(ParsedCommand::Error(usage(&ts[0], " keys")));
        }
        Some(ParsedCommand::Keys { address })
    } else {
        let word = vec_to_string(&ts[1]);
        let m = crate::text::concat2("Unknown command: ", word.as_str());
        Some(ParsedCommand::Error(m))
    }
}

} // verus!
