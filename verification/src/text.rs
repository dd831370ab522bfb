//! Characters, whitespace scanning, tokenization and trimming over `Seq<char>`,
//! with the executable helpers the parsers are built on.

use vstd::prelude::*;
use vstd::string::StrSliceExecFns;
use vstd::string::StringExecFns;

verus! {

/// A character is protocol whitespace: one of the ASCII whitespace characters.
pub open spec fn is_ws(c: char) -> bool {
    c == ' ' || c == '\t' || c == '\n' || c == '\r' || c == '\u{c}'
}

/// Executable test for [`is_ws`].
pub fn ws_char(c: char) -> (r: bool)
    ensures
        r == is_ws(c),
{
    c == ' ' || c == '\t' || c == '\n' || c == '\r' || c == '\u{c}'
}

/// The end of the whitespace run that starts at `i`: the first index at or
/// after `i` holding a non-whitespace character, or the length of `s`.
pub open spec fn ws_end(s: Seq<char>, i: int) -> int
    decreases s.len() - i,
{
    if i < 0 || i >= s.len() || !is_ws(s[i]) {
        i
    } else {
        ws_end(s, i + 1)
    }
}

/// The end of the token that starts at `i`: the first index at or after `i`
/// holding a whitespace character, or the length of `s`.
pub open spec fn tok_end(s: Seq<char>, i: int) -> int
    decreases s.len() - i,
{
    if i < 0 || i >= s.len() || is_ws(s[i]) {
        i
    } else {
        tok_end(s, i + 1)
    }
}

/// The start of the whitespace run that ends at `i`: the last index at or
/// before `i` such that every character from it up to `i` is whitespace.
pub open spec fn ws_rbegin(s: Seq<char>, i: int) -> int
    decreases i,
{
    if i <= 0 || i > s.len() || !is_ws(s[i - 1]) {
        i
    } else {
        ws_rbegin(s, i - 1)
    }
}

pub proof fn lemma_ws_end(s: Seq<char>, i: int)
    requires
        0 <= i <= s.len(),
    ensures
        i <= ws_end(s, i) <= s.len(),
        forall|j: int| i <= j < ws_end(s, i) ==> is_ws(s[j]),
        ws_end(s, i) < s.len() ==> !is_ws(s[ws_end(s, i)]),
    decreases s.len() - i,
{
    if i < s.len() && is_ws(s[i]) {
        lemma_ws_end(s, i + 1);
    }
}

pub proof fn lemma_tok_end(s: Seq<char>, i: int)
    requires
        0 <= i <= s.len(),
    ensures
        i <= tok_end(s, i) <= s.len(),
        forall|j: int| i <= j < tok_end(s, i) ==> !is_ws(s[j]),
        tok_end(s, i) < s.len() ==> is_ws(s[tok_end(s, i)]),
    decreases s.len() - i,
{
    if i < s.len() && !is_ws(s[i]) {
        lemma_tok_end(s, i + 1);
    }
}

pub proof fn lemma_ws_rbegin(s: Seq<char>, i: int)
    requires
        0 <= i <= s.len(),
    ensures
        0 <= ws_rbegin(s, i) <= i,
        forall|j: int| ws_rbegin(s, i) <= j < i ==> is_ws(s[j]),
        ws_rbegin(s, i) > 0 ==> !is_ws(s[ws_rbegin(s, i) - 1]),
    decreases i,
{
    if i > 0 && is_ws(s[i - 1]) {
        lemma_ws_rbegin(s, i - 1);
    }
}

/// `s` with leading and trailing whitespace removed.
pub open spec fn trim(s: Seq<char>) -> Seq<char> {
    let lo = ws_end(s, 0);
    if lo == s.len() {
        Seq::empty()
    } else {
        s.subrange(lo, ws_rbegin(s, s.len() as int))
    }
}

/// The bounds that [`trim`] keeps: on a string with any non-whitespace
/// character they are the first and one past the last such character.
pub proof fn lemma_trim(s: Seq<char>)
    ensures
        trim(s).len() == 0 <==> ws_end(s, 0) == s.len(),
        ws_end(s, 0) < s.len() ==> {
            let lo = ws_end(s, 0);
            let hi = ws_rbegin(s, s.len() as int);
            &&& 0 <= lo < hi <= s.len()
            &&& trim(s) == s.subrange(lo, hi)
            &&& !is_ws(s[lo])
            &&& !is_ws(s[hi - 1])
        },
        trim(s).len() > 0 ==> !is_ws(trim(s)[0]) && !is_ws(trim(s)[trim(s).len() - 1]),
{
    lemma_ws_end(s, 0);
    lemma_ws_rbegin(s, s.len() as int);
    let lo = ws_end(s, 0);
    let hi = ws_rbegin(s, s.len() as int);
    if lo < s.len() {
        // The character at lo is not whitespace, so the trailing whitespace
        // run cannot reach back to it.
        if hi <= lo {
            assert(is_ws(s[lo]));
        }
        assert(trim(s).len() == hi - lo);
    }
}

/// The whitespace-delimited tokens of `s`, from position `i` on.
pub open spec fn tokens_from(s: Seq<char>, i: int) -> Seq<Seq<char>>
    decreases s.len() - i,
    when 0 <= i <= s.len()
    via tokens_from_dec
{
    let j = ws_end(s, i);
    if j >= s.len() {
        Seq::empty()
    } else {
        seq![s.subrange(j, tok_end(s, j))] + tokens_from(s, tok_end(s, j))
    }
}

#[via_fn]
proof fn tokens_from_dec(s: Seq<char>, i: int) {
    lemma_ws_end(s, i);
    if ws_end(s, i) < s.len() {
        lemma_tok_end(s, ws_end(s, i));
    }
}

/// The whitespace-delimited tokens of `s`.
pub open spec fn tokens(s: Seq<char>) -> Seq<Seq<char>> {
    tokens_from(s, 0)
}

/// The tokens joined with single spaces.
pub open spec fn join_space(ts: Seq<Seq<char>>) -> Seq<char>
    decreases ts.len(),
{
    if ts.len() == 0 {
        Seq::empty()
    } else if ts.len() == 1 {
        ts[0]
    } else {
        ts[0] + seq![' '] + join_space(ts.drop_first())
    }
}

/// `s` with every whitespace run between tokens collapsed to a single space
/// and outer whitespace dropped.
pub open spec fn collapse_ws(s: Seq<char>) -> Seq<char> {
    join_space(tokens(s))
}

/// If `i` sits on a non-whitespace character or at the end, the whitespace
/// scan does not move it.
pub proof fn lemma_ws_end_fixed(s: Seq<char>, i: int)
    requires
        0 <= i <= s.len(),
        i == s.len() || !is_ws(s[i]),
    ensures
        ws_end(s, i) == i,
{
}

/// Unfolds [`tokens_from`] at the start of a token.
pub proof fn lemma_tokens_from_unfold(s: Seq<char>, i: int)
    requires
        0 <= i < s.len(),
        !is_ws(s[i]),
    ensures
        tokens_from(s, i) == seq![s.subrange(i, tok_end(s, i))] + tokens_from(s, tok_end(s, i)),
{
    lemma_ws_end_fixed(s, i);
    lemma_tok_end(s, i);
}

/// Scanning whitespace before taking tokens changes nothing.
pub proof fn lemma_tokens_from_ws(s: Seq<char>, i: int)
    requires
        0 <= i <= s.len(),
    ensures
        tokens_from(s, i) == tokens_from(s, ws_end(s, i)),
{
    lemma_ws_end(s, i);
    lemma_ws_end_fixed(s, ws_end(s, i));
}

/// Whitespace scanning commutes with dropping a prefix.
pub proof fn lemma_ws_end_skip(s: Seq<char>, i: int, j: int)
    requires
        0 <= i <= s.len(),
        0 <= j <= s.len() - i,
    ensures
        ws_end(s.skip(i), j) == ws_end(s, i + j) - i,
    decreases s.len() - i - j,
{
    let u = s.skip(i);
    if i + j < s.len() && is_ws(s[i + j]) {
        assert(u[j] == s[i + j]);
        lemma_ws_end_skip(s, i, j + 1);
    } else {
        if j < u.len() {
            assert(u[j] == s[i + j]);
        }
    }
}

/// Trimming a suffix of a string that carries no trailing whitespace only
/// drops the leading whitespace of the suffix.
pub proof fn lemma_trim_of_suffix(s: Seq<char>, i: int)
    requires
        0 <= i <= s.len(),
        s.len() > 0 ==> !is_ws(s[s.len() - 1]),
    ensures
        trim(s.skip(i)) == s.subrange(ws_end(s, i), s.len() as int),
{
    let u = s.skip(i);
    lemma_ws_end_skip(s, i, 0);
    lemma_ws_end(s, i);
    if ws_end(s, i) == s.len() {
        assert(ws_end(u, 0) == u.len());
        assert(trim(u) =~= s.subrange(s.len() as int, s.len() as int));
    } else {
        assert(u.len() > 0);
        assert(u[u.len() - 1] == s[s.len() - 1]);
        assert(ws_rbegin(u, u.len() as int) == u.len());
        assert(trim(u) == u.subrange(ws_end(u, 0), u.len() as int));
        assert(trim(u) =~= s.subrange(ws_end(s, i), s.len() as int));
    }
}

/// Copies the characters of a string into a vector.
pub fn to_chars(s: &str) -> (v: Vec<char>)
    ensures
        v@ == s@,
{
    let n = s.unicode_len();
    let mut v: Vec<char> = Vec::new();
    let mut i: usize = 0;
    while i < n
        invariant
            i <= n,
            n == s@.len(),
            v@ == s@.subrange(0, i as int),
        decreases n - i,
    {
        v.push(s.get_char(i));
        i = i + 1;
        proof {
            assert(v@ =~= s@.subrange(0, i as int));
        }
    }
    proof {
        assert(v@ =~= s@);
    }
    v
}

/// Relies on `String::push`: appends one character to the string.
#[verifier::external_body]
pub(crate) fn push_char(s: &mut String, c: char)
    ensures
        final(s)@ == old(s)@.push(c),
{
    s.push(c);
}

/// Builds the string holding the characters of `v` from `from` to `to`.
pub fn chars_to_string(v: &Vec<char>, from: usize, to: usize) -> (r: String)
    requires
        from <= to <= v@.len(),
    ensures
        r@ == v@.subrange(from as int, to as int),
{
    let mut r = String::new();
    let mut i: usize = from;
    while i < to
        invariant
            from <= i <= to <= v@.len(),
            r@ == v@.subrange(from as int, i as int),
        decreases to - i,
    {
        push_char(&mut r, v[i]);
        i = i + 1;
        proof {
            assert(r@ =~= v@.subrange(from as int, i as int));
        }
    }
    proof {
        assert(r@ =~= v@.subrange(from as int, to as int));
    }
    r
}

/// Copies the characters of `v` from `from` to `to` into a new vector.
pub fn subvec(v: &Vec<char>, from: usize, to: usize) -> (r: Vec<char>)
    requires
        from <= to <= v@.len(),
    ensures
        r@ == v@.subrange(from as int, to as int),
{
    let mut r: Vec<char> = Vec::new();
    let mut i: usize = from;
    while i < to
        invariant
            from <= i <= to <= v@.len(),
            r@ == v@.subrange(from as int, i as int),
        decreases to - i,
    {
        r.push(v[i]);
        i = i + 1;
        proof {
            assert(r@ =~= v@.subrange(from as int, i as int));
        }
    }
    proof {
        assert(r@ =~= v@.subrange(from as int, to as int));
    }
    r
}

/// Scans forward from `i` over whitespace.
pub fn scan_ws(v: &Vec<char>, i: usize) -> (j: usize)
    requires
        i <= v@.len(),
    ensures
        j == ws_end(v@, i as int),
        i <= j <= v@.len(),
{
    proof {
        lemma_ws_end(v@, i as int);
    }
    let mut j: usize = i;
    while j < v.len() && ws_char(v[j])
        invariant
            i <= j <= v@.len(),
            ws_end(v@, i as int) == ws_end(v@, j as int),
        decreases v@.len() - j,
    {
        j = j + 1;
    }
    j
}

/// Scans forward from `i` over non-whitespace.
pub fn scan_tok(v: &Vec<char>, i: usize) -> (j: usize)
    requires
        i <= v@.len(),
    ensures
        j == tok_end(v@, i as int),
        i <= j <= v@.len(),
{
    proof {
        lemma_tok_end(v@, i as int);
    }
    let mut j: usize = i;
    while j < v.len() && !ws_char(v[j])
        invariant
            i <= j <= v@.len(),
            tok_end(v@, i as int) == tok_end(v@, j as int),
        decreases v@.len() - j,
    {
        j = j + 1;
    }
    j
}

/// Scans backward from `i` over whitespace.
pub fn scan_rws(v: &Vec<char>, i: usize) -> (j: usize)
    requires
        i <= v@.len(),
    ensures
        j == ws_rbegin(v@, i as int),
        j <= i,
{
    proof {
        lemma_ws_rbegin(v@, i as int);
    }
    let mut j: usize = i;
    while j > 0 && ws_char(v[j - 1])
        invariant
            j <= i <= v@.len(),
            ws_rbegin(v@, i as int) == ws_rbegin(v@, j as int),
        decreases j,
    {
        j = j - 1;
    }
    j
}

/// Copies out the trimmed middle of `v`.
pub fn trim_vec(v: &Vec<char>) -> (r: Vec<char>)
    ensures
        r@ == trim(v@),
{
    proof {
        lemma_trim(v@);
    }
    let lo = scan_ws(v, 0);
    if lo == v.len() {
        Vec::new()
    } else {
        let hi = scan_rws(v, v.len());
        subvec(v, lo, hi)
    }
}

/// Splits `v` into its whitespace-delimited tokens.
pub fn tokens_exec(v: &Vec<char>) -> (ts: Vec<Vec<char>>)
    ensures
        ts.deep_view() == tokens(v@),
{
    let ghost s = v@;
    let mut ts: Vec<Vec<char>> = Vec::new();
    let mut i = scan_ws(v, 0);
    proof {
        lemma_ws_end(s, 0);
        lemma_tokens_from_ws(s, 0);
        assert(ts.deep_view() =~= Seq::<Seq<char>>::empty());
        assert(tokens(s) =~= ts.deep_view() + tokens_from(s, i as int));
    }
    while i < v.len()
        invariant
            i <= v@.len(),
            s == v@,
            i as int == s.len() || !is_ws(s[i as int]),
            tokens(s) == ts.deep_view() + tokens_from(s, i as int),
        decreases v@.len() - i,
    {
        let j = scan_tok(v, i);
        proof {
            lemma_tok_end(s, i as int);
            lemma_tokens_from_unfold(s, i as int);
        }
        let tok = subvec(v, i, j);
        let ghost old_ts = ts.deep_view();
        ts.push(tok);
        let k = scan_ws(v, j);
        proof {
            assert(tok.deep_view() =~= tok@);
            assert(ts.deep_view() =~= old_ts.push(tok@));
            lemma_ws_end(s, j as int);
            lemma_tokens_from_ws(s, j as int);
            assert(tokens(s) =~= ts.deep_view() + tokens_from(s, k as int));
        }
        i = k;
    }
    proof {
        assert(tokens_from(s, i as int) =~= Seq::<Seq<char>>::empty());
        assert(tokens(s) =~= ts.deep_view());
    }
    ts
}

/// What is still owed to the join of the remaining tokens: a separator space
/// first, unless nothing has been joined yet.
pub open spec fn join_rest(ts: Seq<Seq<char>>, first: bool) -> Seq<char> {
    if ts.len() == 0 {
        Seq::empty()
    } else if first {
        join_space(ts)
    } else {
        seq![' '] + join_space(ts)
    }
}

/// Unfolds [`join_rest`] one token at a time.
pub proof fn lemma_join_rest_unfold(d: Seq<Seq<char>>, i: int)
    requires
        0 <= i < d.len(),
    ensures
        join_rest(d.skip(i), false) =~= seq![' '] + d[i] + join_rest(d.skip(i + 1), false),
        join_rest(d.skip(i), true) =~= d[i] + join_rest(d.skip(i + 1), false),
{
    let u = d.skip(i);
    assert(u.len() == d.len() - i);
    assert(u[0] == d[i]);
    if u.len() == 1 {
        assert(join_space(u) == u[0]);
        assert(d.skip(i + 1).len() == 0);
    } else {
        assert(u.drop_first() =~= d.skip(i + 1));
        assert(join_space(u) == u[0] + seq![' '] + join_space(u.drop_first()));
    }
}

/// Appends every character of `t` to `r`.
pub fn append_chars(r: &mut Vec<char>, t: &Vec<char>)
    ensures
        final(r)@ == old(r)@ + t@,
{
    let mut k: usize = 0;
    while k < t.len()
        invariant
            k <= t@.len(),
            r@ == old(r)@ + t@.subrange(0, k as int),
        decreases t@.len() - k,
    {
        r.push(t[k]);
        k = k + 1;
        proof {
            assert(r@ =~= old(r)@ + t@.subrange(0, k as int));
        }
    }
    proof {
        assert(old(r)@ + t@.subrange(0, t@.len() as int) =~= old(r)@ + t@);
    }
}

/// Joins tokens with single spaces.
pub fn join_space_exec(ts: &Vec<Vec<char>>) -> (r: Vec<char>)
    ensures
        r@ == join_space(ts.deep_view()),
{
    let ghost d = ts.deep_view();
    let mut r: Vec<char> = Vec::new();
    let mut i: usize = 0;
    proof {
        assert(d.skip(0) =~= d);
        assert(join_space(d) =~= r@ + join_rest(d.skip(0), true));
    }
    while i < ts.len()
        invariant
            i <= ts@.len(),
            d == ts.deep_view(),
            d.len() == ts@.len(),
            join_space(d) == r@ + join_rest(d.skip(i as int), i == 0),
        decreases ts@.len() - i,
    {
        proof {
            lemma_join_rest_unfold(d, i as int);
            assert(d[i as int] =~= ts@[i as int]@);
        }
        let ghost r0 = r@;
        if i > 0 {
            r.push(' ');
        }
        let t = &ts[i];
        append_chars(&mut r, t);
        proof {
            if i > 0 {
                assert(r@ =~= r0 + (seq![' '] + d[i as int]));
                assert(r0 + (seq![' '] + d[i as int] + join_rest(d.skip(i as int + 1), false))
                    =~= r@ + join_rest(d.skip(i as int + 1), false));
            } else {
                assert(r@ =~= r0 + d[i as int]);
                assert(r0 + (d[i as int] + join_rest(d.skip(i as int + 1), false)) =~= r@
                    + join_rest(d.skip(i as int + 1), false));
            }
        }
        i = i + 1;
    }
    proof {
        assert(d.skip(i as int) =~= Seq::<Seq<char>>::empty());
        assert(join_space(d) =~= r@);
    }
    r
}

/// Collapses whitespace runs to single spaces and drops outer whitespace.
pub fn collapse_ws_exec(v: &Vec<char>) -> (r: Vec<char>)
    ensures
        r@ == collapse_ws(v@),
{
    let ts = tokens_exec(v);
    join_space_exec(&ts)
}

/// Joins strings with single spaces.
pub fn join_strings(v: &Vec<String>) -> (r: String)
    ensures
        r@ == join_space(v.deep_view()),
{
    let ghost d = v.deep_view();
    let mut r = String::new();
    let mut i: usize = 0;
    proof {
        assert(d.skip(0) =~= d);
        assert(join_space(d) =~= r@ + join_rest(d.skip(0), true));
    }
    while i < v.len()
        invariant
            i <= v@.len(),
            d == v.deep_view(),
            d.len() == v@.len(),
            join_space(d) == r@ + join_rest(d.skip(i as int), i == 0),
        decreases v@.len() - i,
    {
        proof {
            lemma_join_rest_unfold(d, i as int);
            assert(d[i as int] == v@[i as int]@);
        }
        let ghost r0 = r@;
        if i > 0 {
            r.append(" ");
        }
        r.append(v[i].as_str());
        proof {
            if i > 0 {
                assert(" "@ =~= seq![' ']) by {
                    reveal_strlit(" ");
                }
                assert(r@ =~= r0 + (seq![' '] + d[i as int]));
                assert(r0 + (seq![' '] + d[i as int] + join_rest(d.skip(i as int + 1), false))
                    =~= r@ + join_rest(d.skip(i as int + 1), false));
            } else {
                assert(r@ =~= r0 + d[i as int]);
                assert(r0 + (d[i as int] + join_rest(d.skip(i as int + 1), false)) =~= r@
                    + join_rest(d.skip(i as int + 1), false));
            }
        }
        i = i + 1;
    }
    proof {
        assert(d.skip(i as int) =~= Seq::<Seq<char>>::empty());
        assert(join_space(d) =~= r@);
    }
    r
}

/// Joins two string slices into one string.
pub fn concat2(a: &str, b: &str) -> (r: String)
    ensures
        r@ == a@ + b@,
{
    let mut r = String::from_str(a);
    r.append(b);
    r
}

/// Compares two strings character by character.
pub fn str_eq(a: &str, b: &str) -> (r: bool)
    ensures
        r == (a@ == b@),
{
    let na = a.unicode_len();
    let nb = b.unicode_len();
    if na != nb {
        return false;
    }
    let mut i: usize = 0;
    while i < na
        invariant
            i <= na,
            na == a@.len(),
            na == b@.len(),
            forall|j: int| 0 <= j < i ==> a@[j] == b@[j],
        decreases na - i,
    {
        if a.get_char(i) != b.get_char(i) {
            return false;
        }
        i = i + 1;
    }
    proof {
        assert(a@ =~= b@);
    }
    true
}

} // verus!
