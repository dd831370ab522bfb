//! The store: a mapping from keys to zstd-compressed payloads, together with
//! the entry type that owns one compressed value.

use vstd::prelude::*;
use vstd::utf8::{decode_utf8, encode_utf8, encode_utf8_decode_utf8, encode_utf8_valid_utf8,
    valid_utf8};

use crate::text::{concat2, str_eq};

verus! {

/// A fault inside the store: the compressor failed, a stored payload could
/// not be brought back, or the key was absent.
#[derive(Debug)]
pub enum CacheError {
    CompressionError(String),
    DecompressionError(String),
    KeyNotFound(String),
}

impl CacheError {
    /// The message a client sees for this fault.
    pub fn message(&self) -> (r: String)
        ensures
            match self {
                CacheError::CompressionError(m) => r@ == "Compression failed: "@ + m@,
                CacheError::DecompressionError(m) => r@ == "Decompression failed: "@ + m@,
                CacheError::KeyNotFound(k) => r@ == "Key not found: "@ + k@,
            },
    {
        match self {
            CacheError::CompressionError(m) => concat2("Compression failed: ", m.as_str()),
            CacheError::DecompressionError(m) => concat2("Decompression failed: ", m.as_str()),
            CacheError::KeyNotFound(k) => concat2("Key not found: ", k.as_str()),
        }
    }
}

/// Declares `std::io::Error`, the error type of the zstd entry points, so
/// that it can cross the trusted wrappers; nothing is assumed of its values.
#[verifier::external_type_specification]
#[verifier::external_body]
pub struct ExIoError(std::io::Error);

/// What `zstd::stream::decode_all` returns on the given bytes: the
/// decompressed payload, or nothing when the bytes are not a valid frame.
/// Decompression reads nothing but its input, so the result is a function of
/// the bytes alone.
pub uninterp spec fn zstd_inflate(bytes: Seq<u8>) -> Option<Seq<u8>>;

/// Relies on `zstd::stream::encode_all`: zstd compression is lossless, so a
/// payload it returns decompresses back to exactly the input.
#[verifier::external_body]
fn zstd_compress(data: &[u8], level: i32) -> (r: Result<Vec<u8>, std::io::Error>)
    ensures
        r matches Ok(c) ==> zstd_inflate(c@) == Some(data@),
{
    zstd::stream::encode_all(data, level)
}

/// Relies on `zstd::stream::decode_all`: deterministic decompression of a
/// byte slice; its result is named by [`zstd_inflate`].
#[verifier::external_body]
fn zstd_extract(data: &[u8]) -> (r: Result<Vec<u8>, std::io::Error>)
    ensures
        r is Ok <==> zstd_inflate(data@) is Some,
        r matches Ok(d) ==> Some(d@) == zstd_inflate(data@),
{
    zstd::stream::decode_all(data)
}

/// Relies on `std::io::Error`'s `Display` implementation: renders the error
/// as text.
#[verifier::external_body]
fn io_error_message(e: &std::io::Error) -> String {
    e.to_string()
}

/// Relies on `String::from_utf8`: succeeds exactly on valid UTF-8, returning
/// the string those bytes encode.
#[verifier::external_body]
pub(crate) fn bytes_to_string(bytes: Vec<u8>) -> (r: Option<String>)
    ensures
        r is Some <==> valid_utf8(bytes@),
        r matches Some(s) ==> encode_utf8(s@) == bytes@,
{
    match String::from_utf8(bytes) {
        Ok(s) => Some(s),
        Err(_) => None,
    }
}

/// The string a stored payload stands for: decompress, then decode as UTF-8;
/// nothing when either step cannot succeed.
pub open spec fn stored_value(p: Seq<u8>) -> Option<Seq<char>> {
    match zstd_inflate(p) {
        Some(b) => if valid_utf8(b) {
            Some(decode_utf8(b))
        } else {
            None
        },
        None => None,
    }
}

/// One compressed value, as stored under a key.
#[derive(Debug, Clone)]
pub struct CacheEntry {
    pub compressed_data: Vec<u8>,
}

impl View for CacheEntry {
    type V = Seq<u8>;

    open spec fn view(&self) -> Seq<u8> {
        self.compressed_data@
    }
}

impl CacheEntry {
    /// Compresses `value`; on success the new entry stands for exactly that
    /// string.
    pub fn new(value: &str) -> (r: Result<CacheEntry, CacheError>)
        ensures
            r matches Ok(e) ==> stored_value(e@) == Some(value@),
            r matches Err(e) ==> e is CompressionError,
    {
        match zstd_compress(value.as_bytes(), 3) {
            Ok(c) => {
                proof {
                    encode_utf8_valid_utf8(value@);
                    encode_utf8_decode_utf8(value@);
                }
                Ok(CacheEntry { compressed_data: c })
            },
            Err(e) => Err(CacheError::CompressionError(io_error_message(&e))),
        }
    }

    /// Brings the stored string back out of the compressed payload.
    pub fn get_value(&self) -> (r: Result<String, CacheError>)
        ensures
            stored_value(self@) matches Some(v) ==> r matches Ok(s) && s@ == v,
            stored_value(self@) is None ==> (r matches Err(e) && e is DecompressionError),
    {
        match zstd_extract(self.compressed_data.as_slice()) {
            Ok(d) => {
                let ghost bytes = d@;
                match bytes_to_string(d) {
                    Some(s) => {
                        proof {
                            encode_utf8_decode_utf8(s@);
                        }
                        Ok(s)
                    },
                    None => Err(
                        CacheError::DecompressionError(
                            String::from_str("stored payload is not UTF-8"),
                        ),
                    ),
                }
            },
            Err(e) => Err(CacheError::DecompressionError(io_error_message(&e))),
        }
    }
}

/// No two entries share a key.
pub open spec fn distinct_keys(s: Seq<(String, CacheEntry)>) -> bool {
    forall|i: int, j: int| 0 <= i < j < s.len() ==> (#[trigger] s[i]).0@ != (#[trigger] s[j]).0@
}

/// The mapping a sequence of entries stands for; a later entry for the same
/// key wins.
pub closed spec fn entries_map(s: Seq<(String, CacheEntry)>) -> Map<Seq<char>, Seq<u8>>
    decreases s.len(),
{
    if s.len() == 0 {
        Map::empty()
    } else {
        entries_map(s.drop_last()).insert(s.last().0@, s.last().1@)
    }
}

/// The key set of [`entries_map`] is exactly the keys of the entries, and on
/// distinct keys every entry is found under its own key.
proof fn lemma_entries_map(s: Seq<(String, CacheEntry)>)
    ensures
        forall|k: Seq<char>|
            #[trigger] entries_map(s).contains_key(k) <==> exists|i: int|
                0 <= i < s.len() && (#[trigger] s[i]).0@ == k,
        distinct_keys(s) ==> forall|i: int|
            0 <= i < s.len() ==> entries_map(s).contains_key((#[trigger] s[i]).0@) && entries_map(
                s,
            )[s[i].0@] == s[i].1@,
    decreases s.len(),
{
    if s.len() > 0 {
        let d = s.drop_last();
        lemma_entries_map(d);
        assert forall|k: Seq<char>| #[trigger] entries_map(s).contains_key(k) implies exists|i: int|
            0 <= i < s.len() && (#[trigger] s[i]).0@ == k by {
            if k == s.last().0@ {
                assert(s[s.len() - 1].0@ == k);
            } else {
                assert(entries_map(d).contains_key(k));
                let i = choose|i: int| 0 <= i < d.len() && (#[trigger] d[i]).0@ == k;
                assert(s[i] == d[i]);
                assert(s[i].0@ == k);
            }
        }
        assert forall|k: Seq<char>|
            (exists|i: int| 0 <= i < s.len() && (#[trigger] s[i]).0@ == k) implies entries_map(
            s,
        ).contains_key(k) by {
            let i = choose|i: int| 0 <= i < s.len() && (#[trigger] s[i]).0@ == k;
            if i < s.len() - 1 {
                assert(d[i] == s[i]);
                assert(d[i].0@ == k);
                assert(entries_map(d).contains_key(k));
            } else {
                assert(s.last().0@ == k);
            }
        }
        if distinct_keys(s) {
            assert(distinct_keys(d)) by {
                assert(forall|i: int, j: int|
                    0 <= i < j < d.len() ==> (#[trigger] d[i]).0@ == s[i].0@ && (#[trigger] d[j]).0@
                        == s[j].0@);
            }
            assert forall|i: int| 0 <= i < s.len() implies entries_map(s).contains_key(
                (#[trigger] s[i]).0@,
            ) && entries_map(s)[s[i].0@] == s[i].1@ by {
                if i < s.len() - 1 {
                    assert(d[i].0@ == s[i].0@ && d[i].1@ == s[i].1@);
                    assert(s[i].0@ != s.last().0@);
                }
            }
        }
    }
}

/// The concurrent in-memory key-value store: a mapping from string keys to
/// compressed payloads. Its view is the mapping from key characters to
/// payload bytes.
#[derive(Debug)]
pub struct Hydrogen {
    entries: Vec<(String, CacheEntry)>,
}

impl Hydrogen {
    #[verifier::type_invariant]
    spec fn wf(self) -> bool {
        distinct_keys(self.entries@)
    }
}

impl View for Hydrogen {
    type V = Map<Seq<char>, Seq<u8>>;

    closed spec fn view(&self) -> Map<Seq<char>, Seq<u8>> {
        entries_map(self.entries@)
    }
}

impl Hydrogen {
    /// A fresh, empty store.
    pub fn new() -> (r: Hydrogen)
        ensures
            r@ == Map::<Seq<char>, Seq<u8>>::empty(),
    {
        Hydrogen { entries: Vec::new() }
    }

    /// The index holding `key`, if any; `None` exactly when the store does
    /// not contain the key.
    fn find(&self, key: &str) -> (r: Option<usize>)
        ensures
            r matches Some(i) ==> i < self.entries@.len() && self.entries@[i as int].0@ == key@
                && self@.contains_key(key@) && self@[key@] == self.entries@[i as int].1@,
            r is None ==> !self@.contains_key(key@),
    {
        let mut i: usize = 0;
        while i < self.entries.len()
            invariant
                i <= self.entries@.len(),
                forall|j: int| 0 <= j < i ==> (#[trigger] self.entries@[j]).0@ != key@,
            decreases self.entries@.len() - i,
        {
            proof {
                use_type_invariant(self);
                lemma_entries_map(self.entries@);
            }
            if str_eq(self.entries[i].0.as_str(), key) {
                return Some(i);
            }
            i = i + 1;
        }
        proof {
            use_type_invariant(self);
            lemma_entries_map(self.entries@);
            if self@.contains_key(key@) {
                let j = choose|j: int|
                    0 <= j < self.entries@.len() && (#[trigger] self.entries@[j]).0@ == key@;
            }
        }
        None
    }

    /// Compresses `value` and stores it under `key`, replacing any earlier
    /// entry; on failure the store is unchanged.
    pub fn set(&mut self, key: String, value: String) -> (r: Result<(), CacheError>)
        ensures
            r is Ok ==> final(self)@ == old(self)@.insert(key@, final(self)@[key@])
                && stored_value(final(self)@[key@]) == Some(value@),
            r is Err ==> final(self)@ == old(self)@ && (r matches Err(e)
                && e is CompressionError),
    {
        let entry = match CacheEntry::new(value.as_str()) {
            Ok(e) => e,
            Err(e) => {
                return Err(e);
            },
        };
        let idx = self.find(key.as_str());
        let mut tmp = Hydrogen { entries: Vec::new() };
        core::mem::swap(&mut tmp, self);
        proof {
            use_type_invariant(&tmp);
        }
        let Hydrogen { mut entries } = tmp;
        let ghost s0 = entries@;
        match idx {
            Some(i) => {
                proof {
                    lemma_distinct_update(s0, i as int, (key, entry));
                    lemma_entries_map_update(s0, i as int, (key, entry));
                }
                entries[i] = (key, entry);
            },
            None => {
                proof {
                    lemma_entries_map(s0);
                    lemma_distinct_push(s0, (key, entry));
                    lemma_entries_map_push(s0, (key, entry));
                }
                entries.push((key, entry));
            },
        }
        *self = Hydrogen { entries };
        proof {
            lemma_entries_map(self.entries@);
        }
        Ok(())
    }

    /// Looks `key` up and brings its value back out; the key's absence is the
    /// `KeyNotFound` fault, a payload that cannot be brought back the
    /// `DecompressionError` one.
    pub fn get(&self, key: &str) -> (r: Result<String, CacheError>)
        ensures
            !self@.contains_key(key@) ==> (r matches Err(e) && e is KeyNotFound),
            self@.contains_key(key@) ==> match stored_value(self@[key@]) {
                Some(v) => r matches Ok(s) && s@ == v,
                None => r matches Err(e) && e is DecompressionError,
            },
    {
        match self.find(key) {
            Some(i) => self.entries[i].1.get_value(),
            None => Err(CacheError::KeyNotFound(String::from_str(key))),
        }
    }

    /// Removes `key`; the result says whether it was there. Never fails.
    pub fn delete(&mut self, key: &str) -> (r: bool)
        ensures
            r == old(self)@.contains_key(key@),
            final(self)@ == old(self)@.remove(key@),
    {
        match self.find(key) {
            Some(i) => {
                let mut tmp = Hydrogen { entries: Vec::new() };
                core::mem::swap(&mut tmp, self);
                proof {
                    use_type_invariant(&tmp);
                }
                let Hydrogen { mut entries } = tmp;
                proof {
                    lemma_distinct_remove(entries@, i as int);
                    lemma_entries_map_remove(entries@, i as int);
                }
                entries.remove(i);
                *self = Hydrogen { entries };
                true
            },
            None => {
                proof {
                    assert(old(self)@.remove(key@) =~= old(self)@);
                }
                false
            },
        }
    }

    /// A point-in-time copy of all keys, without duplicates, in no promised
    /// order.
    pub fn keys(&self) -> (r: Vec<String>)
        ensures
            r.deep_view().to_set() == self@.dom(),
            r.deep_view().no_duplicates(),
    {
        let mut r: Vec<String> = Vec::new();
        let mut i: usize = 0;
        while i < self.entries.len()
            invariant
                i <= self.entries@.len(),
                r.deep_view().len() == i,
                forall|j: int|
                    0 <= j < i ==> r.deep_view()[j] == (#[trigger] self.entries@[j]).0@,
            decreases self.entries@.len() - i,
        {
            let ghost d0 = r.deep_view();
            r.push(self.entries[i].0.clone());
            proof {
                assert(r.deep_view() =~= d0.push(self.entries@[i as int].0@));
            }
            i = i + 1;
        }
        proof {
            use_type_invariant(self);
            lemma_entries_map(self.entries@);
            let d = r.deep_view();
            assert forall|k: Seq<char>| d.to_set().contains(k) implies self@.dom().contains(
                k,
            ) by {
                let j = choose|j: int| 0 <= j < d.len() && d[j] == k;
                assert(self.entries@[j].0@ == k);
            }
            assert forall|k: Seq<char>| self@.dom().contains(k) implies d.to_set().contains(
                k,
            ) by {
                let j = choose|j: int|
                    0 <= j < self.entries@.len() && (#[trigger] self.entries@[j]).0@ == k;
                assert(d[j] == k);
            }
            assert(d.to_set() =~= self@.dom());
            assert forall|a: int, b: int|
                0 <= a < d.len() && 0 <= b < d.len() && a != b implies d[a] != d[b] by {
                if a < b {
                    assert(self.entries@[a].0@ != self.entries@[b].0@);
                } else {
                    assert(self.entries@[b].0@ != self.entries@[a].0@);
                }
            }
        }
        r
    }
}

impl Default for Hydrogen {
    /// A fresh, empty store.
    fn default() -> (r: Hydrogen)
        ensures
            r@ == Map::<Seq<char>, Seq<u8>>::empty(),
    {
        Hydrogen::new()
    }
}

/// Replacing the entry at `i` with one carrying the same key keeps the keys
/// distinct.
proof fn lemma_distinct_update(s: Seq<(String, CacheEntry)>, i: int, p: (String, CacheEntry))
    requires
        distinct_keys(s),
        0 <= i < s.len(),
        p.0@ == s[i].0@,
    ensures
        distinct_keys(s.update(i, p)),
{
    let t = s.update(i, p);
    assert forall|a: int, b: int| 0 <= a < b < t.len() implies (#[trigger] t[a]).0@
        != (#[trigger] t[b]).0@ by {
        assert(s[a].0@ != s[b].0@);
    }
}

/// Appending an entry whose key no entry holds keeps the keys distinct.
proof fn lemma_distinct_push(s: Seq<(String, CacheEntry)>, p: (String, CacheEntry))
    requires
        distinct_keys(s),
        forall|i: int| 0 <= i < s.len() ==> (#[trigger] s[i]).0@ != p.0@,
    ensures
        distinct_keys(s.push(p)),
{
    let t = s.push(p);
    assert forall|a: int, b: int| 0 <= a < b < t.len() implies (#[trigger] t[a]).0@
        != (#[trigger] t[b]).0@ by {
        if b < s.len() {
            assert(s[a].0@ != s[b].0@);
        } else {
            assert(s[a].0@ != p.0@);
        }
    }
}

/// Dropping one entry keeps the keys distinct.
proof fn lemma_distinct_remove(s: Seq<(String, CacheEntry)>, i: int)
    requires
        distinct_keys(s),
        0 <= i < s.len(),
    ensures
        distinct_keys(s.remove(i)),
{
    let t = s.remove(i);
    assert forall|a: int, b: int| 0 <= a < b < t.len() implies (#[trigger] t[a]).0@
        != (#[trigger] t[b]).0@ by {
        let a0 = if a < i {
            a
        } else {
            a + 1
        };
        let b0 = if b < i {
            b
        } else {
            b + 1
        };
        assert(t[a] == s[a0] && t[b] == s[b0]);
        assert(s[a0].0@ != s[b0].0@);
    }
}

/// Appending an entry inserts its key into the mapping.
proof fn lemma_entries_map_push(s: Seq<(String, CacheEntry)>, p: (String, CacheEntry))
    ensures
        entries_map(s.push(p)) == entries_map(s).insert(p.0@, p.1@),
{
    let t = s.push(p);
    assert(t.drop_last() =~= s);
    assert(t.last() == p);
}

/// Replacing the entry at `i` with one carrying the same key re-inserts that
/// key into the mapping.
proof fn lemma_entries_map_update(s: Seq<(String, CacheEntry)>, i: int, p: (String, CacheEntry))
    requires
        distinct_keys(s),
        0 <= i < s.len(),
        p.0@ == s[i].0@,
    ensures
        entries_map(s.update(i, p)) == entries_map(s).insert(p.0@, p.1@),
    decreases s.len(),
{
    let t = s.update(i, p);
    let d = s.drop_last();
    assert(distinct_keys(d)) by {
        assert(forall|a: int, b: int|
            0 <= a < b < d.len() ==> (#[trigger] d[a]).0@ == s[a].0@ && (#[trigger] d[b]).0@
                == s[b].0@);
    }
    if i == s.len() - 1 {
        assert(t.drop_last() =~= d);
        assert(t.last() == p);
        assert(entries_map(t) == entries_map(d).insert(p.0@, p.1@));
        assert(entries_map(s) == entries_map(d).insert(s.last().0@, s.last().1@));
        assert(entries_map(d).insert(s.last().0@, s.last().1@).insert(p.0@, p.1@)
            =~= entries_map(d).insert(p.0@, p.1@));
    } else {
        assert(t.drop_last() =~= d.update(i, p));
        assert(t.last() == s.last());
        lemma_entries_map_update(d, i, p);
        assert(entries_map(t) == entries_map(d).insert(p.0@, p.1@).insert(
            s.last().0@,
            s.last().1@,
        ));
        assert(s[i].0@ != s.last().0@);
        assert(entries_map(d).insert(p.0@, p.1@).insert(s.last().0@, s.last().1@)
            =~= entries_map(d).insert(s.last().0@, s.last().1@).insert(p.0@, p.1@));
    }
}

/// Dropping the entry at `i` removes its key from the mapping.
proof fn lemma_entries_map_remove(s: Seq<(String, CacheEntry)>, i: int)
    requires
        distinct_keys(s),
        0 <= i < s.len(),
    ensures
        entries_map(s.remove(i)) == entries_map(s).remove(s[i].0@),
    decreases s.len(),
{
    let t = s.remove(i);
    let d = s.drop_last();
    lemma_entries_map(d);
    assert(distinct_keys(d)) by {
        assert(forall|a: int, b: int|
            0 <= a < b < d.len() ==> (#[trigger] d[a]).0@ == s[a].0@ && (#[trigger] d[b]).0@
                == s[b].0@);
    }
    if i == s.len() - 1 {
        assert(t =~= d);
        // The dropped key occurs nowhere else, so removing it undoes the insert.
        assert(forall|j: int| 0 <= j < d.len() ==> (#[trigger] d[j]).0@ != s[i].0@);
        assert(!entries_map(d).contains_key(s[i].0@));
        assert(entries_map(d).insert(s.last().0@, s.last().1@).remove(s[i].0@) =~= entries_map(
            d,
        ));
    } else {
        assert(t.drop_last() =~= d.remove(i));
        assert(t.last() == s.last());
        lemma_entries_map_remove(d, i);
        assert(entries_map(t) == entries_map(d).remove(s[i].0@).insert(
            s.last().0@,
            s.last().1@,
        ));
        assert(s[i].0@ != s.last().0@);
        assert(entries_map(d).remove(s[i].0@).insert(s.last().0@, s.last().1@) =~= entries_map(
            d,
        ).insert(s.last().0@, s.last().1@).remove(s[i].0@));
    }
}

} // verus!
