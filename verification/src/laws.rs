//! Laws of the store and its dispatch: what sequences of commands must
//! answer, stated over the store model and [`dispatch_ok`] and proved from
//! the contracts alone.

use vstd::prelude::*;

use crate::api::{dispatch_ok, SpecCommand, error_line};
use crate::cache::stored_value;

verus! {

/// `OK` is not an error line, so a `SET` that answered `OK` took effect.
pub proof fn lemma_ok_not_error()
    ensures
        !error_line("OK"@),
{
    reveal_strlit("OK");
    reveal_strlit("ERROR: ");
    assert forall|m: Seq<char>| "OK"@ != "ERROR: "@ + m by {
        assert(("ERROR: "@ + m).len() >= 7);
    }
}

/// Round trip: a `SET` that answered `OK` leaves the store so that a `GET`
/// of the same key answers exactly the value that was set, and changes
/// nothing.
pub proof fn lemma_set_get_round_trip(
    m0: Map<Seq<char>, Seq<u8>>,
    m1: Map<Seq<char>, Seq<u8>>,
    m2: Map<Seq<char>, Seq<u8>>,
    k: Seq<char>,
    v: Seq<char>,
    r_get: Seq<char>,
)
    requires
        dispatch_ok(m0, m1, SpecCommand::Put { key: k, value: v }, "OK"@),
        dispatch_ok(m1, m2, SpecCommand::Get { key: k }, r_get),
    ensures
        r_get == v,
        m2 == m1,
{
    lemma_ok_not_error();
    assert(m1.contains_key(k));
    assert(stored_value(m1[k]) == Some(v));
}

/// Idempotence of `DEL`: on an absent key it answers `0` and leaves the
/// store as it was; repeating it still answers `0`.
pub proof fn lemma_del_idempotent(
    m0: Map<Seq<char>, Seq<u8>>,
    m1: Map<Seq<char>, Seq<u8>>,
    m2: Map<Seq<char>, Seq<u8>>,
    k: Seq<char>,
    r1: Seq<char>,
    r2: Seq<char>,
)
    requires
        !m0.contains_key(k),
        dispatch_ok(m0, m1, SpecCommand::Delete { key: k }, r1),
        dispatch_ok(m1, m2, SpecCommand::Delete { key: k }, r2),
    ensures
        r1 == "0"@,
        r2 == "0"@,
        m1 == m0,
        m2 == m0,
{
    assert(m0.remove(k) =~= m0);
}

/// Overwrite: two `SET`s of the same key that both answered `OK` leave the
/// key holding the second value, and a `GET` then answers it.
pub proof fn lemma_overwrite(
    m0: Map<Seq<char>, Seq<u8>>,
    m1: Map<Seq<char>, Seq<u8>>,
    m2: Map<Seq<char>, Seq<u8>>,
    m3: Map<Seq<char>, Seq<u8>>,
    k: Seq<char>,
    v1: Seq<char>,
    v2: Seq<char>,
    r_get: Seq<char>,
)
    requires
        dispatch_ok(m0, m1, SpecCommand::Put { key: k, value: v1 }, "OK"@),
        dispatch_ok(m1, m2, SpecCommand::Put { key: k, value: v2 }, "OK"@),
        dispatch_ok(m2, m3, SpecCommand::Get { key: k }, r_get),
    ensures
        r_get == v2,
        stored_value(m2[k]) == Some(v2),
{
    lemma_ok_not_error();
    assert(m2.contains_key(k));
}

/// Existence transition: directly after a `SET` that answered `OK`, the
/// first `DEL` of the key answers `1`, and the next one `0`; the key is gone
/// after the first.
pub proof fn lemma_delete_after_set(
    m0: Map<Seq<char>, Seq<u8>>,
    m1: Map<Seq<char>, Seq<u8>>,
    m2: Map<Seq<char>, Seq<u8>>,
    m3: Map<Seq<char>, Seq<u8>>,
    k: Seq<char>,
    v: Seq<char>,
    r1: Seq<char>,
    r2: Seq<char>,
)
    requires
        dispatch_ok(m0, m1, SpecCommand::Put { key: k, value: v }, "OK"@),
        dispatch_ok(m1, m2, SpecCommand::Delete { key: k }, r1),
        dispatch_ok(m2, m3, SpecCommand::Delete { key: k }, r2),
    ensures
        r1 == "1"@,
        r2 == "0"@,
        !m2.contains_key(k),
{
    lemma_ok_not_error();
    assert(m1.contains_key(k));
}

/// Serialized writers: the store's exclusive-access discipline serializes two
/// `SET`s of one key into one of the two orders, and either order leaves the
/// key holding one of the two values whole — the one written last — never a
/// blend of both. (Which order runs is the lock's choice, outside this
/// model.)
pub proof fn lemma_last_set_wins(
    m0: Map<Seq<char>, Seq<u8>>,
    m1: Map<Seq<char>, Seq<u8>>,
    m2: Map<Seq<char>, Seq<u8>>,
    k: Seq<char>,
    v1: Seq<char>,
    v2: Seq<char>,
)
    requires
        dispatch_ok(m0, m1, SpecCommand::Put { key: k, value: v1 }, "OK"@),
        dispatch_ok(m1, m2, SpecCommand::Put { key: k, value: v2 }, "OK"@),
    ensures
        m2.contains_key(k),
        stored_value(m2[k]) == Some(v1) || stored_value(m2[k]) == Some(v2),
        stored_value(m2[k]) == Some(v2),
{
    lemma_ok_not_error();
}

} // verus!
