//! Client identifiers and public points as integers, which is what the maps of
//! the hub are keyed by. Both encodings are one to one.

use vstd::prelude::*;

use crate::bytes::array_at;

verus! {

/// Eight bytes that name a client: the first bytes of its X25519 public point.
pub type ClientId = [u8; 8];

/// An X25519 public point.
pub type XPub = [u8; 32];

/// A client identifier as an integer.
pub open spec fn id_key(id: ClientId) -> u64 {
    vstd::bytes::spec_u64_from_le_bytes(id@)
}

/// A public point as a pair of integers.
pub open spec fn x_key(x: XPub) -> (u128, u128) {
    (
        vstd::bytes::spec_u128_from_le_bytes(x@.subrange(0, 16)),
        vstd::bytes::spec_u128_from_le_bytes(x@.subrange(16, 32)),
    )
}

proof fn lemma_id_key_injective(a: ClientId, b: ClientId)
    requires
        id_key(a) == id_key(b),
    ensures
        a == b,
{
    vstd::bytes::lemma_auto_spec_u64_to_from_le_bytes();
    assert(vstd::bytes::spec_u64_to_le_bytes(id_key(a)) == a@);
    assert(vstd::bytes::spec_u64_to_le_bytes(id_key(b)) == b@);
    assert(a@ == b@);
    assert(a =~= b);
}

proof fn lemma_x_key_injective(a: XPub, b: XPub)
    requires
        x_key(a) == x_key(b),
    ensures
        a == b,
{
    vstd::bytes::lemma_auto_spec_u128_to_from_le_bytes();
    assert(vstd::bytes::spec_u128_to_le_bytes(x_key(a).0) == a@.subrange(0, 16));
    assert(vstd::bytes::spec_u128_to_le_bytes(x_key(b).0) == b@.subrange(0, 16));
    assert(vstd::bytes::spec_u128_to_le_bytes(x_key(a).1) == a@.subrange(16, 32));
    assert(vstd::bytes::spec_u128_to_le_bytes(x_key(b).1) == b@.subrange(16, 32));
    assert(a@ =~= a@.subrange(0, 16) + a@.subrange(16, 32));
    assert(b@ =~= b@.subrange(0, 16) + b@.subrange(16, 32));
    assert(a@ == b@);
    assert(a =~= b);
}

/// Every integer is that of an identifier.
pub(crate) proof fn lemma_key_has_id(key: u64)
    ensures
        exists|id: ClientId| id_key(id) == key,
{
    vstd::bytes::lemma_auto_spec_u64_to_from_le_bytes();
    let s = vstd::bytes::spec_u64_to_le_bytes(key);
    let id: ClientId = [s[0], s[1], s[2], s[3], s[4], s[5], s[6], s[7]];
    assert(id@ =~= s);
    assert(id_key(id) == key);
}

/// Both encodings are one to one.
pub(crate) proof fn lemma_keys_injective()
    ensures
        forall|a: ClientId, b: ClientId| #[trigger] id_key(a) == #[trigger] id_key(b) ==> a == b,
        forall|a: XPub, b: XPub| #[trigger] x_key(a) == #[trigger] x_key(b) ==> a == b,
{
    assert forall|a: ClientId, b: ClientId| #[trigger] id_key(a) == #[trigger] id_key(b) implies a
        == b by {
        lemma_id_key_injective(a, b);
    }
    assert forall|a: XPub, b: XPub| #[trigger] x_key(a) == #[trigger] x_key(b) implies a == b by {
        lemma_x_key_injective(a, b);
    }
}

/// The integer of a client identifier.
pub(crate) fn key_of_id(id: &ClientId) -> (r: u64)
    ensures
        r == id_key(*id),
{
    vstd::bytes::u64_from_le_bytes(id)
}

/// The client identifier of an integer.
pub(crate) fn id_of_key(key: u64) -> (r: ClientId)
    ensures
        id_key(r) == key,
{
    proof {
        vstd::bytes::lemma_auto_spec_u64_to_from_le_bytes();
    }
    let bytes: Vec<u8> = vstd::bytes::u64_to_le_bytes(key);
    let id: ClientId = array_at::<8>(&bytes, 0);
    assert(id@ =~= bytes@);
    id
}

/// The pair of integers of a public point.
pub(crate) fn key_of_x(x: &XPub) -> (r: (u128, u128))
    ensures
        r == x_key(*x),
{
    let low: u128 = vstd::bytes::u128_from_le_bytes(vstd::slice::slice_subrange(x, 0, 16));
    let high: u128 = vstd::bytes::u128_from_le_bytes(vstd::slice::slice_subrange(x, 16, 32));
    (low, high)
}

} // verus!
