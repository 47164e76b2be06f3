//! The primitives that come from elsewhere: the curve, the ciphers, the key
//! derivation, the signatures, the random generator and the system clock.
//! Each is one small function whose contract is taken on trust; everything
//! else in the crate is proved from these contracts.

use chacha20::cipher::{KeyIvInit, StreamCipher};
use chacha20::ChaCha20;
use chacha20poly1305::aead::Aead;
use chacha20poly1305::{Key, KeyInit, XChaCha20Poly1305, XNonce};
use ed25519_dalek::{Signature, Signer, Verifier};
use rand::rngs::OsRng;
use rand::RngCore;
use std::time::{SystemTime, UNIX_EPOCH};
use vstd::prelude::*;

verus! {

// ---------------------------------------------------------------------------
// X25519
// ---------------------------------------------------------------------------

/// What `x25519_dalek::x25519` returns for the scalar `k` and the point `u`.
pub uninterp spec fn x25519(k: Seq<u8>, u: Seq<u8>) -> Seq<u8>;

/// The base point of Curve25519: the number nine, little-endian.
pub open spec fn x25519_base() -> Seq<u8> {
    Seq::new(32, |i: int| if i == 0 { 9u8 } else { 0u8 })
}

/// The public point that belongs to an X25519 secret.
pub open spec fn x25519_public(secret: Seq<u8>) -> Seq<u8> {
    x25519(secret, x25519_base())
}

/// Calls `x25519_dalek::x25519`. The result is named, and it is what the two
/// ends of a Diffie-Hellman exchange agree on: where `u` is the public point
/// of a secret `b`, the owner of `b` gets the same bytes from the public point
/// of `k`.
#[verifier::external_body]
pub(crate) fn x25519_multiply(k: &[u8; 32], u: &[u8; 32]) -> (r: [u8; 32])
    ensures
        r@ == x25519(k@, u@),
        forall|b: Seq<u8>|
            b.len() == 32 && u@ == #[trigger] x25519_public(b) ==> r@ == x25519(
                b,
                x25519_public(k@),
            ),
{
    x25519_dalek::x25519(*k, *u)
}

/// Reads the constant `x25519_dalek::X25519_BASEPOINT_BYTES`: a nine and
/// thirty-one zeros.
#[verifier::external_body]
pub(crate) fn x25519_basepoint() -> (r: [u8; 32])
    ensures
        r@ == x25519_base(),
{
    x25519_dalek::X25519_BASEPOINT_BYTES
}

// ---------------------------------------------------------------------------
// XChaCha20-Poly1305
// ---------------------------------------------------------------------------

/// The longest message that XChaCha20-Poly1305 seals: the block counter has 32
/// bits, starts at one and never takes its last value.
pub const AEAD_MAX_LEN: u64 = 0x3f_ffff_ff80;

/// The lengths of message that the cipher answers. Between `AEAD_MAX_LEN` and
/// the next block but one the counter would run out in the middle of the work,
/// and the cipher panics; from there on it returns an error.
pub open spec fn aead_answers(len: int) -> bool {
    len <= AEAD_MAX_LEN || AEAD_MAX_LEN + 64 <= len
}

/// What `XChaCha20Poly1305::encrypt` returns where it succeeds: the ciphertext
/// with the tag behind it.
pub uninterp spec fn aead_sealed(key: Seq<u8>, nonce: Seq<u8>, message: Seq<u8>) -> Seq<u8>;

/// What `XChaCha20Poly1305::decrypt` returns: the message, or nothing where it
/// returns an error.
pub uninterp spec fn aead_opened(key: Seq<u8>, nonce: Seq<u8>, ciphertext: Seq<u8>) -> Option<
    Seq<u8>,
>;

/// The error of the AEAD crates; it carries nothing.
#[verifier::external_type_specification]
#[verifier::external_body]
pub struct ExAeadError(chacha20poly1305::Error);

/// Calls `XChaCha20Poly1305::encrypt` without associated data. It succeeds
/// exactly on messages of at most `AEAD_MAX_LEN` bytes. The result is named,
/// is longer than the message by the tag, and opens to the message under the
/// same key and nonce.
#[verifier::external_body]
pub(crate) fn aead_encrypt(key: &[u8; 32], nonce: &[u8; 24], message: &[u8]) -> (r: Result<
    Vec<u8>,
    chacha20poly1305::Error,
>)
    requires
        aead_answers(message@.len() as int),
        message@.len() + 16 <= isize::MAX,
    ensures
        r is Ok <==> message@.len() <= AEAD_MAX_LEN,
        r matches Ok(c) ==> {
            &&& c@ == aead_sealed(key@, nonce@, message@)
            &&& c@.len() == message@.len() + 16
            &&& aead_opened(key@, nonce@, c@) == Some(message@)
        },
{
    XChaCha20Poly1305::new(Key::from_slice(key)).encrypt(XNonce::from_slice(nonce), message)
}

/// Calls `XChaCha20Poly1305::decrypt` without associated data. The result is
/// named; where it succeeds, the message is shorter than the ciphertext by the
/// tag, and no longer than `AEAD_MAX_LEN`.
#[verifier::external_body]
pub(crate) fn aead_decrypt_raw(key: &[u8; 32], nonce: &[u8; 24], ciphertext: &[u8]) -> (r: Result<
    Vec<u8>,
    chacha20poly1305::Error,
>)
    requires
        aead_answers(ciphertext@.len() - 16),
    ensures
        match r {
            Ok(m) => aead_opened(key@, nonce@, ciphertext@) == Some(m@) && m@.len() + 16
                == ciphertext@.len() && m@.len() <= AEAD_MAX_LEN,
            Err(_) => aead_opened(key@, nonce@, ciphertext@) is None,
        },
{
    XChaCha20Poly1305::new(Key::from_slice(key)).decrypt(XNonce::from_slice(nonce), ciphertext)
}

// ---------------------------------------------------------------------------
// ChaCha20
// ---------------------------------------------------------------------------

/// The byte at place `i` of the ChaCha20 keystream for a key and a nonce.
pub uninterp spec fn chacha20_keystream(key: Seq<u8>, nonce: Seq<u8>, i: int) -> u8;

/// Calls `ChaCha20::apply_keystream` on a fresh cipher. It combines the data
/// with the first bytes of the keystream by exclusive or.
#[verifier::external_body]
pub(crate) fn chacha20_apply(key: &[u8; 32], nonce: &[u8; 12], data: &mut [u8; 8])
    ensures
        final(data)@ == Seq::new(8, |i: int| old(data)@[i] ^ chacha20_keystream(key@, nonce@, i)),
{
    ChaCha20::new(key.into(), nonce.into()).apply_keystream(data);
}

// ---------------------------------------------------------------------------
// BLAKE3
// ---------------------------------------------------------------------------

/// What `blake3::derive_key` returns.
pub uninterp spec fn blake3_derived(context: Seq<char>, material: Seq<u8>) -> Seq<u8>;

/// Calls `blake3::derive_key`. The result is named.
#[verifier::external_body]
pub(crate) fn blake3_derive_key(context: &str, material: &[u8]) -> (r: [u8; 32])
    ensures
        r@ == blake3_derived(context@, material@),
{
    blake3::derive_key(context, material)
}

// ---------------------------------------------------------------------------
// Ed25519
// ---------------------------------------------------------------------------

/// The bytes of the public key that `SigningKey::verifying_key` returns for a
/// seed.
pub uninterp spec fn ed25519_public(seed: Seq<u8>) -> Seq<u8>;

/// What `SigningKey::sign` returns for a seed and a message.
pub uninterp spec fn ed25519_signature(seed: Seq<u8>, message: Seq<u8>) -> Seq<u8>;

/// Whether `VerifyingKey::from_bytes` accepts these bytes as a public key.
pub uninterp spec fn ed25519_key_valid(public: Seq<u8>) -> bool;

/// Whether `VerifyingKey::verify` accepts a signature; it accepts none under
/// bytes that are no public key.
pub uninterp spec fn ed25519_verifies(public: Seq<u8>, message: Seq<u8>, signature: Seq<u8>) -> bool;

/// Calls `SigningKey::verifying_key`. The result is named, and is a key that
/// `VerifyingKey::from_bytes` accepts.
#[verifier::external_body]
pub(crate) fn ed25519_public_key(seed: &[u8; 32]) -> (r: [u8; 32])
    ensures
        r@ == ed25519_public(seed@),
        ed25519_key_valid(r@),
{
    ed25519_dalek::SigningKey::from_bytes(seed).verifying_key().to_bytes()
}

/// Calls `SigningKey::sign`. The result is named, and the seed's own public
/// key verifies it.
#[verifier::external_body]
pub(crate) fn ed25519_sign(seed: &[u8; 32], message: &[u8]) -> (r: [u8; 64])
    ensures
        r@ == ed25519_signature(seed@, message@),
        ed25519_verifies(ed25519_public(seed@), message@, r@),
{
    ed25519_dalek::SigningKey::from_bytes(seed).sign(message).to_bytes()
}

/// Calls `VerifyingKey::from_bytes` and keeps whether it succeeded. The result
/// is named.
#[verifier::external_body]
pub(crate) fn ed25519_check_key(public: &[u8; 32]) -> (r: bool)
    ensures
        r == ed25519_key_valid(public@),
{
    ed25519_dalek::VerifyingKey::from_bytes(public).is_ok()
}

/// Calls `VerifyingKey::verify` and keeps whether it succeeded. The result is
/// named.
#[verifier::external_body]
pub(crate) fn ed25519_verify(public: &[u8; 32], message: &[u8], signature: &[u8; 64]) -> (r: bool)
    ensures
        r == ed25519_verifies(public@, message@, signature@),
{
    match ed25519_dalek::VerifyingKey::from_bytes(public) {
        Ok(key) => key.verify(message, &Signature::from_bytes(signature)).is_ok(),
        Err(_) => false,
    }
}

// ---------------------------------------------------------------------------
// Random bytes and the clock
// ---------------------------------------------------------------------------

/// Calls `OsRng::fill_bytes`. The bytes are the operating system's: nothing is
/// promised of them. Where the system has none to give, the call panics.
#[verifier::external_body]
pub(crate) fn random_bytes() -> (r: [u8; 16]) {
    let mut out = [0u8; 16];
    OsRng.fill_bytes(&mut out);
    out
}

/// Calls `SystemTime::now`, and gives the point in time as whole seconds and
/// nanoseconds: from the Unix epoch to it, or, as an error, from it to the Unix
/// epoch. The nanoseconds are a fraction of a second. The time is the clock's:
/// nothing more is promised of it.
#[verifier::external_body]
pub(crate) fn system_clock() -> (r: Result<(u64, u32), (u64, u32)>)
    ensures
        match r {
            Ok((_, nanos)) => nanos < 1_000_000_000,
            Err((_, nanos)) => nanos < 1_000_000_000,
        },
{
    match SystemTime::now().duration_since(UNIX_EPOCH) {
        Ok(d) => Ok((d.as_secs(), d.subsec_nanos())),
        Err(e) => Err((e.duration().as_secs(), e.duration().subsec_nanos())),
    }
}

} // verus!
