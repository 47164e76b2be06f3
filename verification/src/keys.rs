//! Ed25519 keys, held as the bytes that they are exchanged as.

use vstd::prelude::*;

use crate::primitives;
use crate::primitives::{ed25519_check_key, ed25519_public_key, ed25519_sign, ed25519_verify};

verus! {

/// The secret half of an Ed25519 key pair: its 32-byte seed.
#[derive(Clone, Copy)]
pub struct SigningKey {
    seed: [u8; 32],
}

impl View for SigningKey {
    type V = Seq<u8>;

    /// The seed.
    closed spec fn view(&self) -> Seq<u8> {
        self.seed@
    }
}

impl SigningKey {
    /// The key that grows from a seed. Every seed makes a key.
    pub fn from_bytes(seed: &[u8; 32]) -> (r: SigningKey)
        ensures
            r@ == seed@,
    {
        SigningKey { seed: *seed }
    }

    /// The public half.
    pub fn verifying_key(&self) -> (r: VerifyingKey)
        ensures
            r@ == primitives::ed25519_public(self@),
    {
        VerifyingKey { bytes: ed25519_public_key(&self.seed) }
    }

    /// Signs a message. The public half verifies what this returns.
    pub fn sign(&self, message: &[u8]) -> (r: [u8; 64])
        ensures
            r@ == primitives::ed25519_signature(self@, message@),
            primitives::ed25519_verifies(
                primitives::ed25519_public(self@),
                message@,
                r@,
            ),
    {
        ed25519_sign(&self.seed, message)
    }
}

/// The public half of an Ed25519 key pair: the 32 bytes of a valid key.
#[derive(Clone, Copy)]
pub struct VerifyingKey {
    bytes: [u8; 32],
}

impl View for VerifyingKey {
    type V = Seq<u8>;

    /// The bytes of the key.
    closed spec fn view(&self) -> Seq<u8> {
        self.bytes@
    }
}

impl VerifyingKey {
    /// A public key has thirty-two bytes.
    pub proof fn lemma_view_len(self)
        ensures
            self@.len() == 32,
    {
    }

    /// Only bytes that decode to a point are ever held.
    #[verifier::type_invariant]
    spec fn valid(self) -> bool {
        primitives::ed25519_key_valid(self.bytes@)
    }

    /// Reads a public key; `None` where the bytes are no key.
    pub fn from_bytes(bytes: &[u8; 32]) -> (r: Option<VerifyingKey>)
        ensures
            r is Some <==> primitives::ed25519_key_valid(bytes@),
            r matches Some(key) ==> key@ == bytes@,
    {
        if ed25519_check_key(bytes) {
            Some(VerifyingKey { bytes: *bytes })
        } else {
            None
        }
    }

    /// The bytes of the key: those that it was read from.
    pub fn to_bytes(&self) -> (r: [u8; 32])
        ensures
            r@ == self@,
            primitives::ed25519_key_valid(r@),
    {
        proof {
            use_type_invariant(self);
        }
        self.bytes
    }

    /// Whether a signature over a message is this key's.
    pub fn verify(&self, message: &[u8], signature: &[u8; 64]) -> (r: bool)
        ensures
            r == primitives::ed25519_verifies(self@, message@, signature@),
    {
        ed25519_verify(&self.bytes, message, signature)
    }
}

} // verus!
