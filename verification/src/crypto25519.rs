//! Packets that are encrypted and signed, session keys, and the obfuscation of
//! routing headers.

use vstd::prelude::*;

use crate::bytes;
use crate::bytes::{append, array_at};
use crate::clock;
use crate::clock::{clock_now, seconds_between};
use crate::keys::{SigningKey, VerifyingKey};
use crate::primitives;
use crate::primitives::{
    aead_decrypt_raw, aead_encrypt, blake3_derive_key, chacha20_apply, random_bytes, x25519_basepoint, x25519_multiply,
};

verus! {

/// Why a packet could not be made or opened.
#[derive(Debug, Clone, Copy, PartialEq, Eq, Structural)]
pub enum CryptoError {
    BadSignature,
    BadFormat,
    BadCiphertext,
}

pub const NONCE_LEN: usize = 24;

pub const SIG_LEN: usize = 64;

pub const TAG_LEN: usize = 16;

// ---------------------------------------------------------------------------
// Time and nonces
// ---------------------------------------------------------------------------

/// Seconds since the Unix epoch; zero while the clock stands before it. The
/// moment is the clock's, and left open.
pub fn get_unixtime() -> (r: u64)
    ensures
        exists|now: i128| r == #[trigger] clock::whole_seconds(now as int),
{
    let now: i128 = clock_now();
    let r: u64 = seconds_between(0, now);
    assert(r == clock::whole_seconds(now as int));
    r
}

/// The nonce for a moment and sixteen random bytes: the seconds in
/// little-endian order, then the random bytes.
pub fn nonce_from_parts(unixtime: u64, random: &[u8; 16]) -> (r: [u8; 24])
    ensures
        r@ == bytes::u64_le(unixtime) + random@,
{
    let t: u64 = unixtime;
    let b: &[u8; 16] = random;
    let r: [u8; 24] = [
        (t % 0x100) as u8,
        (t / 0x100 % 0x100) as u8,
        (t / 0x1_0000 % 0x100) as u8,
        (t / 0x100_0000 % 0x100) as u8,
        (t / 0x1_0000_0000 % 0x100) as u8,
        (t / 0x100_0000_0000 % 0x100) as u8,
        (t / 0x1_0000_0000_0000 % 0x100) as u8,
        (t / 0x100_0000_0000_0000 % 0x100) as u8,
        b[0],
        b[1],
        b[2],
        b[3],
        b[4],
        b[5],
        b[6],
        b[7],
        b[8],
        b[9],
        b[10],
        b[11],
        b[12],
        b[13],
        b[14],
        b[15],
    ];
    assert(r@ =~= bytes::u64_le(unixtime) + random@);
    r
}

/// Nonces of different seconds, or with different random bytes, differ.
pub proof fn law_nonces_differ(t: u64, random: Seq<u8>, other_t: u64, other_random: Seq<u8>)
    requires
        t != other_t || random != other_random,
        random.len() == other_random.len(),
    ensures
        bytes::u64_le(t) + random != bytes::u64_le(other_t) + other_random,
{
    let a = bytes::u64_le(t) + random;
    let b = bytes::u64_le(other_t) + other_random;
    if a == b {
        assert(a.take(8) =~= bytes::u64_le(t));
        assert(b.take(8) =~= bytes::u64_le(other_t));
        assert(a.skip(8) =~= random);
        assert(b.skip(8) =~= other_random);
        bytes::lemma_u64_le_injective(t, other_t);
    }
}

/// A nonce that has not been used before: the present moment and sixteen bytes
/// of the system's random generator, laid out by `nonce_from_parts`.
pub fn fresh_nonce_24() -> (r: [u8; 24])
    ensures
        exists|t: u64, random: Seq<u8>|
            random.len() == 16 && r@ == #[trigger] (bytes::u64_le(t) + random),
{
    let unixtime: u64 = get_unixtime();
    let random: [u8; 16] = random_bytes();
    nonce_from_parts(unixtime, &random)
}

// ---------------------------------------------------------------------------
// Key agreement
// ---------------------------------------------------------------------------

/// The public point of an X25519 secret.
pub fn x25519_public_from_secret(secret: &[u8; 32]) -> (r: [u8; 32])
    ensures
        r@ == primitives::x25519_public(secret@),
{
    x25519_multiply(secret, &x25519_basepoint())
}

/// The secret that the holder of `my_secret` shares with the owner of
/// `their_public`. The owner computes the same bytes from their own secret and
/// the public point of `my_secret`.
pub fn x25519_shared(my_secret: &[u8; 32], their_public: &[u8; 32]) -> (r: [u8; 32])
    ensures
        r@ == primitives::x25519(my_secret@, their_public@),
        forall|their_secret: Seq<u8>|
            their_secret.len() == 32 && their_public@
                == #[trigger] primitives::x25519_public(their_secret) ==> r@
                == primitives::x25519(
                their_secret,
                primitives::x25519_public(my_secret@),
            ),
{
    x25519_multiply(my_secret, their_public)
}

// ---------------------------------------------------------------------------
// Packets
// ---------------------------------------------------------------------------

/// The bytes of a packet: `[ nonce : 24 ] [ ciphertext ] [ signature : 64 ]`,
/// with the signature over what stands before it.
pub open spec fn packet_bytes(
    shared: Seq<u8>,
    seed: Seq<u8>,
    nonce: Seq<u8>,
    plaintext: Seq<u8>,
) -> Seq<u8> {
    let signed = nonce + primitives::aead_sealed(shared, nonce, plaintext);
    signed + primitives::ed25519_signature(seed, signed)
}

/// What decrypting a ciphertext gives, with the error in this library's terms.
pub open spec fn decrypted(shared: Seq<u8>, nonce: Seq<u8>, ciphertext: Seq<u8>) -> Result<
    Seq<u8>,
    CryptoError,
> {
    match primitives::aead_opened(shared, nonce, ciphertext) {
        Some(plaintext) => Ok(plaintext),
        None => Err(CryptoError::BadCiphertext),
    }
}

/// What opening a packet gives: the signature is tried first, then the
/// decryption. A packet has to hold more than a nonce, a tag and a signature.
pub open spec fn open_packet(packet: Seq<u8>, shared: Seq<u8>, public: Seq<u8>) -> Result<
    Seq<u8>,
    CryptoError,
> {
    if packet.len() <= NONCE_LEN + SIG_LEN + TAG_LEN {
        Err(CryptoError::BadFormat)
    } else {
        let signed = packet.take(packet.len() - SIG_LEN);
        let signature = packet.skip(packet.len() - SIG_LEN);
        if !primitives::ed25519_verifies(public, signed, signature) {
            Err(CryptoError::BadSignature)
        } else {
            decrypted(shared, signed.take(NONCE_LEN as int), signed.skip(NONCE_LEN as int))
        }
    }
}

/// A result with its bytes as a sequence.
pub open spec fn result_view(r: Result<Vec<u8>, CryptoError>) -> Result<Seq<u8>, CryptoError> {
    match r {
        Ok(v) => Ok(v@),
        Err(e) => Err(e),
    }
}

/// Whether a packet is well made, whoever it is for: the signing seed's own
/// public key verifies the signature over what stands before it, and under the
/// shared secret the ciphertext opens to `plaintext`, also to an empty one.
pub open spec fn is_packet_of(
    packet: Seq<u8>,
    shared: Seq<u8>,
    seed: Seq<u8>,
    plaintext: Seq<u8>,
) -> bool {
    &&& primitives::ed25519_verifies(
        primitives::ed25519_public(seed),
        packet.take(packet.len() - SIG_LEN),
        packet.skip(packet.len() - SIG_LEN),
    )
    &&& primitives::aead_opened(
        shared,
        packet.take(NONCE_LEN as int),
        packet.subrange(NONCE_LEN as int, packet.len() - SIG_LEN),
    ) == Some(plaintext)
}

/// Whether the receiver of a packet gets `plaintext` out of it: whoever owns
/// the point `their_x_public`, opening the packet as one from the sender, who
/// owns `my_x_secret` and the signing seed.
pub open spec fn packet_reads(
    packet: Seq<u8>,
    my_x_secret: Seq<u8>,
    seed: Seq<u8>,
    their_x_public: Seq<u8>,
    plaintext: Seq<u8>,
) -> bool {
    forall|their_x_secret: Seq<u8>|
        their_x_secret.len() == 32 && their_x_public == #[trigger] primitives::x25519_public(
            their_x_secret,
        ) ==> open_packet(
            packet,
            primitives::x25519(their_x_secret, primitives::x25519_public(my_x_secret)),
            primitives::ed25519_public(seed),
        ) == Ok::<Seq<u8>, CryptoError>(plaintext)
}

/// Encrypts and signs under a given nonce. A plaintext of more than
/// `AEAD_MAX_LEN` bytes is refused. What comes out opens to the plaintext at
/// the receiver's, unless the plaintext is empty.
pub fn seal_packet(
    plaintext: &[u8],
    my_x_secret: &[u8; 32],
    my_ed_signing: &SigningKey,
    their_x_public: &[u8; 32],
    nonce: &[u8; 24],
) -> (r: Result<Vec<u8>, CryptoError>)
    requires
        primitives::aead_answers(plaintext@.len() as int),
        plaintext@.len() + 16 <= isize::MAX,
    ensures
        plaintext@.len() > primitives::AEAD_MAX_LEN ==> r == Err::<Vec<u8>, CryptoError>(
            CryptoError::BadCiphertext,
        ),
        plaintext@.len() <= primitives::AEAD_MAX_LEN ==> r is Ok,
        r matches Ok(packet) ==> {
            &&& packet@ == packet_bytes(
                primitives::x25519(my_x_secret@, their_x_public@),
                my_ed_signing@,
                nonce@,
                plaintext@,
            )
            &&& packet@.len() == NONCE_LEN + plaintext@.len() + TAG_LEN + SIG_LEN
            &&& packet@.take(NONCE_LEN as int) == nonce@
            &&& is_packet_of(
                packet@,
                primitives::x25519(my_x_secret@, their_x_public@),
                my_ed_signing@,
                plaintext@,
            )
            &&& plaintext@.len() > 0 ==> packet_reads(
                packet@,
                my_x_secret@,
                my_ed_signing@,
                their_x_public@,
                plaintext@,
            )
        },
{
    let shared: [u8; 32] = x25519_shared(my_x_secret, their_x_public);
    let ciphertext: Vec<u8> = match aead_encrypt(&shared, nonce, plaintext) {
        Ok(c) => c,
        Err(_) => {
            return Err(CryptoError::BadCiphertext);
        },
    };
    let mut packet: Vec<u8> = Vec::new();
    append(&mut packet, nonce);
    append(&mut packet, &ciphertext);
    let ghost signed = nonce@ + ciphertext@;
    assert(packet@ =~= signed);
    let signature: [u8; 64] = my_ed_signing.sign(&packet);
    append(&mut packet, &signature);
    proof {
        assert(packet@.take(packet@.len() - SIG_LEN) =~= signed);
        assert(packet@.skip(packet@.len() - SIG_LEN) =~= signature@);
        assert(signed.take(NONCE_LEN as int) =~= nonce@);
        assert(signed.skip(NONCE_LEN as int) =~= ciphertext@);
        assert(packet@.take(NONCE_LEN as int) =~= nonce@);
        assert(packet@.subrange(NONCE_LEN as int, packet@.len() - SIG_LEN) =~= ciphertext@);
    }
    Ok(packet)
}

/// Encrypts with XChaCha20-Poly1305 under a fresh nonce, then signs the nonce
/// and the ciphertext with Ed25519. The packet is that of `seal_packet`; only
/// the nonce is left open.
pub fn encrypt_and_sign(
    plaintext: &[u8],
    my_x_secret: &[u8; 32],
    my_ed_signing: &SigningKey,
    their_x_public: &[u8; 32],
) -> (r: Result<Vec<u8>, CryptoError>)
    requires
        primitives::aead_answers(plaintext@.len() as int),
        plaintext@.len() + 16 <= isize::MAX,
    ensures
        plaintext@.len() > primitives::AEAD_MAX_LEN ==> r == Err::<Vec<u8>, CryptoError>(
            CryptoError::BadCiphertext,
        ),
        plaintext@.len() <= primitives::AEAD_MAX_LEN ==> r is Ok,
        r matches Ok(packet) ==> {
            &&& packet@.len() == NONCE_LEN + plaintext@.len() + TAG_LEN + SIG_LEN
            &&& packet@ == packet_bytes(
                primitives::x25519(my_x_secret@, their_x_public@),
                my_ed_signing@,
                packet@.take(NONCE_LEN as int),
                plaintext@,
            )
            &&& is_packet_of(
                packet@,
                primitives::x25519(my_x_secret@, their_x_public@),
                my_ed_signing@,
                plaintext@,
            )
            &&& plaintext@.len() > 0 ==> packet_reads(
                packet@,
                my_x_secret@,
                my_ed_signing@,
                their_x_public@,
                plaintext@,
            )
        },
{
    let nonce: [u8; 24] = fresh_nonce_24();
    seal_packet(plaintext, my_x_secret, my_ed_signing, their_x_public, &nonce)
}

/// XChaCha20-Poly1305 decryption, with the error in this library's terms.
pub fn aead_decrypt(shared: &[u8; 32], nonce_24: &[u8; 24], ciphertext: &[u8]) -> (r: Result<
    Vec<u8>,
    CryptoError,
>)
    requires
        primitives::aead_answers(ciphertext@.len() - 16),
    ensures
        result_view(r) == decrypted(shared@, nonce_24@, ciphertext@),
        r matches Ok(plaintext) ==> plaintext@.len() + TAG_LEN == ciphertext@.len()
            && plaintext@.len() <= primitives::AEAD_MAX_LEN,
{
    match aead_decrypt_raw(shared, nonce_24, ciphertext) {
        Ok(plaintext) => Ok(plaintext),
        Err(_) => Err(CryptoError::BadCiphertext),
    }
}

/// Verifies the signature over the nonce and the ciphertext, then decrypts.
pub fn verify_and_decrypt(
    packet: &[u8],
    my_x_secret: &[u8; 32],
    their_x_public: &[u8; 32],
    their_ed_public: &VerifyingKey,
) -> (r: Result<Vec<u8>, CryptoError>)
    requires
        primitives::aead_answers(packet@.len() - NONCE_LEN - SIG_LEN - TAG_LEN),
    ensures
        result_view(r) == open_packet(
            packet@,
            primitives::x25519(my_x_secret@, their_x_public@),
            their_ed_public@,
        ),
        r matches Ok(plaintext) ==> packet@.len() == NONCE_LEN + plaintext@.len() + TAG_LEN
            + SIG_LEN && plaintext@.len() <= primitives::AEAD_MAX_LEN,
{
    if packet.len() <= NONCE_LEN + SIG_LEN + TAG_LEN {
        return Err(CryptoError::BadFormat);
    }
    let (signed, sig_bytes) = packet.split_at(packet.len() - SIG_LEN);
    let signature: [u8; 64] = array_at::<64>(sig_bytes, 0);
    proof {
        assert(signed@ =~= packet@.take(packet@.len() - SIG_LEN));
        assert(signature@ =~= packet@.skip(packet@.len() - SIG_LEN));
    }
    if !their_ed_public.verify(signed, &signature) {
        return Err(CryptoError::BadSignature);
    }
    let nonce: [u8; 24] = array_at::<24>(signed, 0);
    let (_, ciphertext) = signed.split_at(NONCE_LEN);
    proof {
        assert(nonce@ =~= signed@.take(NONCE_LEN as int));
        assert(ciphertext@ =~= signed@.skip(NONCE_LEN as int));
    }
    let shared: [u8; 32] = x25519_shared(my_x_secret, their_x_public);
    aead_decrypt(&shared, &nonce, ciphertext)
}

// ---------------------------------------------------------------------------
// Session keys and routing headers
// ---------------------------------------------------------------------------

pub const CONTEXT_C2S: &'static str = "ws.lleo.me v2 route c2s";

pub const CONTEXT_S2C: &'static str = "ws.lleo.me v2 route s2c";

/// The key of client-to-server headers that a shared secret gives.
pub open spec fn route_key_c2s(shared: Seq<u8>) -> Seq<u8> {
    primitives::blake3_derived(CONTEXT_C2S@, shared)
}

/// The key of server-to-client headers that a shared secret gives.
pub open spec fn route_key_s2c(shared: Seq<u8>) -> Seq<u8> {
    primitives::blake3_derived(CONTEXT_S2C@, shared)
}

/// The two ends of a session have the same routing keys: those that the server
/// holds for the owner of `x_pub` are what that client derives from its own
/// secret and the server's public point.
pub open spec fn routing_keys_agree(
    x25519_secret: Seq<u8>,
    x_pub: Seq<u8>,
    k_c2s: Seq<u8>,
    k_s2c: Seq<u8>,
) -> bool {
    forall|client_secret: Seq<u8>|
        client_secret.len() == 32 && x_pub == #[trigger] primitives::x25519_public(client_secret)
            ==> {
            let shared = primitives::x25519(
                client_secret,
                primitives::x25519_public(x25519_secret),
            );
            &&& k_c2s == route_key_c2s(shared)
            &&& k_s2c == route_key_s2c(shared)
        }
}

/// The two routing keys that BLAKE3 derives from a shared secret: client to
/// server, then server to client. The context strings are part of the
/// protocol; both ends use the same literals.
pub fn derive_session_keys(shared: &[u8; 32]) -> (r: ([u8; 32], [u8; 32]))
    ensures
        r.0@ == route_key_c2s(shared@),
        r.1@ == route_key_s2c(shared@),
{
    let k_c2s: [u8; 32] = blake3_derive_key(CONTEXT_C2S, shared);
    let k_s2c: [u8; 32] = blake3_derive_key(CONTEXT_S2C, shared);
    (k_c2s, k_s2c)
}

/// An eight-byte header combined with the ChaCha20 keystream of a key and the
/// first twelve bytes of a frame's nonce.
pub open spec fn xor_header(key: Seq<u8>, nonce_24: Seq<u8>, header: Seq<u8>) -> Seq<u8> {
    Seq::new(
        8,
        |i: int| header[i] ^ primitives::chacha20_keystream(key, nonce_24.take(12), i),
    )
}

/// Combines a routing header with the keystream in place.
pub fn xor_header_8(key: &[u8; 32], nonce_24: &[u8; 24], header: &mut [u8; 8])
    ensures
        final(header)@ == xor_header(key@, nonce_24@, old(header)@),
{
    let nonce12: [u8; 12] = array_at::<12>(nonce_24, 0);
    assert(nonce12@ =~= nonce_24@.take(12));
    chacha20_apply(key, &nonce12, header);
}

/// The obfuscation is its own inverse: applied twice with the same key and
/// nonce it gives back the header.
pub proof fn law_xor_header_symmetric(key: Seq<u8>, nonce_24: Seq<u8>, header: Seq<u8>)
    requires
        header.len() == 8,
    ensures
        xor_header(key, nonce_24, xor_header(key, nonce_24, header)) == header,
{
    let once = xor_header(key, nonce_24, header);
    assert forall|i: int| 0 <= i < 8 implies xor_header(key, nonce_24, once)[i] == header[i] by {
        let a = header[i];
        let k = primitives::chacha20_keystream(key, nonce_24.take(12), i);
        assert((a ^ k) ^ k == a) by (bit_vector);
    }
    assert(xor_header(key, nonce_24, once) =~= header);
}

// ---------------------------------------------------------------------------
// Laws on bytes
// ---------------------------------------------------------------------------

/// A nonce holds the seconds, least significant byte first, and then the
/// random bytes as they were drawn.
pub proof fn law_nonce_holds_time_and_chance(t: u64, random: Seq<u8>)
    ensures
        (bytes::u64_le(t) + random).len() == 8 + random.len(),
        (bytes::u64_le(t) + random).skip(8) == random,
        ({
            let n = bytes::u64_le(t) + random;
            n[0] + 0x100 * n[1] + 0x1_0000 * n[2] + 0x100_0000 * n[3] + 0x1_0000_0000 * n[4]
                + 0x100_0000_0000 * n[5] + 0x1_0000_0000_0000 * n[6] + 0x100_0000_0000_0000 * n[7]
                == t
        }),
{
    let n = bytes::u64_le(t) + random;
    assert(n.skip(8) =~= random);
    assert(t == t % 0x100 + 0x100 * (t / 0x100 % 0x100) + 0x1_0000 * (t / 0x1_0000 % 0x100)
        + 0x100_0000 * (t / 0x100_0000 % 0x100) + 0x1_0000_0000 * (t / 0x1_0000_0000 % 0x100)
        + 0x100_0000_0000 * (t / 0x100_0000_0000 % 0x100) + 0x1_0000_0000_0000 * (t
        / 0x1_0000_0000_0000 % 0x100) + 0x100_0000_0000_0000 * (t / 0x100_0000_0000_0000 % 0x100))
        by (bit_vector);
}

/// An obfuscated header has eight bytes, and each gives the clear one back when
/// the keystream byte at its place is taken off it. Only the first twelve
/// bytes of the nonce count.
pub proof fn law_header_is_under_keystream(key: Seq<u8>, nonce_24: Seq<u8>, header: Seq<u8>)
    requires
        nonce_24.len() == 24,
    ensures
        xor_header(key, nonce_24, header).len() == 8,
        forall|i: int|
            0 <= i < 8 ==> (#[trigger] xor_header(key, nonce_24, header)[i])
                ^ primitives::chacha20_keystream(key, nonce_24.subrange(0, 12), i) == header[i],
{
    assert forall|i: int| 0 <= i < 8 implies (#[trigger] xor_header(key, nonce_24, header)[i])
        ^ primitives::chacha20_keystream(key, nonce_24.subrange(0, 12), i) == header[i] by {
        assert(nonce_24.subrange(0, 12) =~= nonce_24.take(12));
        let a = header[i];
        let k = primitives::chacha20_keystream(key, nonce_24.take(12), i);
        assert((a ^ k) ^ k == a) by (bit_vector);
    }
}

/// The routing keys are what BLAKE3 derives from the shared secret under the
/// two context strings of the protocol.
pub proof fn law_routing_keys_are_derived(shared: Seq<u8>)
    ensures
        route_key_c2s(shared) == primitives::blake3_derived("ws.lleo.me v2 route c2s"@, shared),
        route_key_s2c(shared) == primitives::blake3_derived("ws.lleo.me v2 route s2c"@, shared),
{
}

/// Where routing keys agree, the client that owns the point derives the very
/// same from its own secret.
pub proof fn law_agreed_keys_are_the_clients(
    x25519_secret: Seq<u8>,
    client_secret: Seq<u8>,
    k_c2s: Seq<u8>,
    k_s2c: Seq<u8>,
)
    requires
        client_secret.len() == 32,
        routing_keys_agree(
            x25519_secret,
            primitives::x25519_public(client_secret),
            k_c2s,
            k_s2c,
        ),
    ensures
        ({
            let shared = primitives::x25519(
                client_secret,
                primitives::x25519_public(x25519_secret),
            );
            &&& k_c2s == primitives::blake3_derived("ws.lleo.me v2 route c2s"@, shared)
            &&& k_s2c == primitives::blake3_derived("ws.lleo.me v2 route s2c"@, shared)
        }),
{
}

/// A packet is the nonce, the sealed plaintext, and a signature over both.
pub proof fn law_packet_is_sealed_then_signed(
    shared: Seq<u8>,
    seed: Seq<u8>,
    nonce: Seq<u8>,
    plaintext: Seq<u8>,
)
    ensures
        packet_bytes(shared, seed, nonce, plaintext) == nonce + primitives::aead_sealed(
            shared,
            nonce,
            plaintext,
        ) + primitives::ed25519_signature(
            seed,
            nonce + primitives::aead_sealed(shared, nonce, plaintext),
        ),
{
}

/// A packet that holds no more than a nonce, a tag and a signature is never
/// opened.
pub proof fn law_short_packet_is_refused(packet: Seq<u8>, shared: Seq<u8>, public: Seq<u8>)
    requires
        packet.len() <= 104,
    ensures
        open_packet(packet, shared, public) == Err::<Seq<u8>, CryptoError>(CryptoError::BadFormat),
{
}

/// A packet that opens was signed with the key, over everything in front of
/// the signature, and its ciphertext decrypts to what it opens to.
pub proof fn law_opened_packet_is_genuine(
    packet: Seq<u8>,
    shared: Seq<u8>,
    public: Seq<u8>,
    plaintext: Seq<u8>,
)
    requires
        open_packet(packet, shared, public) == Ok::<Seq<u8>, CryptoError>(plaintext),
    ensures
        packet.len() > 104,
        primitives::ed25519_verifies(
            public,
            packet.take(packet.len() - 64),
            packet.skip(packet.len() - 64),
        ),
        primitives::aead_opened(
            shared,
            packet.take(24),
            packet.subrange(24, packet.len() - 64),
        ) == Some(plaintext),
{
    let signed = packet.take(packet.len() - 64);
    assert(signed.take(24) =~= packet.take(24));
    assert(signed.skip(24) =~= packet.subrange(24, packet.len() - 64));
}

/// A packet that is well made verifies and decrypts, whoever it is for.
pub proof fn law_packet_is_well_made(
    packet: Seq<u8>,
    shared: Seq<u8>,
    seed: Seq<u8>,
    plaintext: Seq<u8>,
)
    requires
        is_packet_of(packet, shared, seed, plaintext),
    ensures
        primitives::ed25519_verifies(
            primitives::ed25519_public(seed),
            packet.take(packet.len() - 64),
            packet.skip(packet.len() - 64),
        ),
        primitives::aead_opened(
            shared,
            packet.take(24),
            packet.subrange(24, packet.len() - 64),
        ) == Some(plaintext),
{
}

/// A packet that reads for the owner of a point decrypts with the secret
/// behind that point and the sender's public point.
pub proof fn law_packet_reads_at_its_receiver(
    packet: Seq<u8>,
    my_x_secret: Seq<u8>,
    seed: Seq<u8>,
    their_x_secret: Seq<u8>,
    plaintext: Seq<u8>,
)
    requires
        their_x_secret.len() == 32,
        packet_reads(
            packet,
            my_x_secret,
            seed,
            primitives::x25519_public(their_x_secret),
            plaintext,
        ),
    ensures
        packet.len() > 104,
        primitives::ed25519_verifies(
            primitives::ed25519_public(seed),
            packet.take(packet.len() - 64),
            packet.skip(packet.len() - 64),
        ),
        primitives::aead_opened(
            primitives::x25519(their_x_secret, primitives::x25519_public(my_x_secret)),
            packet.take(24),
            packet.subrange(24, packet.len() - 64),
        ) == Some(plaintext),
{
    law_opened_packet_is_genuine(
        packet,
        primitives::x25519(their_x_secret, primitives::x25519_public(my_x_secret)),
        primitives::ed25519_public(seed),
        plaintext,
    );
}

/// Decryption gives the message as it is, or the one error that it has.
pub proof fn law_decryption_hides_nothing(
    shared: Seq<u8>,
    nonce: Seq<u8>,
    ciphertext: Seq<u8>,
    r: Result<Vec<u8>, CryptoError>,
)
    requires
        result_view(r) == decrypted(shared, nonce, ciphertext),
    ensures
        match primitives::aead_opened(shared, nonce, ciphertext) {
            Some(plaintext) => r matches Ok(v) && v@ == plaintext,
            None => r == Err::<Vec<u8>, CryptoError>(CryptoError::BadCiphertext),
        },
{
}

} // verus!
