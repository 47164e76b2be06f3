//! Packets, session keys and headers.

use ed25519_dalek::{Signature, Signer, Verifier};
use rand::rngs::OsRng;
use rand::RngCore;
use ws_server::clock::{moment_of, seconds_between};
use ws_server::crypto25519::{
    aead_decrypt, derive_session_keys, encrypt_and_sign, fresh_nonce_24, get_unixtime,
    nonce_from_parts, seal_packet, verify_and_decrypt, x25519_public_from_secret, x25519_shared,
    xor_header_8, CryptoError,
};
use ws_server::frames::split_aead_packet;
use ws_server::keys::{SigningKey, VerifyingKey};

fn array<const N: usize>(s: &str) -> [u8; N] {
    let v = hex::decode(s).unwrap();
    let mut out = [0u8; N];
    out.copy_from_slice(&v);
    out
}

const ALICE_PUBLIC: &str = "a4e09292b651c278b9772c569f5fa9bb13d906b46ab68c9df9dc2b4409f8a209";
const BOB_PUBLIC: &str = "ce8d3ad1ccb633ec7b70c17814a5c76ecd029685050d344745ba05870e587d59";
const SHARED: &str = "2ed76ab549b1e73c031eb49c9448f0798aea81b698279a0c3dc3e49fbfc4b953";
const PACKET: &str = "000102030405060708090a0b0c0d0e0f101112131415161791f53e8e5579be3c31d67cd4e6e1\
c2e58e500a5bec4bb58ac378f84983a00f4cf050dd1911128cfbbc77e7be5055ee9a74e60bbc41c9cf150c66667a403e30\
3444ed15c07cf9ba8bf3fcb3e2ef94106f8c02";

fn counting_nonce() -> [u8; 24] {
    let mut n = [0u8; 24];
    for i in 0..24 {
        n[i] = i as u8;
    }
    n
}

#[test]
fn aead_and_sig_roundtrip() {
    let mut alice_x_seed = [0u8; 32];
    OsRng.fill_bytes(&mut alice_x_seed);
    let alice_x_secret = {
        let mut s = alice_x_seed;
        s[0] &= 248;
        s[31] &= 127;
        s[31] |= 64;
        s
    };
    let alice_x_public = x25519_public_from_secret(&alice_x_secret);
    let alice_ed_seed = [9u8; 32];
    let alice_ed = SigningKey::from_bytes(&alice_ed_seed);
    let alice_ed_pub = alice_ed.verifying_key();

    let mut bob_x_seed = [0u8; 32];
    OsRng.fill_bytes(&mut bob_x_seed);
    let bob_x_secret = {
        let mut s = bob_x_seed;
        s[0] &= 248;
        s[31] &= 127;
        s[31] |= 64;
        s
    };
    let bob_x_public = x25519_public_from_secret(&bob_x_secret);

    let plaintext = b"Hello over the wire";
    let packet = encrypt_and_sign(plaintext, &alice_x_secret, &alice_ed, &bob_x_public).unwrap();
    let recovered =
        verify_and_decrypt(&packet, &bob_x_secret, &alice_x_public, &alice_ed_pub).unwrap();
    assert_eq!(recovered, plaintext);
}

#[test]
fn xor_header_is_symmetric() {
    let key = [0x42u8; 32];
    let nonce = [0x11u8; 24];
    let mut header = *b"\x01\x02\x03\x04\x05\x06\x07\x08";
    let original = header;
    xor_header_8(&key, &nonce, &mut header);
    assert_ne!(header, original);
    xor_header_8(&key, &nonce, &mut header);
    assert_eq!(header, original);
}

#[test]
fn derive_keys_are_deterministic_and_distinct() {
    let shared = [0xabu8; 32];
    let (a1, b1) = derive_session_keys(&shared);
    let (a2, b2) = derive_session_keys(&shared);
    assert_eq!(a1, a2);
    assert_eq!(b1, b2);
    assert_ne!(a1, b1);
}

#[test]
fn verify_verifying_key_module() {
    // The ed25519 types used elsewhere, and the keys that stand for them here.
    let sk = ed25519_dalek::SigningKey::from_bytes(&[7u8; 32]);
    let vk: ed25519_dalek::VerifyingKey = sk.verifying_key();
    let msg = b"sample";
    let sig: Signature = sk.sign(msg);
    assert!(vk.verify(msg, &sig).is_ok());

    let sk = SigningKey::from_bytes(&[7u8; 32]);
    let vk: VerifyingKey = sk.verifying_key();
    let sig: [u8; 64] = sk.sign(msg);
    assert!(vk.verify(msg, &sig));
}

#[test]
fn keys_do_what_the_signature_crate_does() {
    let sk = SigningKey::from_bytes(&[3u8; 32]);
    let outside = ed25519_dalek::SigningKey::from_bytes(&[3u8; 32]);
    let vk = sk.verifying_key();
    assert_eq!(
        hex::encode(vk.to_bytes()),
        "ed4928c628d1c2c6eae90338905995612959273a5c63f93636c14614ac8737d1"
    );
    assert_eq!(vk.to_bytes(), outside.verifying_key().to_bytes());
    assert_eq!(sk.sign(b"abc"), outside.sign(b"abc").to_bytes());
    assert!(!vk.verify(b"abd", &sk.sign(b"abc")));
    let other = SigningKey::from_bytes(&[4u8; 32]);
    assert!(!vk.verify(b"abc", &other.sign(b"abc")));
}

#[test]
fn bytes_that_are_no_key_are_refused() {
    let mut bytes = [0u8; 32];
    bytes[0] = 2;
    assert!(VerifyingKey::from_bytes(&bytes).is_none());
    let good = SigningKey::from_bytes(&[7u8; 32]).verifying_key().to_bytes();
    let key = VerifyingKey::from_bytes(&good).unwrap();
    assert_eq!(key.to_bytes(), good);
}

#[test]
fn x25519_known_values() {
    assert_eq!(x25519_public_from_secret(&[1u8; 32]), array(ALICE_PUBLIC));
    assert_eq!(x25519_public_from_secret(&[2u8; 32]), array(BOB_PUBLIC));
    assert_eq!(x25519_shared(&[1u8; 32], &array(BOB_PUBLIC)), array(SHARED));
    assert_eq!(x25519_shared(&[2u8; 32], &array(ALICE_PUBLIC)), array(SHARED));
}

#[test]
fn session_keys_known_values() {
    let (c2s, s2c) = derive_session_keys(&[0xabu8; 32]);
    assert_eq!(
        c2s,
        array("25ae4f52961a9f451c47fe628f12d2620ba6107151c5f57bf1d127da13bb6adf")
    );
    assert_eq!(
        s2c,
        array("9840baa1798c7931e50cac1ce7e03604cde4cb08a3d5b71c302d78a0a85df4bf")
    );
}

#[test]
fn header_known_value() {
    let mut header = [1, 2, 3, 4, 5, 6, 7, 8];
    xor_header_8(&[0x42; 32], &[0x11; 24], &mut header);
    assert_eq!(header, array("6901ae221777b023"));
}

#[test]
fn header_depends_on_the_first_twelve_bytes_of_the_nonce() {
    let header_under = |nonce: [u8; 24]| {
        let mut header = [0u8; 8];
        xor_header_8(&[0x42; 32], &nonce, &mut header);
        header
    };
    let plain = [0x11u8; 24];
    let mut twelfth = plain;
    twelfth[11] = 0;
    let mut thirteenth = plain;
    thirteenth[12] = 0;
    assert_ne!(header_under(plain), header_under(twelfth));
    assert_eq!(header_under(plain), header_under(thirteenth));
}

#[test]
fn sealed_packet_known_value() {
    let packet = seal_packet(
        b"hi",
        &[1u8; 32],
        &SigningKey::from_bytes(&[3u8; 32]),
        &array(BOB_PUBLIC),
        &counting_nonce(),
    )
    .unwrap();
    assert_eq!(hex::encode(&packet), PACKET);
}

#[test]
fn packet_opens_at_the_receiver_only() {
    let packet = hex::decode(PACKET).unwrap();
    let alice = SigningKey::from_bytes(&[3u8; 32]).verifying_key();
    let opened = verify_and_decrypt(&packet, &[2u8; 32], &array(ALICE_PUBLIC), &alice);
    assert_eq!(opened, Ok(b"hi".to_vec()));
    let elsewhere = verify_and_decrypt(&packet, &[5u8; 32], &array(ALICE_PUBLIC), &alice);
    assert_eq!(elsewhere, Err(CryptoError::BadCiphertext));
}

#[test]
fn packet_with_another_signature_is_refused() {
    let mut packet = hex::decode(PACKET).unwrap();
    let alice = SigningKey::from_bytes(&[3u8; 32]).verifying_key();
    let eve = SigningKey::from_bytes(&[4u8; 32]).verifying_key();
    assert_eq!(
        verify_and_decrypt(&packet, &[2u8; 32], &array(ALICE_PUBLIC), &eve),
        Err(CryptoError::BadSignature)
    );
    packet[30] ^= 1;
    assert_eq!(
        verify_and_decrypt(&packet, &[2u8; 32], &array(ALICE_PUBLIC), &alice),
        Err(CryptoError::BadSignature)
    );
}

#[test]
fn opening_is_splitting_verifying_decrypting() {
    let packet = hex::decode(PACKET).unwrap();
    let alice = SigningKey::from_bytes(&[3u8; 32]).verifying_key();
    let (nonce, ciphertext, signature) = split_aead_packet(&packet).unwrap();
    let signed = [&nonce[..], ciphertext].concat();
    assert!(alice.verify(&signed, &signature));
    assert_eq!(
        aead_decrypt(&array(SHARED), &nonce, ciphertext),
        verify_and_decrypt(&packet, &[2u8; 32], &array(ALICE_PUBLIC), &alice)
    );
}

#[test]
fn packet_around_nothing_is_too_short() {
    let alice = SigningKey::from_bytes(&[3u8; 32]);
    let packet = encrypt_and_sign(b"", &[1u8; 32], &alice, &array(BOB_PUBLIC)).unwrap();
    assert_eq!(packet.len(), 104);
    // It is well made all the same.
    let (nonce, ciphertext, signature) = split_aead_packet(&packet).unwrap();
    assert!(alice.verifying_key().verify(&packet[..40], &signature));
    assert_eq!(aead_decrypt(&array(SHARED), &nonce, ciphertext), Ok(vec![]));
    assert_eq!(
        verify_and_decrypt(&packet, &[2u8; 32], &array(ALICE_PUBLIC), &alice.verifying_key()),
        Err(CryptoError::BadFormat)
    );
    let packet = encrypt_and_sign(b"x", &[1u8; 32], &alice, &array(BOB_PUBLIC)).unwrap();
    assert_eq!(packet.len(), 105);
    assert_eq!(
        verify_and_decrypt(&packet, &[2u8; 32], &array(ALICE_PUBLIC), &alice.verifying_key()),
        Ok(b"x".to_vec())
    );
}

#[test]
fn aead_decrypt_takes_what_was_sealed() {
    let packet = hex::decode(PACKET).unwrap();
    let ciphertext = &packet[24..packet.len() - 64];
    assert_eq!(
        aead_decrypt(&array(SHARED), &counting_nonce(), ciphertext),
        Ok(b"hi".to_vec())
    );
    assert_eq!(
        aead_decrypt(&[0u8; 32], &counting_nonce(), ciphertext),
        Err(CryptoError::BadCiphertext)
    );
    assert_eq!(
        aead_decrypt(&array(SHARED), &counting_nonce(), &ciphertext[..15]),
        Err(CryptoError::BadCiphertext)
    );
}

#[test]
fn nonce_is_the_time_and_then_the_random_bytes() {
    let nonce = nonce_from_parts(0x0102_0304_0506_0708, &[0xee; 16]);
    assert_eq!(nonce[..8], [8, 7, 6, 5, 4, 3, 2, 1]);
    assert_eq!(nonce[8..], [0xee; 16]);
}

#[test]
fn nonces_of_different_seconds_differ() {
    assert_ne!(nonce_from_parts(1, &[0; 16]), nonce_from_parts(256, &[0; 16]));
    assert_ne!(nonce_from_parts(1, &[0; 16]), nonce_from_parts(1, &[1; 16]));
}

#[test]
fn fresh_nonces_hold_the_present_time_and_differ() {
    let before = get_unixtime();
    let a = fresh_nonce_24();
    let b = fresh_nonce_24();
    let after = get_unixtime();
    let mut seconds = [0u8; 8];
    seconds.copy_from_slice(&a[..8]);
    let t = u64::from_le_bytes(seconds);
    assert!(before <= t && t <= after);
    assert_ne!(a[8..], b[8..]);
    assert_ne!(a[8..], [0u8; 16]);
}

#[test]
fn unixtime_is_past_the_year_2020() {
    assert!(get_unixtime() > 1_577_836_800);
}

#[test]
fn moments_and_seconds() {
    assert_eq!(moment_of(Ok((2, 5))), 2_000_000_005);
    assert_eq!(moment_of(Err((2, 5))), -2_000_000_005);
    assert_eq!(seconds_between(0, 2_999_999_999), 2);
    assert_eq!(seconds_between(1_500_000_000, 4_400_000_000), 2);
    assert_eq!(seconds_between(5, 4), 0);
    assert_eq!(seconds_between(i128::MIN, i128::MAX), 0);
    assert_eq!(seconds_between(-1_000_000_000, 1_000_000_000), 2);
}
