//! Identifiers, inner messages, lists and frames of the server's.

use ws_server::crypto25519::{
    derive_session_keys, verify_and_decrypt, x25519_public_from_secret, x25519_shared, xor_header_8,
};
use ws_server::frames::{
    build_server_frame, derive_client_id, frame_packet, pack_inner, parse_x_list,
    split_aead_packet,
};
use ws_server::keys::SigningKey;
use ws_server::server_keys::ServerKeys;

fn keys() -> ServerKeys {
    ServerKeys {
        x25519_secret: [1u8; 32],
        ed25519_signing: SigningKey::from_bytes(&[3u8; 32]),
        notifier_id: [0xAA; 8],
    }
}

#[test]
fn client_id_is_the_start_of_the_point() {
    let mut x = [0u8; 32];
    for i in 0..32 {
        x[i] = i as u8 + 1;
    }
    assert_eq!(derive_client_id(&x), [1, 2, 3, 4, 5, 6, 7, 8]);
}

#[test]
fn inner_message_layout() {
    assert_eq!(pack_inner(0x0102, 0x40, &[9, 8]), vec![2, 1, 0x40, 9, 8]);
    assert_eq!(pack_inner(0, 0xFF, &[]), vec![0, 0, 0xFF]);
}

#[test]
fn x_list_is_read_in_order() {
    let mut body = vec![1u8; 32];
    body.extend_from_slice(&[2u8; 32]);
    assert_eq!(parse_x_list(&body), Some(vec![[1u8; 32], [2u8; 32]]));
    assert_eq!(parse_x_list(&[]), Some(vec![]));
    assert_eq!(parse_x_list(&body[..63]), None);
    assert_eq!(parse_x_list(&[0u8; 1]), None);
}

#[test]
fn packet_is_split_at_its_seams() {
    let mut packet = vec![1u8; 24];
    packet.extend_from_slice(&[2u8; 17]);
    packet.extend_from_slice(&[3u8; 64]);
    let (nonce, ciphertext, signature) = split_aead_packet(&packet).unwrap();
    assert_eq!(nonce, [1u8; 24]);
    assert_eq!(ciphertext, &[2u8; 17]);
    assert_eq!(signature, [3u8; 64]);
    assert!(split_aead_packet(&[0u8; 104]).is_some());
    assert!(split_aead_packet(&[0u8; 103]).is_none());
}

#[test]
fn server_header_known_value() {
    let mut packet = vec![0u8; 40];
    for i in 0..24 {
        packet[i] = i as u8;
    }
    let mut shared = [0u8; 32];
    shared.copy_from_slice(
        &hex::decode("2ed76ab549b1e73c031eb49c9448f0798aea81b698279a0c3dc3e49fbfc4b953").unwrap(),
    );
    let (_, k_s2c) = derive_session_keys(&shared);
    let frame = frame_packet(&k_s2c, &packet);
    assert_eq!(hex::encode(&frame[..8]), "b2f1f468ca5abe03");
    assert_eq!(frame[8..], packet[..]);
}

#[test]
fn server_frame_is_read_by_its_client() {
    let client_secret = [2u8; 32];
    let client_public = x25519_public_from_secret(&client_secret);
    let server_public = x25519_public_from_secret(&[1u8; 32]);
    let (_, k_s2c) = derive_session_keys(&x25519_shared(&client_secret, &server_public));
    let inner = pack_inner(0, 0x42, &[5u8; 32]);
    let frame = build_server_frame(&keys(), &client_public, &k_s2c, &inner).unwrap();
    assert_eq!(frame.len(), 112 + inner.len());

    let mut nonce = [0u8; 24];
    nonce.copy_from_slice(&frame[8..32]);
    let mut header = [0u8; 8];
    header.copy_from_slice(&frame[..8]);
    xor_header_8(&k_s2c, &nonce, &mut header);
    assert_eq!(header, [0u8; 8]);

    let server_ed = SigningKey::from_bytes(&[3u8; 32]).verifying_key();
    assert_eq!(
        verify_and_decrypt(&frame[8..], &client_secret, &server_public, &server_ed),
        Ok(inner)
    );
}
