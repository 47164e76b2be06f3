//! The first frame of a connection.

use ws_server::connection::{establish, Welcome};
use ws_server::crypto25519::{
    derive_session_keys, encrypt_and_sign, seal_packet, verify_and_decrypt,
    x25519_public_from_secret, x25519_shared, xor_header_8,
};
use ws_server::frames::{derive_client_id, pack_inner, CMD_HANDSHAKE_REQUEST};
use ws_server::handshake::{
    handshake_reply, perform_handshake, read_handshake, register, ClientHello, HandshakeError,
    HandshakeStep, Registration,
};
use ws_server::hub::HubState;
use ws_server::keys::SigningKey;
use ws_server::messages::ClientMessage;
use ws_server::server_keys::ServerKeys;

const SERVER_SECRET: [u8; 32] = [0x51; 32];
const SERVER_SEED: [u8; 32] = [0x52; 32];

fn keys() -> ServerKeys {
    ServerKeys {
        x25519_secret: SERVER_SECRET,
        ed25519_signing: SigningKey::from_bytes(&SERVER_SEED),
        notifier_id: [0xAA; 8],
    }
}

fn secret(n: u8) -> [u8; 32] {
    [n; 32]
}

fn signing(n: u8) -> SigningKey {
    SigningKey::from_bytes(&[n + 100; 32])
}

fn x_pub(n: u8) -> [u8; 32] {
    x25519_public_from_secret(&secret(n))
}

fn id(n: u8) -> [u8; 8] {
    let mut id = [0u8; 8];
    id.copy_from_slice(&x_pub(n)[..8]);
    id
}

fn server_public() -> [u8; 32] {
    x25519_public_from_secret(&SERVER_SECRET)
}

fn session_keys(n: u8) -> ([u8; 32], [u8; 32]) {
    derive_session_keys(&x25519_shared(&secret(n), &server_public()))
}

fn first_frame(n: u8, inner: &[u8]) -> Vec<u8> {
    let packet = encrypt_and_sign(inner, &secret(n), &signing(n), &server_public()).unwrap();
    let mut first = x_pub(n).to_vec();
    first.extend_from_slice(&packet);
    first
}

fn request(n: u8, version: u8) -> Vec<u8> {
    let mut body = signing(n).verifying_key().to_bytes().to_vec();
    body.push(version);
    pack_inner(7, CMD_HANDSHAKE_REQUEST, &body)
}

fn binary(bytes: Vec<u8>) -> Option<ClientMessage> {
    Some(ClientMessage::Binary(bytes))
}

/// What the client reads in a frame of the server's.
fn read_reply(n: u8, frame: &[u8]) -> Vec<u8> {
    let (_, k_s2c) = session_keys(n);
    let mut nonce = [0u8; 24];
    nonce.copy_from_slice(&frame[8..32]);
    let mut header = [0u8; 8];
    header.copy_from_slice(&frame[..8]);
    xor_header_8(&k_s2c, &nonce, &mut header);
    assert_eq!(header, [0u8; 8]);
    let server = SigningKey::from_bytes(&SERVER_SEED).verifying_key();
    verify_and_decrypt(&frame[8..], &secret(n), &server_public(), &server).unwrap()
}

#[test]
fn good_request_is_accepted() {
    let hub = HubState::default();
    let step = perform_handshake(&keys(), &hub, &binary(first_frame(1, &request(1, 2))));
    match step {
        HandshakeStep::Accept(frame, hello) => {
            assert_eq!(read_reply(1, &frame), vec![0, 0, 0x02, 2]);
            assert_eq!(hello.client_id, id(1));
            assert_eq!(hello.x_pub, x_pub(1));
            assert_eq!(hello.ed_pub.to_bytes(), signing(1).verifying_key().to_bytes());
            assert_eq!((hello.k_c2s, hello.k_s2c), session_keys(1));
            assert_eq!(hello.version, 2);
        }
        _ => panic!("not accepted"),
    }
    assert_eq!(hub.len(), 0);
}

#[test]
fn other_version_is_rejected_with_the_supported_one() {
    for version in [0u8, 1, 3, 255] {
        let step = perform_handshake(
            &keys(),
            &HubState::default(),
            &binary(first_frame(1, &request(1, version))),
        );
        match step {
            HandshakeStep::Reject(frame) => {
                assert_eq!(read_reply(1, &frame), vec![0, 0, 0xFF, 2, 2])
            }
            _ => panic!("not rejected"),
        }
    }
}

#[test]
fn taken_identifier_is_rejected() {
    let mut hub = HubState::default();
    let hello = read_handshake(&keys(), &first_frame(1, &request(1, 2))).ok().unwrap();
    register(&keys(), &mut hub, &hello, 4, "1.2.3.4".to_string(), 9);
    match perform_handshake(&keys(), &hub, &binary(first_frame(1, &request(1, 2)))) {
        HandshakeStep::Reject(frame) => assert_eq!(read_reply(1, &frame), vec![0, 0, 0xFF, 1]),
        _ => panic!("not rejected"),
    }
    match perform_handshake(&keys(), &hub, &binary(first_frame(1, &request(1, 1)))) {
        HandshakeStep::Reject(frame) => assert_eq!(read_reply(1, &frame), vec![0, 0, 0xFF, 2, 2]),
        _ => panic!("not rejected"),
    }
    assert_eq!(hub.get(&id(1)).unwrap().ws, 4);
}

#[test]
fn anything_but_a_binary_message_closes() {
    let others = vec![
        None,
        Some(ClientMessage::Ping(vec![1])),
        Some(ClientMessage::Pong),
        Some(ClientMessage::Text("hello".to_string())),
        Some(ClientMessage::Close),
        Some(ClientMessage::Other),
    ];
    for first in others {
        match perform_handshake(&keys(), &HubState::default(), &first) {
            HandshakeStep::Close(e) => assert_eq!(e, HandshakeError::NotBinary),
            _ => panic!("not closed"),
        }
    }
}

fn error_of(first: Vec<u8>) -> HandshakeError {
    match perform_handshake(&keys(), &HubState::default(), &binary(first)) {
        HandshakeStep::Close(e) => e,
        _ => panic!("not closed"),
    }
}

#[test]
fn short_frame_closes() {
    assert_eq!(error_of(vec![]), HandshakeError::TooShort);
    assert_eq!(error_of(vec![0; 135]), HandshakeError::TooShort);
    assert_eq!(error_of(vec![0; 136]), HandshakeError::BadCiphertext);
}

#[test]
fn packet_of_another_point_closes() {
    let mut first = first_frame(1, &request(1, 2));
    first[..32].copy_from_slice(&x_pub(2));
    assert_eq!(error_of(first), HandshakeError::BadCiphertext);
}

#[test]
fn short_request_closes() {
    let inner = request(1, 2);
    assert_eq!(
        error_of(first_frame(1, &inner[..35])),
        HandshakeError::PlaintextTooShort
    );
    assert_eq!(error_of(first_frame(1, &[])), HandshakeError::PlaintextTooShort);
}

#[test]
fn request_may_go_on_behind_the_version() {
    let mut inner = request(1, 2);
    inner.extend_from_slice(b"more");
    assert!(read_handshake(&keys(), &first_frame(1, &inner)).is_ok());
}

#[test]
fn other_command_closes() {
    let mut inner = request(1, 2);
    inner[2] = 0x40;
    assert_eq!(
        error_of(first_frame(1, &inner)),
        HandshakeError::UnexpectedCommand(0x40)
    );
}

#[test]
fn key_that_is_none_closes() {
    let mut inner = request(1, 2);
    for i in 0..32 {
        inner[3 + i] = 0;
    }
    inner[3] = 2;
    assert_eq!(error_of(first_frame(1, &inner)), HandshakeError::BadKey);
}

#[test]
fn signature_of_another_key_closes() {
    let packet =
        encrypt_and_sign(&request(1, 2), &secret(1), &signing(2), &server_public()).unwrap();
    let mut first = x_pub(1).to_vec();
    first.extend_from_slice(&packet);
    assert_eq!(error_of(first), HandshakeError::BadSignature);
}

#[test]
fn damaged_frame_closes() {
    let packet = seal_packet(
        &request(1, 2),
        &secret(1),
        &signing(1),
        &server_public(),
        &[6u8; 24],
    )
    .unwrap();
    let mut first = x_pub(1).to_vec();
    first.extend_from_slice(&packet);
    let mut ciphertext = first.clone();
    ciphertext[60] ^= 1;
    assert_eq!(error_of(ciphertext), HandshakeError::BadCiphertext);
    let mut signature = first.clone();
    let last = signature.len() - 10;
    signature[last] ^= 1;
    assert_eq!(error_of(signature), HandshakeError::BadSignature);
}

#[test]
fn replies_byte_for_byte() {
    assert_eq!(handshake_reply(2, false), vec![0, 0, 0x02, 2]);
    assert_eq!(handshake_reply(2, true), vec![0, 0, 0xFF, 1]);
    assert_eq!(handshake_reply(1, false), vec![0, 0, 0xFF, 2, 2]);
    assert_eq!(handshake_reply(1, true), vec![0, 0, 0xFF, 2, 2]);
}

#[test]
fn registered_client_stands_under_its_identifier() {
    let mut hub = HubState::default();
    let hello = read_handshake(&keys(), &first_frame(1, &request(1, 2))).ok().unwrap();
    match register(&keys(), &mut hub, &hello, 4, "1.2.3.4".to_string(), 9) {
        Registration::Registered => {}
        Registration::Taken(_) => panic!("taken"),
    }
    let s = hub.get(&id(1)).unwrap();
    assert_eq!((s.ws, s.ip.as_str()), (4, "1.2.3.4"));
    assert_eq!(s.x_pub, x_pub(1));
    assert_eq!((s.k_c2s, s.k_s2c), session_keys(1));
    assert_eq!((s.last_seen, s.last_ping), (9, 9));
    assert!(hub.is_x_online(&x_pub(1)));
}

#[test]
fn second_of_two_registrations_is_refused() {
    let mut hub = HubState::default();
    let hello = read_handshake(&keys(), &first_frame(1, &request(1, 2))).ok().unwrap();
    register(&keys(), &mut hub, &hello, 4, "a".to_string(), 9);
    match register(&keys(), &mut hub, &hello, 5, "b".to_string(), 10) {
        Registration::Taken(frame) => assert_eq!(read_reply(1, &frame), vec![0, 0, 0xFF, 1]),
        Registration::Registered => panic!("registered twice"),
    }
    assert_eq!(hub.get(&id(1)).unwrap().ws, 4);
    assert_eq!(hub.len(), 1);
}

#[test]
fn arrival_is_announced_to_those_who_watch() {
    let mut hub = HubState::default();
    for n in [1u8, 2] {
        let hello = read_handshake(&keys(), &first_frame(n, &request(n, 2))).ok().unwrap();
        register(&keys(), &mut hub, &hello, n as u64, "a".to_string(), 9);
    }
    hub.add_subscription(id(1), x_pub(3));
    let hello = read_handshake(&keys(), &first_frame(3, &request(3, 2))).ok().unwrap();
    match establish(&keys(), &mut hub, &hello, 3, "c".to_string(), 10) {
        Welcome::Established(notices) => {
            assert_eq!(notices.len(), 1);
            assert_eq!(notices[0].to, 1);
            let mut expected = vec![0, 0, 0x42];
            expected.extend_from_slice(&x_pub(3));
            assert_eq!(read_reply(1, &notices[0].frame), expected);
        }
        Welcome::Taken(_) => panic!("taken"),
    }
    match establish(&keys(), &mut hub, &hello, 4, "d".to_string(), 11) {
        Welcome::Taken(frame) => assert_eq!(read_reply(3, &frame), vec![0, 0, 0xFF, 1]),
        Welcome::Established(_) => panic!("established twice"),
    }
    assert_eq!(hub.get(&id(3)).unwrap().ws, 3);
}

#[test]
fn points_with_the_same_start_are_not_connected_together() {
    let mut other = x_pub(1);
    other[31] ^= 1;
    let hello = |x: [u8; 32]| ClientHello {
        client_id: derive_client_id(&x),
        x_pub: x,
        ed_pub: signing(1).verifying_key(),
        version: 2,
        k_c2s: [0; 32],
        k_s2c: [0; 32],
    };
    let mut hub = HubState::default();
    let first = register(&keys(), &mut hub, &hello(x_pub(1)), 1, "a".to_string(), 0);
    assert!(matches!(first, Registration::Registered));
    let second = register(&keys(), &mut hub, &hello(other), 2, "b".to_string(), 0);
    assert!(matches!(second, Registration::Taken(_)));
    assert!(hub.is_x_online(&x_pub(1)) && !hub.is_x_online(&other));
}
