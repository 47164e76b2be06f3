//! Established sessions: relaying, commands to the server, presence and the
//! heartbeat.

use ws_server::connection::{on_message, Step};
use ws_server::crypto25519::{
    derive_session_keys, encrypt_and_sign, verify_and_decrypt, x25519_public_from_secret,
    x25519_shared, xor_header_8, CryptoError,
};
use ws_server::frames::{pack_inner, MAX_FRAME_SIZE};
use ws_server::heartbeat::{apply_heartbeat, HEARTBEAT_TIMEOUT, PING_INTERVAL};
use ws_server::hub::{ClientSession, HubState};
use ws_server::keys::SigningKey;
use ws_server::messages::ClientMessage;
use ws_server::presence::{broadcast_presence, disconnect};
use ws_server::routing::{
    handle_routing_frame, handle_server_bound, send_offline_error, Action, RouteError,
};
use ws_server::server_keys::ServerKeys;

const SERVER_SECRET: [u8; 32] = [0x51; 32];
const SERVER_SEED: [u8; 32] = [0x52; 32];
const NOTIFIER: u8 = 90;

fn keys() -> ServerKeys {
    ServerKeys {
        x25519_secret: SERVER_SECRET,
        ed25519_signing: SigningKey::from_bytes(&SERVER_SEED),
        notifier_id: id(NOTIFIER),
    }
}

fn secret(n: u8) -> [u8; 32] {
    [n; 32]
}

fn signing(n: u8) -> SigningKey {
    SigningKey::from_bytes(&[n + 100; 32])
}

fn x_pub(n: u8) -> [u8; 32] {
    x25519_public_from_secret(&secret(n))
}

fn id(n: u8) -> [u8; 8] {
    let mut id = [0u8; 8];
    id.copy_from_slice(&x_pub(n)[..8]);
    id
}

fn server_public() -> [u8; 32] {
    x25519_public_from_secret(&SERVER_SECRET)
}

fn session_keys(n: u8) -> ([u8; 32], [u8; 32]) {
    derive_session_keys(&x25519_shared(&secret(n), &server_public()))
}

fn join(hub: &mut HubState, n: u8) {
    join_at(hub, n, 0);
}

fn join_at(hub: &mut HubState, n: u8, now: u128) {
    let (k_c2s, k_s2c) = session_keys(n);
    hub.insert(
        id(n),
        ClientSession {
            ws: n as u64,
            ip: String::new(),
            x_pub: x_pub(n),
            ed_pub: signing(n).verifying_key(),
            k_c2s,
            k_s2c,
            last_seen: now,
            last_ping: now,
        },
    );
}

fn hub_of(clients: &[u8]) -> HubState {
    let mut hub = HubState::default();
    for n in clients {
        join(&mut hub, *n);
    }
    hub
}

fn nonce_of(frame: &[u8]) -> [u8; 24] {
    let mut nonce = [0u8; 24];
    nonce.copy_from_slice(&frame[8..32]);
    nonce
}

/// The frame that client `n` sends to `to`.
fn frame_to(n: u8, to: &[u8; 8], packet: &[u8]) -> Vec<u8> {
    let mut frame = to.to_vec();
    frame.extend_from_slice(packet);
    let mut header = *to;
    xor_header_8(&session_keys(n).0, &nonce_of(&frame), &mut header);
    frame[..8].copy_from_slice(&header);
    frame
}

fn peer_frame(n: u8, to: u8, message: &[u8]) -> Vec<u8> {
    let packet = encrypt_and_sign(message, &secret(n), &signing(n), &x_pub(to)).unwrap();
    frame_to(n, &id(to), &packet)
}

fn command_frame(n: u8, cmd: u8, body: &[u8]) -> Vec<u8> {
    let inner = pack_inner(77, cmd, body);
    let packet = encrypt_and_sign(&inner, &secret(n), &signing(n), &server_public()).unwrap();
    frame_to(n, &[0u8; 8], &packet)
}

/// Whom the header of a frame names to client `n`.
fn sender_of(n: u8, frame: &[u8]) -> [u8; 8] {
    let mut header = [0u8; 8];
    header.copy_from_slice(&frame[..8]);
    xor_header_8(&session_keys(n).1, &nonce_of(frame), &mut header);
    header
}

/// What client `n` reads in a frame of the server's.
fn from_server(n: u8, frame: &[u8]) -> Vec<u8> {
    assert_eq!(sender_of(n, frame), [0u8; 8]);
    let server = SigningKey::from_bytes(&SERVER_SEED).verifying_key();
    verify_and_decrypt(&frame[8..], &secret(n), &server_public(), &server).unwrap()
}

fn route(hub: &mut HubState, n: u8, frame: &[u8]) -> Result<Action, RouteError> {
    handle_routing_frame(&keys(), hub, &id(n), &session_keys(n).0, frame)
}

fn is_quiet(r: Result<Action, RouteError>) -> bool {
    matches!(r, Ok(Action::Nothing))
}

fn error_of(r: Result<Action, RouteError>) -> RouteError {
    match r {
        Ok(_) => panic!("no error"),
        Err(e) => e,
    }
}

fn reply_of(r: Result<Action, RouteError>) -> Vec<u8> {
    match r {
        Ok(Action::Reply(frame)) => frame,
        _ => panic!("no reply"),
    }
}

fn sent_by(r: Result<Action, RouteError>) -> (u64, Vec<u8>) {
    match r {
        Ok(Action::Send(to, frame)) => (to, frame),
        _ => panic!("nothing sent"),
    }
}

fn joined(parts: &[&[u8]]) -> Vec<u8> {
    let mut out = Vec::new();
    for p in parts {
        out.extend_from_slice(p);
    }
    out
}

#[test]
fn message_reaches_its_peer_untouched() {
    let mut hub = hub_of(&[1, 2]);
    let frame = peer_frame(1, 2, b"hello bob");
    match route(&mut hub, 1, &frame) {
        Ok(Action::Forward { to, frame: out, target_id, nonce_24 }) => {
            assert_eq!(to, 2);
            assert_eq!(target_id, id(2));
            assert_eq!(nonce_24, nonce_of(&frame));
            assert_eq!(out[8..], frame[8..]);
            assert_eq!(sender_of(2, &out), id(1));
            let alice = signing(1).verifying_key();
            assert_eq!(
                verify_and_decrypt(&out[8..], &secret(2), &x_pub(1), &alice),
                Ok(b"hello bob".to_vec())
            );
        }
        _ => panic!("not forwarded"),
    }
}

#[test]
fn message_to_oneself_comes_back() {
    let mut hub = hub_of(&[1]);
    match route(&mut hub, 1, &peer_frame(1, 1, b"note")) {
        Ok(Action::Forward { to, .. }) => assert_eq!(to, 1),
        _ => panic!("not forwarded"),
    }
}

#[test]
fn body_of_a_relayed_frame_is_not_looked_at() {
    let mut hub = hub_of(&[1, 2]);
    let frame = frame_to(1, &id(2), &[0xEE; 104]);
    assert_eq!(frame.len(), 112);
    match route(&mut hub, 1, &frame) {
        Ok(Action::Forward { frame: out, .. }) => assert_eq!(out[8..], [0xEE; 104]),
        _ => panic!("not forwarded"),
    }
}

#[test]
fn frames_alike_in_header_and_nonce_go_the_same_way() {
    let mut hub = hub_of(&[1, 2]);
    let frame = peer_frame(1, 2, b"one");
    let mut other = frame[..32].to_vec();
    other.extend_from_slice(&[7u8; 90]);
    match (route(&mut hub, 1, &frame), route(&mut hub, 1, &other)) {
        (
            Ok(Action::Forward { to, frame: out, target_id, nonce_24 }),
            Ok(Action::Forward {
                to: other_to,
                frame: other_out,
                target_id: other_target,
                nonce_24: other_nonce,
            }),
        ) => {
            assert_eq!((to, target_id, nonce_24), (other_to, other_target, other_nonce));
            assert_eq!(out[..8], other_out[..8]);
            assert_eq!(out[8..], frame[8..]);
            assert_eq!(other_out[8..], other[8..]);
        }
        _ => panic!("not forwarded"),
    }
}

#[test]
fn message_number_plays_no_part() {
    let mut hub = hub_of(&[1, 2]);
    for number in [0u16, 1, 0xFFFF] {
        let inner = pack_inner(number, 0x40, &x_pub(2));
        let packet = encrypt_and_sign(&inner, &secret(1), &signing(1), &server_public()).unwrap();
        let reply = reply_of(handle_server_bound(&keys(), &mut hub, &id(1), &packet));
        assert_eq!(from_server(1, &reply), joined(&[&[0, 0, 0x42], &x_pub(2)]));
    }
    assert_eq!(hub.subscribers_targets(&x_pub(2)).len(), 1);
}

#[test]
fn short_frame_is_refused() {
    let mut hub = hub_of(&[1, 2]);
    let frame = frame_to(1, &id(2), &[0xEE; 104]);
    assert_eq!(error_of(route(&mut hub, 1, &frame[..111])), RouteError::TooShort);
    assert_eq!(error_of(route(&mut hub, 1, &[])), RouteError::TooShort);
}

#[test]
fn absent_peer_is_reported_with_the_nonce() {
    let mut hub = hub_of(&[1]);
    let frame = peer_frame(1, 2, b"anyone there?");
    let reply = reply_of(route(&mut hub, 1, &frame));
    assert_eq!(
        from_server(1, &reply),
        joined(&[&[0, 0, 0xFF, 3], &id(2), &nonce_of(&frame)])
    );
}

#[test]
fn failed_delivery_is_reported_in_the_same_way() {
    let hub = hub_of(&[1, 2]);
    let reply = reply_of(send_offline_error(&keys(), &hub, &id(1), &id(2), &[4u8; 24]));
    assert_eq!(
        from_server(1, &reply),
        joined(&[&[0, 0, 0xFF, 3], &id(2), &[4u8; 24]])
    );
    assert!(is_quiet(send_offline_error(&keys(), &hub, &id(9), &id(2), &[4u8; 24])));
}

#[test]
fn sender_that_is_gone_hears_nothing() {
    let mut hub = hub_of(&[]);
    assert!(is_quiet(route(&mut hub, 1, &peer_frame(1, 2, b"x"))));
    assert!(is_quiet(route(&mut hub, 1, &command_frame(1, 0x40, &x_pub(2)))));
}

#[test]
fn subscription_lists_who_is_online() {
    let mut hub = hub_of(&[1, 2, 3]);
    let body = joined(&[&x_pub(3), &x_pub(4), &x_pub(2)]);
    let reply = reply_of(route(&mut hub, 1, &command_frame(1, 0x40, &body)));
    assert_eq!(
        from_server(1, &reply),
        joined(&[&[0, 0, 0x42], &x_pub(3), &x_pub(2)])
    );
    assert_eq!(hub.subscribers_targets(&x_pub(4)).len(), 1);
}

#[test]
fn subscription_to_nobody_online_is_quiet() {
    let mut hub = hub_of(&[1]);
    assert!(is_quiet(route(&mut hub, 1, &command_frame(1, 0x40, &x_pub(4)))));
    assert!(is_quiet(route(&mut hub, 1, &command_frame(1, 0x40, &[]))));
    assert_eq!(hub.subscribers_targets(&x_pub(4)).len(), 1);
}

#[test]
fn crooked_lists_are_refused() {
    let mut hub = hub_of(&[1]);
    let crooked = [0u8; 33];
    assert_eq!(
        error_of(route(&mut hub, 1, &command_frame(1, 0x40, &crooked))),
        RouteError::TooShort
    );
    assert_eq!(
        error_of(route(&mut hub, 1, &command_frame(1, 0x41, &crooked))),
        RouteError::TooShort
    );
}

#[test]
fn unsubscription_undoes_subscription() {
    let mut hub = hub_of(&[1, 2]);
    let body = joined(&[&x_pub(4), &x_pub(5)]);
    assert!(is_quiet(route(&mut hub, 1, &command_frame(1, 0x40, &body))));
    assert!(is_quiet(route(&mut hub, 2, &command_frame(2, 0x40, &x_pub(4)))));
    assert!(is_quiet(route(&mut hub, 1, &command_frame(1, 0x41, &body))));
    assert_eq!(hub.subscribers_targets(&x_pub(4)).len(), 1);
    assert_eq!(hub.subscribers_targets(&x_pub(4))[0].2, 2);
    assert!(hub.subscribers_targets(&x_pub(5)).is_empty());
}

#[test]
fn introduction_carries_the_keys_of_the_session() {
    let mut hub = hub_of(&[1, 2]);
    let body = joined(&[&id(2), "Алиса".as_bytes()]);
    let (to, frame) = sent_by(route(&mut hub, 1, &command_frame(1, 0x46, &body)));
    assert_eq!(to, 2);
    assert_eq!(
        from_server(2, &frame),
        joined(&[
            &[0, 0, 0x47],
            "Алиса".as_bytes(),
            &x_pub(1),
            &signing(1).verifying_key().to_bytes()
        ])
    );
}

#[test]
fn introduction_without_a_nickname() {
    let mut hub = hub_of(&[1, 2]);
    let (_, frame) = sent_by(route(&mut hub, 1, &command_frame(1, 0x46, &id(2))));
    assert_eq!(
        from_server(2, &frame),
        joined(&[
            &[0, 0, 0x47],
            &x_pub(1),
            &signing(1).verifying_key().to_bytes()
        ])
    );
}

#[test]
fn introduction_to_nobody_is_dropped() {
    let mut hub = hub_of(&[1]);
    assert!(is_quiet(route(&mut hub, 1, &command_frame(1, 0x46, &id(2)))));
    assert_eq!(
        error_of(route(&mut hub, 1, &command_frame(1, 0x46, &id(2)[..7]))),
        RouteError::TooShort
    );
}

#[test]
fn wake_goes_to_the_notifier() {
    let mut hub = hub_of(&[1, NOTIFIER]);
    for (body, passed) in [
        (joined(&[&id(2)]), 8),
        (joined(&[&id(2), &[1]]), 9),
        (joined(&[&id(2), &[1, 5, 6]]), 9),
    ] {
        let (to, frame) = sent_by(route(&mut hub, 1, &command_frame(1, 0x48, &body)));
        assert_eq!(to, NOTIFIER as u64);
        assert_eq!(
            from_server(NOTIFIER, &frame),
            joined(&[&[0, 0, 0x48], &body[..passed]])
        );
    }
    assert_eq!(
        error_of(route(&mut hub, 1, &command_frame(1, 0x48, &[0; 7]))),
        RouteError::TooShort
    );
}

#[test]
fn push_registration_goes_to_the_notifier_under_the_senders_name() {
    let mut hub = hub_of(&[1, NOTIFIER]);
    let (to, frame) = sent_by(route(&mut hub, 1, &command_frame(1, 0x49, b"\x01token")));
    assert_eq!(to, NOTIFIER as u64);
    assert_eq!(
        from_server(NOTIFIER, &frame),
        joined(&[&[0, 0, 0x49], &id(1), b"\x01token"])
    );
    assert_eq!(
        error_of(route(&mut hub, 1, &command_frame(1, 0x49, b""))),
        RouteError::TooShort
    );
}

#[test]
fn without_a_notifier_pushes_are_dropped() {
    let mut hub = hub_of(&[1]);
    assert!(is_quiet(route(&mut hub, 1, &command_frame(1, 0x48, &id(2)))));
    assert!(is_quiet(route(&mut hub, 1, &command_frame(1, 0x49, b"\x01t"))));
}

#[test]
fn unknown_command_does_nothing() {
    let mut hub = hub_of(&[1]);
    assert!(is_quiet(route(&mut hub, 1, &command_frame(1, 0x01, &[0; 40]))));
    assert!(is_quiet(route(&mut hub, 1, &command_frame(1, 0x47, &[0; 40]))));
}

#[test]
fn command_that_is_forged_or_broken_is_refused() {
    let mut hub = hub_of(&[1, 2]);
    let inner = pack_inner(0, 0x40, &x_pub(2));
    let forged = encrypt_and_sign(&inner, &secret(1), &signing(2), &server_public()).unwrap();
    assert_eq!(
        error_of(handle_server_bound(&keys(), &mut hub, &id(1), &forged)),
        RouteError::Crypto(CryptoError::BadSignature)
    );
    let misread = encrypt_and_sign(&inner, &secret(1), &signing(1), &x_pub(2)).unwrap();
    assert_eq!(
        error_of(handle_server_bound(&keys(), &mut hub, &id(1), &misread)),
        RouteError::Crypto(CryptoError::BadCiphertext)
    );
    assert_eq!(
        error_of(handle_server_bound(&keys(), &mut hub, &id(1), &[0; 104])),
        RouteError::Crypto(CryptoError::BadFormat)
    );
    let short = encrypt_and_sign(&inner[..2], &secret(1), &signing(1), &server_public()).unwrap();
    assert_eq!(
        error_of(handle_server_bound(&keys(), &mut hub, &id(1), &short)),
        RouteError::TooShort
    );
    assert!(hub.subscribers_targets(&x_pub(2)).is_empty());
}

#[test]
fn long_frame_is_relayed() {
    let mut hub = hub_of(&[1, 2]);
    let frame = frame_to(1, &id(2), &vec![3u8; MAX_FRAME_SIZE - 8]);
    match route(&mut hub, 1, &frame) {
        Ok(Action::Forward { frame: out, .. }) => assert_eq!(out.len(), MAX_FRAME_SIZE),
        _ => panic!("not forwarded"),
    }
}

#[test]
fn presence_goes_to_every_watcher_once() {
    let mut hub = hub_of(&[1, 2, 3]);
    hub.add_subscription(id(1), x_pub(3));
    hub.add_subscription(id(2), x_pub(3));
    for (online, cmd) in [(true, 0x42), (false, 0x43)] {
        let out = broadcast_presence(&keys(), &hub, &x_pub(3), online);
        let mut told: Vec<u64> = out.iter().map(|o| o.to).collect();
        told.sort();
        assert_eq!(told, vec![1, 2]);
        for o in &out {
            assert_eq!(
                from_server(o.to as u8, &o.frame),
                joined(&[&[0, 0, cmd], &x_pub(3)])
            );
        }
    }
}

#[test]
fn departure_clears_and_announces() {
    let mut hub = hub_of(&[1, 2]);
    hub.add_subscription(id(1), x_pub(2));
    hub.add_subscription(id(2), x_pub(1));
    let out = disconnect(&keys(), &mut hub, &id(2), &x_pub(2));
    assert_eq!(out.len(), 1);
    assert_eq!(out[0].to, 1);
    assert_eq!(
        from_server(1, &out[0].frame),
        joined(&[&[0, 0, 0x43], &x_pub(2)])
    );
    assert!(!hub.contains(&id(2)));
    assert!(!hub.is_x_online(&x_pub(2)));
    assert!(hub.contains(&id(1)));
    // Whoever comes back watches nothing at first.
    join(&mut hub, 2);
    assert!(hub.subscribers_targets(&x_pub(1)).is_empty());
    assert_eq!(hub.subscribers_targets(&x_pub(2)).len(), 1);
}

fn step(hub: &mut HubState, n: u8, msg: ClientMessage, now: u128) -> Step {
    on_message(&keys(), hub, &id(n), &session_keys(n).0, msg, now)
}

fn seen(hub: &HubState, n: u8) -> (u128, u128) {
    let s = hub.get(&id(n)).unwrap();
    (s.last_seen, s.last_ping)
}

#[test]
fn pings_are_answered_and_count_as_life() {
    let mut hub = hub_of(&[1]);
    match step(&mut hub, 1, ClientMessage::Ping(vec![1, 2, 3]), 5) {
        Step::Pong(b) => assert_eq!(b, vec![1, 2, 3]),
        _ => panic!("no pong"),
    }
    assert_eq!(seen(&hub, 1), (5, 5));
    assert!(matches!(step(&mut hub, 1, ClientMessage::Pong, 6), Step::Done));
    assert_eq!(seen(&hub, 1), (6, 6));
}

#[test]
fn plain_text_keepalive() {
    let mut hub = hub_of(&[1]);
    let text = |s: &str| ClientMessage::Text(s.to_string());
    assert!(matches!(step(&mut hub, 1, text("pong"), 5), Step::Done));
    assert_eq!(seen(&hub, 1), (5, 5));
    assert!(matches!(step(&mut hub, 1, text("ping"), 6), Step::TextPong));
    assert!(matches!(step(&mut hub, 1, text("pong "), 7), Step::Done));
    assert!(matches!(step(&mut hub, 1, text(""), 8), Step::Done));
    assert_eq!(seen(&hub, 1), (5, 5));
}

#[test]
fn close_and_other_messages() {
    let mut hub = hub_of(&[1]);
    assert!(matches!(step(&mut hub, 1, ClientMessage::Close, 5), Step::Close));
    assert!(matches!(step(&mut hub, 1, ClientMessage::Other, 5), Step::Ignored));
    assert_eq!(seen(&hub, 1), (0, 0));
    assert!(hub.contains(&id(1)));
}

#[test]
fn frames_count_as_life_even_where_they_fail() {
    let mut hub = hub_of(&[1, 2]);
    match step(&mut hub, 1, ClientMessage::Binary(vec![0; 3]), 5) {
        Step::Route(r) => assert_eq!(error_of(r), RouteError::TooShort),
        _ => panic!("not routed"),
    }
    assert_eq!(seen(&hub, 1), (5, 5));
    match step(&mut hub, 1, ClientMessage::Binary(peer_frame(1, 2, b"x")), 6) {
        Step::Route(Ok(Action::Forward { to, .. })) => assert_eq!(to, 2),
        _ => panic!("not routed"),
    }
    assert_eq!(seen(&hub, 1), (6, 6));
    assert_eq!(seen(&hub, 2), (0, 0));
}

#[test]
fn heartbeat_drops_the_silent_and_tells_who_is_left() {
    let mut hub = HubState::default();
    let now: u128 = 100_000_000_000;
    join_at(&mut hub, 1, 0);
    join_at(&mut hub, 2, now - HEARTBEAT_TIMEOUT);
    join_at(&mut hub, 3, now - PING_INTERVAL);
    hub.add_subscription(id(2), x_pub(1));
    hub.add_subscription(id(1), x_pub(2));
    let (to_drop, to_ping) = hub.heartbeat_lists(now, HEARTBEAT_TIMEOUT, PING_INTERVAL);
    assert_eq!(to_drop, vec![id(1)]);
    assert_eq!(to_ping, vec![(id(2), 2)]);
    let dropped = apply_heartbeat(&keys(), &mut hub, &to_drop, &to_ping, now);
    assert_eq!(dropped.len(), 1);
    assert_eq!((dropped[0].id, dropped[0].session.ws), (id(1), 1));
    assert_eq!(dropped[0].notices.len(), 1);
    assert_eq!(dropped[0].notices[0].to, 2);
    assert_eq!(
        from_server(2, &dropped[0].notices[0].frame),
        joined(&[&[0, 0, 0x43], &x_pub(1)])
    );
    assert!(!hub.contains(&id(1)));
    assert!(!hub.is_x_online(&x_pub(1)));
    assert_eq!(seen(&hub, 2), (now - HEARTBEAT_TIMEOUT, now));
    assert_eq!(seen(&hub, 3), (now - PING_INTERVAL, now - PING_INTERVAL));
    // The dropped client watches nothing any more.
    join_at(&mut hub, 1, now);
    assert!(hub.subscribers_targets(&x_pub(2)).is_empty());
    let (to_drop, to_ping) = hub.heartbeat_lists(now, HEARTBEAT_TIMEOUT, PING_INTERVAL);
    assert!(to_drop.is_empty() && to_ping.is_empty());
}

#[test]
fn heartbeat_passes_over_who_has_left() {
    let mut hub = hub_of(&[2]);
    let dropped = apply_heartbeat(&keys(), &mut hub, &vec![id(1)], &vec![(id(3), 3)], 5);
    assert!(dropped.is_empty());
    assert_eq!(hub.len(), 1);
    assert_eq!(seen(&hub, 2), (0, 0));
}

#[test]
fn those_who_fall_silent_together_are_not_told_of_each_other() {
    let mut hub = hub_of(&[1, 2]);
    hub.add_subscription(id(1), x_pub(2));
    hub.add_subscription(id(2), x_pub(1));
    let dropped = apply_heartbeat(&keys(), &mut hub, &vec![id(2), id(1)], &vec![], 5);
    assert_eq!(dropped.len(), 2);
    assert_eq!((dropped[0].id, dropped[1].id), (id(2), id(1)));
    assert!(dropped[0].notices.is_empty() && dropped[1].notices.is_empty());
    assert_eq!(hub.len(), 0);
}

#[test]
fn subscriber_is_told_until_it_unsubscribes() {
    let mut hub = hub_of(&[1, 3]);
    reply_of(route(&mut hub, 1, &command_frame(1, 0x40, &x_pub(3))));
    assert_eq!(broadcast_presence(&keys(), &hub, &x_pub(3), false).len(), 1);
    assert!(is_quiet(route(&mut hub, 1, &command_frame(1, 0x41, &x_pub(3)))));
    assert!(broadcast_presence(&keys(), &hub, &x_pub(3), false).is_empty());
}

#[test]
fn client_that_is_heard_stays() {
    let mut hub = hub_of(&[1]);
    let heard: u128 = 500;
    step(&mut hub, 1, ClientMessage::Pong, heard);
    let (to_drop, _) =
        hub.heartbeat_lists(heard + HEARTBEAT_TIMEOUT, HEARTBEAT_TIMEOUT, PING_INTERVAL);
    assert!(to_drop.is_empty());
    let (to_drop, to_ping) =
        hub.heartbeat_lists(heard + HEARTBEAT_TIMEOUT + 1, HEARTBEAT_TIMEOUT, PING_INTERVAL);
    assert_eq!(to_drop, vec![id(1)]);
    assert!(to_ping.is_empty());
}

#[test]
fn coming_and_going_leaves_no_trace() {
    let mut hub = hub_of(&[1]);
    hub.add_subscription(id(1), x_pub(2));
    join(&mut hub, 2);
    route(&mut hub, 2, &command_frame(2, 0x40, &joined(&[&x_pub(1), &x_pub(5)]))).ok();
    disconnect(&keys(), &mut hub, &id(2), &x_pub(2));
    assert_eq!(hub.len(), 1);
    assert!(hub.is_x_online(&x_pub(1)) && !hub.is_x_online(&x_pub(2)));
    assert!(hub.subscribers_targets(&x_pub(1)).is_empty());
    assert!(hub.subscribers_targets(&x_pub(5)).is_empty());
    assert_eq!(hub.subscribers_targets(&x_pub(2)).len(), 1);
}

#[test]
fn heartbeat_keeps_a_shared_point_online() {
    let mut hub = hub_of(&[1, 2]);
    for key in [[0xA1; 8], [0xA2; 8]] {
        hub.insert(
            key,
            ClientSession {
                ws: 9,
                ip: String::new(),
                x_pub: x_pub(3),
                ed_pub: signing(3).verifying_key(),
                k_c2s: [0; 32],
                k_s2c: [0; 32],
                last_seen: 0,
                last_ping: 0,
            },
        );
    }
    apply_heartbeat(&keys(), &mut hub, &vec![[0xA1; 8], id(1)], &vec![], 5);
    assert!(hub.is_x_online(&x_pub(3)) && !hub.is_x_online(&x_pub(1)));
    apply_heartbeat(&keys(), &mut hub, &vec![[0xA2; 8]], &vec![], 6);
    assert!(!hub.is_x_online(&x_pub(3)));
    assert!(hub.is_x_online(&x_pub(2)));
}
