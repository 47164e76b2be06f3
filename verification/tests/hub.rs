//! The registry.

use ws_server::hub::{ClientSession, HubState};
use ws_server::keys::SigningKey;

fn session(n: u8, seen: u128, pinged: u128) -> ClientSession {
    ClientSession {
        ws: n as u64,
        ip: "127.0.0.1".to_string(),
        x_pub: [n; 32],
        ed_pub: SigningKey::from_bytes(&[n; 32]).verifying_key(),
        k_c2s: [n + 100; 32],
        k_s2c: [n + 101; 32],
        last_seen: seen,
        last_ping: pinged,
    }
}

#[test]
fn new_hub_is_empty() {
    let hub = HubState::new();
    assert_eq!(hub.len(), 0);
    assert!(!hub.contains(&[1; 8]));
    assert!(!hub.is_x_online(&[1; 32]));
    assert!(hub.get(&[1; 8]).is_none());
    assert!(hub.subscribers_targets(&[1; 32]).is_empty());
}

#[test]
fn inserted_session_is_found_and_online() {
    let mut hub = HubState::default();
    hub.insert([1; 8], session(1, 10, 20));
    assert_eq!(hub.len(), 1);
    assert!(hub.contains(&[1; 8]));
    assert!(!hub.contains(&[2; 8]));
    assert!(hub.is_x_online(&[1; 32]));
    let s = hub.get(&[1; 8]).unwrap();
    assert_eq!(s.ws, 1);
    assert_eq!(s.ip, "127.0.0.1");
    assert_eq!(s.x_pub, [1; 32]);
    assert_eq!((s.last_seen, s.last_ping), (10, 20));
}

#[test]
fn identifiers_that_differ_in_one_byte_are_told_apart() {
    let mut hub = HubState::default();
    for i in 0..8 {
        let mut id = [0u8; 8];
        id[i] = 1;
        assert!(!hub.contains(&id));
        hub.insert(id, session(i as u8 + 1, 0, 0));
    }
    assert_eq!(hub.len(), 8);
    for i in 0..8 {
        let mut id = [0u8; 8];
        id[i] = 1;
        assert_eq!(hub.get(&id).unwrap().ws, i as u64 + 1);
    }
}

#[test]
fn points_that_differ_in_one_byte_are_told_apart() {
    let mut hub = HubState::default();
    for i in 0..32 {
        let mut x = [0u8; 32];
        x[i] = 0x80;
        assert!(!hub.is_x_online(&x));
        let mut s = session(1, 0, 0);
        s.x_pub = x;
        hub.insert([i as u8; 8], s);
        assert!(hub.is_x_online(&x));
    }
}

#[test]
fn removed_session_comes_back_and_is_gone() {
    let mut hub = HubState::default();
    hub.insert([1; 8], session(1, 0, 0));
    hub.insert([2; 8], session(2, 0, 0));
    assert_eq!(hub.remove(&[1; 8]).unwrap().ws, 1);
    assert!(hub.remove(&[1; 8]).is_none());
    assert!(!hub.contains(&[1; 8]));
    assert!(!hub.is_x_online(&[1; 32]));
    assert!(hub.is_x_online(&[2; 32]));
    assert_eq!(hub.len(), 1);
}

#[test]
fn replaced_session_takes_its_point_offline() {
    let mut hub = HubState::default();
    hub.insert([1; 8], session(1, 0, 0));
    hub.insert([1; 8], session(2, 0, 0));
    assert_eq!(hub.len(), 1);
    assert!(hub.is_x_online(&[2; 32]));
    assert!(!hub.is_x_online(&[1; 32]));
    assert_eq!(hub.get(&[1; 8]).unwrap().ws, 2);
    // A session of the same owner stays online.
    hub.insert([1; 8], session(2, 5, 5));
    assert!(hub.is_x_online(&[2; 32]));
}

#[test]
fn shared_point_stays_online_while_a_session_holds_it() {
    let mut hub = HubState::default();
    hub.insert([1; 8], session(7, 0, 0));
    hub.insert([2; 8], session(7, 0, 0));
    hub.insert([1; 8], session(3, 0, 0));
    assert!(hub.is_x_online(&[7; 32]) && hub.is_x_online(&[3; 32]));
    hub.insert([4; 8], session(3, 0, 0));
    hub.remove(&[1; 8]);
    assert!(hub.is_x_online(&[3; 32]));
    hub.remove(&[4; 8]);
    assert!(!hub.is_x_online(&[3; 32]));
    hub.remove(&[2; 8]);
    assert!(!hub.is_x_online(&[7; 32]));
}

#[test]
fn session_is_changed_in_place() {
    let mut hub = HubState::default();
    hub.insert([1; 8], session(1, 0, 0));
    hub.get_mut(&[1; 8]).unwrap().last_ping = 77;
    assert!(hub.get_mut(&[2; 8]).is_none());
    assert_eq!(hub.get(&[1; 8]).unwrap().last_ping, 77);
    assert_eq!(hub.get(&[1; 8]).unwrap().last_seen, 0);
}

#[test]
fn touch_sets_both_times() {
    let mut hub = HubState::default();
    hub.insert([1; 8], session(1, 1, 2));
    hub.insert([2; 8], session(2, 1, 2));
    hub.touch(&[1; 8], 50);
    hub.touch(&[9; 8], 50);
    let s = hub.get(&[1; 8]).unwrap();
    assert_eq!((s.last_seen, s.last_ping), (50, 50));
    let s = hub.get(&[2; 8]).unwrap();
    assert_eq!((s.last_seen, s.last_ping), (1, 2));
    assert_eq!(hub.len(), 2);
}

#[test]
fn subscription_tells_whether_the_target_is_online() {
    let mut hub = HubState::default();
    hub.insert([1; 8], session(1, 0, 0));
    hub.insert([2; 8], session(2, 0, 0));
    assert!(hub.add_subscription([1; 8], [2; 32]));
    assert!(!hub.add_subscription([1; 8], [3; 32]));
}

#[test]
fn targets_are_the_connected_watchers() {
    let mut hub = HubState::default();
    hub.insert([1; 8], session(1, 0, 0));
    hub.insert([2; 8], session(2, 0, 0));
    hub.add_subscription([1; 8], [9; 32]);
    hub.add_subscription([1; 8], [9; 32]);
    hub.add_subscription([2; 8], [9; 32]);
    hub.add_subscription([3; 8], [9; 32]);
    hub.add_subscription([2; 8], [8; 32]);
    let mut targets = hub.subscribers_targets(&[9; 32]);
    targets.sort();
    assert_eq!(
        targets,
        vec![([1; 32], [102; 32], 1), ([2; 32], [103; 32], 2)]
    );
    assert_eq!(
        hub.subscribers_targets(&[8; 32]),
        vec![([2; 32], [103; 32], 2)]
    );
}

#[test]
fn taken_back_subscription_is_gone() {
    let mut hub = HubState::default();
    hub.insert([1; 8], session(1, 0, 0));
    hub.add_subscription([1; 8], [8; 32]);
    hub.add_subscription([1; 8], [9; 32]);
    hub.remove_subscription(&[1; 8], &[9; 32]);
    hub.remove_subscription(&[1; 8], &[9; 32]);
    hub.remove_subscription(&[5; 8], &[8; 32]);
    assert!(hub.subscribers_targets(&[9; 32]).is_empty());
    assert_eq!(hub.subscribers_targets(&[8; 32]).len(), 1);
}

#[test]
fn all_subscriptions_of_one_client_go_at_once() {
    let mut hub = HubState::default();
    hub.insert([1; 8], session(1, 0, 0));
    hub.insert([2; 8], session(2, 0, 0));
    for x in 10..20 {
        hub.add_subscription([1; 8], [x; 32]);
        hub.add_subscription([2; 8], [x; 32]);
    }
    hub.remove_all_subscriptions(&[1; 8]);
    hub.remove_all_subscriptions(&[1; 8]);
    for x in 10..20 {
        assert_eq!(
            hub.subscribers_targets(&[x; 32]),
            vec![([2; 32], [103; 32], 2)]
        );
    }
}

#[test]
fn heartbeat_lists_by_silence() {
    let mut hub = HubState::default();
    hub.insert([1; 8], session(1, 0, 0));
    hub.insert([2; 8], session(2, 40, 79));
    hub.insert([3; 8], session(3, 40, 80));
    hub.insert([4; 8], session(4, 39, 100));
    hub.insert([5; 8], session(5, 200, 200));
    let (mut drops, pings) = hub.heartbeat_lists(100, 60, 20);
    drops.sort();
    assert_eq!(drops, vec![[1; 8], [4; 8]]);
    assert_eq!(pings, vec![([2; 8], 2)]);
}

#[test]
fn report_counts_sessions_and_seconds() {
    let mut hub = HubState::new_at(1_700_000_000_900_000_000);
    hub.insert([1; 8], session(1, 0, 0));
    let info = hub.info_at(1_700_000_003_800_000_000);
    assert_eq!(info.started_at, 1_700_000_000);
    assert_eq!(info.uptime_sec, 2);
    assert_eq!(info.connections, 1);
    assert_eq!(info.version, "0.1.0");
    assert_eq!(info.status, "OK");
}

#[test]
fn unknown_times_are_zero() {
    let info = HubState::default().info_at(5_000_000_000);
    assert_eq!((info.started_at, info.uptime_sec), (0, 0));
    let info = HubState::new_at(-3_000_000_000).info_at(1_000_000_000);
    assert_eq!((info.started_at, info.uptime_sec), (0, 4));
    let info = HubState::new_at(3_000_000_000).info_at(1_000_000_000);
    assert_eq!((info.started_at, info.uptime_sec), (3, 0));
}

#[test]
fn report_of_the_present_moment() {
    let hub = HubState::new();
    let info = hub.info_json();
    assert!(info.started_at > 1_577_836_800);
    assert!(info.uptime_sec < 20);
    assert_eq!(info.connections, 0);
}
