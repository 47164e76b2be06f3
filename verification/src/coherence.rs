//! What is true of the registry at all times, whatever clients do.

use vstd::prelude::*;

use crate::connection;
use crate::crypto25519;
use crate::frames;
use crate::handshake::ClientHello;
use crate::heartbeat;
use crate::hub;
use crate::hub::{ClientSession, HubView};
use crate::index::{ClientId, XPub};
use crate::messages::ClientMessage;
use crate::presence;
use crate::server_keys::ServerKeys;

verus! {

/// The owner of `x` has a session, under its own identifier.
pub open spec fn is_connected(hub: HubView, x: XPub) -> bool {
    &&& hub.sessions.contains_key(frames::client_id(x))
    &&& hub.sessions[frames::client_id(x)].x_pub == x
}

/// Every session stands under the identifier of its owner, those who are
/// online are those who are connected, and only who is connected watches.
pub open spec fn coherent(hub: HubView) -> bool {
    &&& forall|id: ClientId| #[trigger]
        hub.sessions.contains_key(id) ==> id == frames::client_id(hub.sessions[id].x_pub)
    &&& forall|x: XPub| #[trigger] hub.online.contains(x) <==> is_connected(hub, x)
    &&& forall|w: (ClientId, XPub)| #[trigger]
        hub.watches.contains(w) ==> hub.sessions.contains_key(w.0)
}

/// A new registry is coherent.
pub proof fn law_new_hub_is_coherent(started_at: Option<i128>)
    ensures
        coherent(HubView::empty(started_at)),
{
}

/// Registering a client under its own identifier keeps the registry coherent,
/// also where another session stood there.
pub proof fn law_registration_keeps_coherence(hub: HubView, session: ClientSession)
    requires
        coherent(hub),
    ensures
        coherent(hub.inserted(frames::client_id(session.x_pub), session)),
{
}

/// No message of an established session makes the registry incoherent.
pub proof fn law_message_keeps_coherence(
    keys: ServerKeys,
    hub: HubView,
    id: ClientId,
    k_c2s: Seq<u8>,
    msg: ClientMessage,
    now: u128,
)
    requires
        coherent(hub),
    ensures
        coherent(connection::message_hub(keys, hub, id, k_c2s, msg, now)),
{
}

/// The registry stays coherent when a client's socket closes.
pub proof fn law_departure_keeps_coherence(hub: HubView, id: ClientId)
    requires
        coherent(hub),
    ensures
        coherent(presence::departed(hub, id)),
{
}

/// The registry stays coherent when the heartbeat drops and pings clients,
/// whichever they are.
pub proof fn law_heartbeat_keeps_coherence(
    hub: HubView,
    to_drop: Seq<ClientId>,
    to_ping: Seq<ClientId>,
    now: u128,
)
    requires
        coherent(hub),
    ensures
        coherent(heartbeat::pinged(heartbeat::without(hub, to_drop), to_ping, now)),
{
}

/// A public point is online exactly where some session holds it.
pub open spec fn online_is_stored(hub: HubView) -> bool {
    forall|x: XPub| #[trigger] hub.online.contains(x) <==> hub::held(hub.sessions, x)
}

/// In a new registry nobody is online and no session holds a point.
pub proof fn law_new_hub_online_is_stored(started_at: Option<i128>)
    ensures
        online_is_stored(HubView::empty(started_at)),
{
}

/// Where the points that are online are exactly those that sessions hold, they
/// still are when a session is registered, under whatever identifier.
pub proof fn law_insertion_keeps_online_stored(hub: HubView, id: ClientId, session: ClientSession)
    requires
        online_is_stored(hub),
    ensures
        online_is_stored(hub.inserted(id, session)),
{
    let after = hub.inserted(id, session);
    assert forall|x: XPub| #[trigger] after.online.contains(x) <==> hub::held(
        after.sessions,
        x,
    ) by {
        assert(after.sessions.contains_key(id));
        if hub::held(hub.sessions, x) {
            let a = choose|a: ClientId| #[trigger]
                hub.sessions.contains_key(a) && hub.sessions[a].x_pub == x;
            assert(after.sessions.contains_key(a));
        }
        if hub::held(after.sessions, x) {
            let a = choose|a: ClientId| #[trigger]
                after.sessions.contains_key(a) && after.sessions[a].x_pub == x;
            assert(a != id ==> hub.sessions.contains_key(a));
        }
    }
}

/// They still are when a session is taken out.
pub proof fn law_removal_keeps_online_stored(hub: HubView, id: ClientId)
    requires
        online_is_stored(hub),
    ensures
        online_is_stored(hub.removed(id)),
{
    let after = hub.removed(id);
    assert forall|x: XPub| #[trigger] after.online.contains(x) <==> hub::held(
        after.sessions,
        x,
    ) by {
        if hub::held(hub.sessions, x) {
            let a = choose|a: ClientId| #[trigger]
                hub.sessions.contains_key(a) && hub.sessions[a].x_pub == x;
            assert(a != id ==> after.sessions.contains_key(a));
        }
        if hub::held(after.sessions, x) {
            let a = choose|a: ClientId| #[trigger]
                after.sessions.contains_key(a) && after.sessions[a].x_pub == x;
            assert(hub.sessions.contains_key(a));
        }
    }
}

/// They still are after every message of an established session.
pub proof fn law_message_keeps_online_stored(
    keys: ServerKeys,
    hub: HubView,
    id: ClientId,
    k_c2s: Seq<u8>,
    msg: ClientMessage,
    now: u128,
)
    requires
        online_is_stored(hub),
    ensures
        online_is_stored(connection::message_hub(keys, hub, id, k_c2s, msg, now)),
{
    let after = connection::message_hub(keys, hub, id, k_c2s, msg, now);
    assert forall|x: XPub| #[trigger] after.online.contains(x) <==> hub::held(
        after.sessions,
        x,
    ) by {
        if hub::held(hub.sessions, x) {
            let a = choose|a: ClientId| #[trigger]
                hub.sessions.contains_key(a) && hub.sessions[a].x_pub == x;
            assert(after.sessions.contains_key(a));
        }
        if hub::held(after.sessions, x) {
            let a = choose|a: ClientId| #[trigger]
                after.sessions.contains_key(a) && after.sessions[a].x_pub == x;
            assert(hub.sessions.contains_key(a));
        }
    }
}

/// They still are when the heartbeat drops and pings clients, whichever they
/// are.
pub proof fn law_heartbeat_keeps_online_stored(
    hub: HubView,
    to_drop: Seq<ClientId>,
    to_ping: Seq<ClientId>,
    now: u128,
)
    requires
        online_is_stored(hub),
    ensures
        online_is_stored(heartbeat::pinged(heartbeat::without(hub, to_drop), to_ping, now)),
{
    let left = heartbeat::without(hub, to_drop);
    let after = heartbeat::pinged(left, to_ping, now);
    assert forall|x: XPub| #[trigger] after.online.contains(x) <==> hub::held(
        after.sessions,
        x,
    ) by {
        if hub::held(left.sessions, x) {
            let a = choose|a: ClientId| #[trigger]
                left.sessions.contains_key(a) && left.sessions[a].x_pub == x;
            assert(hub.sessions.contains_key(a));
            assert(after.sessions.contains_key(a));
        }
        if hub::held(after.sessions, x) {
            let a = choose|a: ClientId| #[trigger]
                after.sessions.contains_key(a) && after.sessions[a].x_pub == x;
            assert(left.sessions.contains_key(a));
        }
    }
}

/// In a coherent registry a public point is online exactly where some session
/// holds it.
pub proof fn law_online_means_connected(hub: HubView, x: XPub)
    requires
        coherent(hub),
    ensures
        hub.online.contains(x) <==> hub::held(hub.sessions, x),
{
}

/// Two clients whose public points begin with the same eight bytes are never
/// connected at the same time.
pub proof fn law_one_client_per_id(hub: HubView, x: XPub, y: XPub)
    requires
        coherent(hub),
        hub.online.contains(x),
        hub.online.contains(y),
        x@.take(8) == y@.take(8),
    ensures
        x == y,
{
    let first = x@.take(8);
    let other = y@.take(8);
    assert(x@.len() == 32 && y@.len() == 32);
    assert(forall|i: int| 0 <= i < 8 ==> #[trigger] first[i] == x@[i]);
    assert(forall|i: int| 0 <= i < 8 ==> #[trigger] other[i] == y@[i]);
    assert(x@[0] == y@[0] && x@[1] == y@[1] && x@[2] == y@[2] && x@[3] == y@[3]) by {
        assert(first[0] == other[0] && first[1] == other[1]);
        assert(first[2] == other[2] && first[3] == other[3]);
    }
    assert(x@[4] == y@[4] && x@[5] == y@[5] && x@[6] == y@[6] && x@[7] == y@[7]) by {
        assert(first[4] == other[4] && first[5] == other[5]);
        assert(first[6] == other[6] && first[7] == other[7]);
    }
}

/// The two ends of every session have the same routing keys.
pub open spec fn all_keys_agree(hub: HubView, x25519_secret: Seq<u8>) -> bool {
    forall|id: ClientId| #[trigger]
        hub.sessions.contains_key(id) ==> crypto25519::routing_keys_agree(
            x25519_secret,
            hub.sessions[id].x_pub@,
            hub.sessions[id].k_c2s@,
            hub.sessions[id].k_s2c@,
        )
}

/// In a new registry all keys agree, as there are none.
pub proof fn law_new_hub_keys_agree(started_at: Option<i128>, x25519_secret: Seq<u8>)
    ensures
        all_keys_agree(HubView::empty(started_at), x25519_secret),
{
}

/// All keys still agree when a client that has proved who it is has been
/// registered.
pub proof fn law_registration_keeps_keys_agreed(
    hub: HubView,
    x25519_secret: Seq<u8>,
    hello: ClientHello,
    ws: u64,
    ip: String,
    now: u128,
)
    requires
        all_keys_agree(hub, x25519_secret),
        hello.shares_keys(x25519_secret),
    ensures
        all_keys_agree(
            hub.inserted(hello.client_id, hello.session(ws, ip, now)),
            x25519_secret,
        ),
{
}

/// No message of an established session makes keys disagree.
pub proof fn law_message_keeps_keys_agreed(
    keys: ServerKeys,
    hub: HubView,
    id: ClientId,
    k_c2s: Seq<u8>,
    msg: ClientMessage,
    now: u128,
)
    requires
        all_keys_agree(hub, keys.x25519_secret@),
    ensures
        all_keys_agree(
            connection::message_hub(keys, hub, id, k_c2s, msg, now),
            keys.x25519_secret@,
        ),
{
}

/// Neither a departure nor a heartbeat makes keys disagree.
pub proof fn law_losses_keep_keys_agreed(
    hub: HubView,
    x25519_secret: Seq<u8>,
    id: ClientId,
    to_drop: Seq<ClientId>,
    to_ping: Seq<ClientId>,
    now: u128,
)
    requires
        all_keys_agree(hub, x25519_secret),
    ensures
        all_keys_agree(presence::departed(hub, id), x25519_secret),
        all_keys_agree(
            heartbeat::pinged(heartbeat::without(hub, to_drop), to_ping, now),
            x25519_secret,
        ),
{
}

} // verus!
