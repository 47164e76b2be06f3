//! Telling clients who of those they watch comes and goes.

use vstd::prelude::*;

use crate::frames;
use crate::frames::{build_server_frame, pack_inner, CMD_PEER_OFFLINE, CMD_PEER_ONLINE};
use crate::hub;
use crate::hub::{HubState, HubView};
use crate::index::{ClientId, XPub};
use crate::messages::Outgoing;
use crate::server_keys::ServerKeys;

verus! {

/// The message that the owner of `x_pub` has come or gone.
pub open spec fn presence_inner(x_pub: XPub, online: bool) -> Seq<u8> {
    frames::inner_bytes(
        0,
        if online {
            CMD_PEER_ONLINE
        } else {
            CMD_PEER_OFFLINE
        },
        x_pub@,
    )
}

/// `out` carries `inner` to the owner of a public point, on its connection.
pub open spec fn is_notice(
    keys: ServerKeys,
    target: (XPub, [u8; 32], u64),
    inner: Seq<u8>,
    out: Outgoing,
) -> bool {
    &&& out.to == target.2
    &&& frames::is_server_frame(keys, target.0@, target.1@, inner, out.frame@)
}

/// `out` tells each of `ids`, in this order, that the owner of `x_pub` has
/// come or gone.
pub open spec fn tells(
    keys: ServerKeys,
    hub: HubView,
    ids: Seq<ClientId>,
    x_pub: XPub,
    online: bool,
    out: Seq<Outgoing>,
) -> bool {
    &&& out.len() == ids.len()
    &&& forall|i: int|
        0 <= i < out.len() ==> is_notice(
            keys,
            hub.targets(ids)[i],
            presence_inner(x_pub, online),
            #[trigger] out[i],
        )
}

/// `out` tells every connected watcher of `x_pub`, and nobody else, once that
/// its owner has come or gone.
pub open spec fn tells_watchers(
    keys: ServerKeys,
    hub: HubView,
    x_pub: XPub,
    online: bool,
    out: Seq<Outgoing>,
) -> bool {
    exists|ids: Seq<ClientId>|
        hub.lists_watchers(x_pub, ids) && #[trigger] tells(keys, hub, ids, x_pub, online, out)
}

/// The bytes that a watcher reads: no message number, `0x42` for who has come
/// and `0x43` for who has gone, and the public point.
pub open spec fn presence_bytes(x_pub: XPub, online: bool) -> Seq<u8> {
    (if online {
        seq![0u8, 0, 0x42]
    } else {
        seq![0u8, 0, 0x43]
    }) + x_pub@
}

/// `out` holds one frame for each of `ids`, for its own connection, and each
/// opens there to `message`.
pub open spec fn all_read(
    keys: ServerKeys,
    hub: HubView,
    ids: Seq<ClientId>,
    message: Seq<u8>,
    out: Seq<Outgoing>,
) -> bool {
    &&& out.len() == ids.len()
    &&& forall|i: int|
        0 <= i < out.len() ==> {
            let s = hub.sessions[ids[i]];
            &&& (#[trigger] out[i]).to == s.ws
            &&& frames::opens_at(keys, s.x_pub@, s.k_s2c@, out[i].frame@, message)
        }
}

/// Every connected watcher of `x_pub`, and nobody else, gets one frame, which
/// opens there to `message`.
pub open spec fn reaches_watchers(
    keys: ServerKeys,
    hub: HubView,
    x_pub: XPub,
    message: Seq<u8>,
    out: Seq<Outgoing>,
) -> bool {
    exists|ids: Seq<ClientId>|
        {
            &&& #[trigger] all_read(keys, hub, ids, message, out)
            &&& ids.no_duplicates()
            &&& forall|id: ClientId| #[trigger]
                ids.contains(id) <==> hub.watches.contains((id, x_pub))
                    && hub.sessions.contains_key(id)
        }
}

/// Announces a change of one client's presence to all who watch it. The order
/// is left open.
pub fn broadcast_presence(keys: &ServerKeys, hub: &HubState, x_pub: &XPub, online: bool) -> (r: Vec<
    Outgoing,
>)
    requires
        hub.wf(),
    ensures
        tells_watchers(*keys, hub@, *x_pub, online, r@),
        reaches_watchers(*keys, hub@, *x_pub, presence_bytes(*x_pub, online), r@),
{
    let targets: Vec<(XPub, [u8; 32], u64)> = hub.subscribers_targets(x_pub);
    let cmd: u8 = if online {
        CMD_PEER_ONLINE
    } else {
        CMD_PEER_OFFLINE
    };
    let inner: Vec<u8> = pack_inner(0, cmd, x_pub);
    let mut out: Vec<Outgoing> = Vec::new();
    let mut i: usize = 0;
    while i < targets.len()
        invariant
            i <= targets@.len(),
            out@.len() == i,
            inner@ == presence_inner(*x_pub, online),
            inner@.len() == 35,
            forall|j: int|
                0 <= j < i ==> is_notice(*keys, targets@[j], inner@, #[trigger] out@[j]),
        decreases targets.len() - i,
    {
        let (sub_x, sub_k_s2c, to) = targets[i];
        // A notice is never too long to be sealed.
        if let Ok(frame) = build_server_frame(keys, &sub_x, &sub_k_s2c, &inner) {
            out.push(Outgoing { to, frame });
        }
        i = i + 1;
    }
    proof {
        let ids = choose|ids: Seq<ClientId>|
            hub@.lists_watchers(*x_pub, ids) && targets@ == #[trigger] hub@.targets(ids);
        assert(tells(*keys, hub@, ids, *x_pub, online, out@));
        law_every_watcher_reads_the_change(*keys, hub@, *x_pub, online, out@);
    }
    out
}

/// The registry after a client has gone: neither its session nor anything that
/// it watches is left.
pub open spec fn departed(hub: HubView, id: ClientId) -> HubView {
    hub.removed(id).unsubscribed(id)
}

/// Forgets a client whose socket has closed, and tells those who watch it.
pub fn disconnect(keys: &ServerKeys, hub: &mut HubState, id: &ClientId, x_pub: &XPub) -> (r: Vec<
    Outgoing,
>)
    requires
        old(hub).wf(),
    ensures
        final(hub).wf(),
        final(hub)@ == departed(old(hub)@, *id),
        tells_watchers(*keys, final(hub)@, *x_pub, false, r@),
        reaches_watchers(*keys, final(hub)@, *x_pub, presence_bytes(*x_pub, false), r@),
{
    hub.remove(id);
    hub.remove_all_subscriptions(id);
    broadcast_presence(keys, hub, x_pub, false)
}

// ---------------------------------------------------------------------------
// Laws
// ---------------------------------------------------------------------------

/// However many watch a client, each of them reads that it has come, or that
/// it has gone: the two commands differ, and the point is the client's.
pub proof fn law_every_watcher_reads_the_change(
    keys: ServerKeys,
    hub: HubView,
    x_pub: XPub,
    online: bool,
    out: Seq<Outgoing>,
)
    requires
        tells_watchers(keys, hub, x_pub, online, out),
    ensures
        reaches_watchers(
            keys,
            hub,
            x_pub,
            (if online {
                seq![0u8, 0, 0x42]
            } else {
                seq![0u8, 0, 0x43]
            }) + x_pub@,
            out,
        ),
{
    let ids = choose|ids: Seq<ClientId>|
        hub.lists_watchers(x_pub, ids) && #[trigger] tells(keys, hub, ids, x_pub, online, out);
    let message = (if online {
        seq![0u8, 0, 0x42]
    } else {
        seq![0u8, 0, 0x43]
    }) + x_pub@;
    assert(presence_inner(x_pub, online) =~= message);
    assert(message.len() == 35);
    assert forall|i: int| 0 <= i < out.len() implies {
        let s = hub.sessions[ids[i]];
        &&& (#[trigger] out[i]).to == s.ws
        &&& frames::opens_at(keys, s.x_pub@, s.k_s2c@, out[i].frame@, message)
    } by {
        let s = hub.sessions[ids[i]];
        assert(hub.targets(ids)[i] == (s.x_pub, s.k_s2c, s.ws));
        frames::law_server_frame_opens(keys, s.x_pub@, s.k_s2c@, message, out[i].frame@);
    }
    assert(all_read(keys, hub, ids, message, out));
}

/// Whoever watches a client and is connected gets a frame on its own
/// connection that says so, whether it is the only watcher or one of many.
pub proof fn law_no_watcher_is_left_out(
    keys: ServerKeys,
    hub: HubView,
    x_pub: XPub,
    online: bool,
    out: Seq<Outgoing>,
    watcher: ClientId,
)
    requires
        tells_watchers(keys, hub, x_pub, online, out),
        hub.watches.contains((watcher, x_pub)),
        hub.sessions.contains_key(watcher),
    ensures
        exists|i: int|
            {
                &&& 0 <= i < out.len()
                &&& (#[trigger] out[i]).to == hub.sessions[watcher].ws
                &&& frames::opens_at(
                    keys,
                    hub.sessions[watcher].x_pub@,
                    hub.sessions[watcher].k_s2c@,
                    out[i].frame@,
                    (if online {
                        seq![0u8, 0, 0x42]
                    } else {
                        seq![0u8, 0, 0x43]
                    }) + x_pub@,
                )
            },
{
    law_every_watcher_reads_the_change(keys, hub, x_pub, online, out);
    let message = (if online {
        seq![0u8, 0, 0x42]
    } else {
        seq![0u8, 0, 0x43]
    }) + x_pub@;
    let ids = choose|ids: Seq<ClientId>|
        {
            &&& #[trigger] all_read(keys, hub, ids, message, out)
            &&& ids.no_duplicates()
            &&& forall|id: ClientId| #[trigger]
                ids.contains(id) <==> hub.watches.contains((id, x_pub))
                    && hub.sessions.contains_key(id)
        };
    assert(ids.contains(watcher));
    let i = choose|i: int| 0 <= i < ids.len() && ids[i] == watcher;
    assert(out[i].to == hub.sessions[watcher].ws);
}

/// What a departure does: the session and what the client watches are gone, its
/// point goes offline where no other session holds it, and nothing else
/// changes.
pub proof fn law_departure_takes_one_client(
    hub: HubView,
    id: ClientId,
    other: ClientId,
    x: XPub,
    w: (ClientId, XPub),
)
    ensures
        ({
            let after = departed(hub, id);
            &&& !after.sessions.contains_key(id)
            &&& other != id ==> after.sessions.contains_key(other) == hub.sessions.contains_key(
                other,
            )
            &&& other != id && hub.sessions.contains_key(other) ==> after.sessions[other]
                == hub.sessions[other]
            &&& after.online.contains(x) <==> hub.online.contains(x) && !(
            hub.sessions.contains_key(id) && hub.sessions[id].x_pub == x && !exists|a: ClientId|
                #[trigger]
                hub.sessions.contains_key(a) && a != id && hub.sessions[a].x_pub == x)
            &&& after.watches.contains(w) <==> hub.watches.contains(w) && w.0 != id
            &&& after.started_at == hub.started_at
        }),
{
    hub::law_remove_changes_one_session(hub, id, other, x);
}

} // verus!
