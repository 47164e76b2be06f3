//! Dropping clients that have fallen silent, and noting who was pinged.

use vstd::prelude::*;

use crate::bytes;
use crate::hub;
use crate::hub::{ClientSession, HubState, HubView};
use crate::index::{ClientId, XPub};
use crate::messages::Outgoing;
use crate::presence;
use crate::presence::broadcast_presence;
use crate::server_keys::ServerKeys;

verus! {

/// A client that says nothing for longer than this is dropped: a minute, in
/// nanoseconds.
pub const HEARTBEAT_TIMEOUT: u128 = 60_000_000_000;

/// A client that was not heard or pinged for longer than this is pinged: twenty
/// seconds, in nanoseconds.
pub const PING_INTERVAL: u128 = 20_000_000_000;

/// A client that was dropped, and who is to hear of it.
pub struct Dropped {
    pub id: ClientId,
    pub session: ClientSession,
    pub notices: Vec<Outgoing>,
}

/// The registry without the listed clients: their sessions and what they watch
/// are gone, and so is their presence.
pub open spec fn without(hub: HubView, ids: Seq<ClientId>) -> HubView {
    HubView {
        sessions: hub.sessions.remove_keys(ids.to_set()),
        online: hub.online.filter(|x: XPub| !loses_presence(hub, ids, x)),
        watches: hub.watches.filter(|w: (ClientId, XPub)| !ids.contains(w.0)),
        ..hub
    }
}

/// Listed clients are connected with this public point, and nobody else is.
pub open spec fn loses_presence(hub: HubView, ids: Seq<ClientId>, x: XPub) -> bool {
    &&& hub::held(hub.sessions, x)
    &&& !hub::held(hub.sessions.remove_keys(ids.to_set()), x)
}

/// The registry after the listed clients were pinged at `now`.
pub open spec fn pinged(hub: HubView, ids: Seq<ClientId>, now: u128) -> HubView {
    HubView {
        sessions: hub.sessions.map_entries(
            |id: ClientId, s: ClientSession|
                if ids.contains(id) {
                    ClientSession { last_ping: now, ..s }
                } else {
                    s
                },
        ),
        ..hub
    }
}

/// Those of the listed clients that are connected, in the order of the list.
pub open spec fn connected(hub: HubView, ids: Seq<ClientId>) -> Seq<ClientId> {
    ids.filter(|id: ClientId| hub.sessions.contains_key(id))
}

/// `d` records that the client `id` of the registry `before` is gone, and
/// tells those who watch it and are left in the registry `after`.
pub open spec fn is_dropped(
    keys: ServerKeys,
    before: HubView,
    after: HubView,
    id: ClientId,
    d: Dropped,
) -> bool {
    &&& d.id == id
    &&& d.session == before.sessions[id]
    &&& presence::tells_watchers(keys, after, d.session.x_pub, false, d.notices@)
}

/// Dropping one more client is its departure.
proof fn lemma_without_step(hub: HubView, ids: Seq<ClientId>, i: int)
    requires
        0 <= i < ids.len(),
        ids.no_duplicates(),
    ensures
        without(hub, ids.take(i + 1)) == presence::departed(without(hub, ids.take(i)), ids[i]),
        without(hub, ids.take(i)).sessions.contains_key(ids[i]) == hub.sessions.contains_key(
            ids[i],
        ),
        connected(hub, ids.take(i + 1)) == if hub.sessions.contains_key(ids[i]) {
            connected(hub, ids.take(i)).push(ids[i])
        } else {
            connected(hub, ids.take(i))
        },
{
    let id = ids[i];
    let some = ids.take(i);
    let more = ids.take(i + 1);
    bytes::lemma_take_step(ids, i);
    assert(!some.contains(id));
    let kept = without(hub, some).sessions;
    let left = without(hub, more).sessions;
    assert(left =~= kept.remove(id));
    assert(left =~= presence::departed(without(hub, some), id).sessions);
    assert forall|x: XPub| #[trigger]
        loses_presence(hub, more, x) == (loses_presence(hub, some, x) || (
        hub.sessions.contains_key(id) && hub.sessions[id].x_pub == x && !hub::held(left, x))) by {
        if hub::held(left, x) {
            let a = choose|a: ClientId| #[trigger] left.contains_key(a) && left[a].x_pub == x;
            assert(kept.contains_key(a));
        }
        if hub::held(kept, x) {
            let a = choose|a: ClientId| #[trigger] kept.contains_key(a) && kept[a].x_pub == x;
            assert(hub.sessions.contains_key(a));
            assert(a != id ==> left.contains_key(a));
        }
    }
    assert(without(hub, more).online =~= presence::departed(without(hub, some), id).online);
    assert(without(hub, more).watches =~= presence::departed(without(hub, some), id).watches);
    reveal(Seq::filter);
    assert(more.drop_last() =~= some);
}

/// Takes the listed clients out of the registry. Returns those that were
/// connected.
fn drop_clients(hub: &mut HubState, ids: &Vec<ClientId>) -> (r: Vec<(ClientId, ClientSession)>)
    requires
        old(hub).wf(),
        ids@.no_duplicates(),
    ensures
        final(hub).wf(),
        final(hub)@ == without(old(hub)@, ids@),
        r@.len() == connected(old(hub)@, ids@).len(),
        forall|i: int|
            0 <= i < r@.len() ==> {
                &&& (#[trigger] r@[i]).0 == connected(old(hub)@, ids@)[i]
                &&& r@[i].1 == old(hub)@.sessions[r@[i].0]
            },
{
    let mut dropped: Vec<(ClientId, ClientSession)> = Vec::new();
    let mut i: usize = 0;
    proof {
        reveal(Seq::filter);
        assert(hub@.sessions =~= without(old(hub)@, ids@.take(0)).sessions);
        assert(hub@.online =~= without(old(hub)@, ids@.take(0)).online);
        assert(hub@.watches =~= without(old(hub)@, ids@.take(0)).watches);
    }
    while i < ids.len()
        invariant
            i <= ids@.len(),
            ids@.no_duplicates(),
            hub.wf(),
            hub@ == without(old(hub)@, ids@.take(i as int)),
            dropped@.len() == connected(old(hub)@, ids@.take(i as int)).len(),
            forall|j: int|
                0 <= j < dropped@.len() ==> {
                    &&& (#[trigger] dropped@[j]).0 == connected(old(hub)@, ids@.take(i as int))[j]
                    &&& dropped@[j].1 == old(hub)@.sessions[dropped@[j].0]
                },
        decreases ids.len() - i,
    {
        let id: ClientId = ids[i];
        proof {
            lemma_without_step(old(hub)@, ids@, i as int);
            bytes::lemma_take_step(ids@, i as int);
        }
        let removed: Option<ClientSession> = hub.remove(&id);
        hub.remove_all_subscriptions(&id);
        if let Some(session) = removed {
            dropped.push((id, session));
        }
        i = i + 1;
    }
    assert(ids@.take(ids@.len() as int) =~= ids@);
    dropped
}

/// Notes that the listed clients were pinged.
fn note_pings(hub: &mut HubState, to_ping: &Vec<(ClientId, u64)>, now: u128)
    requires
        old(hub).wf(),
    ensures
        final(hub).wf(),
        final(hub)@ == pinged(old(hub)@, hub::pinged_ids(to_ping@), now),
{
    let ghost ids = hub::pinged_ids(to_ping@);
    let mut i: usize = 0;
    assert(hub@.sessions =~= pinged(old(hub)@, ids.take(0), now).sessions);
    while i < to_ping.len()
        invariant
            i <= to_ping@.len(),
            ids == hub::pinged_ids(to_ping@),
            hub.wf(),
            hub@ == pinged(old(hub)@, ids.take(i as int), now),
        decreases to_ping.len() - i,
    {
        proof {
            bytes::lemma_take_step(ids, i as int);
        }
        if let Some(s) = hub.get_mut(&to_ping[i].0) {
            s.last_ping = now;
        }
        assert(hub@.sessions =~= pinged(old(hub)@, ids.take(i + 1), now).sessions);
        i = i + 1;
    }
    assert(ids.take(ids.len() as int) =~= ids);
}

/// Applies the lists of `HubState::heartbeat_lists` once the pings are out:
/// drops the silent clients and notes the pings. A client that has left in the
/// meantime is passed over.
pub fn apply_heartbeat(
    keys: &ServerKeys,
    hub: &mut HubState,
    to_drop: &Vec<ClientId>,
    to_ping: &Vec<(ClientId, u64)>,
    now: u128,
) -> (r: Vec<Dropped>)
    requires
        old(hub).wf(),
        to_drop@.no_duplicates(),
    ensures
        final(hub).wf(),
        final(hub)@ == pinged(without(old(hub)@, to_drop@), hub::pinged_ids(to_ping@), now),
        r@.len() == connected(old(hub)@, to_drop@).len(),
        forall|i: int|
            0 <= i < r@.len() ==> is_dropped(
                *keys,
                old(hub)@,
                without(old(hub)@, to_drop@),
                connected(old(hub)@, to_drop@)[i],
                #[trigger] r@[i],
            ),
{
    let sessions: Vec<(ClientId, ClientSession)> = drop_clients(hub, to_drop);
    let mut dropped: Vec<Dropped> = Vec::new();
    for entry in it: sessions
        invariant
            hub.wf(),
            hub@ == without(old(hub)@, to_drop@),
            it.seq().len() == connected(old(hub)@, to_drop@).len(),
            forall|j: int|
                0 <= j < it.seq().len() ==> {
                    &&& (#[trigger] it.seq()[j]).0 == connected(old(hub)@, to_drop@)[j]
                    &&& it.seq()[j].1 == old(hub)@.sessions[it.seq()[j].0]
                },
            dropped@.len() == it.index(),
            forall|j: int|
                0 <= j < dropped@.len() ==> is_dropped(
                    *keys,
                    old(hub)@,
                    hub@,
                    connected(old(hub)@, to_drop@)[j],
                    #[trigger] dropped@[j],
                ),
    {
        let (id, session) = entry;
        let notices: Vec<Outgoing> = broadcast_presence(keys, hub, &session.x_pub, false);
        dropped.push(Dropped { id, session, notices });
    }
    note_pings(hub, to_ping, now);
    dropped
}

// ---------------------------------------------------------------------------
// Laws
// ---------------------------------------------------------------------------

/// What a heartbeat does: those who are dropped are gone with all that they
/// watch; those who are left and were pinged have that noted, and nothing else
/// of them changes; the rest are as they were. A point goes offline where only
/// dropped clients held it.
pub proof fn law_heartbeat_takes_the_listed_only(
    hub: HubView,
    to_drop: Seq<ClientId>,
    to_ping: Seq<ClientId>,
    now: u128,
    id: ClientId,
    x: XPub,
    w: (ClientId, XPub),
)
    ensures
        ({
            let after = pinged(without(hub, to_drop), to_ping, now);
            let s = hub.sessions[id];
            let t = after.sessions[id];
            &&& after.sessions.contains_key(id) <==> hub.sessions.contains_key(id)
                && !to_drop.contains(id)
            &&& after.sessions.contains_key(id) && !to_ping.contains(id) ==> t == s
            &&& after.sessions.contains_key(id) && to_ping.contains(id) ==> {
                &&& t.last_ping == now
                &&& t.last_seen == s.last_seen
                &&& t.ws == s.ws
                &&& t.ip == s.ip
                &&& t.x_pub == s.x_pub
                &&& t.ed_pub == s.ed_pub
                &&& t.k_c2s == s.k_c2s
                &&& t.k_s2c == s.k_s2c
            }
            &&& after.watches.contains(w) <==> hub.watches.contains(w) && !to_drop.contains(w.0)
            &&& after.online.contains(x) <==> hub.online.contains(x) && ((exists|a: ClientId|
                #[trigger]
                hub.sessions.contains_key(a) && hub.sessions[a].x_pub == x && !to_drop.contains(a))
                || !(exists|a: ClientId| #[trigger]
                hub.sessions.contains_key(a) && hub.sessions[a].x_pub == x))
            &&& after.started_at == hub.started_at
        }),
{
    let left = without(hub, to_drop).sessions;
    if exists|a: ClientId| #[trigger]
        hub.sessions.contains_key(a) && hub.sessions[a].x_pub == x && !to_drop.contains(a) {
        let a = choose|a: ClientId| #[trigger]
            hub.sessions.contains_key(a) && hub.sessions[a].x_pub == x && !to_drop.contains(a);
        assert(left.contains_key(a));
    }
    if hub::held(left, x) {
        let a = choose|a: ClientId| #[trigger] left.contains_key(a) && left[a].x_pub == x;
        assert(hub.sessions.contains_key(a));
    }
}

/// Those of a list that are connected, one after the other: who is appended to
/// the list is appended to them where it is connected.
pub proof fn law_connected_follow_the_list(hub: HubView, ids: Seq<ClientId>, id: ClientId)
    ensures
        connected(hub, Seq::empty()) == Seq::<ClientId>::empty(),
        connected(hub, ids.push(id)) == if hub.sessions.contains_key(id) {
            connected(hub, ids).push(id)
        } else {
            connected(hub, ids)
        },
{
    reveal(Seq::filter);
    assert(ids.push(id).drop_last() =~= ids);
}

/// The record of a dropped client holds its session as it was, and a frame for
/// each watcher that is left, which opens there to the news that it has gone.
pub proof fn law_dropped_client_is_announced(
    keys: ServerKeys,
    before: HubView,
    after: HubView,
    id: ClientId,
    d: Dropped,
)
    requires
        is_dropped(keys, before, after, id, d),
    ensures
        d.id == id,
        d.session == before.sessions[id],
        presence::reaches_watchers(
            keys,
            after,
            before.sessions[id].x_pub,
            seq![0u8, 0, 0x43] + before.sessions[id].x_pub@,
            d.notices@,
        ),
{
    presence::law_every_watcher_reads_the_change(
        keys,
        after,
        d.session.x_pub,
        false,
        d.notices@,
    );
}

} // verus!
