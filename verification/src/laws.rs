//! What the relay promises its clients, over several functions at once.

use vstd::prelude::*;

use crate::coherence;
use crate::connection;
use crate::connection::Step;
use crate::crypto25519;
use crate::crypto25519::CryptoError;
use crate::frames;
use crate::frames::{
    CMD_INTRODUCE, CMD_INTRO_FROM, CMD_PUSH_REGISTER, CMD_SUBSCRIBE, CMD_UNSUBSCRIBE, CMD_WAKE,
    ROUTING_MIN_LEN,
};
use crate::heartbeat;
use crate::hub;
use crate::hub::{ClientSession, HubView};
use crate::index::{ClientId, XPub};
use crate::messages::ClientMessage;
use crate::presence;
use crate::primitives;
use crate::routing;
use crate::routing::{Action, Plan, RouteError};
use crate::server_keys::ServerKeys;

verus! {

// ---------------------------------------------------------------------------
// Relaying
// ---------------------------------------------------------------------------

/// The frame that a client sends: a packet behind a header that names the
/// recipient under the client-to-server key.
pub open spec fn client_frame(k_c2s: Seq<u8>, to_id: ClientId, packet: Seq<u8>) -> Seq<u8> {
    crypto25519::xor_header(k_c2s, packet.take(24), to_id@) + packet
}

/// The identifier that stands for the server.
pub open spec fn server_id() -> ClientId {
    frames::to_id(frames::zero_id())
}

/// The server reads in a header whom the client named.
pub proof fn law_header_names_recipient(k_c2s: Seq<u8>, to_id: ClientId, packet: Seq<u8>)
    requires
        packet.len() >= 24,
    ensures
        routing::frame_recipient(client_frame(k_c2s, to_id, packet), k_c2s) == to_id,
        client_frame(k_c2s, to_id, packet).subrange(8, 32) == packet.take(24),
        client_frame(k_c2s, to_id, packet).skip(8) == packet,
{
    let frame = client_frame(k_c2s, to_id, packet);
    assert(frame.subrange(8, 32) =~= packet.take(24));
    assert(frame.take(8) =~= crypto25519::xor_header(k_c2s, packet.take(24), to_id@));
    assert(frame.skip(8) =~= packet);
    crypto25519::law_xor_header_symmetric(k_c2s, packet.take(24), to_id@);
    frames::lemma_to_id(to_id, to_id@);
}

/// A delivered frame names its sender to the recipient, and is otherwise the
/// frame that was sent: same nonce, same ciphertext, same signature.
pub proof fn law_delivery_names_sender(frame: Seq<u8>, sender_id: ClientId, k_s2c: Seq<u8>)
    requires
        frame.len() >= ROUTING_MIN_LEN,
    ensures
        frames::frame_sender(routing::delivered(frame, sender_id, k_s2c), k_s2c) == sender_id@,
        routing::delivered(frame, sender_id, k_s2c).skip(8) == frame.skip(8),
{
    let out = routing::delivered(frame, sender_id, k_s2c);
    assert(out.take(8) =~= crypto25519::xor_header(k_s2c, frame.subrange(8, 32), sender_id@));
    assert(out.skip(8) =~= frame.skip(8));
    assert(out.subrange(8, 32) =~= frame.subrange(8, 32));
    crypto25519::law_xor_header_symmetric(k_s2c, frame.subrange(8, 32), sender_id@);
}

/// What a client seals for a connected peer arrives: the frame goes to the
/// peer's connection, names the sender, and opens to the message. The registry
/// does not change.
pub proof fn law_message_arrives(
    keys: ServerKeys,
    hub: HubView,
    sender_id: ClientId,
    k_c2s: Seq<u8>,
    to_id: ClientId,
    packet: Seq<u8>,
    sender_secret: Seq<u8>,
    sender_seed: Seq<u8>,
    message: Seq<u8>,
)
    requires
        to_id@ != frames::zero_id(),
        hub.sessions.contains_key(to_id),
        client_frame(k_c2s, to_id, packet).len() >= ROUTING_MIN_LEN,
        crypto25519::packet_reads(
            packet,
            sender_secret,
            sender_seed,
            hub.sessions[to_id].x_pub@,
            message,
        ),
    ensures
        routing::route_plan(
            keys,
            hub,
            sender_id,
            k_c2s,
            client_frame(k_c2s, to_id, packet),
        ) matches Plan::Forward { to, frame, target_id, nonce_24 } && {
            &&& to == hub.sessions[to_id].ws
            &&& target_id == to_id
            &&& nonce_24 == packet.take(24)
            &&& frames::frame_sender(frame, hub.sessions[to_id].k_s2c@) == sender_id@
            &&& crypto25519::packet_reads(
                frame.skip(8),
                sender_secret,
                sender_seed,
                hub.sessions[to_id].x_pub@,
                message,
            )
        },
        routing::route_hub(keys, hub, sender_id, k_c2s, client_frame(k_c2s, to_id, packet)) == hub,
{
    law_header_names_recipient(k_c2s, to_id, packet);
    law_delivery_names_sender(
        client_frame(k_c2s, to_id, packet),
        sender_id,
        hub.sessions[to_id].k_s2c@,
    );
}

/// From one end to the other: what a connected client seals for a connected
/// peer, and addresses with its own routing key, the peer gets on its
/// connection, recognises with its own routing key as the sender's, and opens
/// with its own secret and the sender's public keys.
pub proof fn law_end_to_end(
    keys: ServerKeys,
    hub: HubView,
    sender_id: ClientId,
    sender_secret: Seq<u8>,
    sender_seed: Seq<u8>,
    to_id: ClientId,
    peer_secret: Seq<u8>,
    packet: Seq<u8>,
    message: Seq<u8>,
)
    requires
        coherence::all_keys_agree(hub, keys.x25519_secret@),
        sender_secret.len() == 32,
        hub.sessions.contains_key(sender_id),
        hub.sessions[sender_id].x_pub@ == primitives::x25519_public(sender_secret),
        peer_secret.len() == 32,
        hub.sessions.contains_key(to_id),
        hub.sessions[to_id].x_pub@ == primitives::x25519_public(peer_secret),
        to_id@ != frames::zero_id(),
        packet.len() == 104 + message.len(),
        crypto25519::packet_reads(
            packet,
            sender_secret,
            sender_seed,
            primitives::x25519_public(peer_secret),
            message,
        ),
    ensures
        ({
            let server = primitives::x25519_public(keys.x25519_secret@);
            let sender_key = crypto25519::route_key_c2s(primitives::x25519(sender_secret, server));
            let peer_key = crypto25519::route_key_s2c(primitives::x25519(peer_secret, server));
            &&& routing::route_plan(
                keys,
                hub,
                sender_id,
                hub.sessions[sender_id].k_c2s@,
                client_frame(sender_key, to_id, packet),
            ) matches Plan::Forward { to, frame, .. }
            &&& to == hub.sessions[to_id].ws
            &&& frames::frame_sender(frame, peer_key) == sender_id@
            &&& crypto25519::open_packet(
                frame.skip(8),
                primitives::x25519(peer_secret, primitives::x25519_public(sender_secret)),
                primitives::ed25519_public(sender_seed),
            ) == Ok::<Seq<u8>, CryptoError>(message)
        }),
{
    law_message_arrives(
        keys,
        hub,
        sender_id,
        hub.sessions[sender_id].k_c2s@,
        to_id,
        packet,
        sender_secret,
        sender_seed,
        message,
    );
}

/// Whoever writes to a peer that is not connected is told so, by the peer's
/// identifier and the nonce of the frame. The registry does not change.
pub proof fn law_absent_recipient_is_reported(
    keys: ServerKeys,
    hub: HubView,
    sender_id: ClientId,
    k_c2s: Seq<u8>,
    to_id: ClientId,
    packet: Seq<u8>,
)
    requires
        to_id@ != frames::zero_id(),
        !hub.sessions.contains_key(to_id),
        client_frame(k_c2s, to_id, packet).len() >= ROUTING_MIN_LEN,
    ensures
        routing::route_plan(keys, hub, sender_id, k_c2s, client_frame(k_c2s, to_id, packet))
            == routing::offline_plan(hub, sender_id, to_id, packet.take(24)),
        routing::route_hub(keys, hub, sender_id, k_c2s, client_frame(k_c2s, to_id, packet)) == hub,
{
    law_header_names_recipient(k_c2s, to_id, packet);
}

/// Relaying looks at the header and the nonce alone: frames to a peer that
/// have these in common go the same way, with the same header, and each with
/// its own bytes behind it, whether or not they are validly encrypted or
/// signed. The registry does not change.
pub proof fn law_relaying_ignores_the_body(
    keys: ServerKeys,
    hub: HubView,
    sender_id: ClientId,
    k_c2s: Seq<u8>,
    frame: Seq<u8>,
    other: Seq<u8>,
)
    requires
        frame.len() >= ROUTING_MIN_LEN,
        other.len() >= ROUTING_MIN_LEN,
        frame.take(32) == other.take(32),
        routing::frame_recipient(frame, k_c2s)@ != frames::zero_id(),
    ensures
        ({
            let plan = routing::route_plan(keys, hub, sender_id, k_c2s, frame);
            let other_plan = routing::route_plan(keys, hub, sender_id, k_c2s, other);
            match plan {
                Plan::Forward { to, frame: out, target_id, nonce_24 } => {
                    &&& other_plan matches Plan::Forward {
                        to: other_to,
                        frame: other_out,
                        target_id: other_target_id,
                        nonce_24: other_nonce_24,
                    }
                    &&& other_to == to
                    &&& other_target_id == target_id
                    &&& other_nonce_24 == nonce_24
                    &&& other_out.take(8) == out.take(8)
                    &&& out.skip(8) == frame.skip(8)
                    &&& other_out.skip(8) == other.skip(8)
                },
                _ => other_plan == plan,
            }
        }),
        routing::route_hub(keys, hub, sender_id, k_c2s, frame) == hub,
        routing::route_hub(keys, hub, sender_id, k_c2s, other) == hub,
{
    assert(frame.take(8) =~= frame.take(32).take(8));
    assert(other.take(8) =~= other.take(32).take(8));
    assert(frame.subrange(8, 32) =~= frame.take(32).skip(8));
    assert(other.subrange(8, 32) =~= other.take(32).skip(8));
    let to_id = routing::frame_recipient(frame, k_c2s);
    let k_s2c = hub.sessions[to_id].k_s2c@;
    let header = crypto25519::xor_header(k_s2c, frame.subrange(8, 32), sender_id@);
    assert(routing::delivered(frame, sender_id, k_s2c).take(8) =~= header);
    assert(routing::delivered(other, sender_id, k_s2c).take(8) =~= header);
    assert(routing::delivered(frame, sender_id, k_s2c).skip(8) =~= frame.skip(8));
    assert(routing::delivered(other, sender_id, k_s2c).skip(8) =~= other.skip(8));
}

// ---------------------------------------------------------------------------
// Packets
// ---------------------------------------------------------------------------

/// Opening a packet that is long enough is taking it apart, verifying the
/// signature over the nonce and the ciphertext, and decrypting the ciphertext.
pub proof fn law_opening_is_verifying_then_decrypting(
    packet: Seq<u8>,
    nonce: Seq<u8>,
    ciphertext: Seq<u8>,
    signature: Seq<u8>,
    shared: Seq<u8>,
    public: Seq<u8>,
)
    requires
        packet.len() > 104,
        packet == nonce + ciphertext + signature,
        nonce.len() == 24,
        signature.len() == 64,
    ensures
        crypto25519::open_packet(packet, shared, public) == if primitives::ed25519_verifies(
            public,
            nonce + ciphertext,
            signature,
        ) {
            match primitives::aead_opened(shared, nonce, ciphertext) {
                Some(plaintext) => Ok(plaintext),
                None => Err(CryptoError::BadCiphertext),
            }
        } else {
            Err(CryptoError::BadSignature)
        },
{
    let signed = packet.take(packet.len() - 64);
    assert(signed =~= nonce + ciphertext);
    assert(packet.skip(packet.len() - 64) =~= signature);
    assert(signed.take(24) =~= nonce);
    assert(signed.skip(24) =~= ciphertext);
}

// ---------------------------------------------------------------------------
// Commands to the server
// ---------------------------------------------------------------------------

/// What is written in an inner message is read in it.
pub proof fn law_inner_reads_back(message_id: u16, cmd: u8, body: Seq<u8>)
    ensures
        frames::inner_bytes(message_id, cmd, body).len() == 3 + body.len(),
        frames::inner_bytes(message_id, cmd, body)[0] + 0x100 * frames::inner_bytes(
            message_id,
            cmd,
            body,
        )[1] == message_id,
        frames::inner_bytes(message_id, cmd, body)[2] == cmd,
        frames::inner_bytes(message_id, cmd, body).skip(3) == body,
{
    assert(frames::inner_bytes(message_id, cmd, body).skip(3) =~= body);
}

/// A command that a connected client seals for the server is done: what
/// follows is what the command and its body say, whatever the message number.
pub proof fn law_command_is_done(
    keys: ServerKeys,
    hub: HubView,
    sender_id: ClientId,
    k_c2s: Seq<u8>,
    packet: Seq<u8>,
    sender_secret: Seq<u8>,
    sender_seed: Seq<u8>,
    message_id: u16,
    cmd: u8,
    body: Seq<u8>,
)
    requires
        hub.sessions.contains_key(sender_id),
        hub.sessions[sender_id].x_pub@ == primitives::x25519_public(sender_secret),
        hub.sessions[sender_id].ed_pub@ == primitives::ed25519_public(sender_seed),
        packet.len() == 104 + frames::inner_bytes(message_id, cmd, body).len(),
        crypto25519::packet_reads(
            packet,
            sender_secret,
            sender_seed,
            primitives::x25519_public(keys.x25519_secret@),
            frames::inner_bytes(message_id, cmd, body),
        ),
    ensures
        routing::route_plan(keys, hub, sender_id, k_c2s, client_frame(k_c2s, server_id(), packet))
            == routing::command_plan(
            keys,
            hub,
            sender_id,
            hub.sessions[sender_id].x_pub,
            hub.sessions[sender_id].k_s2c,
            cmd,
            body,
        ),
        routing::route_hub(keys, hub, sender_id, k_c2s, client_frame(k_c2s, server_id(), packet))
            == routing::command_hub(hub, sender_id, cmd, body),
{
    assert(server_id()@ =~= frames::zero_id());
    law_header_names_recipient(k_c2s, server_id(), packet);
    law_inner_reads_back(message_id, cmd, body);
    assert(keys.x25519_secret@.len() == 32);
    assert(primitives::x25519_public(keys.x25519_secret@) == primitives::x25519_public(
        keys.x25519_secret@,
    ));
}

/// The message number plays no part: packets to the server that open to
/// messages alike in all but their first two bytes lead to the same, whoever
/// sealed them.
pub proof fn law_message_number_plays_no_part(
    keys: ServerKeys,
    hub: HubView,
    sender_id: ClientId,
    packet: Seq<u8>,
    other: Seq<u8>,
    inner: Seq<u8>,
    other_inner: Seq<u8>,
)
    requires
        routing::server_reads(keys, hub.sessions[sender_id], packet) == Ok::<Seq<u8>, CryptoError>(
            inner,
        ),
        routing::server_reads(keys, hub.sessions[sender_id], other) == Ok::<Seq<u8>, CryptoError>(
            other_inner,
        ),
        inner.len() == other_inner.len(),
        forall|i: int| 2 <= i < inner.len() ==> #[trigger] inner[i] == other_inner[i],
    ensures
        routing::server_bound_plan(keys, hub, sender_id, packet) == routing::server_bound_plan(
            keys,
            hub,
            sender_id,
            other,
        ),
        routing::server_bound_hub(keys, hub, sender_id, packet) == routing::server_bound_hub(
            keys,
            hub,
            sender_id,
            other,
        ),
{
    if inner.len() >= 3 {
        assert(inner.skip(3) =~= other_inner.skip(3));
    }
}

/// A command that the server does not know does nothing and is not answered.
pub proof fn law_unknown_command_is_ignored(
    keys: ServerKeys,
    hub: HubView,
    sender_id: ClientId,
    packet: Seq<u8>,
    inner: Seq<u8>,
)
    requires
        routing::server_reads(keys, hub.sessions[sender_id], packet) == Ok::<Seq<u8>, CryptoError>(
            inner,
        ),
        inner.len() >= 3,
        inner[2] != CMD_SUBSCRIBE,
        inner[2] != CMD_UNSUBSCRIBE,
        inner[2] != CMD_INTRODUCE,
        inner[2] != CMD_WAKE,
        inner[2] != CMD_PUSH_REGISTER,
    ensures
        routing::server_bound_plan(keys, hub, sender_id, packet) == Plan::Quiet,
        routing::server_bound_hub(keys, hub, sender_id, packet) == hub,
{
}

/// A packet to the server that is not signed with the sender's own key is
/// refused, and changes nothing.
pub proof fn law_forged_command_is_refused(
    keys: ServerKeys,
    hub: HubView,
    sender_id: ClientId,
    packet: Seq<u8>,
)
    requires
        hub.sessions.contains_key(sender_id),
        packet.len() > 104,
        !primitives::ed25519_verifies(
            hub.sessions[sender_id].ed_pub@,
            packet.take(packet.len() - 64),
            packet.skip(packet.len() - 64),
        ),
    ensures
        routing::server_bound_plan(keys, hub, sender_id, packet) == Plan::Fail(
            RouteError::Crypto(CryptoError::BadSignature),
        ),
        routing::server_bound_hub(keys, hub, sender_id, packet) == hub,
{
}

/// Frames of a client change nothing in the registry but what that client
/// itself watches.
pub proof fn law_routing_changes_own_watches_only(
    keys: ServerKeys,
    hub: HubView,
    sender_id: ClientId,
    k_c2s: Seq<u8>,
    frame: Seq<u8>,
)
    ensures
        ({
            let after = routing::route_hub(keys, hub, sender_id, k_c2s, frame);
            &&& after.sessions == hub.sessions
            &&& after.online == hub.online
            &&& after.started_at == hub.started_at
            &&& forall|w: (ClientId, XPub)|
                w.0 != sender_id ==> (#[trigger] after.watches.contains(w)
                    <==> hub.watches.contains(w))
        }),
{
}

/// An introduction carries the public keys of the sender's own session,
/// whatever the sender wrote, and in front of them the nickname as it was
/// written.
pub proof fn law_introduction_is_genuine(hub: HubView, sender_id: ClientId, body: Seq<u8>)
    ensures
        routing::introduce_plan(hub, sender_id, body) matches Plan::Send { inner, .. } ==> {
            &&& inner[2] == CMD_INTRO_FROM
            &&& inner.len() == body.len() + 59
            &&& inner.subrange(3, inner.len() - 64) == body.skip(8)
            &&& inner.subrange(inner.len() - 64, inner.len() - 32)
                == hub.sessions[sender_id].x_pub@
            &&& inner.skip(inner.len() - 32) == hub.sessions[sender_id].ed_pub@
        },
{
    if let Plan::Send { inner, .. } = routing::introduce_plan(hub, sender_id, body) {
        assert(hub.sessions[sender_id].x_pub@.len() == 32);
        hub.sessions[sender_id].ed_pub.lemma_view_len();
        assert(inner.subrange(3, inner.len() - 64) =~= body.skip(8));
        assert(inner.subrange(inner.len() - 64, inner.len() - 32)
            =~= hub.sessions[sender_id].x_pub@);
        assert(inner.skip(inner.len() - 32) =~= hub.sessions[sender_id].ed_pub@);
    }
}

/// A push registration reaches the notifier under the identifier of the
/// sender's own session, whatever the sender wrote.
pub proof fn law_push_registration_names_sender(
    keys: ServerKeys,
    hub: HubView,
    sender_id: ClientId,
    body: Seq<u8>,
)
    ensures
        routing::push_register_plan(keys, hub, sender_id, body) matches Plan::Send {
            to,
            inner,
            ..
        } ==> {
            &&& to == hub.sessions[keys.notifier_id].ws
            &&& inner[2] == CMD_PUSH_REGISTER
            &&& inner.subrange(3, 11) == sender_id@
            &&& inner.skip(11) == body
        },
{
    if let Plan::Send { inner, .. } = routing::push_register_plan(keys, hub, sender_id, body) {
        assert(sender_id@.len() == 8);
        assert(inner.subrange(3, 11) =~= sender_id@);
        assert(inner.skip(11) =~= body);
    }
}

/// A wake-up reaches the notifier, where that is connected, with the target's
/// identifier as it was written, and with the byte behind it where there is
/// one.
pub proof fn law_wake_names_target(keys: ServerKeys, hub: HubView, body: Seq<u8>)
    ensures
        routing::wake_plan(keys, hub, body) matches Plan::Send { to, inner, .. } ==> {
            &&& to == hub.sessions[keys.notifier_id].ws
            &&& inner[2] == CMD_WAKE
            &&& inner.subrange(3, 11) == body.take(8)
            &&& body.len() == 8 ==> inner.len() == 11
            &&& body.len() > 8 ==> inner.len() == 12 && inner[11] == body[8]
        },
        body.len() >= 8 && hub.sessions.contains_key(keys.notifier_id) ==> routing::wake_plan(
            keys,
            hub,
            body,
        ) is Send,
{
    if let Plan::Send { inner, .. } = routing::wake_plan(keys, hub, body) {
        assert(inner.subrange(3, 11) =~= body.take(8));
    }
}

// ---------------------------------------------------------------------------
// Presence
// ---------------------------------------------------------------------------

/// A connected client that has subscribed to a public point is among those who
/// are told of it.
pub proof fn law_subscriber_is_told(
    hub: HubView,
    me: ClientId,
    xs: Seq<XPub>,
    x: XPub,
    told: Seq<ClientId>,
)
    requires
        hub.sessions.contains_key(me),
        xs.contains(x),
        routing::subscribed(hub, me, xs).lists_watchers(x, told),
    ensures
        told.contains(me),
{
    assert(routing::subscribed(hub, me, xs).watches.contains((me, x)));
}

/// A client that has taken a subscription back is not told any more.
pub proof fn law_unsubscribed_is_not_told(
    hub: HubView,
    me: ClientId,
    xs: Seq<XPub>,
    x: XPub,
    told: Seq<ClientId>,
)
    requires
        xs.contains(x),
        routing::unsubscribed_from(hub, me, xs).lists_watchers(x, told),
    ensures
        !told.contains(me),
{
}

/// Taking back the very points that one subscribed to undoes the subscription.
pub proof fn law_unsubscribe_undoes_subscribe(hub: HubView, me: ClientId, xs: Seq<XPub>)
    requires
        forall|x: XPub| xs.contains(x) ==> !#[trigger] hub.watches.contains((me, x)),
    ensures
        routing::unsubscribed_from(routing::subscribed(hub, me, xs), me, xs) == hub,
{
    assert(routing::unsubscribed_from(routing::subscribed(hub, me, xs), me, xs).watches
        =~= hub.watches);
}

/// Subscribing again to the same points changes nothing.
pub proof fn law_subscribe_is_idempotent(hub: HubView, me: ClientId, xs: Seq<XPub>)
    ensures
        routing::subscribed(routing::subscribed(hub, me, xs), me, xs) == routing::subscribed(
            hub,
            me,
            xs,
        ),
{
    assert(routing::subscribed(routing::subscribed(hub, me, xs), me, xs).watches
        =~= routing::subscribed(hub, me, xs).watches);
}

/// An empty subscription does nothing and is not answered.
pub proof fn law_empty_subscription_is_quiet(
    hub: HubView,
    me: ClientId,
    x_pub: XPub,
    k_s2c: [u8; 32],
)
    ensures
        routing::subscribe_hub(hub, me, Seq::empty()) == hub,
        routing::subscribe_plan(hub, x_pub, k_s2c, Seq::empty()) == Plan::Quiet,
{
    let none = frames::x_list(Seq::empty());
    assert(none =~= Seq::empty());
    reveal(Seq::filter);
    assert(routing::subscribed(hub, me, none).watches =~= hub.watches);
}

/// The answer to a subscription lists those of the listed peers that are
/// online, in the order in which they were listed, and nobody else.
pub proof fn law_subscription_answer_lists_online(
    hub: HubView,
    x_pub: XPub,
    k_s2c: [u8; 32],
    xs: Seq<XPub>,
)
    requires
        routing::online_among(hub, xs).len() > 0,
    ensures
        routing::subscribe_plan(hub, x_pub, k_s2c, frames::concat_xs(xs)) matches Plan::Reply {
            inner,
            ..
        } && frames::x_list(inner.skip(3)) == routing::online_among(hub, xs),
{
    frames::law_x_list_reads_back(xs);
    let online = routing::online_among(hub, xs);
    frames::law_x_list_reads_back(online);
    law_inner_reads_back(0, frames::CMD_PEER_ONLINE, frames::concat_xs(online));
}

/// Once a client has gone, it is not connected, watches nothing and is told
/// nothing, and its public point is online only if another session holds it.
pub proof fn law_departed_is_forgotten(hub: HubView, id: ClientId, x: XPub, told: Seq<ClientId>)
    requires
        presence::departed(hub, id).lists_watchers(x, told),
    ensures
        !presence::departed(hub, id).sessions.contains_key(id),
        hub.sessions.contains_key(id) && presence::departed(hub, id).online.contains(
            hub.sessions[id].x_pub,
        ) ==> hub::held(presence::departed(hub, id).sessions, hub.sessions[id].x_pub),
        !presence::departed(hub, id).watches.contains((id, x)),
        !told.contains(id),
{
}

/// Others keep their sessions, and what they watch, when a client goes.
pub proof fn law_departure_spares_others(hub: HubView, id: ClientId, other: ClientId, x: XPub)
    requires
        other != id,
    ensures
        presence::departed(hub, id).sessions.contains_key(other) == hub.sessions.contains_key(
            other,
        ),
        hub.sessions.contains_key(other) ==> presence::departed(hub, id).sessions[other]
            == hub.sessions[other],
        presence::departed(hub, id).watches.contains((other, x)) == hub.watches.contains(
            (other, x),
        ),
{
}

/// A client that comes and goes leaves the registry as it was.
pub proof fn law_departure_undoes_arrival(hub: HubView, id: ClientId, session: ClientSession)
    requires
        !hub.sessions.contains_key(id),
        coherence::online_is_stored(hub),
        forall|w: (ClientId, XPub)| #[trigger] hub.watches.contains(w) ==> w.0 != id,
    ensures
        presence::departed(hub.inserted(id, session), id) == hub,
{
    let after = presence::departed(hub.inserted(id, session), id);
    assert(after.sessions =~= hub.sessions);
    assert(after.online =~= hub.online);
    assert(after.watches =~= hub.watches);
}

// ---------------------------------------------------------------------------
// Heartbeat
// ---------------------------------------------------------------------------

/// A client that was heard is not dropped before it has been silent for the
/// whole timeout.
pub proof fn law_heard_client_stays(hub: HubView, id: ClientId, heard: u128, now: u128, timeout: u128)
    requires
        now - heard <= timeout,
    ensures
        !hub.touched(id, heard).is_silent(id, now, timeout),
{
}

/// Nobody is both dropped and pinged.
pub proof fn law_dropped_are_not_pinged(
    hub: HubView,
    id: ClientId,
    now: u128,
    timeout: u128,
    interval: u128,
)
    ensures
        !(hub.is_silent(id, now, timeout) && hub.wants_ping(id, now, timeout, interval)),
{
}

/// When the heartbeat has dropped the silent clients and pinged those who
/// wanted it, nobody who is left is silent or wants a ping; and whoever was
/// neither silent nor wanted a ping is as before.
pub proof fn law_heartbeat_settles(
    hub: HubView,
    to_drop: Seq<ClientId>,
    to_ping: Seq<ClientId>,
    now: u128,
    timeout: u128,
    interval: u128,
    id: ClientId,
)
    requires
        forall|a: ClientId| #[trigger] to_drop.contains(a) <==> hub.is_silent(a, now, timeout),
        forall|a: ClientId| #[trigger]
            to_ping.contains(a) <==> hub.wants_ping(a, now, timeout, interval),
    ensures
        ({
            let after = heartbeat::pinged(heartbeat::without(hub, to_drop), to_ping, now);
            &&& !after.is_silent(id, now, timeout)
            &&& !after.wants_ping(id, now, timeout, interval)
            &&& after.sessions.contains_key(id) <==> hub.sessions.contains_key(id)
                && !hub.is_silent(id, now, timeout)
            &&& hub.sessions.contains_key(id) && !hub.is_silent(id, now, timeout)
                && !hub.wants_ping(id, now, timeout, interval) ==> after.sessions[id]
                == hub.sessions[id]
        }),
{
}

// ---------------------------------------------------------------------------
// What comes of a frame, in bytes
// ---------------------------------------------------------------------------

/// The result is a frame for the connection at hand that opens at its client
/// to `message`; a message that is too long for the cipher is an error.
pub open spec fn replies(
    keys: ServerKeys,
    x_pub: XPub,
    k_s2c: [u8; 32],
    message: Seq<u8>,
    r: Result<Action, RouteError>,
) -> bool {
    if message.len() <= 0x3f_ffff_ff80 {
        r matches Ok(Action::Reply(frame)) && frames::opens_at(
            keys,
            x_pub@,
            k_s2c@,
            frame@,
            message,
        )
    } else {
        r == Err::<Action, RouteError>(RouteError::Crypto(CryptoError::BadCiphertext))
    }
}

/// The result is a frame for the connection of the session `s` that opens at
/// its client to `message`; a message that is too long for the cipher is an
/// error.
pub open spec fn sends(
    keys: ServerKeys,
    s: ClientSession,
    message: Seq<u8>,
    r: Result<Action, RouteError>,
) -> bool {
    if message.len() <= 0x3f_ffff_ff80 {
        r matches Ok(Action::Send(to, frame)) && to == s.ws && frames::opens_at(
            keys,
            s.x_pub@,
            s.k_s2c@,
            frame@,
            message,
        )
    } else {
        r == Err::<Action, RouteError>(RouteError::Crypto(CryptoError::BadCiphertext))
    }
}

/// The result is nothing to do.
pub open spec fn is_quiet(r: Result<Action, RouteError>) -> bool {
    r matches Ok(Action::Nothing)
}

/// A list of points that stand end to end holds `x`.
pub open spec fn lists(body: Seq<u8>, x: XPub) -> bool {
    exists|i: int| 0 <= i < body.len() / 32 && x@ == #[trigger] frames::point_at(body, i)
}

/// What is left of a list when the points that are not online are struck out.
pub open spec fn online_part(hub: HubView, body: Seq<u8>) -> Seq<u8>
    decreases body.len(),
{
    if body.len() < 32 {
        Seq::empty()
    } else {
        let front = online_part(hub, body.take(body.len() - 32));
        let last = body.skip(body.len() - 32);
        if exists|x: XPub| #[trigger] hub.online.contains(x) && x@ == last {
            front + last
        } else {
            front
        }
    }
}

/// The registries differ at most in what `me` watches: after a subscription,
/// that is what it was and every listed point; after an unsubscription, what it
/// was without the listed points.
pub open spec fn watches_change(
    before: HubView,
    after: HubView,
    me: ClientId,
    body: Seq<u8>,
    more: bool,
) -> bool {
    &&& after.sessions == before.sessions
    &&& after.online == before.online
    &&& after.started_at == before.started_at
    &&& forall|w: (ClientId, XPub)|
        w.0 != me ==> (#[trigger] after.watches.contains(w) <==> before.watches.contains(w))
    &&& forall|x: XPub| #[trigger]
        after.watches.contains((me, x)) <==> if more {
            before.watches.contains((me, x)) || lists(body, x)
        } else {
            before.watches.contains((me, x)) && !lists(body, x)
        }
}

/// A subscription: every listed point is watched, and the answer is the list of
/// those that are online, if there are any.
pub open spec fn subscribes(
    keys: ServerKeys,
    hub: HubView,
    me: ClientId,
    x_pub: XPub,
    k_s2c: [u8; 32],
    body: Seq<u8>,
    r: Result<Action, RouteError>,
    after: HubView,
) -> bool {
    if body.len() % 32 != 0 {
        r == Err::<Action, RouteError>(RouteError::TooShort) && after == hub
    } else {
        &&& watches_change(hub, after, me, body, true)
        &&& online_part(hub, body).len() == 0 ==> is_quiet(r)
        &&& online_part(hub, body).len() > 0 ==> replies(
            keys,
            x_pub,
            k_s2c,
            seq![0u8, 0, 0x42] + online_part(hub, body),
            r,
        )
    }
}

/// An unsubscription: none of the listed points is watched any more.
pub open spec fn unsubscribes(
    hub: HubView,
    me: ClientId,
    body: Seq<u8>,
    r: Result<Action, RouteError>,
    after: HubView,
) -> bool {
    if body.len() % 32 != 0 {
        r == Err::<Action, RouteError>(RouteError::TooShort) && after == hub
    } else {
        watches_change(hub, after, me, body, false) && is_quiet(r)
    }
}

/// An introduction: who is named by the first eight bytes gets the rest, the
/// nickname, with the public keys of the sender's session behind it.
pub open spec fn introduces(
    keys: ServerKeys,
    hub: HubView,
    me: ClientId,
    body: Seq<u8>,
    r: Result<Action, RouteError>,
) -> bool {
    if body.len() < 8 {
        r == Err::<Action, RouteError>(RouteError::TooShort)
    } else {
        forall|target: ClientId|
            #![trigger hub.sessions.contains_key(target)]
            target@ == body.take(8) ==> if hub.sessions.contains_key(target) {
                sends(
                    keys,
                    hub.sessions[target],
                    seq![0u8, 0, 0x47] + body.skip(8) + hub.sessions[me].x_pub@
                        + hub.sessions[me].ed_pub@,
                    r,
                )
            } else {
                is_quiet(r)
            }
    }
}

/// The notifier gets `message`, if it is connected.
pub open spec fn notifies(
    keys: ServerKeys,
    hub: HubView,
    message: Seq<u8>,
    r: Result<Action, RouteError>,
) -> bool {
    if hub.sessions.contains_key(keys.notifier_id) {
        sends(keys, hub.sessions[keys.notifier_id], message, r)
    } else {
        is_quiet(r)
    }
}

/// A wake-up: the notifier gets the target's identifier, and the byte behind it
/// as the sender wrote it, if there is one.
pub open spec fn wakes(
    keys: ServerKeys,
    hub: HubView,
    body: Seq<u8>,
    r: Result<Action, RouteError>,
) -> bool {
    if body.len() < 8 {
        r == Err::<Action, RouteError>(RouteError::TooShort)
    } else if body.len() == 8 {
        notifies(keys, hub, seq![0u8, 0, 0x48] + body, r)
    } else {
        notifies(keys, hub, (seq![0u8, 0, 0x48] + body.take(8)).push(body[8]), r)
    }
}

/// A push registration: the notifier gets the sender's identifier, and what the
/// sender wrote.
pub open spec fn registers_push(
    keys: ServerKeys,
    hub: HubView,
    me: ClientId,
    body: Seq<u8>,
    r: Result<Action, RouteError>,
) -> bool {
    if body.len() == 0 {
        r == Err::<Action, RouteError>(RouteError::TooShort)
    } else {
        notifies(keys, hub, seq![0u8, 0, 0x49] + me@ + body, r)
    }
}

/// What a connected client's command to the server does.
pub open spec fn obeys(
    keys: ServerKeys,
    hub: HubView,
    me: ClientId,
    cmd: u8,
    body: Seq<u8>,
    r: Result<Action, RouteError>,
    after: HubView,
) -> bool {
    let s = hub.sessions[me];
    if cmd == 0x40 {
        subscribes(keys, hub, me, s.x_pub, s.k_s2c, body, r, after)
    } else if cmd == 0x41 {
        unsubscribes(hub, me, body, r, after)
    } else if cmd == 0x46 {
        introduces(keys, hub, me, body, r) && after == hub
    } else if cmd == 0x48 {
        wakes(keys, hub, body, r) && after == hub
    } else if cmd == 0x49 {
        registers_push(keys, hub, me, body, r) && after == hub
    } else {
        is_quiet(r) && after == hub
    }
}

/// What a packet to the server does. It has to be signed with the key of the
/// sender's session and to decrypt under the secret shared with the sender's
/// point.
pub open spec fn handles(
    keys: ServerKeys,
    hub: HubView,
    me: ClientId,
    packet: Seq<u8>,
    r: Result<Action, RouteError>,
    after: HubView,
) -> bool {
    let s = hub.sessions[me];
    if !hub.sessions.contains_key(me) {
        is_quiet(r) && after == hub
    } else if packet.len() <= 104 {
        r == Err::<Action, RouteError>(RouteError::Crypto(CryptoError::BadFormat)) && after == hub
    } else if !primitives::ed25519_verifies(
        s.ed_pub@,
        packet.take(packet.len() - 64),
        packet.skip(packet.len() - 64),
    ) {
        r == Err::<Action, RouteError>(RouteError::Crypto(CryptoError::BadSignature)) && after
            == hub
    } else {
        match primitives::aead_opened(
            primitives::x25519(keys.x25519_secret@, s.x_pub@),
            packet.take(24),
            packet.subrange(24, packet.len() - 64),
        ) {
            None => r == Err::<Action, RouteError>(RouteError::Crypto(CryptoError::BadCiphertext))
                && after == hub,
            Some(inner) => if inner.len() < 3 {
                r == Err::<Action, RouteError>(RouteError::TooShort) && after == hub
            } else {
                obeys(keys, hub, me, inner[2], inner.skip(3), r, after)
            },
        }
    }
}

/// The result is the frame for the connection of the session `s`: its header
/// shows the sender under the key of that session, and the rest is what came
/// in.
pub open spec fn relays(
    s: ClientSession,
    sender_id: ClientId,
    to_id: ClientId,
    frame: Seq<u8>,
    r: Result<Action, RouteError>,
) -> bool {
    &&& r matches Ok(Action::Forward { to, frame: out, target_id, nonce_24 })
    &&& to == s.ws
    &&& out@.len() == frame.len()
    &&& frames::header_shows(out@, s.k_s2c@, sender_id@)
    &&& out@.skip(8) == frame.skip(8)
    &&& target_id == to_id
    &&& nonce_24@ == frame.subrange(8, 32)
}

/// The sender, if it is still connected, is told that nobody is connected under
/// `to_id`, with the nonce of the frame.
pub open spec fn reports_absence(
    keys: ServerKeys,
    hub: HubView,
    sender_id: ClientId,
    to_id: ClientId,
    nonce: Seq<u8>,
    r: Result<Action, RouteError>,
) -> bool {
    if hub.sessions.contains_key(sender_id) {
        replies(
            keys,
            hub.sessions[sender_id].x_pub,
            hub.sessions[sender_id].k_s2c,
            seq![0u8, 0, 0xFF, 3] + to_id@ + nonce,
            r,
        )
    } else {
        is_quiet(r)
    }
}

/// What a frame of an established session does, by whom its header shows.
pub open spec fn routes(
    keys: ServerKeys,
    hub: HubView,
    sender_id: ClientId,
    k_c2s: Seq<u8>,
    frame: Seq<u8>,
    r: Result<Action, RouteError>,
    after: HubView,
) -> bool {
    let zeros = seq![0u8, 0, 0, 0, 0, 0, 0, 0];
    if frame.len() < 112 {
        r == Err::<Action, RouteError>(RouteError::TooShort) && after == hub
    } else {
        &&& frames::header_shows(frame, k_c2s, zeros) ==> handles(
            keys,
            hub,
            sender_id,
            frame.skip(8),
            r,
            after,
        )
        &&& forall|to_id: ClientId| #[trigger]
            frames::header_shows(frame, k_c2s, to_id@) && to_id@ != zeros ==> {
                &&& after == hub
                &&& hub.sessions.contains_key(to_id) ==> relays(
                    hub.sessions[to_id],
                    sender_id,
                    to_id,
                    frame,
                    r,
                )
                &&& !hub.sessions.contains_key(to_id) ==> reports_absence(
                    keys,
                    hub,
                    sender_id,
                    to_id,
                    frame.subrange(8, 32),
                    r,
                )
            }
    }
}

/// What a message of an established session does. Pings, pongs, the plain-text
/// pong and frames count as life, and nothing else does.
pub open spec fn takes_in(
    keys: ServerKeys,
    hub: HubView,
    id: ClientId,
    k_c2s: Seq<u8>,
    msg: ClientMessage,
    now: u128,
    step: Step,
    after: HubView,
) -> bool {
    match msg {
        ClientMessage::Ping(b) => hub::only_heard(hub, after, id, now) && (
        step matches Step::Pong(p) && p@ == b@),
        ClientMessage::Pong => hub::only_heard(hub, after, id, now) && step is Done,
        ClientMessage::Text(text) => if text@ == "pong"@ {
            hub::only_heard(hub, after, id, now) && step is Done
        } else if text@ == "ping"@ {
            after == hub && step is TextPong
        } else {
            after == hub && step is Done
        },
        ClientMessage::Binary(b) => step matches Step::Route(r) && exists|h: HubView|
            hub::only_heard(hub, h, id, now) && #[trigger] routes(
                keys,
                h,
                id,
                k_c2s,
                b@,
                r,
                after,
            ),
        ClientMessage::Close => after == hub && step is Close,
        ClientMessage::Other => after == hub && step is Ignored,
    }
}

// ---------------------------------------------------------------------------
// Laws on bytes
// ---------------------------------------------------------------------------

proof fn lemma_replies(
    keys: ServerKeys,
    x_pub: XPub,
    k_s2c: [u8; 32],
    message: Seq<u8>,
    r: Result<Action, RouteError>,
)
    requires
        message.len() > 0,
        routing::carries_out(keys, Plan::Reply { x_pub, k_s2c, inner: message }, r),
    ensures
        replies(keys, x_pub, k_s2c, message, r),
{
    if let Ok(Action::Reply(frame)) = r {
        if message.len() <= 0x3f_ffff_ff80 {
            frames::law_server_frame_opens(keys, x_pub@, k_s2c@, message, frame@);
        }
    }
}

proof fn lemma_sends(
    keys: ServerKeys,
    s: ClientSession,
    message: Seq<u8>,
    r: Result<Action, RouteError>,
)
    requires
        message.len() > 0,
        routing::carries_out(
            keys,
            Plan::Send { to: s.ws, x_pub: s.x_pub, k_s2c: s.k_s2c, inner: message },
            r,
        ),
    ensures
        sends(keys, s, message, r),
{
    if let Ok(Action::Send(to, frame)) = r {
        if message.len() <= 0x3f_ffff_ff80 {
            frames::law_server_frame_opens(keys, s.x_pub@, s.k_s2c@, message, frame@);
        }
    }
}

proof fn lemma_online_part(hub: HubView, body: Seq<u8>)
    requires
        body.len() % 32 == 0,
    ensures
        frames::concat_xs(routing::online_among(hub, frames::x_list(body))) == online_part(
            hub,
            body,
        ),
        routing::online_among(hub, frames::x_list(body)).len() == 0 <==> online_part(
            hub,
            body,
        ).len() == 0,
    decreases body.len(),
{
    let xs = frames::x_list(body);
    reveal(Seq::filter);
    frames::law_x_list_reads_back(routing::online_among(hub, xs));
    if body.len() > 0 {
        let front = body.take(body.len() - 32);
        let last = body.skip(body.len() - 32);
        lemma_online_part(hub, front);
        frames::law_every_listed_point_is_read(body);
        frames::law_every_listed_point_is_read(front);
        assert(xs.drop_last() =~= frames::x_list(front)) by {
            assert forall|i: int| 0 <= i < xs.len() - 1 implies xs.drop_last()[i]
                == frames::x_list(front)[i] by {
                assert(front.subrange(32 * i, 32 * i + 32) =~= body.subrange(32 * i, 32 * i + 32));
            }
        }
        let n = xs.len() - 1;
        assert(xs.last()@ == frames::point_at(body, n));
        assert(frames::point_at(body, n) =~= last);
        assert forall|x: XPub| x@ == last implies x == xs.last() by {
            assert(x =~= xs.last());
        }
        let online = routing::online_among(hub, frames::x_list(front));
        if hub.online.contains(xs.last()) {
            assert(routing::online_among(hub, xs) =~= online.push(xs.last()));
            assert(online.push(xs.last()).drop_last() =~= online);
            assert(online_part(hub, body) == online_part(hub, front) + last);
        } else {
            assert(routing::online_among(hub, xs) =~= online);
            assert(online_part(hub, body) == online_part(hub, front));
        }
    }
}

proof fn lemma_lists(body: Seq<u8>, x: XPub)
    requires
        body.len() % 32 == 0,
    ensures
        frames::x_list(body).contains(x) <==> lists(body, x),
{
    frames::law_every_listed_point_is_read(body);
    let xs = frames::x_list(body);
    if xs.contains(x) {
        let i = choose|i: int| 0 <= i < xs.len() && xs[i] == x;
        assert(x@ == frames::point_at(body, i));
    }
    if lists(body, x) {
        let i = choose|i: int|
            0 <= i < body.len() / 32 && x@ == #[trigger] frames::point_at(body, i);
        assert(xs[i] =~= x);
    }
}

/// After a subscription with any list of points, the sender watches every one
/// of them, as well as what it watched before, and nobody else watches anything
/// else than before; the answer is the list without the points that are not
/// online.
pub proof fn law_subscription_covers_the_list(
    keys: ServerKeys,
    hub: HubView,
    me: ClientId,
    x_pub: XPub,
    k_s2c: [u8; 32],
    body: Seq<u8>,
    r: Result<Action, RouteError>,
)
    requires
        routing::carries_out(keys, routing::subscribe_plan(hub, x_pub, k_s2c, body), r),
    ensures
        subscribes(
            keys,
            hub,
            me,
            x_pub,
            k_s2c,
            body,
            r,
            routing::subscribe_hub(hub, me, body),
        ),
{
    if body.len() % 32 == 0 {
        let after = routing::subscribe_hub(hub, me, body);
        assert forall|x: XPub| #[trigger] after.watches.contains((me, x)) <==> hub.watches.contains(
            (me, x),
        ) || lists(body, x) by {
            lemma_lists(body, x);
        }
        lemma_online_part(hub, body);
        if online_part(hub, body).len() > 0 {
            let message = seq![0u8, 0, 0x42] + online_part(hub, body);
            assert(frames::inner_bytes(0, frames::CMD_PEER_ONLINE, online_part(hub, body))
                =~= message);
            lemma_replies(keys, x_pub, k_s2c, message, r);
        }
    }
}

/// Whoever subscribes to a list of points is told, as long as it is connected,
/// of a change of any of them, wherever the point stands in the list.
pub proof fn law_every_listed_point_is_watched(
    keys: ServerKeys,
    hub: HubView,
    me: ClientId,
    cmd: u8,
    body: Seq<u8>,
    x: XPub,
    i: int,
)
    requires
        cmd == 0x40,
        body.len() % 32 == 0,
        0 <= i < body.len() / 32,
        x@ == body.subrange(32 * i, 32 * i + 32),
    ensures
        routing::subscribe_hub(hub, me, body).watches.contains((me, x)),
        routing::command_hub(hub, me, cmd, body).watches.contains((me, x)),
        forall|told: Seq<ClientId>|
            hub.sessions.contains_key(me) && #[trigger] routing::command_hub(
                hub,
                me,
                cmd,
                body,
            ).lists_watchers(x, told) ==> told.contains(me),
{
    assert(x@ == frames::point_at(body, i));
    lemma_lists(body, x);
    let after = routing::command_hub(hub, me, cmd, body);
    assert(after.watches.contains((me, x)));
    assert forall|told: Seq<ClientId>|
        hub.sessions.contains_key(me) && #[trigger] after.lists_watchers(
            x,
            told,
        ) implies told.contains(me) by {
        assert(after.sessions.contains_key(me));
    }
}

pub(crate) proof fn lemma_unsubscription_covers_the_list(
    hub: HubView,
    me: ClientId,
    body: Seq<u8>,
)
    requires
        body.len() % 32 == 0,
    ensures
        watches_change(hub, routing::unsubscribe_hub(hub, me, body), me, body, false),
{
    let after = routing::unsubscribe_hub(hub, me, body);
    assert forall|x: XPub| #[trigger] after.watches.contains((me, x)) <==> hub.watches.contains(
        (me, x),
    ) && !lists(body, x) by {
        lemma_lists(body, x);
    }
}

/// After an unsubscription with any list of points, the sender watches what it
/// watched before without them, and nobody else is affected.
pub proof fn law_unsubscription_covers_the_list(
    keys: ServerKeys,
    hub: HubView,
    me: ClientId,
    body: Seq<u8>,
    r: Result<Action, RouteError>,
)
    requires
        routing::carries_out(keys, routing::unsubscribe_plan(body), r),
    ensures
        unsubscribes(hub, me, body, r, routing::unsubscribe_hub(hub, me, body)),
{
    if body.len() % 32 == 0 {
        lemma_unsubscription_covers_the_list(hub, me, body);
    }
}

/// An introduction opens at its target, if that is connected, to the nickname
/// as it was written and the sender's own keys.
pub proof fn law_introduction_opens_at_its_target(
    keys: ServerKeys,
    hub: HubView,
    me: ClientId,
    body: Seq<u8>,
    r: Result<Action, RouteError>,
)
    requires
        hub.sessions.contains_key(me),
        routing::carries_out(keys, routing::introduce_plan(hub, me, body), r),
    ensures
        introduces(keys, hub, me, body, r),
{
    if body.len() >= 8 {
        let message = seq![0u8, 0, 0x47] + body.skip(8) + hub.sessions[me].x_pub@
            + hub.sessions[me].ed_pub@;
        assert(frames::inner_bytes(
            0,
            CMD_INTRO_FROM,
            body.skip(8) + hub.sessions[me].x_pub@ + hub.sessions[me].ed_pub@,
        ) =~= message);
        assert forall|target: ClientId|
            #![trigger hub.sessions.contains_key(target)]
            target@ == body.take(8) implies if hub.sessions.contains_key(target) {
            sends(keys, hub.sessions[target], message, r)
        } else {
            is_quiet(r)
        } by {
            frames::lemma_to_id(target, body.take(8));
            if hub.sessions.contains_key(target) {
                lemma_sends(keys, hub.sessions[target], message, r);
            }
        }
    }
}

/// What goes to the notifier opens there to the command and the body, as they
/// are.
pub proof fn law_notice_opens_at_the_notifier(
    keys: ServerKeys,
    hub: HubView,
    cmd: u8,
    body: Seq<u8>,
    r: Result<Action, RouteError>,
)
    requires
        routing::carries_out(keys, routing::notifier_plan(keys, hub, cmd, body), r),
    ensures
        notifies(keys, hub, seq![0u8, 0, cmd] + body, r),
{
    if hub.sessions.contains_key(keys.notifier_id) {
        assert(frames::inner_bytes(0, cmd, body) =~= seq![0u8, 0, cmd] + body);
        lemma_sends(keys, hub.sessions[keys.notifier_id], seq![0u8, 0, cmd] + body, r);
    }
}

/// A wake-up opens at the notifier to the target's identifier and, where the
/// sender wrote one, to the very byte behind it: twelve bytes with it, eleven
/// without, and nothing of what stands further behind.
pub proof fn law_wake_keeps_its_kind(
    keys: ServerKeys,
    hub: HubView,
    body: Seq<u8>,
    r: Result<Action, RouteError>,
)
    requires
        routing::carries_out(keys, routing::wake_plan(keys, hub, body), r),
    ensures
        wakes(keys, hub, body, r),
{
    if body.len() == 8 {
        law_notice_opens_at_the_notifier(keys, hub, CMD_WAKE, body, r);
    } else if body.len() > 8 {
        if body.len() == 9 {
            assert(body.take(9) =~= body);
        }
        law_notice_opens_at_the_notifier(keys, hub, CMD_WAKE, body.take(9), r);
        assert(seq![0u8, 0, 0x48] + body.take(9) =~= (seq![0u8, 0, 0x48] + body.take(8)).push(
            body[8],
        ));
    }
}

/// A push registration opens at the notifier to the sender's identifier and
/// what the sender wrote.
pub proof fn law_push_registration_opens_at_the_notifier(
    keys: ServerKeys,
    hub: HubView,
    me: ClientId,
    body: Seq<u8>,
    r: Result<Action, RouteError>,
)
    requires
        routing::carries_out(keys, routing::push_register_plan(keys, hub, me, body), r),
    ensures
        registers_push(keys, hub, me, body, r),
{
    if body.len() > 0 {
        law_notice_opens_at_the_notifier(keys, hub, CMD_PUSH_REGISTER, me@ + body, r);
        assert(seq![0u8, 0, 0x49] + (me@ + body) =~= seq![0u8, 0, 0x49] + me@ + body);
    }
}

/// Every command of a connected client does what it is for.
pub proof fn law_command_is_obeyed(
    keys: ServerKeys,
    hub: HubView,
    me: ClientId,
    cmd: u8,
    body: Seq<u8>,
    r: Result<Action, RouteError>,
)
    requires
        hub.sessions.contains_key(me),
        routing::carries_out(
            keys,
            routing::command_plan(
                keys,
                hub,
                me,
                hub.sessions[me].x_pub,
                hub.sessions[me].k_s2c,
                cmd,
                body,
            ),
            r,
        ),
    ensures
        obeys(keys, hub, me, cmd, body, r, routing::command_hub(hub, me, cmd, body)),
{
    let s = hub.sessions[me];
    if cmd == 0x40 {
        law_subscription_covers_the_list(keys, hub, me, s.x_pub, s.k_s2c, body, r);
    } else if cmd == 0x41 {
        law_unsubscription_covers_the_list(keys, hub, me, body, r);
    } else if cmd == 0x46 {
        law_introduction_opens_at_its_target(keys, hub, me, body, r);
    } else if cmd == 0x48 {
        law_wake_keeps_its_kind(keys, hub, body, r);
    } else if cmd == 0x49 {
        law_push_registration_opens_at_the_notifier(keys, hub, me, body, r);
    }
}

/// A packet to the server counts where it is the sender's own, and then its
/// command is obeyed; where it is not, nothing happens.
pub proof fn law_packet_to_server_is_handled(
    keys: ServerKeys,
    hub: HubView,
    me: ClientId,
    packet: Seq<u8>,
    r: Result<Action, RouteError>,
)
    requires
        routing::carries_out(keys, routing::server_bound_plan(keys, hub, me, packet), r),
    ensures
        handles(keys, hub, me, packet, r, routing::server_bound_hub(keys, hub, me, packet)),
{
    if hub.sessions.contains_key(me) && packet.len() > 104 {
        let s = hub.sessions[me];
        let signed = packet.take(packet.len() - 64);
        assert(signed.take(24) =~= packet.take(24));
        assert(signed.skip(24) =~= packet.subrange(24, packet.len() - 64));
        if let Ok(inner) = routing::server_reads(keys, s, packet) {
            if inner.len() >= 3 {
                law_command_is_obeyed(keys, hub, me, inner[2], inner.skip(3), r);
            }
        }
    }
}

/// The sender of a frame that could not be delivered reads of whom and which
/// frame it was.
pub proof fn law_absence_is_reported_in_bytes(
    keys: ServerKeys,
    hub: HubView,
    sender_id: ClientId,
    to_id: ClientId,
    nonce: Seq<u8>,
    r: Result<Action, RouteError>,
)
    requires
        routing::carries_out(keys, routing::offline_plan(hub, sender_id, to_id, nonce), r),
    ensures
        reports_absence(keys, hub, sender_id, to_id, nonce, r),
{
    if hub.sessions.contains_key(sender_id) {
        let message = seq![0u8, 0, 0xFF, 3] + to_id@ + nonce;
        assert(frames::inner_bytes(
            0,
            frames::CMD_ERROR,
            seq![frames::ERR_RECIPIENT_OFFLINE] + to_id@ + nonce,
        ) =~= message);
        lemma_replies(
            keys,
            hub.sessions[sender_id].x_pub,
            hub.sessions[sender_id].k_s2c,
            message,
            r,
        );
    }
}

/// A frame goes to whom its header shows: to the server, to a connected peer
/// under the sender's name, or back as a report that the peer is absent.
pub proof fn law_frame_goes_where_its_header_shows(
    keys: ServerKeys,
    hub: HubView,
    sender_id: ClientId,
    k_c2s: Seq<u8>,
    frame: Seq<u8>,
    r: Result<Action, RouteError>,
)
    requires
        routing::carries_out(keys, routing::route_plan(keys, hub, sender_id, k_c2s, frame), r),
    ensures
        routes(
            keys,
            hub,
            sender_id,
            k_c2s,
            frame,
            r,
            routing::route_hub(keys, hub, sender_id, k_c2s, frame),
        ),
{
    if frame.len() >= 112 {
        let zeros = seq![0u8, 0, 0, 0, 0, 0, 0, 0];
        assert(frames::zero_id() =~= zeros);
        let shown = crypto25519::xor_header(k_c2s, frame.subrange(8, 32), frame.take(8));
        frames::law_bytes_are_kept(shown, Seq::new(32, |i: int| 0u8));
        frames::law_header_shows_what_is_under_it(frame, k_c2s, zeros);
        if frames::header_shows(frame, k_c2s, zeros) {
            law_packet_to_server_is_handled(keys, hub, sender_id, frame.skip(8), r);
        }
        assert forall|to_id: ClientId| #[trigger]
            frames::header_shows(frame, k_c2s, to_id@) && to_id@ != zeros implies {
            &&& routing::route_hub(keys, hub, sender_id, k_c2s, frame) == hub
            &&& hub.sessions.contains_key(to_id) ==> relays(
                hub.sessions[to_id],
                sender_id,
                to_id,
                frame,
                r,
            )
            &&& !hub.sessions.contains_key(to_id) ==> reports_absence(
                keys,
                hub,
                sender_id,
                to_id,
                frame.subrange(8, 32),
                r,
            )
        } by {
            frames::law_header_shows_what_is_under_it(frame, k_c2s, to_id@);
            frames::lemma_to_id(to_id, shown);
            if hub.sessions.contains_key(to_id) {
                let k_s2c = hub.sessions[to_id].k_s2c@;
                let out = routing::delivered(frame, sender_id, k_s2c);
                law_delivery_names_sender(frame, sender_id, k_s2c);
                frames::law_header_shows_what_is_under_it(out, k_s2c, sender_id@);
            } else {
                law_absence_is_reported_in_bytes(
                    keys,
                    hub,
                    sender_id,
                    to_id,
                    frame.subrange(8, 32),
                    r,
                );
            }
        }
    }
}

/// Every message of an established session does what it is for.
pub proof fn law_message_is_taken_in(
    keys: ServerKeys,
    hub: HubView,
    id: ClientId,
    k_c2s: Seq<u8>,
    msg: ClientMessage,
    now: u128,
    step: Step,
)
    requires
        connection::is_step(keys, hub, id, k_c2s, msg, now, step),
    ensures
        takes_in(
            keys,
            hub,
            id,
            k_c2s,
            msg,
            now,
            step,
            connection::message_hub(keys, hub, id, k_c2s, msg, now),
        ),
{
    reveal_strlit("ping");
    reveal_strlit("pong");
    assert("ping"@[1] != "pong"@[1]);
    if let ClientMessage::Binary(b) = msg {
        if let Step::Route(r) = step {
            let h = connection::heard(hub, id, msg, now);
            assert(hub::only_heard(hub, h, id, now));
            law_frame_goes_where_its_header_shows(keys, h, id, k_c2s, b@, r);
        }
    }
}

/// A frame that a client sends to a connected peer leaves for the peer's
/// connection with a header that shows the sender under the peer's own key, and
/// with the bytes behind the header that came in, whatever they are.
pub proof fn law_relayed_message_shows_its_sender(
    keys: ServerKeys,
    hub: HubView,
    id: ClientId,
    k_c2s: Seq<u8>,
    msg: ClientMessage,
    now: u128,
    step: Step,
    to_id: ClientId,
)
    requires
        connection::is_step(keys, hub, id, k_c2s, msg, now, step),
        msg matches ClientMessage::Binary(b) && b@.len() >= 112 && frames::header_shows(
            b@,
            k_c2s,
            to_id@,
        ),
        to_id@ != seq![0u8, 0, 0, 0, 0, 0, 0, 0],
        hub.sessions.contains_key(to_id),
    ensures
        step matches Step::Route(Ok(Action::Forward { to, frame, target_id, nonce_24 })) && {
            &&& to == hub.sessions[to_id].ws
            &&& target_id == to_id
            &&& nonce_24@ == msg->Binary_0@.subrange(8, 32)
            &&& frame@.len() == msg->Binary_0@.len()
            &&& frame@.skip(8) == msg->Binary_0@.skip(8)
            &&& forall|i: int|
                0 <= i < 8 ==> (#[trigger] frame@[i]) ^ primitives::chacha20_keystream(
                    hub.sessions[to_id].k_s2c@,
                    msg->Binary_0@.subrange(8, 20),
                    i,
                ) == id@[i]
        },
{
    law_message_is_taken_in(keys, hub, id, k_c2s, msg, now, step);
    let b = msg->Binary_0@;
    let r = step->Route_0;
    let after = connection::message_hub(keys, hub, id, k_c2s, msg, now);
    let h = choose|h: HubView|
        hub::only_heard(hub, h, id, now) && #[trigger] routes(keys, h, id, k_c2s, b, r, after);
    assert(h.sessions.contains_key(to_id));
    assert(frames::header_shows(b, k_c2s, to_id@));
    assert(relays(h.sessions[to_id], id, to_id, b, r));
    let frame = r->Ok_0->Forward_frame@;
    assert(frame.subrange(8, 20) =~= frame.skip(8).subrange(0, 12));
    assert(b.subrange(8, 20) =~= b.skip(8).subrange(0, 12));
}

pub(crate) proof fn lemma_packets_are_handled(
    keys: ServerKeys,
    hub: HubView,
    me: ClientId,
    packet: Seq<u8>,
)
    ensures
        forall|r: Result<Action, RouteError>, after: HubView|
            #![trigger handles(keys, hub, me, packet, r, after)]
            routing::carries_out(keys, routing::server_bound_plan(keys, hub, me, packet), r)
                && after == routing::server_bound_hub(keys, hub, me, packet) ==> handles(
                keys,
                hub,
                me,
                packet,
                r,
                after,
            ),
{
    assert forall|r: Result<Action, RouteError>, after: HubView|
        #![trigger handles(keys, hub, me, packet, r, after)]
        routing::carries_out(keys, routing::server_bound_plan(keys, hub, me, packet), r) && after
            == routing::server_bound_hub(keys, hub, me, packet) implies handles(
        keys,
        hub,
        me,
        packet,
        r,
        after,
    ) by {
        law_packet_to_server_is_handled(keys, hub, me, packet, r);
    }
}

pub(crate) proof fn lemma_frames_are_routed(
    keys: ServerKeys,
    hub: HubView,
    sender_id: ClientId,
    k_c2s: Seq<u8>,
    frame: Seq<u8>,
)
    ensures
        forall|r: Result<Action, RouteError>, after: HubView|
            #![trigger routes(keys, hub, sender_id, k_c2s, frame, r, after)]
            routing::carries_out(keys, routing::route_plan(keys, hub, sender_id, k_c2s, frame), r)
                && after == routing::route_hub(keys, hub, sender_id, k_c2s, frame) ==> routes(
                keys,
                hub,
                sender_id,
                k_c2s,
                frame,
                r,
                after,
            ),
{
    assert forall|r: Result<Action, RouteError>, after: HubView|
        #![trigger routes(keys, hub, sender_id, k_c2s, frame, r, after)]
        routing::carries_out(keys, routing::route_plan(keys, hub, sender_id, k_c2s, frame), r)
            && after == routing::route_hub(keys, hub, sender_id, k_c2s, frame) implies routes(
        keys,
        hub,
        sender_id,
        k_c2s,
        frame,
        r,
        after,
    ) by {
        law_frame_goes_where_its_header_shows(keys, hub, sender_id, k_c2s, frame, r);
    }
}

pub(crate) proof fn lemma_introductions_open(
    keys: ServerKeys,
    hub: HubView,
    me: ClientId,
    body: Seq<u8>,
)
    ensures
        forall|r: Result<Action, RouteError>| #[trigger]
            introduces(keys, hub, me, body, r) <== hub.sessions.contains_key(me)
                && routing::carries_out(keys, routing::introduce_plan(hub, me, body), r),
{
    assert forall|r: Result<Action, RouteError>|
        hub.sessions.contains_key(me) && routing::carries_out(
            keys,
            routing::introduce_plan(hub, me, body),
            r,
        ) implies #[trigger] introduces(keys, hub, me, body, r) by {
        law_introduction_opens_at_its_target(keys, hub, me, body, r);
    }
}

pub(crate) proof fn lemma_notices_open(keys: ServerKeys, hub: HubView, cmd: u8, body: Seq<u8>)
    ensures
        forall|message: Seq<u8>, r: Result<Action, RouteError>| #[trigger]
            notifies(keys, hub, message, r) <== message == seq![0u8, 0, cmd] + body
                && routing::carries_out(keys, routing::notifier_plan(keys, hub, cmd, body), r),
{
    assert forall|message: Seq<u8>, r: Result<Action, RouteError>|
        message == seq![0u8, 0, cmd] + body && routing::carries_out(
            keys,
            routing::notifier_plan(keys, hub, cmd, body),
            r,
        ) implies #[trigger] notifies(keys, hub, message, r) by {
        law_notice_opens_at_the_notifier(keys, hub, cmd, body, r);
    }
}

pub(crate) proof fn lemma_absences_are_reported(
    keys: ServerKeys,
    hub: HubView,
    sender_id: ClientId,
    to_id: ClientId,
    nonce: Seq<u8>,
)
    ensures
        forall|r: Result<Action, RouteError>| #[trigger]
            reports_absence(keys, hub, sender_id, to_id, nonce, r) <== routing::carries_out(
                keys,
                routing::offline_plan(hub, sender_id, to_id, nonce),
                r,
            ),
{
    assert forall|r: Result<Action, RouteError>|
        routing::carries_out(
            keys,
            routing::offline_plan(hub, sender_id, to_id, nonce),
            r,
        ) implies #[trigger] reports_absence(keys, hub, sender_id, to_id, nonce, r) by {
        law_absence_is_reported_in_bytes(keys, hub, sender_id, to_id, nonce, r);
    }
}

} // verus!
