//! The life of a connection: established once, then message by message.

use vstd::prelude::*;

use crate::frames;
use crate::frames::PROTOCOL_VERSION;
use crate::handshake;
use crate::handshake::{register, ClientHello, Registration};
use crate::hub::{HubState, HubView};
use crate::index::ClientId;
use crate::laws;
use crate::messages::{ClientMessage, Outgoing};
use crate::presence;
use crate::presence::broadcast_presence;
use crate::routing;
use crate::routing::{handle_routing_frame, Action, RouteError};
use crate::server_keys::ServerKeys;

verus! {

/// The plain-text keepalive, outside the encrypted protocol: the server sends
/// the first, the client answers with the second.
pub const KEEPALIVE_PING: &'static str = "ping";

pub const KEEPALIVE_PONG: &'static str = "pong";

/// What comes of establishing a session.
pub enum Welcome {
    /// The client is registered, and these are to hear that it is online.
    Established(Vec<Outgoing>),
    /// Another connection has taken the identifier since the client was
    /// answered: send the frame, which says so, and close the connection.
    Taken(Vec<u8>),
}

/// Registers an accepted client and announces it to those who watch it.
pub fn establish(
    keys: &ServerKeys,
    hub: &mut HubState,
    hello: &ClientHello,
    ws: u64,
    ip: String,
    now: u128,
) -> (r: Welcome)
    requires
        old(hub).wf(),
    ensures
        final(hub).wf(),
        if old(hub)@.sessions.contains_key(hello.client_id) {
            &&& final(hub)@ == old(hub)@
            &&& r matches Welcome::Taken(frame) && frames::is_server_frame(
                *keys,
                hello.x_pub@,
                hello.k_s2c@,
                handshake::reply_inner(PROTOCOL_VERSION, true),
                frame@,
            ) && frames::opens_at(
                *keys,
                hello.x_pub@,
                hello.k_s2c@,
                frame@,
                seq![0u8, 0, 0xFF, 1],
            )
        } else {
            &&& final(hub)@ == old(hub)@.inserted(hello.client_id, hello.session(ws, ip, now))
            &&& r matches Welcome::Established(notices) && presence::tells_watchers(
                *keys,
                final(hub)@,
                hello.x_pub,
                true,
                notices@,
            ) && presence::reaches_watchers(
                *keys,
                final(hub)@,
                hello.x_pub,
                presence::presence_bytes(hello.x_pub, true),
                notices@,
            )
        },
{
    match register(keys, hub, hello, ws, ip, now) {
        Registration::Registered => Welcome::Established(
            broadcast_presence(keys, hub, &hello.x_pub, true),
        ),
        Registration::Taken(frame) => Welcome::Taken(frame),
    }
}

/// What to do about a message of an established session.
pub enum Step {
    /// Nothing more.
    Done,
    /// Answer a WebSocket ping with these bytes.
    Pong(Vec<u8>),
    /// Answer the plain-text keepalive with `KEEPALIVE_PONG`.
    TextPong,
    /// Close the connection and `disconnect`.
    Close,
    /// Do what came of a frame; an error is only logged.
    Route(Result<Action, RouteError>),
    /// The message is of a kind that means nothing here.
    Ignored,
}

/// The message shows that the client is alive. A plain-text ping does not
/// count, nor does any text but the answer to one.
pub open spec fn shows_life(msg: ClientMessage) -> bool {
    match msg {
        ClientMessage::Ping(_) => true,
        ClientMessage::Pong => true,
        ClientMessage::Text(text) => text@ == KEEPALIVE_PONG@,
        ClientMessage::Binary(_) => true,
        ClientMessage::Close => false,
        ClientMessage::Other => false,
    }
}

/// The registry once the sender of a message counts as heard.
pub open spec fn heard(hub: HubView, id: ClientId, msg: ClientMessage, now: u128) -> HubView {
    if shows_life(msg) {
        hub.touched(id, now)
    } else {
        hub
    }
}

/// The registry after a message of an established session.
pub open spec fn message_hub(
    keys: ServerKeys,
    hub: HubView,
    id: ClientId,
    k_c2s: Seq<u8>,
    msg: ClientMessage,
    now: u128,
) -> HubView {
    let hub = heard(hub, id, msg, now);
    match msg {
        ClientMessage::Binary(b) => routing::route_hub(keys, hub, id, k_c2s, b@),
        _ => hub,
    }
}

/// `step` is what is to be done about a message of an established session.
pub open spec fn is_step(
    keys: ServerKeys,
    hub: HubView,
    id: ClientId,
    k_c2s: Seq<u8>,
    msg: ClientMessage,
    now: u128,
    step: Step,
) -> bool {
    match msg {
        ClientMessage::Ping(b) => step matches Step::Pong(p) && p@ == b@,
        ClientMessage::Pong => step == Step::Done,
        ClientMessage::Text(text) => step == if text@ == KEEPALIVE_PING@ {
            Step::TextPong
        } else {
            Step::Done
        },
        ClientMessage::Binary(b) => step matches Step::Route(r) && routing::carries_out(
            keys,
            routing::route_plan(keys, heard(hub, id, msg, now), id, k_c2s, b@),
            r,
        ),
        ClientMessage::Close => step == Step::Close,
        ClientMessage::Other => step == Step::Ignored,
    }
}

/// Takes in a message of an established session.
pub fn on_message(
    keys: &ServerKeys,
    hub: &mut HubState,
    id: &ClientId,
    k_c2s: &[u8; 32],
    msg: ClientMessage,
    now: u128,
) -> (r: Step)
    requires
        old(hub).wf(),
        msg matches ClientMessage::Binary(b) ==> routing::frame_answers(b@.len() as int),
    ensures
        final(hub).wf(),
        final(hub)@ == message_hub(*keys, old(hub)@, *id, k_c2s@, msg, now),
        is_step(*keys, old(hub)@, *id, k_c2s@, msg, now, r),
        laws::takes_in(*keys, old(hub)@, *id, k_c2s@, msg, now, r, final(hub)@),
{
    let ghost taken = msg;
    proof {
        reveal_strlit("ping");
        reveal_strlit("pong");
        assert(KEEPALIVE_PING@[1] != KEEPALIVE_PONG@[1]);
    }
    let step: Step = match msg {
        ClientMessage::Ping(b) => {
            hub.touch(id, now);
            Step::Pong(b)
        },
        ClientMessage::Pong => {
            hub.touch(id, now);
            Step::Done
        },
        ClientMessage::Text(text) => {
            if text == KEEPALIVE_PONG.to_owned() {
                hub.touch(id, now);
                Step::Done
            } else if text == KEEPALIVE_PING.to_owned() {
                Step::TextPong
            } else {
                Step::Done
            }
        },
        ClientMessage::Binary(bytes) => {
            hub.touch(id, now);
            Step::Route(handle_routing_frame(keys, hub, id, k_c2s, &bytes))
        },
        ClientMessage::Close => Step::Close,
        ClientMessage::Other => Step::Ignored,
    };
    proof {
        laws::law_message_is_taken_in(*keys, old(hub)@, *id, k_c2s@, taken, now, step);
    }
    step
}

} // verus!
