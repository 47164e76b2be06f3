//! Frames of an established session: passing them on to their recipient, and
//! the commands that a client gives the server itself.

use vstd::prelude::*;

use crate::bytes;
use crate::bytes::{append, array_at, same_bytes};
use crate::crypto25519;
use crate::crypto25519::{verify_and_decrypt, xor_header_8, CryptoError};
use crate::frames;
use crate::frames::{
    build_server_frame, pack_inner, parse_x_list, CMD_ERROR, CMD_INTRODUCE, CMD_INTRO_FROM,
    CMD_PEER_ONLINE, CMD_PUSH_REGISTER, CMD_SUBSCRIBE, CMD_UNSUBSCRIBE, CMD_WAKE,
    ERR_RECIPIENT_OFFLINE, ROUTING_MIN_LEN,
};
use crate::hub::{ClientSession, HubState, HubView};
use crate::index::{ClientId, XPub};
use crate::laws;
use crate::primitives;
use crate::server_keys::ServerKeys;

verus! {

/// Why a frame leads to nothing.
#[derive(Debug, Clone, Copy, PartialEq, Eq, Structural)]
pub enum RouteError {
    TooShort,
    SelfAddressed,
    Crypto(CryptoError),
}

impl From<CryptoError> for RouteError {
    fn from(e: CryptoError) -> (r: Self) {
        RouteError::Crypto(e)
    }
}

impl vstd::std_specs::convert::FromSpecImpl<CryptoError> for RouteError {
    open spec fn obeys_from_spec() -> bool {
        true
    }

    open spec fn from_spec(e: CryptoError) -> Self {
        RouteError::Crypto(e)
    }
}

/// What to do about a frame.
pub enum Action {
    Nothing,
    /// Send the frame back on the connection at hand.
    Reply(Vec<u8>),
    /// Send the frame on another connection; nothing comes of it where that
    /// fails.
    Send(u64, Vec<u8>),
    /// Send the frame on the recipient's connection. Where that fails, the
    /// recipient counts as offline: `send_offline_error` with the recipient
    /// and the nonce.
    Forward { to: u64, frame: Vec<u8>, target_id: ClientId, nonce_24: [u8; 24] },
}

/// What is to be done about a frame, with a message of the server's as it is
/// before it is sealed.
pub enum Plan {
    Fail(RouteError),
    Quiet,
    Reply { x_pub: XPub, k_s2c: [u8; 32], inner: Seq<u8> },
    Send { to: u64, x_pub: XPub, k_s2c: [u8; 32], inner: Seq<u8> },
    Forward { to: u64, frame: Seq<u8>, target_id: ClientId, nonce_24: Seq<u8> },
}

/// What comes of sealing `inner` for a client: a message that is too long for
/// the cipher is an error.
pub open spec fn seals(
    keys: ServerKeys,
    x_pub: XPub,
    k_s2c: [u8; 32],
    inner: Seq<u8>,
    sealed: Result<Seq<u8>, RouteError>,
) -> bool {
    if inner.len() <= primitives::AEAD_MAX_LEN {
        sealed matches Ok(frame) && frames::is_server_frame(keys, x_pub@, k_s2c@, inner, frame)
    } else {
        sealed == Err::<Seq<u8>, RouteError>(RouteError::Crypto(CryptoError::BadCiphertext))
    }
}

/// `r` does what is planned; a message of the server's is sealed for its
/// recipient.
pub open spec fn carries_out(keys: ServerKeys, plan: Plan, r: Result<Action, RouteError>) -> bool {
    match plan {
        Plan::Fail(e) => r == Err::<Action, RouteError>(e),
        Plan::Quiet => r == Ok::<Action, RouteError>(Action::Nothing),
        Plan::Reply { x_pub, k_s2c, inner } => match r {
            Ok(Action::Reply(frame)) => seals(keys, x_pub, k_s2c, inner, Ok(frame@)),
            Ok(_) => false,
            Err(e) => seals(keys, x_pub, k_s2c, inner, Err(e)),
        },
        Plan::Send { to, x_pub, k_s2c, inner } => match r {
            Ok(Action::Send(conn, frame)) => conn == to && seals(
                keys,
                x_pub,
                k_s2c,
                inner,
                Ok(frame@),
            ),
            Ok(_) => false,
            Err(e) => seals(keys, x_pub, k_s2c, inner, Err(e)),
        },
        Plan::Forward { to, frame, target_id, nonce_24 } => {
            &&& r matches Ok(Action::Forward { to: conn, frame: f, target_id: t, nonce_24: n })
            &&& conn == to
            &&& f@ == frame
            &&& t == target_id
            &&& n@ == nonce_24
        },
    }
}

/// The cipher answers to a message of this length, and the result fits in
/// memory.
pub open spec fn sealable(len: int) -> bool {
    primitives::aead_answers(len) && len + 16 <= isize::MAX
}

/// The message that is planned, if there is one, is one that the cipher
/// answers to.
pub open spec fn answerable(plan: Plan) -> bool {
    match plan {
        Plan::Reply { inner, .. } => sealable(inner.len() as int),
        Plan::Send { inner, .. } => sealable(inner.len() as int),
        _ => true,
    }
}

/// The cipher answers to whatever a frame of this length holds, and to
/// whatever the server makes of it. The longest message that comes of a frame
/// is an introduction, with 56 bytes less.
pub open spec fn frame_answers(len: int) -> bool {
    &&& len <= isize::MAX
    &&& len - 56 <= primitives::AEAD_MAX_LEN || primitives::AEAD_MAX_LEN + 64 <= len
        - ROUTING_MIN_LEN
}

// ---------------------------------------------------------------------------
// Errors about recipients
// ---------------------------------------------------------------------------

/// The sender, if it is still there, is told that the recipient of the frame
/// with this nonce is offline.
pub open spec fn offline_plan(
    hub: HubView,
    sender_id: ClientId,
    target_id: ClientId,
    nonce_24: Seq<u8>,
) -> Plan {
    if hub.sessions.contains_key(sender_id) {
        Plan::Reply {
            x_pub: hub.sessions[sender_id].x_pub,
            k_s2c: hub.sessions[sender_id].k_s2c,
            inner: frames::inner_bytes(
                0,
                CMD_ERROR,
                seq![ERR_RECIPIENT_OFFLINE] + target_id@ + nonce_24,
            ),
        }
    } else {
        Plan::Quiet
    }
}

/// Tells the sender of a frame that its recipient is offline.
pub fn send_offline_error(
    keys: &ServerKeys,
    hub: &HubState,
    sender_id: &ClientId,
    target_id: &ClientId,
    orig_nonce: &[u8; 24],
) -> (r: Result<Action, RouteError>)
    ensures
        carries_out(*keys, offline_plan(hub@, *sender_id, *target_id, orig_nonce@), r),
        laws::reports_absence(*keys, hub@, *sender_id, *target_id, orig_nonce@, r),
{
    proof {
        laws::lemma_absences_are_reported(*keys, hub@, *sender_id, *target_id, orig_nonce@);
    }
    let sender: &ClientSession = match hub.get(sender_id) {
        Some(s) => s,
        None => {
            return Ok(Action::Nothing);
        },
    };
    let mut body: Vec<u8> = Vec::new();
    body.push(ERR_RECIPIENT_OFFLINE);
    append(&mut body, target_id);
    append(&mut body, orig_nonce);
    assert(body@ =~= seq![ERR_RECIPIENT_OFFLINE] + target_id@ + orig_nonce@);
    let inner: Vec<u8> = pack_inner(0, CMD_ERROR, &body);
    match build_server_frame(keys, &sender.x_pub, &sender.k_s2c, &inner) {
        Ok(frame) => Ok(Action::Reply(frame)),
        Err(e) => Err(RouteError::from(e)),
    }
}

// ---------------------------------------------------------------------------
// Presence
// ---------------------------------------------------------------------------

/// The points in a list that are online, in the order of the list.
pub open spec fn online_among(hub: HubView, xs: Seq<XPub>) -> Seq<XPub> {
    xs.filter(|x: XPub| hub.online.contains(x))
}

/// A subscriber is told at once who of the listed is online already.
pub open spec fn subscribe_plan(
    hub: HubView,
    x_pub: XPub,
    k_s2c: [u8; 32],
    body: Seq<u8>,
) -> Plan {
    if body.len() % 32 != 0 {
        Plan::Fail(RouteError::TooShort)
    } else if online_among(hub, frames::x_list(body)).len() == 0 {
        Plan::Quiet
    } else {
        Plan::Reply {
            x_pub,
            k_s2c,
            inner: frames::inner_bytes(
                0,
                CMD_PEER_ONLINE,
                frames::concat_xs(online_among(hub, frames::x_list(body))),
            ),
        }
    }
}

/// The registry after `me` has subscribed to the listed points.
pub open spec fn subscribed(hub: HubView, me: ClientId, xs: Seq<XPub>) -> HubView {
    HubView {
        watches: hub.watches.union(
            Set::new(|w: (ClientId, XPub)| w.0 == me && xs.contains(w.1)),
        ),
        ..hub
    }
}

/// The registry after `me` has taken back the listed points.
pub open spec fn unsubscribed_from(hub: HubView, me: ClientId, xs: Seq<XPub>) -> HubView {
    HubView {
        watches: hub.watches.filter(
            |w: (ClientId, XPub)| !(w.0 == me && xs.contains(w.1)),
        ),
        ..hub
    }
}

/// The registry after a SUBSCRIBE with this body.
pub open spec fn subscribe_hub(hub: HubView, me: ClientId, body: Seq<u8>) -> HubView {
    if body.len() % 32 != 0 {
        hub
    } else {
        subscribed(hub, me, frames::x_list(body))
    }
}

/// The registry after an UNSUBSCRIBE with this body.
pub open spec fn unsubscribe_hub(hub: HubView, me: ClientId, body: Seq<u8>) -> HubView {
    if body.len() % 32 != 0 {
        hub
    } else {
        unsubscribed_from(hub, me, frames::x_list(body))
    }
}

/// What an UNSUBSCRIBE with this body leads to.
pub open spec fn unsubscribe_plan(body: Seq<u8>) -> Plan {
    if body.len() % 32 != 0 {
        Plan::Fail(RouteError::TooShort)
    } else {
        Plan::Quiet
    }
}

/// An answer to a subscription is no longer than the subscription.
proof fn lemma_subscribe_answer_len(hub: HubView, xs: Seq<XPub>)
    ensures
        frames::concat_xs(online_among(hub, xs)).len() <= 32 * xs.len(),
    decreases xs.len(),
{
    frames::law_x_list_reads_back(online_among(hub, xs));
    reveal(Seq::filter);
    if xs.len() > 0 {
        lemma_subscribe_answer_len(hub, xs.drop_last());
        frames::law_x_list_reads_back(online_among(hub, xs.drop_last()));
    }
}

/// SUBSCRIBE: the sender wants to know of the listed public points. It hears
/// at once of those that are online.
pub fn apply_subscribe(
    keys: &ServerKeys,
    hub: &mut HubState,
    sender_id: &ClientId,
    sender_x_pub: &XPub,
    sender_k_s2c: &[u8; 32],
    body: &[u8],
) -> (r: Result<Action, RouteError>)
    requires
        old(hub).wf(),
        body@.len() + 3 <= primitives::AEAD_MAX_LEN && body@.len() + 19 <= isize::MAX || answerable(
            subscribe_plan(old(hub)@, *sender_x_pub, *sender_k_s2c, body@),
        ),
    ensures
        final(hub).wf(),
        final(hub)@ == subscribe_hub(old(hub)@, *sender_id, body@),
        carries_out(*keys, subscribe_plan(old(hub)@, *sender_x_pub, *sender_k_s2c, body@), r),
        laws::subscribes(
            *keys,
            old(hub)@,
            *sender_id,
            *sender_x_pub,
            *sender_k_s2c,
            body@,
            r,
            final(hub)@,
        ),
{
    let xs: Vec<XPub> = match parse_x_list(body) {
        Some(xs) => xs,
        None => {
            return Err(RouteError::TooShort);
        },
    };
    let mut already_online: Vec<u8> = Vec::new();
    let mut i: usize = 0;
    proof {
        assert(xs@.take(0) =~= Seq::empty());
        assert(hub@ =~= subscribed(old(hub)@, *sender_id, xs@.take(0)));
        reveal(Seq::filter);
    }
    while i < xs.len()
        invariant
            i <= xs@.len(),
            hub.wf(),
            hub@ == subscribed(old(hub)@, *sender_id, xs@.take(i as int)),
            already_online@ == frames::concat_xs(online_among(old(hub)@, xs@.take(i as int))),
            already_online@.len() == 32 * online_among(old(hub)@, xs@.take(i as int)).len(),
        decreases xs.len() - i,
    {
        proof {
            bytes::lemma_take_step(xs@, i as int);
            reveal(Seq::filter);
            let next = xs@.take(i + 1);
            assert(next.drop_last() =~= xs@.take(i as int));
            assert(online_among(old(hub)@, next) =~= if old(hub)@.online.contains(xs@[i as int]) {
                online_among(old(hub)@, xs@.take(i as int)).push(xs@[i as int])
            } else {
                online_among(old(hub)@, xs@.take(i as int))
            });
            let some = online_among(old(hub)@, xs@.take(i as int)).push(xs@[i as int]);
            assert(some.drop_last() =~= online_among(old(hub)@, xs@.take(i as int)));
        }
        if hub.add_subscription(*sender_id, xs[i]) {
            append(&mut already_online, &xs[i]);
        }
        proof {
            assert(hub@ =~= subscribed(old(hub)@, *sender_id, xs@.take(i + 1)));
        }
        i = i + 1;
    }
    proof {
        assert(xs@.take(xs@.len() as int) =~= xs@);
        lemma_subscribe_answer_len(old(hub)@, xs@);
    }
    let r: Result<Action, RouteError> = if already_online.is_empty() {
        Ok(Action::Nothing)
    } else {
        let inner: Vec<u8> = pack_inner(0, CMD_PEER_ONLINE, &already_online);
        match build_server_frame(keys, sender_x_pub, sender_k_s2c, &inner) {
            Ok(frame) => Ok(Action::Reply(frame)),
            Err(e) => Err(RouteError::from(e)),
        }
    };
    proof {
        laws::law_subscription_covers_the_list(
            *keys,
            old(hub)@,
            *sender_id,
            *sender_x_pub,
            *sender_k_s2c,
            body@,
            r,
        );
    }
    r
}

/// UNSUBSCRIBE: the sender no longer wants to know of the listed public
/// points.
pub fn apply_unsubscribe(hub: &mut HubState, sender_id: &ClientId, body: &[u8]) -> (r: Result<
    Action,
    RouteError,
>)
    requires
        old(hub).wf(),
    ensures
        final(hub).wf(),
        final(hub)@ == unsubscribe_hub(old(hub)@, *sender_id, body@),
        r == (if body@.len() % 32 != 0 {
            Err::<Action, RouteError>(RouteError::TooShort)
        } else {
            Ok(Action::Nothing)
        }),
        laws::unsubscribes(old(hub)@, *sender_id, body@, r, final(hub)@),
{
    let xs: Vec<XPub> = match parse_x_list(body) {
        Some(xs) => xs,
        None => {
            return Err(RouteError::TooShort);
        },
    };
    let mut i: usize = 0;
    assert(hub@ =~= unsubscribed_from(old(hub)@, *sender_id, xs@.take(0)));
    while i < xs.len()
        invariant
            i <= xs@.len(),
            hub.wf(),
            hub@ == unsubscribed_from(old(hub)@, *sender_id, xs@.take(i as int)),
        decreases xs.len() - i,
    {
        hub.remove_subscription(sender_id, &xs[i]);
        proof {
            bytes::lemma_take_step(xs@, i as int);
            assert(hub@ =~= unsubscribed_from(old(hub)@, *sender_id, xs@.take(i + 1)));
        }
        i = i + 1;
    }
    proof {
        assert(xs@.take(xs@.len() as int) =~= xs@);
        laws::lemma_unsubscription_covers_the_list(old(hub)@, *sender_id, body@);
    }
    Ok(Action::Nothing)
}

// ---------------------------------------------------------------------------
// Introductions and push notifications
// ---------------------------------------------------------------------------

/// The target of an introduction, if it is connected, is sent the sender's
/// nickname and, behind it, the sender's public keys.
pub open spec fn introduce_plan(hub: HubView, sender_id: ClientId, body: Seq<u8>) -> Plan {
    if body.len() < 8 {
        Plan::Fail(RouteError::TooShort)
    } else {
        let target_id = frames::to_id(body.take(8));
        if hub.sessions.contains_key(sender_id) && hub.sessions.contains_key(target_id) {
            Plan::Send {
                to: hub.sessions[target_id].ws,
                x_pub: hub.sessions[target_id].x_pub,
                k_s2c: hub.sessions[target_id].k_s2c,
                inner: frames::inner_bytes(
                    0,
                    CMD_INTRO_FROM,
                    body.skip(8) + hub.sessions[sender_id].x_pub@ + hub.sessions[sender_id].ed_pub@,
                ),
            }
        } else {
            Plan::Quiet
        }
    }
}

/// INTRODUCE: the body is `[ target_id : 8 ] [ nickname ]`. The keys that the
/// target is sent are those of the sender's own session, so that no client can
/// introduce another.
pub fn apply_introduce(keys: &ServerKeys, hub: &HubState, sender_id: &ClientId, body: &[u8]) -> (r:
    Result<Action, RouteError>)
    requires
        sealable(body@.len() + 59int),
    ensures
        carries_out(*keys, introduce_plan(hub@, *sender_id, body@), r),
        hub@.sessions.contains_key(*sender_id) ==> laws::introduces(
            *keys,
            hub@,
            *sender_id,
            body@,
            r,
        ),
{
    proof {
        laws::lemma_introductions_open(*keys, hub@, *sender_id, body@);
    }
    if body.len() < 8 {
        return Err(RouteError::TooShort);
    }
    let target_id: ClientId = array_at::<8>(body, 0);
    let nickname: &[u8] = vstd::slice::slice_subrange(body, 8, body.len());
    proof {
        assert(target_id@ =~= body@.take(8));
        frames::lemma_to_id(target_id, body@.take(8));
        assert(nickname@ =~= body@.skip(8));
    }
    let sender: &ClientSession = match hub.get(sender_id) {
        Some(s) => s,
        None => {
            return Ok(Action::Nothing);
        },
    };
    let target: &ClientSession = match hub.get(&target_id) {
        Some(s) => s,
        None => {
            return Ok(Action::Nothing);
        },
    };
    let sender_ed_pub: [u8; 32] = sender.ed_pub.to_bytes();
    let mut out_body: Vec<u8> = Vec::new();
    append(&mut out_body, nickname);
    append(&mut out_body, &sender.x_pub);
    append(&mut out_body, &sender_ed_pub);
    assert(out_body@ =~= nickname@ + sender.x_pub@ + sender.ed_pub@);
    let inner: Vec<u8> = pack_inner(0, CMD_INTRO_FROM, &out_body);
    match build_server_frame(keys, &target.x_pub, &target.k_s2c, &inner) {
        Ok(frame) => Ok(Action::Send(target.ws, frame)),
        Err(e) => Err(RouteError::from(e)),
    }
}

/// The notifier, if it is connected, is sent a command with a body.
pub open spec fn notifier_plan(keys: ServerKeys, hub: HubView, cmd: u8, body: Seq<u8>) -> Plan {
    if hub.sessions.contains_key(keys.notifier_id) {
        Plan::Send {
            to: hub.sessions[keys.notifier_id].ws,
            x_pub: hub.sessions[keys.notifier_id].x_pub,
            k_s2c: hub.sessions[keys.notifier_id].k_s2c,
            inner: frames::inner_bytes(0, cmd, body),
        }
    } else {
        Plan::Quiet
    }
}

/// Passes a payload on to the notifier. The server holds no push state; where
/// the notifier is offline the payload is dropped.
pub fn forward_to_notifier(keys: &ServerKeys, hub: &HubState, cmd: u8, body: &[u8]) -> (r: Result<
    Action,
    RouteError,
>)
    requires
        sealable(body@.len() + 3int),
    ensures
        carries_out(*keys, notifier_plan(*keys, hub@, cmd, body@), r),
        laws::notifies(*keys, hub@, seq![0u8, 0, cmd] + body@, r),
{
    proof {
        laws::lemma_notices_open(*keys, hub@, cmd, body@);
    }
    let notifier: &ClientSession = match hub.get(&keys.notifier_id) {
        Some(s) => s,
        None => {
            return Ok(Action::Nothing);
        },
    };
    let inner: Vec<u8> = pack_inner(0, cmd, body);
    match build_server_frame(keys, &notifier.x_pub, &notifier.k_s2c, &inner) {
        Ok(frame) => Ok(Action::Send(notifier.ws, frame)),
        Err(e) => Err(RouteError::from(e)),
    }
}

/// The notifier is sent the target's identifier and one more byte, if there
/// is one.
pub open spec fn wake_plan(keys: ServerKeys, hub: HubView, body: Seq<u8>) -> Plan {
    if body.len() < 8 {
        Plan::Fail(RouteError::TooShort)
    } else {
        notifier_plan(
            keys,
            hub,
            CMD_WAKE,
            if body.len() <= 9 {
                body
            } else {
                body.take(9)
            },
        )
    }
}

/// WAKE: the body is `[ target_id : 8 ]`, with an optional byte behind it that
/// tells a message from a call.
pub fn apply_wake(keys: &ServerKeys, hub: &HubState, body: &[u8]) -> (r: Result<Action, RouteError>)
    ensures
        carries_out(*keys, wake_plan(*keys, hub@, body@), r),
        laws::wakes(*keys, hub@, body@, r),
{
    if body.len() < 8 {
        return Err(RouteError::TooShort);
    }
    let n: usize = if body.len() < 9 {
        body.len()
    } else {
        9
    };
    let head: &[u8] = vstd::slice::slice_subrange(body, 0, n);
    assert(head@ =~= if body@.len() <= 9 {
        body@
    } else {
        body@.take(9)
    });
    let r: Result<Action, RouteError> = forward_to_notifier(keys, hub, CMD_WAKE, head);
    proof {
        laws::law_wake_keeps_its_kind(*keys, hub@, body@, r);
    }
    r
}

/// The notifier is sent the sender's identifier and the body.
pub open spec fn push_register_plan(
    keys: ServerKeys,
    hub: HubView,
    sender_id: ClientId,
    body: Seq<u8>,
) -> Plan {
    if body.len() == 0 {
        Plan::Fail(RouteError::TooShort)
    } else {
        notifier_plan(keys, hub, CMD_PUSH_REGISTER, sender_id@ + body)
    }
}

/// PUSH_REGISTER: the body is `[ kind ] [ token ]`. The identifier in front of
/// it is that of the sender's own session, so that it cannot be forged.
pub fn apply_push_register(
    keys: &ServerKeys,
    hub: &HubState,
    sender_id: &ClientId,
    body: &[u8],
) -> (r: Result<Action, RouteError>)
    requires
        sealable(body@.len() + 11int),
    ensures
        carries_out(*keys, push_register_plan(*keys, hub@, *sender_id, body@), r),
        laws::registers_push(*keys, hub@, *sender_id, body@, r),
{
    if body.is_empty() {
        return Err(RouteError::TooShort);
    }
    let mut out: Vec<u8> = Vec::new();
    append(&mut out, sender_id);
    append(&mut out, body);
    assert(out@ =~= sender_id@ + body@);
    let r: Result<Action, RouteError> = forward_to_notifier(keys, hub, CMD_PUSH_REGISTER, &out);
    proof {
        laws::law_push_registration_opens_at_the_notifier(*keys, hub@, *sender_id, body@, r);
    }
    r
}

// ---------------------------------------------------------------------------
// Frames
// ---------------------------------------------------------------------------

/// What a command to the server leads to; one that the server does not know
/// leads to nothing.
pub open spec fn command_plan(
    keys: ServerKeys,
    hub: HubView,
    sender_id: ClientId,
    x_pub: XPub,
    k_s2c: [u8; 32],
    cmd: u8,
    body: Seq<u8>,
) -> Plan {
    if cmd == CMD_SUBSCRIBE {
        subscribe_plan(hub, x_pub, k_s2c, body)
    } else if cmd == CMD_UNSUBSCRIBE {
        unsubscribe_plan(body)
    } else if cmd == CMD_INTRODUCE {
        introduce_plan(hub, sender_id, body)
    } else if cmd == CMD_WAKE {
        wake_plan(keys, hub, body)
    } else if cmd == CMD_PUSH_REGISTER {
        push_register_plan(keys, hub, sender_id, body)
    } else {
        Plan::Quiet
    }
}

/// The registry after a command to the server.
pub open spec fn command_hub(hub: HubView, sender_id: ClientId, cmd: u8, body: Seq<u8>) -> HubView {
    if cmd == CMD_SUBSCRIBE {
        subscribe_hub(hub, sender_id, body)
    } else if cmd == CMD_UNSUBSCRIBE {
        unsubscribe_hub(hub, sender_id, body)
    } else {
        hub
    }
}

/// What the server reads in a packet that a connected client sent it.
pub open spec fn server_reads(
    keys: ServerKeys,
    sender: ClientSession,
    packet: Seq<u8>,
) -> Result<Seq<u8>, CryptoError> {
    crypto25519::open_packet(
        packet,
        primitives::x25519(keys.x25519_secret@, sender.x_pub@),
        sender.ed_pub@,
    )
}

/// What a packet to the server leads to. It counts only where it is signed and
/// encrypted with the keys of the sender's session.
pub open spec fn server_bound_plan(
    keys: ServerKeys,
    hub: HubView,
    sender_id: ClientId,
    packet: Seq<u8>,
) -> Plan {
    if !hub.sessions.contains_key(sender_id) {
        Plan::Quiet
    } else {
        let sender = hub.sessions[sender_id];
        match server_reads(keys, sender, packet) {
            Err(e) => Plan::Fail(RouteError::Crypto(e)),
            Ok(inner) => if inner.len() < 3 {
                Plan::Fail(RouteError::TooShort)
            } else {
                command_plan(
                    keys,
                    hub,
                    sender_id,
                    sender.x_pub,
                    sender.k_s2c,
                    inner[2],
                    inner.skip(3),
                )
            },
        }
    }
}

/// The registry after a packet to the server.
pub open spec fn server_bound_hub(
    keys: ServerKeys,
    hub: HubView,
    sender_id: ClientId,
    packet: Seq<u8>,
) -> HubView {
    if !hub.sessions.contains_key(sender_id) {
        hub
    } else {
        match server_reads(keys, hub.sessions[sender_id], packet) {
            Err(_) => hub,
            Ok(inner) => if inner.len() < 3 {
                hub
            } else {
                command_hub(hub, sender_id, inner[2], inner.skip(3))
            },
        }
    }
}

/// Verifies and decrypts a packet to the server, and does what the command in
/// it says.
pub fn handle_server_bound(
    keys: &ServerKeys,
    hub: &mut HubState,
    sender_id: &ClientId,
    packet: &[u8],
) -> (r: Result<Action, RouteError>)
    requires
        old(hub).wf(),
        frame_answers(packet@.len() + 8int),
    ensures
        final(hub).wf(),
        final(hub)@ == server_bound_hub(*keys, old(hub)@, *sender_id, packet@),
        carries_out(*keys, server_bound_plan(*keys, old(hub)@, *sender_id, packet@), r),
        laws::handles(*keys, old(hub)@, *sender_id, packet@, r, final(hub)@),
{
    proof {
        laws::lemma_packets_are_handled(*keys, hub@, *sender_id, packet@);
    }
    let (x_pub, ed_pub, k_s2c) = match hub.get(sender_id) {
        Some(s) => (s.x_pub, s.ed_pub, s.k_s2c),
        None => {
            return Ok(Action::Nothing);
        },
    };
    let plaintext: Vec<u8> = match verify_and_decrypt(
        packet,
        &keys.x25519_secret,
        &x_pub,
        &ed_pub,
    ) {
        Ok(p) => p,
        Err(e) => {
            return Err(RouteError::from(e));
        },
    };
    if plaintext.len() < 3 {
        return Err(RouteError::TooShort);
    }
    let cmd: u8 = plaintext[2];
    let body: &[u8] = vstd::slice::slice_subrange(plaintext.as_slice(), 3, plaintext.len());
    assert(body@ =~= plaintext@.skip(3));
    if cmd == CMD_SUBSCRIBE {
        apply_subscribe(keys, hub, sender_id, &x_pub, &k_s2c, body)
    } else if cmd == CMD_UNSUBSCRIBE {
        apply_unsubscribe(hub, sender_id, body)
    } else if cmd == CMD_INTRODUCE {
        apply_introduce(keys, hub, sender_id, body)
    } else if cmd == CMD_WAKE {
        apply_wake(keys, hub, body)
    } else if cmd == CMD_PUSH_REGISTER {
        apply_push_register(keys, hub, sender_id, body)
    } else {
        Ok(Action::Nothing)
    }
}

/// Whom a frame from a client is for.
pub open spec fn frame_recipient(frame: Seq<u8>, k_c2s: Seq<u8>) -> ClientId {
    frames::to_id(crypto25519::xor_header(k_c2s, frame.subrange(8, 32), frame.take(8)))
}

/// A frame as it is delivered: the header names the sender under the
/// recipient's key, and the rest is untouched.
pub open spec fn delivered(frame: Seq<u8>, sender_id: ClientId, k_s2c: Seq<u8>) -> Seq<u8> {
    crypto25519::xor_header(k_s2c, frame.subrange(8, 32), sender_id@) + frame.skip(8)
}

/// What a frame of an established session leads to.
pub open spec fn route_plan(
    keys: ServerKeys,
    hub: HubView,
    sender_id: ClientId,
    k_c2s: Seq<u8>,
    frame: Seq<u8>,
) -> Plan {
    if frame.len() < ROUTING_MIN_LEN {
        Plan::Fail(RouteError::TooShort)
    } else {
        let to_id = frame_recipient(frame, k_c2s);
        if to_id@ == frames::zero_id() {
            server_bound_plan(keys, hub, sender_id, frame.skip(8))
        } else if hub.sessions.contains_key(to_id) {
            Plan::Forward {
                to: hub.sessions[to_id].ws,
                frame: delivered(frame, sender_id, hub.sessions[to_id].k_s2c@),
                target_id: to_id,
                nonce_24: frame.subrange(8, 32),
            }
        } else {
            offline_plan(hub, sender_id, to_id, frame.subrange(8, 32))
        }
    }
}

/// The registry after a frame of an established session.
pub open spec fn route_hub(
    keys: ServerKeys,
    hub: HubView,
    sender_id: ClientId,
    k_c2s: Seq<u8>,
    frame: Seq<u8>,
) -> HubView {
    if frame.len() >= ROUTING_MIN_LEN && frame_recipient(frame, k_c2s)@ == frames::zero_id() {
        server_bound_hub(keys, hub, sender_id, frame.skip(8))
    } else {
        hub
    }
}

/// Decides about a frame of an established session: it goes to the server
/// itself, to the recipient that its header names, or nowhere, of which the
/// sender is told.
pub fn handle_routing_frame(
    keys: &ServerKeys,
    hub: &mut HubState,
    sender_id: &ClientId,
    sender_k_c2s: &[u8; 32],
    bytes: &[u8],
) -> (r: Result<Action, RouteError>)
    requires
        old(hub).wf(),
        frame_answers(bytes@.len() as int),
    ensures
        final(hub).wf(),
        final(hub)@ == route_hub(*keys, old(hub)@, *sender_id, sender_k_c2s@, bytes@),
        carries_out(*keys, route_plan(*keys, old(hub)@, *sender_id, sender_k_c2s@, bytes@), r),
        laws::routes(
            *keys,
            old(hub)@,
            *sender_id,
            sender_k_c2s@,
            bytes@,
            r,
            final(hub)@,
        ),
{
    proof {
        laws::lemma_frames_are_routed(*keys, hub@, *sender_id, sender_k_c2s@, bytes@);
    }
    if bytes.len() < ROUTING_MIN_LEN {
        return Err(RouteError::TooShort);
    }
    let nonce_24: [u8; 24] = array_at::<24>(bytes, 8);
    let mut to_id: ClientId = array_at::<8>(bytes, 0);
    let rest: &[u8] = vstd::slice::slice_subrange(bytes, 8, bytes.len());
    proof {
        assert(to_id@ =~= bytes@.take(8));
        assert(rest@ =~= bytes@.skip(8));
    }
    xor_header_8(sender_k_c2s, &nonce_24, &mut to_id);
    proof {
        frames::lemma_to_id(to_id, to_id@);
    }
    let server: ClientId = [0u8; 8];
    assert(server@ =~= frames::zero_id());
    if same_bytes::<8>(&to_id, &server) {
        return handle_server_bound(keys, hub, sender_id, rest);
    }
    match hub.get(&to_id) {
        Some(recipient) => {
            let mut header: ClientId = *sender_id;
            xor_header_8(&recipient.k_s2c, &nonce_24, &mut header);
            let mut frame: Vec<u8> = Vec::new();
            append(&mut frame, &header);
            append(&mut frame, rest);
            assert(frame@ =~= delivered(bytes@, *sender_id, recipient.k_s2c@));
            Ok(Action::Forward { to: recipient.ws, frame, target_id: to_id, nonce_24 })
        },
        None => send_offline_error(keys, hub, sender_id, &to_id, &nonce_24),
    }
}

} // verus!
