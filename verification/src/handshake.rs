//! The first frame of a connection: reading it, answering it, and registering
//! the client.

use vstd::prelude::*;

use crate::bytes::{append, array_at};
use crate::crypto25519;
use crate::crypto25519::{aead_decrypt, derive_session_keys, x25519_shared};
use crate::frames;
use crate::frames::{
    build_server_frame, derive_client_id, pack_inner, split_aead_packet, CMD_ERROR,
    CMD_HANDSHAKE_OK, CMD_HANDSHAKE_REQUEST, ERR_BAD_VERSION, ERR_ID_IN_USE, HANDSHAKE_MIN_LEN,
    PROTOCOL_VERSION,
};
use crate::hub::{ClientSession, HubState, HubView};
use crate::index::{ClientId, XPub};
use crate::keys::VerifyingKey;
use crate::messages::ClientMessage;
use crate::primitives;
use crate::server_keys::ServerKeys;

verus! {

/// Why a first frame leads to nothing but a closed connection.
#[derive(Debug, Clone, Copy, PartialEq, Eq, Structural)]
pub enum HandshakeError {
    /// The first message is no binary one, or there is none.
    NotBinary,
    TooShort,
    /// The packet does not decrypt under the secret shared with the point in
    /// front of it.
    BadCiphertext,
    /// The decrypted request is too short.
    PlaintextTooShort,
    /// The decrypted request carries another command.
    UnexpectedCommand(u8),
    /// The request names an Ed25519 key that is none.
    BadKey,
    /// The packet is not signed with the key that the request names.
    BadSignature,
}

/// What a handshake request says.
pub struct HelloView {
    pub x_pub: Seq<u8>,
    pub ed_pub: Seq<u8>,
    pub version: u8,
    /// The secret that the server and the client share.
    pub shared: Seq<u8>,
}

/// What a first frame says to the server with this X25519 secret.
///
/// The frame is `[ x_pub : 32 ] [ nonce : 24 ] [ ciphertext ] [ signature : 64 ]`,
/// and the ciphertext opens to
/// `[ message_id : u16 LE ] [ cmd ] [ ed_pub : 32 ] [ version ]`, of which
/// anything behind the version is ignored. The key that verifies the
/// signature comes inside the ciphertext, so the decryption is tried first.
pub open spec fn read_hello(x25519_secret: Seq<u8>, first: Seq<u8>) -> Result<
    HelloView,
    HandshakeError,
> {
    if first.len() < HANDSHAKE_MIN_LEN {
        Err(HandshakeError::TooShort)
    } else {
        let x_pub = first.take(32);
        let nonce = first.subrange(32, 56);
        let ciphertext = first.subrange(56, first.len() - 64);
        let signature = first.skip(first.len() - 64);
        let shared = primitives::x25519(x25519_secret, x_pub);
        match primitives::aead_opened(shared, nonce, ciphertext) {
            None => Err(HandshakeError::BadCiphertext),
            Some(plaintext) => if plaintext.len() < 36 {
                Err(HandshakeError::PlaintextTooShort)
            } else if plaintext[2] != CMD_HANDSHAKE_REQUEST {
                Err(HandshakeError::UnexpectedCommand(plaintext[2]))
            } else if !primitives::ed25519_key_valid(plaintext.subrange(3, 35)) {
                Err(HandshakeError::BadKey)
            } else if !primitives::ed25519_verifies(
                plaintext.subrange(3, 35),
                nonce + ciphertext,
                signature,
            ) {
                Err(HandshakeError::BadSignature)
            } else {
                Ok(
                    HelloView {
                        x_pub,
                        ed_pub: plaintext.subrange(3, 35),
                        version: plaintext[35],
                        shared,
                    },
                )
            },
        }
    }
}

/// A client that has proved who it is.
pub struct ClientHello {
    pub client_id: ClientId,
    pub x_pub: XPub,
    pub ed_pub: VerifyingKey,
    pub version: u8,
    pub k_c2s: [u8; 32],
    pub k_s2c: [u8; 32],
}

impl ClientHello {
    /// This is the client of the request `view`.
    pub open spec fn is(self, view: HelloView) -> bool {
        &&& self.x_pub@ == view.x_pub
        &&& self.client_id == frames::client_id(self.x_pub)
        &&& self.ed_pub@ == view.ed_pub
        &&& self.version == view.version
        &&& self.k_c2s@ == crypto25519::route_key_c2s(view.shared)
        &&& self.k_s2c@ == crypto25519::route_key_s2c(view.shared)
    }

    /// Both ends have the same routing keys.
    pub open spec fn shares_keys(self, x25519_secret: Seq<u8>) -> bool {
        crypto25519::routing_keys_agree(x25519_secret, self.x_pub@, self.k_c2s@, self.k_s2c@)
    }

    /// The session of this client, heard just now.
    pub open spec fn session(self, ws: u64, ip: String, now: u128) -> ClientSession {
        ClientSession {
            ws,
            ip,
            x_pub: self.x_pub,
            ed_pub: self.ed_pub,
            k_c2s: self.k_c2s,
            k_s2c: self.k_s2c,
            last_seen: now,
            last_ping: now,
        }
    }
}

/// Reads a first frame.
pub fn read_handshake(keys: &ServerKeys, first: &[u8]) -> (r: Result<ClientHello, HandshakeError>)
    requires
        primitives::aead_answers(first@.len() - HANDSHAKE_MIN_LEN),
    ensures
        match read_hello(keys.x25519_secret@, first@) {
            Ok(view) => r matches Ok(hello) && hello.is(view),
            Err(e) => r == Err::<ClientHello, HandshakeError>(e),
        },
        r matches Ok(hello) ==> hello.shares_keys(keys.x25519_secret@),
{
    if first.len() < HANDSHAKE_MIN_LEN {
        return Err(HandshakeError::TooShort);
    }
    let x_pub: XPub = array_at::<32>(first, 0);
    let packet: &[u8] = vstd::slice::slice_subrange(first, 32, first.len());
    let (nonce, ciphertext, signature) = match split_aead_packet(packet) {
        Some(parts) => parts,
        None => {
            return Err(HandshakeError::TooShort);
        },
    };
    proof {
        assert(x_pub@ =~= first@.take(32));
        assert(nonce@ =~= first@.subrange(32, 56));
        assert(ciphertext@ =~= first@.subrange(56, first@.len() - 64));
        assert(signature@ =~= first@.skip(first@.len() - 64));
    }
    let shared: [u8; 32] = x25519_shared(&keys.x25519_secret, &x_pub);
    let plaintext: Vec<u8> = match aead_decrypt(&shared, &nonce, ciphertext) {
        Ok(p) => p,
        Err(_) => {
            return Err(HandshakeError::BadCiphertext);
        },
    };
    if plaintext.len() < 36 {
        return Err(HandshakeError::PlaintextTooShort);
    }
    if plaintext[2] != CMD_HANDSHAKE_REQUEST {
        return Err(HandshakeError::UnexpectedCommand(plaintext[2]));
    }
    let ed_bytes: [u8; 32] = array_at::<32>(&plaintext, 3);
    let ed_pub: VerifyingKey = match VerifyingKey::from_bytes(&ed_bytes) {
        Some(k) => k,
        None => {
            return Err(HandshakeError::BadKey);
        },
    };
    let mut signed: Vec<u8> = Vec::new();
    append(&mut signed, &nonce);
    append(&mut signed, ciphertext);
    assert(signed@ =~= nonce@ + ciphertext@);
    if !ed_pub.verify(&signed, &signature) {
        return Err(HandshakeError::BadSignature);
    }
    let (k_c2s, k_s2c) = derive_session_keys(&shared);
    let client_id: ClientId = derive_client_id(&x_pub);
    Ok(ClientHello { client_id, x_pub, ed_pub, version: plaintext[35], k_c2s, k_s2c })
}

/// What the server answers to a request: an error with the version that it
/// speaks, an error because the identifier is taken, or its consent.
pub open spec fn reply_inner(version: u8, taken: bool) -> Seq<u8> {
    if version != PROTOCOL_VERSION {
        frames::inner_bytes(0, CMD_ERROR, seq![ERR_BAD_VERSION, PROTOCOL_VERSION])
    } else if taken {
        frames::inner_bytes(0, CMD_ERROR, seq![ERR_ID_IN_USE])
    } else {
        frames::inner_bytes(0, CMD_HANDSHAKE_OK, seq![PROTOCOL_VERSION])
    }
}

/// The answer to a request.
pub fn handshake_reply(version: u8, taken: bool) -> (r: Vec<u8>)
    ensures
        r@ == reply_inner(version, taken),
{
    if version != PROTOCOL_VERSION {
        let body: [u8; 2] = [ERR_BAD_VERSION, PROTOCOL_VERSION];
        assert(body@ =~= seq![ERR_BAD_VERSION, PROTOCOL_VERSION]);
        pack_inner(0, CMD_ERROR, &body)
    } else if taken {
        let body: [u8; 1] = [ERR_ID_IN_USE];
        assert(body@ =~= seq![ERR_ID_IN_USE]);
        pack_inner(0, CMD_ERROR, &body)
    } else {
        let body: [u8; 1] = [PROTOCOL_VERSION];
        assert(body@ =~= seq![PROTOCOL_VERSION]);
        pack_inner(0, CMD_HANDSHAKE_OK, &body)
    }
}

/// What to do about the first message of a connection.
pub enum HandshakeStep {
    /// Close the connection.
    Close(HandshakeError),
    /// Send the frame, which carries an error, and close the connection.
    Reject(Vec<u8>),
    /// Send the frame, which carries the server's consent. Once it is sent the
    /// client is to be registered.
    Accept(Vec<u8>, ClientHello),
}

/// The bytes of a first message that is a binary one.
pub open spec fn first_bytes(first: Option<ClientMessage>) -> Option<Seq<u8>> {
    match first {
        Some(ClientMessage::Binary(b)) => Some(b@),
        _ => None,
    }
}

/// `step` is what becomes of the request `view`, where `taken` says whether
/// the client's identifier is in use.
pub open spec fn is_answer(
    keys: ServerKeys,
    view: HelloView,
    taken: bool,
    step: HandshakeStep,
) -> bool {
    let k_s2c = crypto25519::route_key_s2c(view.shared);
    let inner = reply_inner(view.version, taken);
    if view.version != PROTOCOL_VERSION || taken {
        step matches HandshakeStep::Reject(frame) && frames::is_server_frame(
            keys,
            view.x_pub,
            k_s2c,
            inner,
            frame@,
        )
    } else {
        step matches HandshakeStep::Accept(frame, hello) && frames::is_server_frame(
            keys,
            view.x_pub,
            k_s2c,
            inner,
            frame@,
        ) && hello.is(view) && hello.shares_keys(keys.x25519_secret@)
    }
}

/// `step` is what becomes of a first message with these bytes, if it is a
/// binary one.
pub open spec fn is_handshake(
    keys: ServerKeys,
    hub: HubView,
    first: Option<Seq<u8>>,
    step: HandshakeStep,
) -> bool {
    match first {
        None => step == HandshakeStep::Close(HandshakeError::NotBinary),
        Some(b) => match read_hello(keys.x25519_secret@, b) {
            Err(e) => step == HandshakeStep::Close(e),
            Ok(view) => is_answer(
                keys,
                view,
                hub.sessions.contains_key(frames::to_id(view.x_pub)),
                step,
            ),
        },
    }
}

/// A first frame is a request in good order: it is long enough; behind the
/// public point stands a packet that decrypts to `plaintext` under the secret
/// shared with that point; the plaintext is long enough and a request; and the
/// key that it names is one, and signed the packet.
pub open spec fn asks(x25519_secret: Seq<u8>, first: Seq<u8>, plaintext: Seq<u8>) -> bool {
    &&& first.len() >= 136
    &&& primitives::aead_opened(
        primitives::x25519(x25519_secret, first.take(32)),
        first.subrange(32, 56),
        first.subrange(56, first.len() - 64),
    ) == Some(plaintext)
    &&& plaintext.len() >= 36
    &&& plaintext[2] == 0x01
    &&& primitives::ed25519_key_valid(plaintext.subrange(3, 35))
    &&& primitives::ed25519_verifies(
        plaintext.subrange(3, 35),
        first.subrange(32, first.len() - 64),
        first.skip(first.len() - 64),
    )
}

/// What the client of a request in good order gets, and who it is from then on.
/// Another version than 2 is answered with an error that names the version 2.
/// The identifier is taken exactly where a session stands under the first eight
/// bytes of the public point, and that is answered with an error. All others
/// are accepted. Every answer opens at the client.
pub open spec fn is_answered(
    keys: ServerKeys,
    hub: HubView,
    first: Seq<u8>,
    plaintext: Seq<u8>,
    step: HandshakeStep,
) -> bool {
    let x_pub = first.take(32);
    let shared = primitives::x25519(keys.x25519_secret@, x_pub);
    let k_s2c = primitives::blake3_derived("ws.lleo.me v2 route s2c"@, shared);
    if plaintext[35] != 2 {
        step matches HandshakeStep::Reject(frame) && frames::opens_at(
            keys,
            x_pub,
            k_s2c,
            frame@,
            seq![0u8, 0, 0xFF, 2, 2],
        )
    } else if exists|id: ClientId| #[trigger]
        hub.sessions.contains_key(id) && id@ == first.take(8) {
        step matches HandshakeStep::Reject(frame) && frames::opens_at(
            keys,
            x_pub,
            k_s2c,
            frame@,
            seq![0u8, 0, 0xFF, 1],
        )
    } else {
        &&& step matches HandshakeStep::Accept(frame, hello)
        &&& frames::opens_at(keys, x_pub, k_s2c, frame@, seq![0u8, 0, 0x02, 2])
        &&& hello.client_id@ == first.take(8)
        &&& hello.x_pub@ == x_pub
        &&& hello.ed_pub@ == plaintext.subrange(3, 35)
        &&& hello.version == 2
        &&& hello.k_c2s@ == primitives::blake3_derived("ws.lleo.me v2 route c2s"@, shared)
        &&& hello.k_s2c@ == k_s2c
    }
}

/// Decides about the first message of a connection. The version is looked at
/// before the identifier. The registry does not change yet.
pub fn perform_handshake(keys: &ServerKeys, hub: &HubState, first: &Option<ClientMessage>) -> (r:
    HandshakeStep)
    requires
        first_bytes(*first) matches Some(b) ==> primitives::aead_answers(
            b.len() - HANDSHAKE_MIN_LEN,
        ),
    ensures
        is_handshake(*keys, hub@, first_bytes(*first), r),
        *first matches Some(ClientMessage::Binary(b)) ==> forall|p: Seq<u8>| #[trigger]
            asks(keys.x25519_secret@, b@, p) ==> is_answered(*keys, hub@, b@, p, r),
{
    let bytes: &Vec<u8> = match first {
        Some(ClientMessage::Binary(b)) => b,
        _ => {
            return HandshakeStep::Close(HandshakeError::NotBinary);
        },
    };
    let step: HandshakeStep = match read_handshake(keys, bytes) {
        Ok(hello) => answer_hello(keys, hub, hello),
        Err(e) => HandshakeStep::Close(e),
    };
    proof {
        assert(is_handshake(*keys, hub@, Some(bytes@), step));
        lemma_requests_are_answered(*keys, hub@, bytes@);
    }
    step
}

/// Answers a client that has proved who it is.
fn answer_hello(keys: &ServerKeys, hub: &HubState, hello: ClientHello) -> (r: HandshakeStep)
    ensures
        forall|view: HelloView| #[trigger]
            hello.is(view) && hello.shares_keys(keys.x25519_secret@) ==> is_answer(
                *keys,
                view,
                hub@.sessions.contains_key(hello.client_id),
                r,
            ),
{
    let taken: bool = hub.contains(&hello.client_id);
    let inner: Vec<u8> = handshake_reply(hello.version, taken);
    match build_server_frame(keys, &hello.x_pub, &hello.k_s2c, &inner) {
        Ok(frame) => if hello.version != PROTOCOL_VERSION || taken {
            HandshakeStep::Reject(frame)
        } else {
            HandshakeStep::Accept(frame, hello)
        },
        // An answer is never too long to be sealed.
        Err(_) => HandshakeStep::Close(HandshakeError::TooShort),
    }
}

/// What came of registering a client.
pub enum Registration {
    Registered,
    /// Another connection has taken the identifier since the client was
    /// answered: send the frame, which says so, and close the connection.
    Taken(Vec<u8>),
}

/// Registers an accepted client under its identifier, as one that was heard
/// just now. The session that holds an identifier keeps it.
pub fn register(
    keys: &ServerKeys,
    hub: &mut HubState,
    hello: &ClientHello,
    ws: u64,
    ip: String,
    now: u128,
) -> (r: Registration)
    requires
        old(hub).wf(),
    ensures
        final(hub).wf(),
        if old(hub)@.sessions.contains_key(hello.client_id) {
            &&& r matches Registration::Taken(frame) && frames::is_server_frame(
                *keys,
                hello.x_pub@,
                hello.k_s2c@,
                reply_inner(PROTOCOL_VERSION, true),
                frame@,
            ) && frames::opens_at(
                *keys,
                hello.x_pub@,
                hello.k_s2c@,
                frame@,
                seq![0u8, 0, 0xFF, 1],
            )
            &&& final(hub)@ == old(hub)@
        } else {
            &&& r is Registered
            &&& final(hub)@ == old(hub)@.inserted(hello.client_id, hello.session(ws, ip, now))
        },
{
    if hub.contains(&hello.client_id) {
        let inner: Vec<u8> = handshake_reply(PROTOCOL_VERSION, true);
        match build_server_frame(keys, &hello.x_pub, &hello.k_s2c, &inner) {
            Ok(frame) => {
                proof {
                    law_replies_byte_for_byte(PROTOCOL_VERSION);
                    frames::law_server_frame_opens(
                        *keys,
                        hello.x_pub@,
                        hello.k_s2c@,
                        inner@,
                        frame@,
                    );
                }
                Registration::Taken(frame)
            },
            // An answer is never too long to be sealed.
            Err(_) => Registration::Taken(Vec::new()),
        }
    } else {
        let session: ClientSession = ClientSession {
            ws,
            ip,
            x_pub: hello.x_pub,
            ed_pub: hello.ed_pub,
            k_c2s: hello.k_c2s,
            k_s2c: hello.k_s2c,
            last_seen: now,
            last_ping: now,
        };
        hub.insert(hello.client_id, session);
        Registration::Registered
    }
}

// ---------------------------------------------------------------------------
// Laws
// ---------------------------------------------------------------------------

/// A client that follows the protocol is understood: a first frame that holds
/// its public point and a packet to the server, sealed and signed by it around
/// a request, is read as that request, whatever the message number and the
/// version. (That a sealed packet reads at the server is what
/// `encrypt_and_sign` promises of it.)
pub proof fn law_request_is_read(
    x25519_secret: Seq<u8>,
    client_secret: Seq<u8>,
    client_seed: Seq<u8>,
    x_pub: XPub,
    ed_pub: [u8; 32],
    message_id: u16,
    version: u8,
    packet: Seq<u8>,
)
    requires
        x25519_secret.len() == 32,
        x_pub@ == primitives::x25519_public(client_secret),
        ed_pub@ == primitives::ed25519_public(client_seed),
        primitives::ed25519_key_valid(ed_pub@),
        crypto25519::packet_reads(
            packet,
            client_secret,
            client_seed,
            primitives::x25519_public(x25519_secret),
            frames::inner_bytes(message_id, CMD_HANDSHAKE_REQUEST, ed_pub@ + seq![version]),
        ),
    ensures
        read_hello(x25519_secret, x_pub@ + packet) == Ok::<HelloView, HandshakeError>(
            HelloView {
                x_pub: x_pub@,
                ed_pub: ed_pub@,
                version,
                shared: primitives::x25519(x25519_secret, x_pub@),
            },
        ),
{
    let first = x_pub@ + packet;
    let inner = frames::inner_bytes(message_id, CMD_HANDSHAKE_REQUEST, ed_pub@ + seq![version]);
    let shared = primitives::x25519(x25519_secret, x_pub@);
    assert(primitives::x25519_public(x25519_secret) == primitives::x25519_public(x25519_secret));
    assert(crypto25519::open_packet(packet, shared, ed_pub@) == Ok::<
        Seq<u8>,
        crypto25519::CryptoError,
    >(inner));
    let signed = packet.take(packet.len() - 64);
    assert(first.take(32) =~= x_pub@);
    assert(first.subrange(32, 56) =~= signed.take(24));
    assert(first.subrange(56, first.len() - 64) =~= signed.skip(24));
    assert(first.skip(first.len() - 64) =~= packet.skip(packet.len() - 64));
    assert(signed.take(24) + signed.skip(24) =~= signed);
    assert(inner.subrange(3, 35) =~= ed_pub@);
    assert(inner[35] == version);
    assert(inner[2] == CMD_HANDSHAKE_REQUEST);
}

/// The answers, byte for byte, for every version: another one than 2 hears of
/// an error and the version 2, whether or not the identifier is taken; a taken
/// identifier is an error; the rest is consent.
pub proof fn law_replies_byte_for_byte(version: u8)
    ensures
        reply_inner(2, false) == seq![0u8, 0, 0x02, 2],
        reply_inner(2, true) == seq![0u8, 0, 0xFF, 1],
        version != 2 ==> reply_inner(version, false) == seq![0u8, 0, 0xFF, 2, 2],
        version != 2 ==> reply_inner(version, true) == seq![0u8, 0, 0xFF, 2, 2],
{
    assert(reply_inner(2, false) =~= seq![0u8, 0, 0x02, 2]);
    assert(reply_inner(2, true) =~= seq![0u8, 0, 0xFF, 1]);
    if version != 2 {
        assert(reply_inner(version, false) =~= seq![0u8, 0, 0xFF, 2, 2]);
        assert(reply_inner(version, true) =~= seq![0u8, 0, 0xFF, 2, 2]);
    }
}

/// A request in good order is read as it stands, and what is read as a request
/// is one in good order.
pub proof fn law_good_request_is_read(x25519_secret: Seq<u8>, first: Seq<u8>, plaintext: Seq<u8>)
    requires
        asks(x25519_secret, first, plaintext),
    ensures
        read_hello(x25519_secret, first) == Ok::<HelloView, HandshakeError>(
            HelloView {
                x_pub: first.take(32),
                ed_pub: plaintext.subrange(3, 35),
                version: plaintext[35],
                shared: primitives::x25519(x25519_secret, first.take(32)),
            },
        ),
{
    assert(first.subrange(32, 56) + first.subrange(56, first.len() - 64) =~= first.subrange(
        32,
        first.len() - 64,
    ));
}

/// The first thing that is wrong with a frame is what is said of it; where
/// nothing is wrong, it is a request in good order.
pub proof fn law_first_fault_is_named(x25519_secret: Seq<u8>, first: Seq<u8>)
    ensures
        ({
            let r = read_hello(x25519_secret, first);
            let opened = primitives::aead_opened(
                primitives::x25519(x25519_secret, first.take(32)),
                first.subrange(32, 56),
                first.subrange(56, first.len() - 64),
            );
            if first.len() < 136 {
                r == Err::<HelloView, HandshakeError>(HandshakeError::TooShort)
            } else {
                match opened {
                    None => r == Err::<HelloView, HandshakeError>(HandshakeError::BadCiphertext),
                    Some(p) => {
                        &&& r is Ok <==> asks(x25519_secret, first, p)
                        &&& p.len() < 36 ==> r == Err::<HelloView, HandshakeError>(
                            HandshakeError::PlaintextTooShort,
                        )
                        &&& p.len() >= 36 && p[2] != 0x01 ==> r == Err::<
                            HelloView,
                            HandshakeError,
                        >(HandshakeError::UnexpectedCommand(p[2]))
                        &&& p.len() >= 36 && p[2] == 0x01 && !primitives::ed25519_key_valid(
                            p.subrange(3, 35),
                        ) ==> r == Err::<HelloView, HandshakeError>(HandshakeError::BadKey)
                        &&& p.len() >= 36 && p[2] == 0x01 && primitives::ed25519_key_valid(
                            p.subrange(3, 35),
                        ) && !primitives::ed25519_verifies(
                            p.subrange(3, 35),
                            first.subrange(32, first.len() - 64),
                            first.skip(first.len() - 64),
                        ) ==> r == Err::<HelloView, HandshakeError>(HandshakeError::BadSignature)
                    },
                }
            }
        }),
{
    if first.len() >= 136 {
        assert(first.subrange(32, 56) + first.subrange(56, first.len() - 64) =~= first.subrange(
            32,
            first.len() - 64,
        ));
    }
}

/// Only a binary message has bytes to read, and those are its own.
pub proof fn law_first_bytes_are_the_messages(first: Option<ClientMessage>)
    ensures
        match first {
            Some(ClientMessage::Binary(b)) => first_bytes(first) == Some(b@),
            Some(_) => first_bytes(first) is None,
            None => first_bytes(first) is None,
        },
{
}

/// The client of a request is who the request says.
pub proof fn law_hello_is_the_requests(hello: ClientHello, view: HelloView)
    requires
        hello.is(view),
    ensures
        hello.x_pub@ == view.x_pub,
        hello.client_id@ == view.x_pub.take(8),
        hello.ed_pub@ == view.ed_pub,
        hello.version == view.version,
        hello.k_c2s@ == primitives::blake3_derived("ws.lleo.me v2 route c2s"@, view.shared),
        hello.k_s2c@ == primitives::blake3_derived("ws.lleo.me v2 route s2c"@, view.shared),
{
    frames::law_client_id_is_the_start(hello.x_pub, hello.client_id);
}

/// Whatever becomes of a first frame, a request in good order in it is
/// answered as it is owed: accepted with version 2 exactly where nobody holds
/// its identifier.
pub proof fn law_request_is_answered(
    keys: ServerKeys,
    hub: HubView,
    first: Seq<u8>,
    plaintext: Seq<u8>,
    step: HandshakeStep,
)
    requires
        is_handshake(keys, hub, Some(first), step),
        asks(keys.x25519_secret@, first, plaintext),
    ensures
        is_answered(keys, hub, first, plaintext, step),
{
    let p = plaintext;
    law_good_request_is_read(keys.x25519_secret@, first, p);
    law_replies_byte_for_byte(p[35]);
    let x_pub = first.take(32);
    let shared = primitives::x25519(keys.x25519_secret@, x_pub);
    let k_s2c = crypto25519::route_key_s2c(shared);
    let id = frames::to_id(x_pub);
    assert(id@ =~= first.take(8));
    let taken = hub.sessions.contains_key(id);
    assert forall|a: ClientId| #[trigger]
        hub.sessions.contains_key(a) && a@ == first.take(8) implies taken by {
        assert(a =~= id);
    }
    let inner = reply_inner(p[35], taken);
    match step {
        HandshakeStep::Reject(frame) => {
            frames::law_server_frame_opens(keys, x_pub, k_s2c, inner, frame@);
        },
        HandshakeStep::Accept(frame, hello) => {
            frames::law_server_frame_opens(keys, x_pub, k_s2c, inner, frame@);
            let view = HelloView { x_pub, ed_pub: p.subrange(3, 35), version: p[35], shared };
            law_hello_is_the_requests(hello, view);
            assert(x_pub.take(8) =~= first.take(8));
        },
        HandshakeStep::Close(_) => {},
    }
}

proof fn lemma_requests_are_answered(keys: ServerKeys, hub: HubView, first: Seq<u8>)
    ensures
        forall|step: HandshakeStep, p: Seq<u8>|
            #![trigger is_handshake(keys, hub, Some(first), step), asks(
                keys.x25519_secret@,
                first,
                p,
            )]
            is_handshake(keys, hub, Some(first), step) && asks(keys.x25519_secret@, first, p)
                ==> is_answered(keys, hub, first, p, step),
{
    assert forall|step: HandshakeStep, p: Seq<u8>|
        #![trigger is_handshake(keys, hub, Some(first), step), asks(
            keys.x25519_secret@,
            first,
            p,
        )]
        is_handshake(keys, hub, Some(first), step) && asks(
            keys.x25519_secret@,
            first,
            p,
        ) implies is_answered(keys, hub, first, p, step) by {
        law_request_is_answered(keys, hub, first, p, step);
    }
}

/// What is no request in good order is not answered at all: the connection is
/// closed for the first thing that is wrong.
pub proof fn law_bad_request_is_closed(
    keys: ServerKeys,
    hub: HubView,
    first: Option<Seq<u8>>,
    step: HandshakeStep,
)
    requires
        is_handshake(keys, hub, first, step),
        first matches Some(b) ==> forall|p: Seq<u8>| !#[trigger] asks(keys.x25519_secret@, b, p),
    ensures
        match first {
            None => step == HandshakeStep::Close(HandshakeError::NotBinary),
            Some(b) => step matches HandshakeStep::Close(e) && read_hello(keys.x25519_secret@, b)
                == Err::<HelloView, HandshakeError>(e),
        },
{
    if let Some(b) = first {
        law_first_fault_is_named(keys.x25519_secret@, b);
    }
}

/// The session of a client holds what the client proved, its connection and
/// its address, and counts as heard just now.
pub proof fn law_session_is_the_clients(hello: ClientHello, ws: u64, ip: String, now: u128)
    ensures
        ({
            let s = hello.session(ws, ip, now);
            &&& s.ws == ws
            &&& s.ip == ip
            &&& s.x_pub == hello.x_pub
            &&& s.ed_pub == hello.ed_pub
            &&& s.k_c2s == hello.k_c2s
            &&& s.k_s2c == hello.k_s2c
            &&& s.last_seen == now
            &&& s.last_ping == now
        }),
{
}

} // verus!
