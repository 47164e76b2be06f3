//! The bytes on the wire: identifiers, inner messages, lists of public points,
//! and frames that the server itself sends.

use vstd::prelude::*;

use crate::bytes;
use crate::bytes::{append, array_at};
use crate::crypto25519;
use crate::crypto25519::{encrypt_and_sign, xor_header_8, CryptoError};
use crate::index::{ClientId, XPub};
use crate::primitives;
use crate::server_keys::ServerKeys;

verus! {

pub const PROTOCOL_VERSION: u8 = 2;

pub const CMD_HANDSHAKE_REQUEST: u8 = 0x01;

pub const CMD_HANDSHAKE_OK: u8 = 0x02;

pub const CMD_SUBSCRIBE: u8 = 0x40;

pub const CMD_UNSUBSCRIBE: u8 = 0x41;

pub const CMD_PEER_ONLINE: u8 = 0x42;

pub const CMD_PEER_OFFLINE: u8 = 0x43;

/// Client to server: tell a peer my keys.
pub const CMD_INTRODUCE: u8 = 0x46;

/// Server to client: here are a peer's keys.
pub const CMD_INTRO_FROM: u8 = 0x47;

/// Client to server to notifier: wake a peer.
pub const CMD_WAKE: u8 = 0x48;

/// Client to server to notifier: my push token.
pub const CMD_PUSH_REGISTER: u8 = 0x49;

pub const CMD_ERROR: u8 = 0xFF;

pub const ERR_ID_IN_USE: u8 = 1;

pub const ERR_BAD_VERSION: u8 = 2;

pub const ERR_RECIPIENT_OFFLINE: u8 = 3;

/// The longest frame that a connection takes in: one mebibyte.
pub const MAX_FRAME_SIZE: usize = 0x10_0000;

/// Header, nonce, tag and signature.
pub const ROUTING_MIN_LEN: usize = 112;

/// Public point, nonce, tag and signature.
pub const HANDSHAKE_MIN_LEN: usize = 136;

/// The identifier that stands for the server.
pub open spec fn zero_id() -> Seq<u8> {
    Seq::new(8, |i: int| 0u8)
}

// ---------------------------------------------------------------------------
// Identifiers and lists of public points
// ---------------------------------------------------------------------------

/// Eight bytes as an identifier.
pub open spec fn to_id(s: Seq<u8>) -> ClientId {
    [s[0], s[1], s[2], s[3], s[4], s[5], s[6], s[7]]
}

/// Thirty-two bytes as a public point.
pub open spec fn to_x(s: Seq<u8>) -> XPub {
    [
        s[0],
        s[1],
        s[2],
        s[3],
        s[4],
        s[5],
        s[6],
        s[7],
        s[8],
        s[9],
        s[10],
        s[11],
        s[12],
        s[13],
        s[14],
        s[15],
        s[16],
        s[17],
        s[18],
        s[19],
        s[20],
        s[21],
        s[22],
        s[23],
        s[24],
        s[25],
        s[26],
        s[27],
        s[28],
        s[29],
        s[30],
        s[31],
    ]
}

pub(crate) proof fn lemma_to_id(a: ClientId, s: Seq<u8>)
    requires
        a@ == s,
    ensures
        a == to_id(s),
{
    assert(a =~= to_id(s));
}

pub(crate) proof fn lemma_to_x(a: XPub, s: Seq<u8>)
    requires
        a@ == s,
    ensures
        a == to_x(s),
{
    assert(a =~= to_x(s));
}

pub(crate) proof fn lemma_to_x_view(s: Seq<u8>)
    requires
        s.len() == 32,
    ensures
        to_x(s)@ == s,
{
    assert(to_x(s)@ =~= s);
}

/// The identifier of the client that owns a public point: its first eight
/// bytes.
pub open spec fn client_id(x_pub: XPub) -> ClientId {
    to_id(x_pub@)
}

/// The identifier of the client that owns a public point.
pub fn derive_client_id(x_pub: &XPub) -> (r: ClientId)
    ensures
        r == client_id(*x_pub),
        r@ == x_pub@.take(8),
{
    let id: ClientId = array_at::<8>(x_pub, 0);
    assert(id@ =~= x_pub@.take(8));
    assert(id =~= client_id(*x_pub));
    id
}

/// The public points that stand end to end in `body`.
pub open spec fn x_list(body: Seq<u8>) -> Seq<XPub> {
    Seq::new(body.len() / 32, |i: int| to_x(body.subrange(32 * i, 32 * i + 32)))
}

/// Public points end to end.
pub open spec fn concat_xs(xs: Seq<XPub>) -> Seq<u8>
    decreases xs.len(),
{
    if xs.len() == 0 {
        Seq::empty()
    } else {
        concat_xs(xs.drop_last()) + xs.last()@
    }
}

/// Reads public points that stand end to end; `None` where the length is no
/// multiple of theirs.
pub fn parse_x_list(body: &[u8]) -> (r: Option<Vec<XPub>>)
    ensures
        r is Some <==> body@.len() % 32 == 0,
        r matches Some(xs) ==> xs@ == x_list(body@),
{
    let len: usize = body.len();
    if len % 32 != 0 {
        return None;
    }
    let n: usize = len / 32;
    let mut xs: Vec<XPub> = Vec::new();
    let mut i: usize = 0;
    while i < n
        invariant
            i <= n,
            len == body@.len(),
            n == len / 32,
            n * 32 == len,
            xs@ == x_list(body@).take(i as int),
        decreases n - i,
    {
        let x: XPub = array_at::<32>(body, i * 32);
        xs.push(x);
        proof {
            lemma_to_x(x, body@.subrange(32 * i, 32 * i + 32));
            assert(x_list(body@).take(i + 1) =~= x_list(body@).take(i as int).push(x));
        }
        i = i + 1;
    }
    assert(x_list(body@).take(n as int) =~= x_list(body@));
    Some(xs)
}

/// Reading a list of public points gives back what was written end to end,
/// for any number of them.
pub proof fn law_x_list_reads_back(xs: Seq<XPub>)
    ensures
        concat_xs(xs).len() == 32 * xs.len(),
        x_list(concat_xs(xs)) == xs,
    decreases xs.len(),
{
    if xs.len() > 0 {
        let front = xs.drop_last();
        law_x_list_reads_back(front);
        let all = concat_xs(xs);
        assert forall|i: int| 0 <= i < xs.len() implies x_list(all)[i] == xs[i] by {
            if i < front.len() {
                assert(all.subrange(32 * i, 32 * i + 32) =~= concat_xs(front).subrange(
                    32 * i,
                    32 * i + 32,
                ));
                assert(x_list(concat_xs(front))[i] == front[i]);
            } else {
                assert(all.subrange(32 * i, 32 * i + 32) =~= xs.last()@);
                lemma_to_x(xs.last(), xs.last()@);
            }
        }
        assert(x_list(all) =~= xs);
    } else {
        assert(x_list(concat_xs(xs)) =~= xs);
    }
}

/// Writing a list of public points end to end gives back the body that it was
/// read from.
pub proof fn law_x_list_writes_back(body: Seq<u8>)
    requires
        body.len() % 32 == 0,
    ensures
        concat_xs(x_list(body)) == body,
    decreases body.len(),
{
    let xs = x_list(body);
    if body.len() > 0 {
        let front = body.take(body.len() - 32);
        law_x_list_writes_back(front);
        assert(x_list(front) =~= xs.drop_last()) by {
            assert forall|i: int| 0 <= i < x_list(front).len() implies x_list(front)[i]
                == xs.drop_last()[i] by {
                assert(front.subrange(32 * i, 32 * i + 32) =~= body.subrange(32 * i, 32 * i + 32));
            }
        }
        let n = xs.len() - 1;
        lemma_to_x_view(body.subrange(32 * n, 32 * n + 32));
        assert(body =~= front + body.subrange(32 * n, 32 * n + 32));
    } else {
        assert(concat_xs(xs) =~= body);
    }
}

// ---------------------------------------------------------------------------
// Inner messages
// ---------------------------------------------------------------------------

/// An inner message: `[ message_id : u16 LE ] [ cmd ] [ body ]`.
pub open spec fn inner_bytes(message_id: u16, cmd: u8, body: Seq<u8>) -> Seq<u8> {
    bytes::u16_le(message_id) + seq![cmd] + body
}

/// Builds an inner message.
pub fn pack_inner(message_id: u16, cmd: u8, body: &[u8]) -> (r: Vec<u8>)
    ensures
        r@ == inner_bytes(message_id, cmd, body@),
{
    let mut v: Vec<u8> = Vec::new();
    v.push((message_id % 0x100) as u8);
    v.push((message_id / 0x100) as u8);
    v.push(cmd);
    append(&mut v, body);
    assert(v@ =~= inner_bytes(message_id, cmd, body@));
    v
}

// ---------------------------------------------------------------------------
// AEAD packets
// ---------------------------------------------------------------------------

/// Takes a packet apart into its nonce, its ciphertext and its signature;
/// `None` where it is too short to hold a tag.
pub fn split_aead_packet(packet: &[u8]) -> (r: Option<([u8; 24], &[u8], [u8; 64])>)
    ensures
        r is Some <==> packet@.len() >= 104,
        r matches Some((nonce, ciphertext, signature)) ==> {
            &&& nonce@ == packet@.take(24)
            &&& ciphertext@ == packet@.subrange(24, packet@.len() - 64)
            &&& signature@ == packet@.skip(packet@.len() - 64)
            &&& nonce@ + ciphertext@ + signature@ == packet@
        },
{
    if packet.len() < 24 + 16 + 64 {
        return None;
    }
    let nonce: [u8; 24] = array_at::<24>(packet, 0);
    let cut: usize = packet.len() - 64;
    let ciphertext: &[u8] = vstd::slice::slice_subrange(packet, 24, cut);
    let signature: [u8; 64] = array_at::<64>(packet, cut);
    assert(nonce@ =~= packet@.take(24));
    assert(signature@ =~= packet@.skip(packet@.len() - 64));
    assert(nonce@ + ciphertext@ + signature@ =~= packet@);
    Some((nonce, ciphertext, signature))
}

// ---------------------------------------------------------------------------
// Server-originated frames
// ---------------------------------------------------------------------------

/// The bytes of a frame from the server: the zero identifier under the
/// recipient's key, then the packet.
pub open spec fn server_frame_bytes(
    keys: ServerKeys,
    x_pub: Seq<u8>,
    k_s2c: Seq<u8>,
    inner: Seq<u8>,
    nonce: Seq<u8>,
) -> Seq<u8> {
    crypto25519::xor_header(k_s2c, nonce, zero_id()) + crypto25519::packet_bytes(
        primitives::x25519(keys.x25519_secret@, x_pub),
        keys.ed25519_signing@,
        nonce,
        inner,
    )
}

/// How a client reads a frame: whom the header names.
pub open spec fn frame_sender(frame: Seq<u8>, k_s2c: Seq<u8>) -> Seq<u8> {
    crypto25519::xor_header(k_s2c, frame.subrange(8, 32), frame.take(8))
}

/// A frame is the server's message `inner` to the client that owns `x_pub` and
/// shares `k_s2c`: it has the bytes of one under some nonce; to that client
/// its header names the server; it is signed by the server and decrypts to
/// `inner`; and to the owner of the secret behind `x_pub` the packet opens,
/// with the server's public keys, to `inner`.
pub open spec fn is_server_frame(
    keys: ServerKeys,
    x_pub: Seq<u8>,
    k_s2c: Seq<u8>,
    inner: Seq<u8>,
    frame: Seq<u8>,
) -> bool {
    &&& frame.len() == 8 + 24 + inner.len() + 16 + 64
    &&& frame == server_frame_bytes(keys, x_pub, k_s2c, inner, frame.subrange(8, 32))
    &&& frame_sender(frame, k_s2c) == zero_id()
    &&& crypto25519::is_packet_of(
        frame.skip(8),
        primitives::x25519(keys.x25519_secret@, x_pub),
        keys.ed25519_signing@,
        inner,
    )
    &&& inner.len() > 0 ==> crypto25519::packet_reads(
        frame.skip(8),
        keys.x25519_secret@,
        keys.ed25519_signing@,
        x_pub,
        inner,
    )
}

/// Puts the server's header in front of a packet of the server's.
pub fn frame_packet(k_s2c: &[u8; 32], packet: &[u8]) -> (r: Vec<u8>)
    requires
        packet@.len() >= 24,
    ensures
        r@ == crypto25519::xor_header(k_s2c@, packet@.take(24), zero_id()) + packet@,
{
    let nonce: [u8; 24] = array_at::<24>(packet, 0);
    let mut header: ClientId = [0u8; 8];
    assert(nonce@ =~= packet@.take(24));
    assert(header@ =~= zero_id());
    xor_header_8(k_s2c, &nonce, &mut header);
    let mut out: Vec<u8> = Vec::new();
    append(&mut out, &header);
    append(&mut out, packet);
    assert(out@ =~= crypto25519::xor_header(k_s2c@, packet@.take(24), zero_id()) + packet@);
    out
}

/// Encrypts and signs a message of the server's, and puts the obfuscated zero
/// identifier in front, by which the client knows it. Only the nonce is left
/// open.
pub fn build_server_frame(
    keys: &ServerKeys,
    recipient_x_pub: &XPub,
    recipient_k_s2c: &[u8; 32],
    inner: &[u8],
) -> (r: Result<Vec<u8>, CryptoError>)
    requires
        primitives::aead_answers(inner@.len() as int),
        inner@.len() + 16 <= isize::MAX,
    ensures
        inner@.len() > primitives::AEAD_MAX_LEN ==> r == Err::<Vec<u8>, CryptoError>(
            CryptoError::BadCiphertext,
        ),
        inner@.len() <= primitives::AEAD_MAX_LEN ==> r is Ok,
        r matches Ok(frame) ==> is_server_frame(
            *keys,
            recipient_x_pub@,
            recipient_k_s2c@,
            inner@,
            frame@,
        ),
        r is Ok && inner@.len() > 0 ==> opens_at(
            *keys,
            recipient_x_pub@,
            recipient_k_s2c@,
            r->Ok_0@,
            inner@,
        ),
{
    let packet: Vec<u8> = match encrypt_and_sign(
        inner,
        &keys.x25519_secret,
        &keys.ed25519_signing,
        recipient_x_pub,
    ) {
        Ok(p) => p,
        Err(e) => {
            return Err(e);
        },
    };
    let frame: Vec<u8> = frame_packet(recipient_k_s2c, &packet);
    proof {
        assert(frame@.subrange(8, 32) =~= packet@.take(24));
        assert(frame@.skip(8) =~= packet@);
        assert(frame@.take(8) =~= crypto25519::xor_header(
            recipient_k_s2c@,
            packet@.take(24),
            zero_id(),
        ));
        crypto25519::law_xor_header_symmetric(recipient_k_s2c@, packet@.take(24), zero_id());
        if inner@.len() > 0 {
            law_server_frame_opens(
                *keys,
                recipient_x_pub@,
                recipient_k_s2c@,
                inner@,
                frame@,
            );
        }
    }
    Ok(frame)
}

// ---------------------------------------------------------------------------
// Laws on bytes
// ---------------------------------------------------------------------------

/// The header of a frame shows `id` to whoever holds `key`: the first eight
/// bytes, with the keystream of the key and the frame's nonce taken off.
pub open spec fn header_shows(frame: Seq<u8>, key: Seq<u8>, id: Seq<u8>) -> bool {
    forall|i: int|
        0 <= i < 8 ==> (#[trigger] frame[i]) ^ primitives::chacha20_keystream(
            key,
            frame.subrange(8, 20),
            i,
        ) == id[i]
}

/// What a client does with a frame of the server's, step by step: the header
/// shows eight zeros, the server's public key verifies the signature over the
/// nonce and the ciphertext, and the ciphertext decrypts to `message`: with the
/// secret that the server shares with the owner of `x_pub`, which that owner
/// computes from its own secret and the server's public point.
pub open spec fn opens_at(
    keys: ServerKeys,
    x_pub: Seq<u8>,
    k_s2c: Seq<u8>,
    frame: Seq<u8>,
    message: Seq<u8>,
) -> bool {
    let nonce = frame.subrange(8, 32);
    let ciphertext = frame.subrange(32, frame.len() - 64);
    &&& frame.len() == 112 + message.len()
    &&& header_shows(frame, k_s2c, seq![0u8, 0, 0, 0, 0, 0, 0, 0])
    &&& primitives::ed25519_verifies(
        primitives::ed25519_public(keys.ed25519_signing@),
        frame.subrange(8, frame.len() - 64),
        frame.skip(frame.len() - 64),
    )
    &&& primitives::aead_opened(
        primitives::x25519(keys.x25519_secret@, x_pub),
        nonce,
        ciphertext,
    ) == Some(message)
    &&& forall|client_secret: Seq<u8>|
        client_secret.len() == 32 && x_pub == #[trigger] primitives::x25519_public(client_secret)
            ==> primitives::aead_opened(
            primitives::x25519(client_secret, primitives::x25519_public(keys.x25519_secret@)),
            nonce,
            ciphertext,
        ) == Some(message)
}

/// A header shows an identifier exactly where taking the keystream off it gives
/// that identifier.
pub proof fn law_header_shows_what_is_under_it(frame: Seq<u8>, key: Seq<u8>, id: Seq<u8>)
    requires
        frame.len() >= 32,
        id.len() == 8,
    ensures
        header_shows(frame, key, id) <==> crypto25519::xor_header(
            key,
            frame.subrange(8, 32),
            frame.take(8),
        ) == id,
        header_shows(frame, key, id) <==> frame_sender(frame, key) == id,
{
    let clear = crypto25519::xor_header(key, frame.subrange(8, 32), frame.take(8));
    assert(frame.subrange(8, 32).take(12) =~= frame.subrange(8, 20));
    assert forall|i: int| 0 <= i < 8 implies #[trigger] clear[i] == frame[i]
        ^ primitives::chacha20_keystream(key, frame.subrange(8, 20), i) by {
        assert(frame.take(8)[i] == frame[i]);
    }
    if header_shows(frame, key, id) {
        assert forall|i: int| 0 <= i < 8 implies #[trigger] clear[i] == id[i] by {
            assert(frame[i] == frame[i]);
        }
        assert(clear =~= id);
    }
    if clear == id {
        assert forall|i: int| 0 <= i < 8 implies (#[trigger] frame[i])
            ^ primitives::chacha20_keystream(key, frame.subrange(8, 20), i) == id[i] by {
            assert(clear[i] == id[i]);
        }
    }
}

/// A frame of the server's opens at its client to the message that was put in.
pub proof fn law_server_frame_opens(
    keys: ServerKeys,
    x_pub: Seq<u8>,
    k_s2c: Seq<u8>,
    message: Seq<u8>,
    frame: Seq<u8>,
)
    requires
        is_server_frame(keys, x_pub, k_s2c, message, frame),
        message.len() > 0,
    ensures
        opens_at(keys, x_pub, k_s2c, frame, message),
{
    let n = frame.len();
    let packet = frame.skip(8);
    let zeros = seq![0u8, 0, 0, 0, 0, 0, 0, 0];
    assert(zero_id() =~= zeros);
    law_header_shows_what_is_under_it(frame, k_s2c, zeros);
    assert(packet.take(packet.len() - 64) =~= frame.subrange(8, n - 64));
    assert(packet.skip(packet.len() - 64) =~= frame.skip(n - 64));
    assert(packet.take(24) =~= frame.subrange(8, 32));
    assert(packet.subrange(24, packet.len() - 64) =~= frame.subrange(32, n - 64));
    assert forall|client_secret: Seq<u8>|
        client_secret.len() == 32 && x_pub == #[trigger] primitives::x25519_public(
            client_secret,
        ) implies primitives::aead_opened(
        primitives::x25519(client_secret, primitives::x25519_public(keys.x25519_secret@)),
        frame.subrange(8, 32),
        frame.subrange(32, n - 64),
    ) == Some(message) by {
        crypto25519::law_packet_reads_at_its_receiver(
            packet,
            keys.x25519_secret@,
            keys.ed25519_signing@,
            client_secret,
            message,
        );
    }
}

/// An identifier is the first eight bytes of the point, whatever the point.
pub proof fn law_client_id_is_the_start(x_pub: XPub, id: ClientId)
    ensures
        client_id(x_pub)@ == x_pub@.take(8),
        id@ == x_pub@.take(8) ==> id == client_id(x_pub),
{
    let s = client_id(x_pub)@;
    assert(s.len() == 8 && x_pub@.len() == 32);
    assert(s =~= x_pub@.take(8));
    if id@ == x_pub@.take(8) {
        assert(id =~= client_id(x_pub));
    }
}

/// Eight bytes, and thirty-two, are kept as they are when they are taken for
/// an identifier or a point; the server's identifier is eight zeros.
pub proof fn law_bytes_are_kept(eight: Seq<u8>, thirty_two: Seq<u8>)
    requires
        eight.len() == 8,
        thirty_two.len() == 32,
    ensures
        to_id(eight)@ == eight,
        to_x(thirty_two)@ == thirty_two,
        zero_id() == seq![0u8, 0, 0, 0, 0, 0, 0, 0],
{
    assert(to_id(eight)@ =~= eight);
    lemma_to_x_view(thirty_two);
    assert(zero_id() =~= seq![0u8, 0, 0, 0, 0, 0, 0, 0]);
}

/// The thirty-two bytes at place `i` of a list.
pub open spec fn point_at(body: Seq<u8>, i: int) -> Seq<u8> {
    body.subrange(32 * i, 32 * i + 32)
}

/// A list is read point by point, none left out and none put in.
pub proof fn law_every_listed_point_is_read(body: Seq<u8>)
    ensures
        x_list(body).len() == body.len() / 32,
        forall|i: int| 0 <= i < body.len() / 32 ==> (#[trigger] x_list(body)[i])@ == point_at(body, i),
{
    assert forall|i: int| 0 <= i < body.len() / 32 implies (#[trigger] x_list(body)[i])@ == point_at(
        body,
        i,
    ) by {
        lemma_to_x_view(body.subrange(32 * i, 32 * i + 32));
    }
}

/// A list is written point by point, none left out and none put in.
pub proof fn law_every_point_is_written(xs: Seq<XPub>)
    ensures
        concat_xs(xs).len() == 32 * xs.len(),
        forall|i: int| 0 <= i < xs.len() ==> point_at(concat_xs(xs), i) == (#[trigger] xs[i])@,
{
    law_x_list_reads_back(xs);
    law_every_listed_point_is_read(concat_xs(xs));
    assert forall|i: int| 0 <= i < xs.len() implies point_at(concat_xs(xs), i) == (
    #[trigger] xs[i])@ by {
        assert(x_list(concat_xs(xs))[i] == xs[i]);
    }
}

} // verus!
