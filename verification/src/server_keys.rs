//! The long-term identity of a server.

use vstd::prelude::*;

use crate::index::ClientId;
use crate::keys::SigningKey;

verus! {

/// The secrets of a server, and the one peer that it knows by name. Clients
/// embed the public halves.
#[derive(Clone, Copy)]
pub struct ServerKeys {
    /// Decrypts handshakes and server-bound frames, and encrypts
    /// server-originated ones.
    pub x25519_secret: [u8; 32],
    /// Signs every server-originated frame.
    pub ed25519_signing: SigningKey,
    /// The peer that sends push notifications.
    pub notifier_id: ClientId,
}

} // verus!
