//! What comes in on a connection and what goes out.

use vstd::prelude::*;

verus! {

/// A WebSocket message from a client.
pub enum ClientMessage {
    Ping(Vec<u8>),
    Pong,
    Text(String),
    Binary(Vec<u8>),
    Close,
    /// Any other kind.
    Other,
}

/// A frame for another connection than the one at hand.
pub struct Outgoing {
    pub to: u64,
    pub frame: Vec<u8>,
}

} // verus!
