//! A minimal WebSocket relay for end-to-end encrypted traffic between paired
//! clients.
pub mod bytes;
pub mod clock;
pub mod coherence;
pub mod connection;
pub mod crypto25519;
pub mod frames;
pub mod handshake;
pub mod heartbeat;
pub mod hub;
pub mod index;
pub mod keys;
pub mod laws;
pub mod messages;
pub mod presence;
pub mod primitives;
pub mod routing;
pub mod server_keys;
