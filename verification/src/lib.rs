//! A chat relay with an optional per-client encryption handshake.
//!
//! The crate holds the parts of the relay that decide something: the line
//! framing, the registry of connected peers, the handshake that delivers the
//! session key, the fan-out of a broadcast and the eviction of peers that
//! could not be written to, the client's side of the key exchange, and the
//! lobby through which clients find a relay. Sockets and threads are left to
//! the program that embeds the crate.

pub mod client;
pub mod codec;
pub mod crypto;
pub mod handshake;
pub mod hexcode;
pub mod keystore;
pub mod lobby;
pub mod registry;
pub mod relay;
pub mod table;
pub mod text;
