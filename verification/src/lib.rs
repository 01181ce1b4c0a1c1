//! A wire-protocol codec and connection state machine for exchanging typed,
//! state-scoped packets with a Minecraft-compatible peer: binary value
//! serialization, length-prefixed framing with optional compression and
//! CFB8 encryption, per-state packet dispatch, and the Forge bit-packed
//! status-string codec.

pub mod state;
pub mod error;
pub mod varint;
pub mod codec;
pub mod resource;
pub mod bitpack;
pub mod forge_data;
pub mod forge_laws;
pub mod lists;
pub mod packets;
pub mod crypto;
pub mod frame;
pub mod connection;
