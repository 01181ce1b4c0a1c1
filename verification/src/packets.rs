//! Packet definitions, one module per protocol state, plus the Forge and
//! Fabric handshake channels.

pub mod handshake;
pub mod status;
pub mod login;
pub mod game;
pub mod forge;
pub mod fabric;
