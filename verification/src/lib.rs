//! Client side of a LAN discovery protocol for media servers.

pub mod attempt;
pub mod client;
pub mod codec;
pub mod laws;
pub mod port;
pub mod tag;
pub mod text;
pub mod wire;
