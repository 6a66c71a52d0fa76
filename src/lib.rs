//! A multi-client message relay: length-prefixed framing, a typed message
//! envelope, a connection registry for broadcast fan-out, and the
//! per-connection session rules that decide what the relay does next.

pub mod wire;
pub mod message;
pub mod registry;
pub mod session;
pub mod auth;
pub mod command;
