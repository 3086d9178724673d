//! Server-side endpoint for a compact binary datagram protocol: a verified
//! message codec (header, token, delta-encoded options, payload) and the
//! dispatch logic that feeds decoded messages to a pluggable handler.

pub mod codec;
pub mod endpoint;
pub mod message;
pub mod nullhandler;
pub mod nullserver;
pub mod opt;
