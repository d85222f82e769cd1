//! The local command transport: one framed request and one framed reply
//! per connection, between a short-lived client and the daemon.

pub mod handler;
pub mod pipe;
pub mod roundtrip;
pub mod wire;
