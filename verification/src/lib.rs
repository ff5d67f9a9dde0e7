//! Protocol engine for a remote-console (RCON) client: wire framing for two
//! frame conventions, a compact binary message codec, and the decision logic
//! of the authentication handshake and the post-authentication read loop.
//!
//! Everything here is pure: bytes in, values out. The surrounding I/O layer
//! owns the sockets, reads chunks, and feeds them to the engine.

use vstd::prelude::*;

pub mod cli;
pub mod client;
pub mod codec;
pub mod inner_client;
pub mod message;
mod varint;
pub mod wire;

verus! {

/// Error produced by the protocol engine or reported by the I/O layer.
///
/// `Io` covers transport failures, including a connection closed while a
/// message was still expected; `Parse` covers malformed message bytes that
/// framing recovery could not explain away.
#[derive(Debug, Clone, Copy, PartialEq, Eq, Structural)]
pub enum Error {
    Io,
    Parse,
}

} // verus!
