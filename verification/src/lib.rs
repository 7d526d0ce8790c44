//! Core of a small onion-routing overlay that carries a browser's TCP
//! streams over three relays: the wire codec and framing, the onion
//! construction and peeling, the stream multiplexer's state, the
//! directory registry, and the cryptographic bindings they rest on.

use vstd::prelude::*;

pub mod addr;
pub mod bytes;
pub mod circuit;
pub mod codec;
pub mod config;
pub mod crypto;
pub mod directory;
pub mod errors;
pub mod exit;
pub mod keyed;
pub mod onion;
pub mod protocol;
pub mod stream_table;

verus! {

/// Number of relays in a circuit.
pub const CIRCUIT_LEN: usize = 3;

/// Capacity of every bounded channel: when a consumer stalls, senders
/// block here rather than buffer without bound.
pub const CHANNEL_CAPACITY: usize = 128;

/// How many bytes a pump reads from a socket at a time.
pub const READ_CHUNK_LEN: usize = 4096;

} // verus!
