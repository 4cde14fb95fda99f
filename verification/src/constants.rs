//! Protocol-wide size and rate limits.

use vstd::prelude::*;

verus! {

/// Maximum number of clients the transport server will ever slot.
pub const TRANSPORT_MAX_CLIENTS: usize = 1024;

/// Maximum number of mid-handshake (pending) clients: four per slot.
pub const TRANSPORT_MAX_PENDING_CLIENTS: usize = 4096;

/// Maximum size in bytes of one datagram.
pub const TRANSPORT_MAX_PACKET_BYTES: usize = 1400;

/// Maximum size in bytes of a payload carried in one datagram.
pub const TRANSPORT_MAX_PAYLOAD_BYTES: usize = 1300;

/// Maximum size in bytes of the aggregated message block of one packet.
pub const MAX_MESSAGES_LENGTH: usize = 1200;

/// Milliseconds between keep-alive datagrams to a connected client.
pub const TRANSPORT_SEND_RATE_MS: u64 = 250;

} // verus!
