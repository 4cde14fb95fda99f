//! Error taxonomy of the channel and connection layers.

use vstd::prelude::*;

use crate::packet::SerializationError;

verus! {

/// Why a channel refused a message.
#[derive(Debug, Clone, Copy, PartialEq, Eq)]
pub enum ChannelError {
    /// Admitting the message would exceed the channel's memory cap.
    ReliableChannelMaxMemoryReached,
    /// The message cannot fit one aggregated packet.
    MessageTooLarge,
    /// The 64-bit message id space is exhausted.
    MessageIdExhausted,
}

/// Why a connection was terminated. Terminal: a disconnected connection is
/// discarded, not reused.
#[derive(Debug, Clone, Copy, PartialEq, Eq)]
pub enum DisconnectReason {
    DisconnectedByClient,
    DisconnectedByServer,
    Transport,
    SendChannelError { channel_id: u8, error: ChannelError },
    ReceiveChannelError { channel_id: u8, error: ChannelError },
    PacketDeserialization(SerializationError),
    PacketSerialization(SerializationError),
}

/// Why the transport server refused a datagram or request.
#[derive(Debug, Clone, Copy, PartialEq, Eq)]
pub enum TransportServerError {
    /// The type of the packet is invalid.
    InvalidPacketType,
    /// Invalid player id in a connect packet.
    InvalidPlayerId,
    /// Invalid session ticket in a connect packet.
    InvalidSessionTicket,
    /// The packet is too small for its shape.
    PacketTooSmall,
    /// The payload is above the maximum limit.
    PayloadAboveLimit,
    /// The processed packet is duplicated.
    DuplicatedSequence,
    /// No more hosts are available.
    NoMoreServers,
    /// The pending connection has expired.
    Expired,
    /// The client is disconnected.
    Disconnected(DisconnectReason),
    /// The server address is not in the host list.
    NotInHostList,
    /// The client was not found.
    ClientNotFound,
    /// The client is not connected.
    ClientNotConnected,
}

/// The client id is not known to the server.
#[derive(Debug, Clone, Copy, PartialEq, Eq)]
pub struct ClientNotFound;

} // verus!
