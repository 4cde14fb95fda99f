//! Inbound events of the compact event framing: a one-byte type tag over
//! a payload. Floating-point inputs are carried as their 32-bit patterns.

use vstd::prelude::*;

use crate::wire::{le_u32, read_u32_le};

verus! {

/// The inbound event types.
#[derive(Debug, Clone, Copy, PartialEq, Eq)]
pub enum EventInType {
    Connect,
    Move,
    Rotation,
    Invalid,
}

/// The event type a tag byte stands for; unknown tags are `Invalid`.
pub open spec fn spec_event_in_type(value: u8) -> EventInType {
    if value == 0 {
        EventInType::Connect
    } else if value == 2 {
        EventInType::Move
    } else if value == 3 {
        EventInType::Rotation
    } else {
        EventInType::Invalid
    }
}

impl EventInType {
    /// The event type for a tag byte; never fails, unknown tags are
    /// `Invalid`.
    pub fn try_from(value: u8) -> (r: Result<EventInType, ()>)
        ensures
            r == Ok::<EventInType, ()>(spec_event_in_type(value)),
    {
        match value {
            0 => Ok(EventInType::Connect),
            2 => Ok(EventInType::Move),
            3 => Ok(EventInType::Rotation),
            _ => Ok(EventInType::Invalid),
        }
    }
}

/// One inbound event: its type and its payload.
#[derive(Debug, Clone, PartialEq, Eq)]
pub struct EventIn {
    pub event_type: EventInType,
    pub data: Vec<u8>,
}

/// A move input: two little-endian 32-bit float patterns.
#[derive(Debug, Clone, Copy, PartialEq, Eq)]
pub struct MoveEvent {
    pub x_bits: u32,
    pub y_bits: u32,
}

/// A connect request carrying an opaque message.
#[derive(Debug, Clone, PartialEq, Eq)]
pub struct ConnectEvent {
    pub message: Vec<u8>,
}

/// A disconnect notice carrying an opaque message.
#[derive(Debug, Clone, PartialEq, Eq)]
pub struct DisconnectEvent {
    pub message: Vec<u8>,
}

impl EventIn {
    /// Splits a raw event into its type tag and payload. An event needs at
    /// least the tag and one payload byte.
    pub fn new(bytes: Vec<u8>) -> (r: Result<EventIn, &'static str>)
        ensures
            bytes@.len() < 2 ==> r is Err,
            bytes@.len() >= 2 ==> (r matches Ok(e) && e.event_type == spec_event_in_type(
                bytes@[0],
            ) && e.data@ == bytes@.drop_first()),
    {
        if bytes.len() < 2 {
            return Err("Not enough bytes for EventIn");
        }
        let event_type = match EventInType::try_from(bytes[0]) {
            Ok(t) => t,
            Err(_) => {
                return Err("Invalid event type");
            },
        };
        let data = crate::wire::read_bytes(bytes.as_slice(), 1, bytes.len() - 1);
        proof {
            assert(data@ =~= bytes@.drop_first());
        }
        Ok(EventIn { event_type, data })
    }
}

/// Reads a move input: x and y float patterns.
pub fn digest_move_event(data: Vec<u8>) -> (r: Result<MoveEvent, &'static str>)
    ensures
        data@.len() < 8 ==> r is Err,
        data@.len() >= 8 ==> r == Ok::<MoveEvent, &'static str>(
            MoveEvent {
                x_bits: le_u32(data@[0], data@[1], data@[2], data@[3]),
                y_bits: le_u32(data@[4], data@[5], data@[6], data@[7]),
            },
        ),
{
    if data.len() < 8 {
        return Err("Insufficient bytes for MoveInputUpdate");
    }
    let x_bits = read_u32_le(data.as_slice(), 0);
    let y_bits = read_u32_le(data.as_slice(), 4);
    Ok(MoveEvent { x_bits, y_bits })
}

/// Reads a rotation input: one float pattern.
pub fn digest_rotation_event(data: Vec<u8>) -> (r: Result<u32, &'static str>)
    ensures
        data@.len() < 4 ==> r is Err,
        data@.len() >= 4 ==> r == Ok::<u32, &'static str>(
            le_u32(data@[0], data@[1], data@[2], data@[3]),
        ),
{
    if data.len() < 4 {
        return Err("Insufficient bytes for Rotation");
    }
    Ok(read_u32_le(data.as_slice(), 0))
}

/// Reads a connect request: the whole payload is the message.
pub fn digest_connect_event(data: Vec<u8>) -> (r: Result<ConnectEvent, &'static str>)
    ensures
        data@.len() < 1 ==> r is Err,
        data@.len() >= 1 ==> (r matches Ok(e) && e.message@ == data@),
{
    if data.len() < 1 {
        return Err("Insufficient bytes for Connect");
    }
    Ok(ConnectEvent { message: data })
}

} // verus!
