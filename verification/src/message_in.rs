//! Inbound application-layer messages: a one-byte type tag over a payload.
//! Numeric payload fields are little-endian; floating-point coordinates are
//! carried as their 32-bit patterns for the game layer to interpret.

use vstd::prelude::*;

use crate::packet::SerializationError;
use crate::wire::{le_u32, read_u32_le};

verus! {

/// The inbound message types.
#[derive(Debug, Clone, Copy, PartialEq, Eq)]
pub enum MessageInType {
    Spawn,
    Move,
    Rotation,
    Jump,
    Fire,
    Invalid,
}

/// The message type a tag byte stands for; unknown tags are `Invalid`.
pub open spec fn spec_message_in_type(value: u8) -> MessageInType {
    if value == 0 {
        MessageInType::Spawn
    } else if value == 2 {
        MessageInType::Move
    } else if value == 3 {
        MessageInType::Rotation
    } else if value == 4 {
        MessageInType::Jump
    } else if value == 5 {
        MessageInType::Fire
    } else {
        MessageInType::Invalid
    }
}

impl MessageInType {
    /// The message type for a tag byte; never fails, unknown tags are
    /// `Invalid`.
    pub fn try_from(value: u8) -> (r: Result<MessageInType, ()>)
        ensures
            r == Ok::<MessageInType, ()>(spec_message_in_type(value)),
    {
        match value {
            0 => Ok(MessageInType::Spawn),
            2 => Ok(MessageInType::Move),
            3 => Ok(MessageInType::Rotation),
            4 => Ok(MessageInType::Jump),
            5 => Ok(MessageInType::Fire),
            _ => Ok(MessageInType::Invalid),
        }
    }
}

/// A move input: two little-endian 32-bit float patterns, x then y.
#[derive(Debug, Clone, Copy, PartialEq, Eq)]
pub struct MoveEvent {
    pub x_bits: u32,
    pub y_bits: u32,
}

/// A look direction: four little-endian 32-bit float patterns.
#[derive(Debug, Clone, Copy, PartialEq, Eq)]
pub struct LookEvent {
    pub x_bits: u32,
    pub y_bits: u32,
    pub z_bits: u32,
    pub w_bits: u32,
}

/// A jump input.
#[derive(Debug, Clone, Copy, PartialEq, Eq)]
pub struct JumpEvent {}

/// A spawn request carrying the player identity.
#[derive(Debug, Clone, PartialEq, Eq)]
pub struct SpawnEvent {
    pub player_id: Vec<u8>,
}

/// A fire input: camera origin, direction, and barrel origin, three
/// little-endian 32-bit float patterns each.
#[derive(Debug, Clone, Copy, PartialEq, Eq)]
pub struct FireEvent {
    pub cam_origin_x_bits: u32,
    pub cam_origin_y_bits: u32,
    pub cam_origin_z_bits: u32,
    pub direction_x_bits: u32,
    pub direction_y_bits: u32,
    pub direction_z_bits: u32,
    pub barrel_origin_x_bits: u32,
    pub barrel_origin_y_bits: u32,
    pub barrel_origin_z_bits: u32,
}

/// One inbound message: its type, its payload, and the sending player.
#[derive(Debug, Clone, PartialEq, Eq)]
pub struct MessageIn {
    pub event_type: MessageInType,
    pub data: Vec<u8>,
    pub player_id: Vec<u8>,
}

impl MessageIn {
    /// Splits a raw message into its type tag and payload. An empty message
    /// cannot be split.
    pub fn new(bytes: Vec<u8>, player_id: Vec<u8>) -> (r: Result<MessageIn, &'static str>)
        ensures
            bytes@.len() < 1 ==> r is Err,
            bytes@.len() >= 1 ==> (r matches Ok(m) && m.event_type == spec_message_in_type(
                bytes@[0],
            ) && m.data@ == bytes@.drop_first() && m.player_id@ == player_id@),
    {
        if bytes.len() < 1 {
            return Err("Not enough bytes for MessageIn");
        }
        let event_type = match MessageInType::try_from(bytes[0]) {
            Ok(t) => t,
            Err(_) => {
                return Err("Invalid event type");
            },
        };
        let data = crate::wire::read_bytes(bytes.as_slice(), 1, bytes.len() - 1);
        proof {
            assert(data@ =~= bytes@.drop_first());
        }
        Ok(MessageIn { event_type, data, player_id })
    }

    /// Reads the move payload: x and y float patterns.
    pub fn to_move_event(&self) -> (r: Result<MoveEvent, SerializationError>)
        ensures
            self.data@.len() < 8 ==> r == Err::<MoveEvent, SerializationError>(
                SerializationError::BufferTooShort,
            ),
            self.data@.len() >= 8 ==> r == Ok::<MoveEvent, SerializationError>(
                MoveEvent {
                    x_bits: le_u32(self.data@[0], self.data@[1], self.data@[2], self.data@[3]),
                    y_bits: le_u32(self.data@[4], self.data@[5], self.data@[6], self.data@[7]),
                },
            ),
    {
        if self.data.len() < 8 {
            return Err(SerializationError::BufferTooShort);
        }
        let x_bits = read_u32_le(self.data.as_slice(), 0);
        let y_bits = read_u32_le(self.data.as_slice(), 4);
        Ok(MoveEvent { x_bits, y_bits })
    }

    /// Reads the look payload: x, y, z and w float patterns.
    pub fn to_look_event(&self) -> (r: Result<LookEvent, SerializationError>)
        ensures
            self.data@.len() < 16 ==> r == Err::<LookEvent, SerializationError>(
                SerializationError::BufferTooShort,
            ),
            self.data@.len() >= 16 ==> (r matches Ok(e) && e.x_bits == le_u32(
                self.data@[0], self.data@[1], self.data@[2], self.data@[3],
            ) && e.y_bits == le_u32(self.data@[4], self.data@[5], self.data@[6], self.data@[7])
                && e.z_bits == le_u32(
                self.data@[8], self.data@[9], self.data@[10], self.data@[11],
            ) && e.w_bits == le_u32(
                self.data@[12], self.data@[13], self.data@[14], self.data@[15],
            )),
    {
        if self.data.len() < 16 {
            return Err(SerializationError::BufferTooShort);
        }
        let x_bits = read_u32_le(self.data.as_slice(), 0);
        let y_bits = read_u32_le(self.data.as_slice(), 4);
        let z_bits = read_u32_le(self.data.as_slice(), 8);
        let w_bits = read_u32_le(self.data.as_slice(), 12);
        Ok(LookEvent { x_bits, y_bits, z_bits, w_bits })
    }

    /// A jump input carries no payload.
    pub fn to_jump_event(&self) -> (r: Result<JumpEvent, SerializationError>)
        ensures
            r == Ok::<JumpEvent, SerializationError>(JumpEvent {}),
    {
        Ok(JumpEvent {})
    }

    /// A spawn request for this message's player.
    pub fn to_spawn_event(&self) -> (r: Result<SpawnEvent, SerializationError>)
        ensures
            r matches Ok(e) && e.player_id@ == self.player_id@,
    {
        Ok(SpawnEvent { player_id: self.player_id.clone() })
    }

    /// Reads the fire payload: nine float patterns.
    pub fn to_fire_event(&self) -> (r: Result<FireEvent, SerializationError>)
        ensures
            self.data@.len() < 36 ==> r == Err::<FireEvent, SerializationError>(
                SerializationError::BufferTooShort,
            ),
            self.data@.len() >= 36 ==> (r matches Ok(e) && e.cam_origin_x_bits == le_u32(
                self.data@[0], self.data@[1], self.data@[2], self.data@[3],
            ) && e.direction_x_bits == le_u32(
                self.data@[12], self.data@[13], self.data@[14], self.data@[15],
            ) && e.barrel_origin_x_bits == le_u32(
                self.data@[24], self.data@[25], self.data@[26], self.data@[27],
            )),
    {
        if self.data.len() < 36 {
            return Err(SerializationError::BufferTooShort);
        }
        let s = self.data.as_slice();
        let cam_origin_x_bits = read_u32_le(s, 0);
        let cam_origin_y_bits = read_u32_le(s, 4);
        let cam_origin_z_bits = read_u32_le(s, 8);
        let direction_x_bits = read_u32_le(s, 12);
        let direction_y_bits = read_u32_le(s, 16);
        let direction_z_bits = read_u32_le(s, 20);
        let barrel_origin_x_bits = read_u32_le(s, 24);
        let barrel_origin_y_bits = read_u32_le(s, 28);
        let barrel_origin_z_bits = read_u32_le(s, 32);
        Ok(
            FireEvent {
                cam_origin_x_bits,
                cam_origin_y_bits,
                cam_origin_z_bits,
                direction_x_bits,
                direction_y_bits,
                direction_z_bits,
                barrel_origin_x_bits,
                barrel_origin_y_bits,
                barrel_origin_z_bits,
            },
        )
    }
}

} // verus!
