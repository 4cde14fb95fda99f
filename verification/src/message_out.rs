//! Outbound application-layer messages: a type byte over fixed-layout
//! records of 16-byte player ids and little-endian 32-bit float patterns,
//! with a leading 64-bit record count for list-shaped messages.

use vstd::prelude::*;
use vstd::string::StringSliceAdditionalSpecFns;

use crate::transport_packet::pad16;
use crate::wire::{push_u32_le, push_u64_le, push_u8, u32_le, u64_le};

verus! {

/// The outbound message types.
#[derive(Debug, Clone, Copy, PartialEq, Eq)]
pub enum MessageOutType {
    LevelObjects,
    Position,
    Rotation,
    Fire,
    Hit,
    Health,
    Disconnect,
}

/// A three-component vector as 32-bit float patterns.
#[derive(Debug, Clone, Copy, PartialEq, Eq)]
pub struct Vec3Bits {
    pub x_bits: u32,
    pub y_bits: u32,
    pub z_bits: u32,
}

/// A four-component vector as 32-bit float patterns.
#[derive(Debug, Clone, Copy, PartialEq, Eq)]
pub struct Vec4Bits {
    pub x_bits: u32,
    pub y_bits: u32,
    pub z_bits: u32,
    pub w_bits: u32,
}

/// The encoding of a three-component vector.
pub open spec fn vec3_enc(v: Vec3Bits) -> Seq<u8> {
    u32_le(v.x_bits) + u32_le(v.y_bits) + u32_le(v.z_bits)
}

/// The encoding of a four-component vector.
pub open spec fn vec4_enc(v: Vec4Bits) -> Seq<u8> {
    u32_le(v.x_bits) + u32_le(v.y_bits) + u32_le(v.z_bits) + u32_le(v.w_bits)
}

/// The encoding of a record list: each record is the 16-byte padded player
/// id followed by its body.
pub open spec fn records_enc(rs: Seq<(Seq<u8>, Seq<u8>)>) -> Seq<u8>
    decreases rs.len(),
{
    if rs.len() == 0 {
        Seq::empty()
    } else {
        pad16(rs[0].0) + rs[0].1 + records_enc(rs.drop_first())
    }
}

/// Appending one record appends its encoding.
pub proof fn lemma_records_enc_push(rs: Seq<(Seq<u8>, Seq<u8>)>, r: (Seq<u8>, Seq<u8>))
    ensures
        records_enc(rs.push(r)) == records_enc(rs) + pad16(r.0) + r.1,
    decreases rs.len(),
{
    if rs.len() == 0 {
        assert(rs.push(r)[0] == r);
        assert(rs.push(r).drop_first() =~= Seq::<(Seq<u8>, Seq<u8>)>::empty());
        assert(records_enc(Seq::<(Seq<u8>, Seq<u8>)>::empty()) =~= Seq::<u8>::empty());
        assert(records_enc(rs.push(r)) =~= pad16(r.0) + r.1 + Seq::<u8>::empty());
        assert(pad16(r.0) + r.1 + Seq::<u8>::empty() =~= pad16(r.0) + r.1);
        assert(records_enc(rs) + pad16(r.0) + r.1 =~= pad16(r.0) + r.1);
    } else {
        assert(rs.push(r).drop_first() =~= rs.drop_first().push(r));
        lemma_records_enc_push(rs.drop_first(), r);
        assert(records_enc(rs.push(r)) =~= records_enc(rs) + pad16(r.0) + r.1);
    }
}

/// One outbound message: its type and its serialized payload.
#[derive(Debug, Clone, PartialEq, Eq)]
pub struct MessageOut {
    pub event_type: MessageOutType,
    pub data: Vec<u8>,
}

/// Appends the 16-byte padded player id.
pub fn push_pad16(out: &mut Vec<u8>, id: &Vec<u8>)
    ensures
        final(out)@ == old(out)@ + pad16(id@),
{
    let mut j: usize = 0;
    while j < 16
        invariant
            j <= 16,
            out@ == old(out)@ + pad16(id@).take(j as int),
        decreases 16 - j,
    {
        if j < id.len() {
            out.push(id[j]);
        } else {
            out.push(0);
        }
        proof {
            assert(out@ =~= old(out)@ + pad16(id@).take(j as int + 1));
        }
        j = j + 1;
    }
    proof {
        assert(pad16(id@).take(16) =~= pad16(id@));
    }
}

/// Appends the encoding of a three-component vector.
pub fn push_vec3(out: &mut Vec<u8>, v: Vec3Bits)
    ensures
        final(out)@ == old(out)@ + vec3_enc(v),
{
    push_u32_le(out, v.x_bits);
    push_u32_le(out, v.y_bits);
    push_u32_le(out, v.z_bits);
    proof {
        assert(out@ =~= old(out)@ + vec3_enc(v));
    }
}

/// Appends the encoding of a four-component vector.
pub fn push_vec4(out: &mut Vec<u8>, v: Vec4Bits)
    ensures
        final(out)@ == old(out)@ + vec4_enc(v),
{
    push_u32_le(out, v.x_bits);
    push_u32_le(out, v.y_bits);
    push_u32_le(out, v.z_bits);
    push_u32_le(out, v.w_bits);
    proof {
        assert(out@ =~= old(out)@ + vec4_enc(v));
    }
}

/// The record view of a position list.
pub open spec fn pos_records(v: Seq<(Vec3Bits, Vec<u8>)>) -> Seq<(Seq<u8>, Seq<u8>)> {
    Seq::new(v.len(), |i: int| (v[i].1@, vec3_enc(v[i].0)))
}

/// The record view of a rotation list.
pub open spec fn rot_records(v: Seq<(Vec4Bits, Vec<u8>)>) -> Seq<(Seq<u8>, Seq<u8>)> {
    Seq::new(v.len(), |i: int| (v[i].1@, vec4_enc(v[i].0)))
}

/// The record view of a disconnect list.
pub open spec fn disc_records(v: Seq<Vec<u8>>) -> Seq<(Seq<u8>, Seq<u8>)> {
    Seq::new(v.len(), |i: int| (v[i]@, Seq::<u8>::empty()))
}

/// The record view of a health list.
pub open spec fn health_records(v: Seq<(Vec<u8>, u32)>) -> Seq<(Seq<u8>, Seq<u8>)> {
    Seq::new(v.len(), |i: int| (v[i].0@, u32_le(v[i].1)))
}

impl MessageOut {
    /// Frames the message for one recipient: a leading marker byte, the
    /// recipient identifier, a zero separator, then the payload.
    pub fn get_with_event_header(&self, identifier: Vec<u8>) -> (r: Vec<u8>)
        ensures
            r@ == seq![1u8] + identifier@ + seq![0u8] + self.data@,
    {
        let mut with_header: Vec<u8> = Vec::new();
        push_u8(&mut with_header, 1);
        crate::wire::push_bytes(&mut with_header, &identifier);
        push_u8(&mut with_header, 0);
        crate::wire::push_bytes(&mut with_header, &self.data);
        proof {
            assert(with_header@ =~= seq![1u8] + identifier@ + seq![0u8] + self.data@);
        }
        with_header
    }

    /// The position broadcast: type byte 1, a record count, then one
    /// 16-byte-id-and-vector record per player. Nothing to report, nothing
    /// to send.
    #[verifier::loop_isolation(false)]
    pub fn position_message(positions: Vec<(Vec3Bits, Vec<u8>)>) -> (r: Option<MessageOut>)
        requires
            positions@.len() <= u64::MAX,
        ensures
            positions@.len() == 0 ==> r is None,
            positions@.len() > 0 ==> (r matches Some(m) && m.event_type
                == MessageOutType::Position && m.data@ == seq![1u8] + u64_le(
                positions@.len() as u64,
            ) + records_enc(pos_records(positions@))),
    {
        if positions.len() == 0 {
            return None;
        }
        let mut data: Vec<u8> = Vec::new();
        push_u8(&mut data, 1);
        push_u64_le(&mut data, positions.len() as u64);
        let ghost header = data@;
        let mut i: usize = 0;
        while i < positions.len()
            invariant
                i <= positions@.len(),
                data@ == header + records_enc(pos_records(positions@).take(i as int)),
            decreases positions@.len() - i,
        {
            push_pad16(&mut data, &positions[i].1);
            push_vec3(&mut data, positions[i].0);
            proof {
                lemma_records_enc_push(
                    pos_records(positions@).take(i as int),
                    pos_records(positions@)[i as int],
                );
                assert(pos_records(positions@).take(i as int).push(
                    pos_records(positions@)[i as int],
                ) =~= pos_records(positions@).take(i as int + 1));
                assert(data@ =~= header + records_enc(
                    pos_records(positions@).take(i as int + 1),
                ));
            }
            i = i + 1;
        }
        proof {
            assert(pos_records(positions@).take(positions@.len() as int) =~= pos_records(
                positions@,
            ));
        }
        Some(MessageOut { event_type: MessageOutType::Position, data })
    }

    /// The rotation broadcast: type byte 2, a record count, then one
    /// 16-byte-id-and-quaternion record per player.
    #[verifier::loop_isolation(false)]
    pub fn rotation_message(rotations: Vec<(Vec4Bits, Vec<u8>)>) -> (r: Option<MessageOut>)
        requires
            rotations@.len() <= u64::MAX,
        ensures
            rotations@.len() == 0 ==> r is None,
            rotations@.len() > 0 ==> (r matches Some(m) && m.event_type
                == MessageOutType::Rotation && m.data@ == seq![2u8] + u64_le(
                rotations@.len() as u64,
            ) + records_enc(rot_records(rotations@))),
    {
        if rotations.len() == 0 {
            return None;
        }
        let mut data: Vec<u8> = Vec::new();
        push_u8(&mut data, 2);
        push_u64_le(&mut data, rotations.len() as u64);
        let ghost header = data@;
        let mut i: usize = 0;
        while i < rotations.len()
            invariant
                i <= rotations@.len(),
                data@ == header + records_enc(rot_records(rotations@).take(i as int)),
            decreases rotations@.len() - i,
        {
            push_pad16(&mut data, &rotations[i].1);
            push_vec4(&mut data, rotations[i].0);
            proof {
                lemma_records_enc_push(
                    rot_records(rotations@).take(i as int),
                    rot_records(rotations@)[i as int],
                );
                assert(rot_records(rotations@).take(i as int).push(
                    rot_records(rotations@)[i as int],
                ) =~= rot_records(rotations@).take(i as int + 1));
                assert(data@ =~= header + records_enc(
                    rot_records(rotations@).take(i as int + 1),
                ));
            }
            i = i + 1;
        }
        proof {
            assert(rot_records(rotations@).take(rotations@.len() as int) =~= rot_records(
                rotations@,
            ));
        }
        Some(MessageOut { event_type: MessageOutType::Rotation, data })
    }

    /// The disconnect broadcast: type byte 10, a record count, then one
    /// 16-byte id per departed player.
    #[verifier::loop_isolation(false)]
    pub fn disconnect_message(player_ids: Vec<Vec<u8>>) -> (r: Option<MessageOut>)
        requires
            player_ids@.len() <= u64::MAX,
        ensures
            player_ids@.len() == 0 ==> r is None,
            player_ids@.len() > 0 ==> (r matches Some(m) && m.event_type
                == MessageOutType::Disconnect && m.data@ == seq![10u8] + u64_le(
                player_ids@.len() as u64,
            ) + records_enc(disc_records(player_ids@))),
    {
        if player_ids.len() == 0 {
            return None;
        }
        let mut data: Vec<u8> = Vec::new();
        push_u8(&mut data, 10);
        push_u64_le(&mut data, player_ids.len() as u64);
        let ghost header = data@;
        let mut i: usize = 0;
        while i < player_ids.len()
            invariant
                i <= player_ids@.len(),
                data@ == header + records_enc(disc_records(player_ids@).take(i as int)),
            decreases player_ids@.len() - i,
        {
            push_pad16(&mut data, &player_ids[i]);
            proof {
                lemma_records_enc_push(
                    disc_records(player_ids@).take(i as int),
                    disc_records(player_ids@)[i as int],
                );
                assert(disc_records(player_ids@).take(i as int).push(
                    disc_records(player_ids@)[i as int],
                ) =~= disc_records(player_ids@).take(i as int + 1));
                assert(pad16(player_ids@[i as int]@) + Seq::<u8>::empty() =~= pad16(
                    player_ids@[i as int]@,
                ));
                assert(data@ =~= header + records_enc(
                    disc_records(player_ids@).take(i as int + 1),
                ));
            }
            i = i + 1;
        }
        proof {
            assert(disc_records(player_ids@).take(player_ids@.len() as int) =~= disc_records(
                player_ids@,
            ));
        }
        Some(MessageOut { event_type: MessageOutType::Disconnect, data })
    }

    /// A shot report: type byte 3, the shooter's 16-byte id, the origin and
    /// the direction.
    pub fn fire_message(player_id: Vec<u8>, origin: Vec3Bits, direction: Vec3Bits) -> (r:
        MessageOut)
        ensures
            r.event_type == MessageOutType::Fire,
            r.data@ == seq![3u8] + pad16(player_id@) + vec3_enc(origin) + vec3_enc(direction),
    {
        let mut data: Vec<u8> = Vec::new();
        push_u8(&mut data, 3);
        push_pad16(&mut data, &player_id);
        push_vec3(&mut data, origin);
        push_vec3(&mut data, direction);
        proof {
            assert(data@ =~= seq![3u8] + pad16(player_id@) + vec3_enc(origin) + vec3_enc(
                direction,
            ));
        }
        MessageOut { event_type: MessageOutType::Fire, data }
    }

    /// A hit report: type byte 4, the shooter's and the target's 16-byte
    /// ids, and the point of impact.
    pub fn hit_message(player_id: Vec<u8>, target_id: Vec<u8>, point: Vec3Bits) -> (r: MessageOut)
        ensures
            r.event_type == MessageOutType::Hit,
            r.data@ == seq![4u8] + pad16(player_id@) + pad16(target_id@) + vec3_enc(point),
    {
        let mut data: Vec<u8> = Vec::new();
        push_u8(&mut data, 4);
        push_pad16(&mut data, &player_id);
        push_pad16(&mut data, &target_id);
        push_vec3(&mut data, point);
        proof {
            assert(data@ =~= seq![4u8] + pad16(player_id@) + pad16(target_id@) + vec3_enc(
                point,
            ));
        }
        MessageOut { event_type: MessageOutType::Hit, data }
    }

    /// The health broadcast: type byte 6, a record count, then one
    /// 16-byte-id-and-float-pattern record per player.
    #[verifier::loop_isolation(false)]
    pub fn health_message(healths: Vec<(Vec<u8>, u32)>) -> (r: MessageOut)
        requires
            healths@.len() <= u64::MAX,
        ensures
            r.event_type == MessageOutType::Health,
            r.data@ == seq![6u8] + u64_le(healths@.len() as u64) + records_enc(
                health_records(healths@),
            ),
    {
        let mut data: Vec<u8> = Vec::new();
        push_u8(&mut data, 6);
        push_u64_le(&mut data, healths.len() as u64);
        let ghost header = data@;
        let mut i: usize = 0;
        while i < healths.len()
            invariant
                i <= healths@.len(),
                data@ == header + records_enc(health_records(healths@).take(i as int)),
            decreases healths@.len() - i,
        {
            push_pad16(&mut data, &healths[i].0);
            push_u32_le(&mut data, healths[i].1);
            proof {
                lemma_records_enc_push(
                    health_records(healths@).take(i as int),
                    health_records(healths@)[i as int],
                );
                assert(health_records(healths@).take(i as int).push(
                    health_records(healths@)[i as int],
                ) =~= health_records(healths@).take(i as int + 1));
                assert(data@ =~= header + records_enc(
                    health_records(healths@).take(i as int + 1),
                ));
            }
            i = i + 1;
        }
        proof {
            assert(health_records(healths@).take(healths@.len() as int) =~= health_records(
                healths@,
            ));
        }
        MessageOut { event_type: MessageOutType::Health, data }
    }
}

/// A player identity as its 16-byte null-padded wire form.
pub fn normalize_player_id(player_id: &str) -> (r: [u8; 16])
    ensures
        r@ == pad16(player_id.spec_bytes()),
{
    let bytes = player_id.as_bytes();
    let mut r: [u8; 16] = [0; 16];
    let mut i: usize = 0;
    while i < 16
        invariant
            i <= 16,
            bytes@ == player_id.spec_bytes(),
            forall|k: int|
                0 <= k < i ==> (#[trigger] r@[k]) == pad16(player_id.spec_bytes())[k],
            forall|k: int| i <= k < 16 ==> (#[trigger] r@[k]) == 0u8,
        decreases 16 - i,
    {
        if i < bytes.len() {
            r[i] = bytes[i];
        }
        i = i + 1;
    }
    proof {
        assert(r@ =~= pad16(player_id.spec_bytes()));
    }
    r
}

} // verus!
