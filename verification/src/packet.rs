//! Channel-level wire frames and their bit-exact codec.
//!
//! Three frame shapes share a one-byte channel discriminator: an aggregated
//! unreliable batch, an aggregated reliable batch with sequence number and
//! piggyback ack, and a pure acknowledgement. All integers are little-endian.

use vstd::prelude::*;

use crate::constants::TRANSPORT_MAX_PACKET_BYTES;
use crate::wire::{
    le_u16, le_u32, le_u64, lemma_u16_le_roundtrip, lemma_u32_le_roundtrip, lemma_u64_le_roundtrip,
    push_bytes, push_u16_le, push_u32_le, push_u64_le, push_u8, read_bytes, read_u16_le,
    read_u32_le, read_u64_le, u16_le, u32_le, u64_le,
};

verus! {

/// A payload as handed to and from the transport layer.
pub type Payload = Vec<u8>;

/// Why a frame could not be encoded or decoded.
#[derive(Debug, Clone, Copy, PartialEq, Eq)]
pub enum SerializationError {
    BufferTooShort,
    InvalidNumSlices,
    InvalidAckRange,
    InvalidPacketType,
    InvalidChannelId,
}

/// A channel-level frame.
#[derive(Debug, Clone, PartialEq, Eq)]
pub enum Packet {
    /// Small messages of a reliable channel, aggregated, with sequence number
    /// and piggyback ack.
    SmallReliable {
        channel_id: u8,
        packet_type: u16,
        packet_process_time: u16,
        sequence_id: u16,
        acked_seq_id: u16,
        acked_mask: u32,
        messages: Vec<(u64, Vec<u8>)>,
    },
    /// Small messages of an unreliable channel, aggregated.
    SmallUnreliable { channel_id: u8, messages: Vec<Vec<u8>> },
    /// A pure acknowledgement.
    Ack {
        channel_id: u8,
        packet_type: u16,
        packet_process_time: u16,
        sequence_id: u16,
        acked_seq_id: u16,
        acked_mask: u32,
        end_posfix: u8,
    },
}

/// The mathematical model of a frame: the same shape over sequences.
pub enum SpecPacket {
    SmallReliable {
        channel_id: u8,
        packet_type: u16,
        packet_process_time: u16,
        sequence_id: u16,
        acked_seq_id: u16,
        acked_mask: u32,
        messages: Seq<(u64, Seq<u8>)>,
    },
    SmallUnreliable { channel_id: u8, messages: Seq<Seq<u8>> },
    Ack {
        channel_id: u8,
        packet_type: u16,
        packet_process_time: u16,
        sequence_id: u16,
        acked_seq_id: u16,
        acked_mask: u32,
        end_posfix: u8,
    },
}

/// The model of a reliable message list.
pub open spec fn rel_view(v: Seq<(u64, Vec<u8>)>) -> Seq<(u64, Seq<u8>)> {
    Seq::new(v.len(), |i: int| (v[i].0, v[i].1@))
}

/// The model of an unreliable message list.
pub open spec fn unrel_view(v: Seq<Vec<u8>>) -> Seq<Seq<u8>> {
    Seq::new(v.len(), |i: int| v[i]@)
}

impl View for Packet {
    type V = SpecPacket;

    open spec fn view(&self) -> SpecPacket {
        match self {
            Packet::SmallReliable {
                channel_id,
                packet_type,
                packet_process_time,
                sequence_id,
                acked_seq_id,
                acked_mask,
                messages,
            } => SpecPacket::SmallReliable {
                channel_id: *channel_id,
                packet_type: *packet_type,
                packet_process_time: *packet_process_time,
                sequence_id: *sequence_id,
                acked_seq_id: *acked_seq_id,
                acked_mask: *acked_mask,
                messages: rel_view(messages@),
            },
            Packet::SmallUnreliable { channel_id, messages } => SpecPacket::SmallUnreliable {
                channel_id: *channel_id,
                messages: unrel_view(messages@),
            },
            Packet::Ack {
                channel_id,
                packet_type,
                packet_process_time,
                sequence_id,
                acked_seq_id,
                acked_mask,
                end_posfix,
            } => SpecPacket::Ack {
                channel_id: *channel_id,
                packet_type: *packet_type,
                packet_process_time: *packet_process_time,
                sequence_id: *sequence_id,
                acked_seq_id: *acked_seq_id,
                acked_mask: *acked_mask,
                end_posfix: *end_posfix,
            },
        }
    }
}

/// Encoding of one reliable message: id, length, payload.
pub open spec fn rel_msg_enc(id: u64, m: Seq<u8>) -> Seq<u8> {
    u64_le(id) + u16_le(m.len() as u16) + m
}

/// Encoding of a reliable message list, in order.
pub open spec fn rel_msgs_enc(ms: Seq<(u64, Seq<u8>)>) -> Seq<u8>
    decreases ms.len(),
{
    if ms.len() == 0 {
        Seq::empty()
    } else {
        rel_msg_enc(ms[0].0, ms[0].1) + rel_msgs_enc(ms.drop_first())
    }
}

/// Encoding of one unreliable message: length, payload.
pub open spec fn unrel_msg_enc(m: Seq<u8>) -> Seq<u8> {
    u16_le(m.len() as u16) + m
}

/// Encoding of an unreliable message list, in order.
pub open spec fn unrel_msgs_enc(ms: Seq<Seq<u8>>) -> Seq<u8>
    decreases ms.len(),
{
    if ms.len() == 0 {
        Seq::empty()
    } else {
        unrel_msg_enc(ms[0]) + unrel_msgs_enc(ms.drop_first())
    }
}

/// The full little-endian encoding of a frame.
pub open spec fn spec_encode(p: SpecPacket) -> Seq<u8> {
    match p {
        SpecPacket::SmallUnreliable { channel_id, messages } => seq![channel_id] + u16_le(
            messages.len() as u16,
        ) + unrel_msgs_enc(messages),
        SpecPacket::SmallReliable {
            channel_id,
            packet_type,
            packet_process_time,
            sequence_id,
            acked_seq_id,
            acked_mask,
            messages,
        } => seq![channel_id] + u16_le(packet_type) + u16_le(packet_process_time) + u16_le(
            sequence_id,
        ) + u16_le(acked_seq_id) + u32_le(acked_mask) + u16_le(messages.len() as u16)
            + rel_msgs_enc(messages),
        SpecPacket::Ack {
            channel_id,
            packet_type,
            packet_process_time,
            sequence_id,
            acked_seq_id,
            acked_mask,
            end_posfix,
        } => seq![channel_id] + u16_le(packet_type) + u16_le(packet_process_time) + u16_le(
            sequence_id,
        ) + u16_le(acked_seq_id) + u32_le(acked_mask) + seq![end_posfix],
    }
}

/// A frame whose stored discriminators match its shape: only these decode
/// back to themselves.
pub open spec fn wf_packet(p: SpecPacket) -> bool {
    match p {
        SpecPacket::SmallUnreliable { channel_id, messages } => channel_id == 0 && messages.len()
            <= u16::MAX && forall|i: int|
            0 <= i < messages.len() ==> (#[trigger] messages[i]).len() <= u16::MAX,
        SpecPacket::SmallReliable { channel_id, packet_type, messages, .. } => channel_id == 1
            && packet_type == 0 && messages.len() <= u16::MAX && forall|i: int|
            0 <= i < messages.len() ==> (#[trigger] messages[i].1).len() <= u16::MAX,
        SpecPacket::Ack { channel_id, packet_type, .. } => channel_id == 1 && packet_type == 1,
    }
}

/// Result of parsing a message list: the messages and the position after them.
pub open spec fn prepend_unrel(
    ms: Seq<Seq<u8>>,
    r: Option<(Seq<Seq<u8>>, int)>,
) -> Option<(Seq<Seq<u8>>, int)> {
    match r {
        Option::None => Option::None,
        Option::Some((ms2, end)) => Option::Some((ms + ms2, end)),
    }
}

/// As `prepend_unrel`, for reliable message lists.
pub open spec fn prepend_rel(
    ms: Seq<(u64, Seq<u8>)>,
    r: Option<(Seq<(u64, Seq<u8>)>, int)>,
) -> Option<(Seq<(u64, Seq<u8>)>, int)> {
    match r {
        Option::None => Option::None,
        Option::Some((ms2, end)) => Option::Some((ms + ms2, end)),
    }
}

/// Parses `count` length-prefixed messages of `b` starting at `pos`.
pub open spec fn parse_unrel_msgs(b: Seq<u8>, pos: int, count: int) -> Option<(Seq<Seq<u8>>, int)>
    decreases count,
{
    if count <= 0 {
        Option::Some((Seq::empty(), pos))
    } else if pos + 2 > b.len() {
        Option::None
    } else {
        let n = le_u16(b[pos], b[pos + 1]) as int;
        if pos + 2 + n > b.len() {
            Option::None
        } else {
            prepend_unrel(
                seq![b.subrange(pos + 2, pos + 2 + n)],
                parse_unrel_msgs(b, pos + 2 + n, count - 1),
            )
        }
    }
}

/// Parses `count` id-and-length-prefixed messages of `b` starting at `pos`.
pub open spec fn parse_rel_msgs(b: Seq<u8>, pos: int, count: int) -> Option<
    (Seq<(u64, Seq<u8>)>, int),
>
    decreases count,
{
    if count <= 0 {
        Option::Some((Seq::empty(), pos))
    } else if pos + 10 > b.len() {
        Option::None
    } else {
        let id = le_u64(
            b[pos], b[pos + 1], b[pos + 2], b[pos + 3],
            b[pos + 4], b[pos + 5], b[pos + 6], b[pos + 7],
        );
        let n = le_u16(b[pos + 8], b[pos + 9]) as int;
        if pos + 10 + n > b.len() {
            Option::None
        } else {
            prepend_rel(
                seq![(id, b.subrange(pos + 10, pos + 10 + n))],
                parse_rel_msgs(b, pos + 10 + n, count - 1),
            )
        }
    }
}

/// The full parser: which frame, if any, a byte string decodes to, and the
/// exact error otherwise. Trailing bytes after a complete frame are ignored,
/// as the receive path hands the codec one datagram at a time.
pub open spec fn spec_decode(b: Seq<u8>) -> Result<SpecPacket, SerializationError> {
    if b.len() < 1 {
        Result::Err(SerializationError::BufferTooShort)
    } else if b[0] == 0 {
        if b.len() < 3 {
            Result::Err(SerializationError::BufferTooShort)
        } else {
            let count = le_u16(b[1], b[2]);
            match parse_unrel_msgs(b, 3, count as int) {
                Option::None => Result::Err(SerializationError::BufferTooShort),
                Option::Some((ms, _end)) => Result::Ok(
                    SpecPacket::SmallUnreliable { channel_id: 0, messages: ms },
                ),
            }
        }
    } else if b[0] == 1 {
        if b.len() < 13 {
            Result::Err(SerializationError::BufferTooShort)
        } else {
            let packet_type = le_u16(b[1], b[2]);
            let packet_process_time = le_u16(b[3], b[4]);
            let sequence_id = le_u16(b[5], b[6]);
            let acked_seq_id = le_u16(b[7], b[8]);
            let acked_mask = le_u32(b[9], b[10], b[11], b[12]);
            if packet_type == 0 {
                if b.len() < 15 {
                    Result::Err(SerializationError::BufferTooShort)
                } else {
                    let count = le_u16(b[13], b[14]);
                    match parse_rel_msgs(b, 15, count as int) {
                        Option::None => Result::Err(SerializationError::BufferTooShort),
                        Option::Some((ms, _end)) => Result::Ok(
                            SpecPacket::SmallReliable {
                                channel_id: 1,
                                packet_type,
                                packet_process_time,
                                sequence_id,
                                acked_seq_id,
                                acked_mask,
                                messages: ms,
                            },
                        ),
                    }
                }
            } else if packet_type == 1 {
                if b.len() < 14 {
                    Result::Err(SerializationError::BufferTooShort)
                } else {
                    Result::Ok(
                        SpecPacket::Ack {
                            channel_id: 1,
                            packet_type,
                            packet_process_time,
                            sequence_id,
                            acked_seq_id,
                            acked_mask,
                            end_posfix: b[13],
                        },
                    )
                }
            } else {
                Result::Err(SerializationError::InvalidPacketType)
            }
        }
    } else {
        Result::Err(SerializationError::InvalidChannelId)
    }
}

impl Packet {
    /// The packet sequence number, or 0 where the frame carries none.
    pub fn sequence_id(&self) -> (r: u16)
        ensures
            r == match self@ {
                SpecPacket::SmallReliable { sequence_id, .. } => sequence_id,
                SpecPacket::SmallUnreliable { .. } => 0u16,
                SpecPacket::Ack { sequence_id, .. } => sequence_id,
            },
    {
        match self {
            Packet::SmallReliable { sequence_id, .. } => *sequence_id,
            Packet::SmallUnreliable { .. } => 0,
            Packet::Ack { sequence_id, .. } => *sequence_id,
        }
    }

    /// Encodes the frame, refusing one that does not fit a datagram.
    pub fn to_bytes(&self) -> (r: Result<Vec<u8>, SerializationError>)
        ensures
            r matches Ok(v) ==> v@ == spec_encode(self@) && v@.len()
                <= TRANSPORT_MAX_PACKET_BYTES,
            r is Ok <==> spec_encode(self@).len() <= TRANSPORT_MAX_PACKET_BYTES,
            r is Err ==> r == Err::<Vec<u8>, SerializationError>(
                SerializationError::BufferTooShort,
            ),
    {
        let mut v: Vec<u8> = Vec::new();
        match self {
            Packet::SmallUnreliable { channel_id, messages } => {
                push_u8(&mut v, *channel_id);
                push_u16_le(&mut v, messages.len() as u16);
                let ghost header = v@;
                let mut i: usize = 0;
                while i < messages.len()
                    invariant
                        i <= messages@.len(),
                        v@ == header + unrel_msgs_enc(unrel_view(messages@).take(i as int)),
                    decreases messages@.len() - i,
                {
                    push_u16_le(&mut v, messages[i].len() as u16);
                    push_bytes(&mut v, &messages[i]);
                    proof {
                        lemma_unrel_msgs_enc_push(
                            unrel_view(messages@).take(i as int),
                            messages@[i as int]@,
                        );
                        assert(unrel_view(messages@).take(i as int).push(messages@[i as int]@)
                            =~= unrel_view(messages@).take(i as int + 1));
                        assert(v@ =~= header + unrel_msgs_enc(
                            unrel_view(messages@).take(i as int + 1),
                        ));
                    }
                    i = i + 1;
                }
                proof {
                    assert(unrel_view(messages@).take(messages@.len() as int) =~= unrel_view(
                        messages@,
                    ));
                    assert(v@ =~= spec_encode(self@));
                }
            },
            Packet::SmallReliable {
                channel_id,
                packet_type,
                packet_process_time,
                sequence_id,
                acked_seq_id,
                acked_mask,
                messages,
            } => {
                push_u8(&mut v, *channel_id);
                push_u16_le(&mut v, *packet_type);
                push_u16_le(&mut v, *packet_process_time);
                push_u16_le(&mut v, *sequence_id);
                push_u16_le(&mut v, *acked_seq_id);
                push_u32_le(&mut v, *acked_mask);
                push_u16_le(&mut v, messages.len() as u16);
                let ghost header = v@;
                let mut i: usize = 0;
                while i < messages.len()
                    invariant
                        i <= messages@.len(),
                        v@ == header + rel_msgs_enc(rel_view(messages@).take(i as int)),
                    decreases messages@.len() - i,
                {
                    push_u64_le(&mut v, messages[i].0);
                    push_u16_le(&mut v, messages[i].1.len() as u16);
                    push_bytes(&mut v, &messages[i].1);
                    proof {
                        lemma_rel_msgs_enc_push(
                            rel_view(messages@).take(i as int),
                            (messages@[i as int].0, messages@[i as int].1@),
                        );
                        assert(rel_view(messages@).take(i as int).push(
                            (messages@[i as int].0, messages@[i as int].1@),
                        ) =~= rel_view(messages@).take(i as int + 1));
                        assert(v@ =~= header + rel_msgs_enc(
                            rel_view(messages@).take(i as int + 1),
                        ));
                    }
                    i = i + 1;
                }
                proof {
                    assert(rel_view(messages@).take(messages@.len() as int) =~= rel_view(
                        messages@,
                    ));
                    assert(v@ =~= spec_encode(self@));
                }
            },
            Packet::Ack {
                channel_id,
                packet_type,
                packet_process_time,
                sequence_id,
                acked_seq_id,
                acked_mask,
                end_posfix,
            } => {
                push_u8(&mut v, *channel_id);
                push_u16_le(&mut v, *packet_type);
                push_u16_le(&mut v, *packet_process_time);
                push_u16_le(&mut v, *sequence_id);
                push_u16_le(&mut v, *acked_seq_id);
                push_u32_le(&mut v, *acked_mask);
                push_u8(&mut v, *end_posfix);
                proof {
                    assert(v@ =~= spec_encode(self@));
                }
            },
        }
        if v.len() > TRANSPORT_MAX_PACKET_BYTES {
            Err(SerializationError::BufferTooShort)
        } else {
            Ok(v)
        }
    }

    /// Decodes one frame from one datagram. Exactly the parser `spec_decode`:
    /// unknown discriminators are rejected with `InvalidChannelId` or
    /// `InvalidPacketType`, any truncation with `BufferTooShort`.
    #[verifier::loop_isolation(false)]
    pub fn from_bytes(b: &[u8]) -> (r: Result<Packet, SerializationError>)
        ensures
            r matches Ok(p) ==> spec_decode(b@) == Ok::<SpecPacket, SerializationError>(p@),
            r matches Err(e) ==> spec_decode(b@) == Err::<SpecPacket, SerializationError>(e),
    {
        let blen: usize = b.len();
        if blen < 1 {
            return Err(SerializationError::BufferTooShort);
        }
        let channel_id = b[0];
        if channel_id == 0 {
            if blen < 3 {
                return Err(SerializationError::BufferTooShort);
            }
            let count = read_u16_le(b, 1);
            let mut msgs: Vec<Vec<u8>> = Vec::new();
            let mut pos: usize = 3;
            let mut j: u16 = 0;
            while j < count
                invariant
                    3 <= pos <= blen,
                    blen == b@.len(),
                    j <= count,
                    count == le_u16(b@[1], b@[2]),
                    parse_unrel_msgs(b@, 3, count as int) == prepend_unrel(
                        unrel_view(msgs@),
                        parse_unrel_msgs(b@, pos as int, count as int - j as int),
                    ),
                decreases count - j,
            {
                if blen - pos < 2 {
                    proof {
                        assert(parse_unrel_msgs(b@, pos as int, count as int - j as int)
                            is None);
                    }
                    return Err(SerializationError::BufferTooShort);
                }
                let n = read_u16_le(b, pos) as usize;
                if n > blen - (pos + 2) {
                    proof {
                        assert(parse_unrel_msgs(b@, pos as int, count as int - j as int)
                            is None);
                    }
                    return Err(SerializationError::BufferTooShort);
                }
                let m = read_bytes(b, pos + 2, n);
                let ghost old_msgs = msgs@;
                let ghost old_pos = pos as int;
                msgs.push(m);
                pos = pos + 2 + n;
                j = j + 1;
                proof {
                    assert(unrel_view(msgs@) =~= unrel_view(old_msgs) + seq![
                        b@.subrange(old_pos + 2, old_pos + 2 + n as int),
                    ]);
                    lemma_prepend_unrel_assoc(
                        unrel_view(old_msgs),
                        seq![b@.subrange(old_pos + 2, old_pos + 2 + n as int)],
                        parse_unrel_msgs(b@, pos as int, count as int - j as int),
                    );
                }
            }
            proof {
                assert(parse_unrel_msgs(b@, pos as int, 0) == Option::Some(
                    (Seq::<Seq<u8>>::empty(), pos as int),
                ));
                assert(unrel_view(msgs@) + Seq::<Seq<u8>>::empty() =~= unrel_view(msgs@));
            }
            Ok(Packet::SmallUnreliable { channel_id, messages: msgs })
        } else if channel_id == 1 {
            if blen < 13 {
                return Err(SerializationError::BufferTooShort);
            }
            let packet_type = read_u16_le(b, 1);
            let packet_process_time = read_u16_le(b, 3);
            let sequence_id = read_u16_le(b, 5);
            let acked_seq_id = read_u16_le(b, 7);
            let acked_mask = read_u32_le(b, 9);
            if packet_type == 0 {
                if blen < 15 {
                    return Err(SerializationError::BufferTooShort);
                }
                let count = read_u16_le(b, 13);
                let mut msgs: Vec<(u64, Vec<u8>)> = Vec::new();
                let mut pos: usize = 15;
                let mut j: u16 = 0;
                while j < count
                    invariant
                        15 <= pos <= blen,
                        blen == b@.len(),
                        j <= count,
                        count == le_u16(b@[13], b@[14]),
                        parse_rel_msgs(b@, 15, count as int) == prepend_rel(
                            rel_view(msgs@),
                            parse_rel_msgs(b@, pos as int, count as int - j as int),
                        ),
                    decreases count - j,
                {
                    if blen - pos < 10 {
                        proof {
                            assert(parse_rel_msgs(b@, pos as int, count as int - j as int)
                                is None);
                        }
                        return Err(SerializationError::BufferTooShort);
                    }
                    let id = read_u64_le(b, pos);
                    let n = read_u16_le(b, pos + 8) as usize;
                    if n > blen - (pos + 10) {
                        proof {
                            assert(parse_rel_msgs(b@, pos as int, count as int - j as int)
                                is None);
                        }
                        return Err(SerializationError::BufferTooShort);
                    }
                    let m = read_bytes(b, pos + 10, n);
                    let ghost old_msgs = msgs@;
                    let ghost old_pos = pos as int;
                    msgs.push((id, m));
                    pos = pos + 10 + n;
                    j = j + 1;
                    proof {
                        assert(rel_view(msgs@) =~= rel_view(old_msgs) + seq![
                            (id, b@.subrange(old_pos + 10, old_pos + 10 + n as int)),
                        ]);
                        lemma_prepend_rel_assoc(
                            rel_view(old_msgs),
                            seq![(id, b@.subrange(old_pos + 10, old_pos + 10 + n as int))],
                            parse_rel_msgs(b@, pos as int, count as int - j as int),
                        );
                    }
                }
                proof {
                    assert(parse_rel_msgs(b@, pos as int, 0) == Option::Some(
                        (Seq::<(u64, Seq<u8>)>::empty(), pos as int),
                    ));
                    assert(rel_view(msgs@) + Seq::<(u64, Seq<u8>)>::empty() =~= rel_view(msgs@));
                }
                Ok(
                    Packet::SmallReliable {
                        channel_id,
                        packet_type,
                        packet_process_time,
                        sequence_id,
                        acked_seq_id,
                        acked_mask,
                        messages: msgs,
                    },
                )
            } else if packet_type == 1 {
                if blen < 14 {
                    return Err(SerializationError::BufferTooShort);
                }
                let end_posfix = b[13];
                Ok(
                    Packet::Ack {
                        channel_id,
                        packet_type,
                        packet_process_time,
                        sequence_id,
                        acked_seq_id,
                        acked_mask,
                        end_posfix,
                    },
                )
            } else {
                Err(SerializationError::InvalidPacketType)
            }
        } else {
            Err(SerializationError::InvalidChannelId)
        }
    }
}


/// Parsing at the start of the encoding of a message list, when the encoding
/// runs to the end of the buffer, recovers exactly that list.
proof fn lemma_parse_unrel_of_enc(b: Seq<u8>, pos: int, ms: Seq<Seq<u8>>)
    requires
        0 <= pos <= b.len(),
        b.subrange(pos, b.len() as int) == unrel_msgs_enc(ms),
        forall|i: int| 0 <= i < ms.len() ==> (#[trigger] ms[i]).len() <= u16::MAX,
    ensures
        parse_unrel_msgs(b, pos, ms.len() as int) == Option::Some((ms, b.len() as int)),
    decreases ms.len(),
{
    let tail = b.subrange(pos, b.len() as int);
    if ms.len() == 0 {
        assert(tail.len() == 0);
        assert(pos == b.len());
    } else {
        let m = ms[0];
        let rest = ms.drop_first();
        assert(tail == unrel_msg_enc(m) + unrel_msgs_enc(rest));
        let lenb = u16_le(m.len() as u16);
        assert(b[pos] == tail[0] && b[pos + 1] == tail[1]);
        assert(tail[0] == lenb[0] && tail[1] == lenb[1]);
        lemma_u16_le_roundtrip(m.len() as u16, 0, 0);
        let n = le_u16(b[pos], b[pos + 1]) as int;
        assert(n == m.len());
        assert(tail.len() == 2 + m.len() + unrel_msgs_enc(rest).len());
        assert(pos + 2 + n <= b.len());
        assert(b.subrange(pos + 2, pos + 2 + n) =~= m) by {
            assert(forall|k: int|
                0 <= k < n ==> b.subrange(pos + 2, pos + 2 + n)[k] == tail[2 + k] && tail[2 + k]
                    == m[k]);
        }
        assert(b.subrange(pos + 2 + n, b.len() as int) =~= unrel_msgs_enc(rest)) by {
            assert(forall|k: int|
                0 <= k < unrel_msgs_enc(rest).len() ==> b.subrange(
                    pos + 2 + n,
                    b.len() as int,
                )[k] == tail[2 + n + k] && tail[2 + n + k] == unrel_msgs_enc(rest)[k]);
        }
        lemma_parse_unrel_of_enc(b, pos + 2 + n, rest);
        assert(seq![m] + rest =~= ms);
    }
}

/// Parsing at the start of the encoding of a reliable message list, when the
/// encoding runs to the end of the buffer, recovers exactly that list.
proof fn lemma_parse_rel_of_enc(b: Seq<u8>, pos: int, ms: Seq<(u64, Seq<u8>)>)
    requires
        0 <= pos <= b.len(),
        b.subrange(pos, b.len() as int) == rel_msgs_enc(ms),
        forall|i: int| 0 <= i < ms.len() ==> (#[trigger] ms[i].1).len() <= u16::MAX,
    ensures
        parse_rel_msgs(b, pos, ms.len() as int) == Option::Some((ms, b.len() as int)),
    decreases ms.len(),
{
    let tail = b.subrange(pos, b.len() as int);
    if ms.len() == 0 {
        assert(tail.len() == 0);
        assert(pos == b.len());
    } else {
        let (id, m) = ms[0];
        let rest = ms.drop_first();
        assert(tail == rel_msg_enc(id, m) + rel_msgs_enc(rest));
        let idb = u64_le(id);
        let lenb = u16_le(m.len() as u16);
        assert(forall|k: int| 0 <= k < 8 ==> b[pos + k] == tail[k] && tail[k] == idb[k]);
        assert(b[pos + 8] == tail[8] && b[pos + 9] == tail[9]);
        assert(tail[8] == lenb[0] && tail[9] == lenb[1]);
        lemma_u64_le_roundtrip(id, 0, 0, 0, 0, 0, 0, 0, 0);
        lemma_u16_le_roundtrip(m.len() as u16, 0, 0);
        let pid = le_u64(
            b[pos], b[pos + 1], b[pos + 2], b[pos + 3],
            b[pos + 4], b[pos + 5], b[pos + 6], b[pos + 7],
        );
        assert(pid == id);
        let n = le_u16(b[pos + 8], b[pos + 9]) as int;
        assert(n == m.len());
        assert(tail.len() == 10 + m.len() + rel_msgs_enc(rest).len());
        assert(pos + 10 + n <= b.len());
        assert(b.subrange(pos + 10, pos + 10 + n) =~= m) by {
            assert(forall|k: int|
                0 <= k < n ==> b.subrange(pos + 10, pos + 10 + n)[k] == tail[10 + k] && tail[10
                    + k] == m[k]);
        }
        assert(b.subrange(pos + 10 + n, b.len() as int) =~= rel_msgs_enc(rest)) by {
            assert(forall|k: int|
                0 <= k < rel_msgs_enc(rest).len() ==> b.subrange(
                    pos + 10 + n,
                    b.len() as int,
                )[k] == tail[10 + n + k] && tail[10 + n + k] == rel_msgs_enc(rest)[k]);
        }
        lemma_parse_rel_of_enc(b, pos + 10 + n, rest);
        assert(seq![(id, m)] + rest =~= ms);
    }
}

/// Decoding the encoding of a well-formed frame yields that frame back.
pub proof fn lemma_round_trip(p: SpecPacket)
    requires
        wf_packet(p),
    ensures
        spec_decode(spec_encode(p)) == Ok::<SpecPacket, SerializationError>(p),
{
    let b = spec_encode(p);
    match p {
        SpecPacket::SmallUnreliable { channel_id, messages } => {
            let head = seq![channel_id] + u16_le(messages.len() as u16);
            assert(b == head + unrel_msgs_enc(messages));
            assert(b.len() >= 3);
            assert(b[0] == channel_id && b[1] == head[1] && b[2] == head[2]);
            lemma_u16_le_roundtrip(messages.len() as u16, 0, 0);
            assert(le_u16(b[1], b[2]) == messages.len() as u16);
            assert(b.subrange(3, b.len() as int) =~= unrel_msgs_enc(messages)) by {
                assert(forall|k: int|
                    0 <= k < unrel_msgs_enc(messages).len() ==> b.subrange(
                        3,
                        b.len() as int,
                    )[k] == b[3 + k] && b[3 + k] == unrel_msgs_enc(messages)[k]);
            }
            lemma_parse_unrel_of_enc(b, 3, messages);
        },
        SpecPacket::SmallReliable {
            channel_id,
            packet_type,
            packet_process_time,
            sequence_id,
            acked_seq_id,
            acked_mask,
            messages,
        } => {
            let head = seq![channel_id] + u16_le(packet_type) + u16_le(packet_process_time)
                + u16_le(sequence_id) + u16_le(acked_seq_id) + u32_le(acked_mask) + u16_le(
                messages.len() as u16,
            );
            assert(b == head + rel_msgs_enc(messages));
            assert(head.len() == 15);
            assert(b.len() >= 15);
            assert(forall|k: int| 0 <= k < 15 ==> b[k] == head[k]);
            lemma_u16_le_roundtrip(packet_type, 0, 0);
            lemma_u16_le_roundtrip(packet_process_time, 0, 0);
            lemma_u16_le_roundtrip(sequence_id, 0, 0);
            lemma_u16_le_roundtrip(acked_seq_id, 0, 0);
            lemma_u32_le_roundtrip(acked_mask, 0, 0, 0, 0);
            lemma_u16_le_roundtrip(messages.len() as u16, 0, 0);
            assert(b[0] == 1);
            assert(le_u16(b[1], b[2]) == packet_type);
            assert(le_u16(b[3], b[4]) == packet_process_time);
            assert(le_u16(b[5], b[6]) == sequence_id);
            assert(le_u16(b[7], b[8]) == acked_seq_id);
            assert(le_u32(b[9], b[10], b[11], b[12]) == acked_mask);
            assert(le_u16(b[13], b[14]) == messages.len() as u16);
            assert(b.subrange(15, b.len() as int) =~= rel_msgs_enc(messages)) by {
                assert(forall|k: int|
                    0 <= k < rel_msgs_enc(messages).len() ==> b.subrange(
                        15,
                        b.len() as int,
                    )[k] == b[15 + k] && b[15 + k] == rel_msgs_enc(messages)[k]);
            }
            lemma_parse_rel_of_enc(b, 15, messages);
        },
        SpecPacket::Ack {
            channel_id,
            packet_type,
            packet_process_time,
            sequence_id,
            acked_seq_id,
            acked_mask,
            end_posfix,
        } => {
            assert(b.len() == 14);
            lemma_u16_le_roundtrip(packet_type, 0, 0);
            lemma_u16_le_roundtrip(packet_process_time, 0, 0);
            lemma_u16_le_roundtrip(sequence_id, 0, 0);
            lemma_u16_le_roundtrip(acked_seq_id, 0, 0);
            lemma_u32_le_roundtrip(acked_mask, 0, 0, 0, 0);
            assert(b[0] == 1);
            assert(le_u16(b[1], b[2]) == packet_type);
            assert(le_u16(b[3], b[4]) == packet_process_time);
            assert(le_u16(b[5], b[6]) == sequence_id);
            assert(le_u16(b[7], b[8]) == acked_seq_id);
            assert(le_u32(b[9], b[10], b[11], b[12]) == acked_mask);
            assert(b[13] == end_posfix);
        },
    }
}

/// A byte string that is the encoding of some well-formed frame decodes, and
/// re-encoding the decoded frame reproduces the byte string exactly.
pub proof fn lemma_encode_of_decode(b: Seq<u8>, p: SpecPacket)
    requires
        wf_packet(p),
        b == spec_encode(p),
    ensures
        spec_decode(b) matches Ok(q) && spec_encode(q) == b,
{
    lemma_round_trip(p);
}

/// Appending one message appends its encoding.
pub proof fn lemma_unrel_msgs_enc_push(ms: Seq<Seq<u8>>, m: Seq<u8>)
    ensures
        unrel_msgs_enc(ms.push(m)) == unrel_msgs_enc(ms) + unrel_msg_enc(m),
    decreases ms.len(),
{
    if ms.len() == 0 {
        assert(ms.push(m)[0] == m);
        assert(ms.push(m).drop_first() =~= Seq::<Seq<u8>>::empty());
        assert(unrel_msgs_enc(Seq::<Seq<u8>>::empty()) =~= Seq::<u8>::empty());
        assert(unrel_msgs_enc(ms.push(m)) =~= unrel_msg_enc(m) + Seq::<u8>::empty());
        assert(unrel_msg_enc(m) + Seq::<u8>::empty() =~= unrel_msg_enc(m));
        assert(unrel_msgs_enc(ms) + unrel_msg_enc(m) =~= unrel_msg_enc(m));
    } else {
        assert(ms.push(m).drop_first() =~= ms.drop_first().push(m));
        lemma_unrel_msgs_enc_push(ms.drop_first(), m);
        assert(unrel_msgs_enc(ms.push(m)) =~= unrel_msgs_enc(ms) + unrel_msg_enc(m));
    }
}

/// Appending one message appends its encoding.
pub proof fn lemma_rel_msgs_enc_push(ms: Seq<(u64, Seq<u8>)>, m: (u64, Seq<u8>))
    ensures
        rel_msgs_enc(ms.push(m)) == rel_msgs_enc(ms) + rel_msg_enc(m.0, m.1),
    decreases ms.len(),
{
    if ms.len() == 0 {
        assert(ms.push(m)[0] == m);
        assert(ms.push(m).drop_first() =~= Seq::<(u64, Seq<u8>)>::empty());
        assert(rel_msgs_enc(Seq::<(u64, Seq<u8>)>::empty()) =~= Seq::<u8>::empty());
        assert(rel_msgs_enc(ms.push(m)) =~= rel_msg_enc(m.0, m.1) + Seq::<u8>::empty());
        assert(rel_msg_enc(m.0, m.1) + Seq::<u8>::empty() =~= rel_msg_enc(m.0, m.1));
        assert(rel_msgs_enc(ms) + rel_msg_enc(m.0, m.1) =~= rel_msg_enc(m.0, m.1));
    } else {
        assert(ms.push(m).drop_first() =~= ms.drop_first().push(m));
        lemma_rel_msgs_enc_push(ms.drop_first(), m);
        assert(rel_msgs_enc(ms.push(m)) =~= rel_msgs_enc(ms) + rel_msg_enc(m.0, m.1));
    }
}

/// `prepend_unrel` composes over concatenation.
proof fn lemma_prepend_unrel_assoc(
    a: Seq<Seq<u8>>,
    c: Seq<Seq<u8>>,
    r: Option<(Seq<Seq<u8>>, int)>,
)
    ensures
        prepend_unrel(a + c, r) == prepend_unrel(a, prepend_unrel(c, r)),
{
    match r {
        Option::None => {},
        Option::Some((ms2, end)) => {
            assert((a + c) + ms2 =~= a + (c + ms2));
        },
    }
}

/// `prepend_rel` composes over concatenation.
proof fn lemma_prepend_rel_assoc(
    a: Seq<(u64, Seq<u8>)>,
    c: Seq<(u64, Seq<u8>)>,
    r: Option<(Seq<(u64, Seq<u8>)>, int)>,
)
    ensures
        prepend_rel(a + c, r) == prepend_rel(a, prepend_rel(c, r)),
{
    match r {
        Option::None => {},
        Option::Some((ms2, end)) => {
            assert((a + c) + ms2 =~= a + (c + ms2));
        },
    }
}

} // verus!
