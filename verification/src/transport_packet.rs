//! Transport-level wire frames: connection request, keep-alive, data,
//! disconnect, and session creation, each behind a one-byte discriminator.

use vstd::prelude::*;

use crate::error::TransportServerError;
use crate::wire::{
    le_u16, le_u32, le_u64, push_bytes, push_u16_le, push_u32_le, push_u64_le, push_u8,
    read_bytes, read_u16_le, read_u32_le, read_u64_le, u16_le, u32_le, u64_le,
};

verus! {

/// The discriminator of a transport frame.
#[derive(Debug, Clone, Copy, PartialEq, Eq)]
pub enum PacketType {
    ConnectionRequest,
    Data,
    Disconnect,
    KeepAlive,
    CreateSession,
}

impl PacketType {
    /// The discriminator for a wire byte; unknown bytes are rejected.
    pub fn from_u8(value: u8) -> (r: Result<Self, TransportServerError>)
        ensures
            value == 1 ==> r == Ok::<PacketType, TransportServerError>(PacketType::Data),
            value == 2 ==> r == Ok::<PacketType, TransportServerError>(PacketType::Disconnect),
            value == 3 ==> r == Ok::<PacketType, TransportServerError>(PacketType::KeepAlive),
            value == 85 ==> r == Ok::<PacketType, TransportServerError>(
                PacketType::ConnectionRequest,
            ),
            value == 100 ==> r == Ok::<PacketType, TransportServerError>(
                PacketType::CreateSession,
            ),
            value != 1 && value != 2 && value != 3 && value != 85 && value != 100 ==> r == Err::<
                PacketType,
                TransportServerError,
            >(TransportServerError::InvalidPacketType),
    {
        match value {
            1 => Ok(PacketType::Data),
            3 => Ok(PacketType::KeepAlive),
            2 => Ok(PacketType::Disconnect),
            85 => Ok(PacketType::ConnectionRequest),
            100 => Ok(PacketType::CreateSession),
            _ => Err(TransportServerError::InvalidPacketType),
        }
    }

    /// The wire byte of a discriminator.
    pub fn to_u8(self) -> (r: Result<u8, TransportServerError>)
        ensures
            r == Ok::<u8, TransportServerError>(spec_type_byte(self)),
    {
        match self {
            PacketType::Data => Ok(1),
            PacketType::KeepAlive => Ok(3),
            PacketType::Disconnect => Ok(2),
            PacketType::ConnectionRequest => Ok(85),
            PacketType::CreateSession => Ok(100),
        }
    }
}

/// The wire byte of each discriminator.
pub open spec fn spec_type_byte(t: PacketType) -> u8 {
    match t {
        PacketType::Data => 1u8,
        PacketType::Disconnect => 2u8,
        PacketType::KeepAlive => 3u8,
        PacketType::ConnectionRequest => 85u8,
        PacketType::CreateSession => 100u8,
    }
}

/// A transport frame.
#[derive(Debug, Clone, PartialEq, Eq)]
pub enum Packet {
    /// The two-way handshake opener: side 1 from the client, side 2 back.
    ConnectionRequest { connection_prefix: [u8; 3], connection_side_id: u8, client_identifier: u64 },
    KeepAlive { client_identifier: u64 },
    Data { client_identifier: u64, payload: Vec<u8> },
    Disconnect { client_identifier: u64 },
    /// Creation of a session with a roster of 16-byte player ids.
    CreateSession { client_identifier: u64, session_id: u32, player_ids: Vec<Vec<u8>> },
}

/// The model of a transport frame.
pub enum SpecTPacket {
    ConnectionRequest { connection_prefix: Seq<u8>, connection_side_id: u8, client_identifier: u64 },
    KeepAlive { client_identifier: u64 },
    Data { client_identifier: u64, payload: Seq<u8> },
    Disconnect { client_identifier: u64 },
    CreateSession { client_identifier: u64, session_id: u32, player_ids: Seq<Seq<u8>> },
}

/// The model of a player id list.
pub open spec fn ids_view(v: Seq<Vec<u8>>) -> Seq<Seq<u8>> {
    Seq::new(v.len(), |i: int| v[i]@)
}

impl View for Packet {
    type V = SpecTPacket;

    open spec fn view(&self) -> SpecTPacket {
        match self {
            Packet::ConnectionRequest { connection_prefix, connection_side_id, client_identifier } => SpecTPacket::ConnectionRequest {
                connection_prefix: connection_prefix@,
                connection_side_id: *connection_side_id,
                client_identifier: *client_identifier,
            },
            Packet::KeepAlive { client_identifier } => SpecTPacket::KeepAlive {
                client_identifier: *client_identifier,
            },
            Packet::Data { client_identifier, payload } => SpecTPacket::Data {
                client_identifier: *client_identifier,
                payload: payload@,
            },
            Packet::Disconnect { client_identifier } => SpecTPacket::Disconnect {
                client_identifier: *client_identifier,
            },
            Packet::CreateSession { client_identifier, session_id, player_ids } => SpecTPacket::CreateSession {
                client_identifier: *client_identifier,
                session_id: *session_id,
                player_ids: ids_view(player_ids@),
            },
        }
    }
}

/// A byte string without trailing zero bytes.
pub open spec fn trim_zeros(s: Seq<u8>) -> Seq<u8>
    decreases s.len(),
{
    if s.len() > 0 && s.last() == 0 {
        trim_zeros(s.drop_last())
    } else {
        s
    }
}

/// A byte string padded with zeros (or truncated) to exactly 16 bytes.
pub open spec fn pad16(s: Seq<u8>) -> Seq<u8> {
    Seq::new(16, |i: int| if i < s.len() { s[i] } else { 0u8 })
}

/// Encoding of a player roster: each id null-padded to 16 bytes.
pub open spec fn roster_enc(ids: Seq<Seq<u8>>) -> Seq<u8>
    decreases ids.len(),
{
    if ids.len() == 0 {
        Seq::empty()
    } else {
        pad16(ids[0]) + roster_enc(ids.drop_first())
    }
}

/// The little-endian encoding of a transport frame.
pub open spec fn spec_tencode(p: SpecTPacket) -> Seq<u8> {
    match p {
        SpecTPacket::ConnectionRequest { connection_prefix, connection_side_id, client_identifier } => seq![
            85u8,
        ] + connection_prefix + seq![connection_side_id] + u64_le(client_identifier),
        SpecTPacket::KeepAlive { client_identifier } => seq![3u8] + u64_le(client_identifier),
        SpecTPacket::Data { client_identifier, payload } => seq![1u8] + u64_le(client_identifier)
            + payload,
        SpecTPacket::Disconnect { client_identifier } => seq![2u8] + u64_le(client_identifier),
        SpecTPacket::CreateSession { client_identifier, session_id, player_ids } => seq![100u8]
            + u64_le(client_identifier) + u32_le(session_id) + u16_le(player_ids.len() as u16)
            + roster_enc(player_ids),
    }
}

/// Parses a roster of `count` 16-byte ids at `pos`, trimming trailing zeros.
pub open spec fn parse_roster(b: Seq<u8>, pos: int, count: int) -> Option<(Seq<Seq<u8>>, int)>
    decreases count,
{
    if count <= 0 {
        Option::Some((Seq::empty(), pos))
    } else if pos + 16 > b.len() {
        Option::None
    } else {
        match parse_roster(b, pos + 16, count - 1) {
            Option::None => Option::None,
            Option::Some((ids, end)) => Option::Some(
                (seq![trim_zeros(b.subrange(pos, pos + 16))] + ids, end),
            ),
        }
    }
}

/// The full transport parser: which frame a datagram decodes to, with
/// roster ids trimmed of their zero padding, and the exact error otherwise.
pub open spec fn spec_tdecode(b: Seq<u8>) -> Result<SpecTPacket, TransportServerError> {
    if b.len() < 1 {
        Result::Err(TransportServerError::PacketTooSmall)
    } else if b[0] == 1 {
        if b.len() < 9 {
            Result::Err(TransportServerError::PacketTooSmall)
        } else {
            Result::Ok(
                SpecTPacket::Data {
                    client_identifier: le_u64(
                        b[1], b[2], b[3], b[4], b[5], b[6], b[7], b[8],
                    ),
                    payload: b.subrange(9, b.len() as int),
                },
            )
        }
    } else if b[0] == 2 {
        if b.len() < 9 {
            Result::Err(TransportServerError::PacketTooSmall)
        } else {
            Result::Ok(
                SpecTPacket::Disconnect {
                    client_identifier: le_u64(
                        b[1], b[2], b[3], b[4], b[5], b[6], b[7], b[8],
                    ),
                },
            )
        }
    } else if b[0] == 3 {
        if b.len() < 9 {
            Result::Err(TransportServerError::PacketTooSmall)
        } else {
            Result::Ok(
                SpecTPacket::KeepAlive {
                    client_identifier: le_u64(
                        b[1], b[2], b[3], b[4], b[5], b[6], b[7], b[8],
                    ),
                },
            )
        }
    } else if b[0] == 85 {
        if b.len() < 13 {
            Result::Err(TransportServerError::PacketTooSmall)
        } else {
            Result::Ok(
                SpecTPacket::ConnectionRequest {
                    connection_prefix: b.subrange(1, 4),
                    connection_side_id: b[4],
                    client_identifier: le_u64(
                        b[5], b[6], b[7], b[8], b[9], b[10], b[11], b[12],
                    ),
                },
            )
        }
    } else if b[0] == 100 {
        if b.len() < 15 {
            Result::Err(TransportServerError::PacketTooSmall)
        } else {
            let count = le_u16(b[13], b[14]);
            match parse_roster(b, 15, count as int) {
                Option::None => Result::Err(TransportServerError::PacketTooSmall),
                Option::Some((ids, _end)) => Result::Ok(
                    SpecTPacket::CreateSession {
                        client_identifier: le_u64(
                            b[1], b[2], b[3], b[4], b[5], b[6], b[7], b[8],
                        ),
                        session_id: le_u32(b[9], b[10], b[11], b[12]),
                        player_ids: ids,
                    },
                ),
            }
        }
    } else {
        Result::Err(TransportServerError::InvalidPacketType)
    }
}

/// Prepending helper for the roster parser proof.
pub open spec fn prepend_roster(
    ids: Seq<Seq<u8>>,
    r: Option<(Seq<Seq<u8>>, int)>,
) -> Option<(Seq<Seq<u8>>, int)> {
    match r {
        Option::None => Option::None,
        Option::Some((ids2, end)) => Option::Some((ids + ids2, end)),
    }
}

impl Packet {
    /// The frame's discriminator.
    pub fn packet_type(&self) -> (r: PacketType)
        ensures
            r == match self@ {
                SpecTPacket::ConnectionRequest { .. } => PacketType::ConnectionRequest,
                SpecTPacket::KeepAlive { .. } => PacketType::KeepAlive,
                SpecTPacket::Data { .. } => PacketType::Data,
                SpecTPacket::Disconnect { .. } => PacketType::Disconnect,
                SpecTPacket::CreateSession { .. } => PacketType::CreateSession,
            },
    {
        match self {
            Packet::ConnectionRequest { .. } => PacketType::ConnectionRequest,
            Packet::KeepAlive { .. } => PacketType::KeepAlive,
            Packet::Data { .. } => PacketType::Data,
            Packet::Disconnect { .. } => PacketType::Disconnect,
            Packet::CreateSession { .. } => PacketType::CreateSession,
        }
    }

    /// The frame's wire discriminator byte.
    pub fn id(&self) -> (r: u8)
        ensures
            r == spec_tencode(self@)[0],
    {
        let r = match self {
            Packet::ConnectionRequest { .. } => 85,
            Packet::KeepAlive { .. } => 3,
            Packet::Data { .. } => 1,
            Packet::Disconnect { .. } => 2,
            Packet::CreateSession { .. } => 100,
        };
        r
    }

    /// Encodes the frame. Rosters beyond 65535 players cannot be framed.
    #[verifier::loop_isolation(false)]
    pub fn encode(&self) -> (r: Result<Vec<u8>, TransportServerError>)
        ensures
            r matches Ok(v) ==> v@ == spec_tencode(self@),
            self@ matches SpecTPacket::CreateSession { player_ids, .. } && player_ids.len()
                > u16::MAX ==> r == Err::<Vec<u8>, TransportServerError>(
                TransportServerError::PayloadAboveLimit,
            ),
            !(self@ matches SpecTPacket::CreateSession { player_ids, .. } && player_ids.len()
                > u16::MAX) ==> r is Ok,
    {
        let mut v: Vec<u8> = Vec::new();
        match self {
            Packet::ConnectionRequest {
                connection_prefix,
                connection_side_id,
                client_identifier,
            } => {
                push_u8(&mut v, 85);
                push_u8(&mut v, connection_prefix[0]);
                push_u8(&mut v, connection_prefix[1]);
                push_u8(&mut v, connection_prefix[2]);
                push_u8(&mut v, *connection_side_id);
                push_u64_le(&mut v, *client_identifier);
                proof {
                    assert(connection_prefix@ =~= seq![
                        connection_prefix@[0], connection_prefix@[1], connection_prefix@[2],
                    ]);
                    assert(v@ =~= spec_tencode(self@));
                }
            },
            Packet::KeepAlive { client_identifier } => {
                push_u8(&mut v, 3);
                push_u64_le(&mut v, *client_identifier);
                proof {
                    assert(v@ =~= spec_tencode(self@));
                }
            },
            Packet::Data { client_identifier, payload } => {
                push_u8(&mut v, 1);
                push_u64_le(&mut v, *client_identifier);
                push_bytes(&mut v, payload);
                proof {
                    assert(v@ =~= spec_tencode(self@));
                }
            },
            Packet::Disconnect { client_identifier } => {
                push_u8(&mut v, 2);
                push_u64_le(&mut v, *client_identifier);
                proof {
                    assert(v@ =~= spec_tencode(self@));
                }
            },
            Packet::CreateSession { client_identifier, session_id, player_ids } => {
                if player_ids.len() > 65535 {
                    return Err(TransportServerError::PayloadAboveLimit);
                }
                push_u8(&mut v, 100);
                push_u64_le(&mut v, *client_identifier);
                push_u32_le(&mut v, *session_id);
                push_u16_le(&mut v, player_ids.len() as u16);
                let ghost header = v@;
                let mut i: usize = 0;
                while i < player_ids.len()
                    invariant
                        i <= player_ids@.len(),
                        v@ == header + roster_enc(ids_view(player_ids@).take(i as int)),
                    decreases player_ids@.len() - i,
                {
                    let id = &player_ids[i];
                    let mut j: usize = 0;
                    let ghost v0 = v@;
                    while j < 16
                        invariant
                            j <= 16,
                            v@ == v0 + pad16(id@).take(j as int),
                        decreases 16 - j,
                    {
                        if j < id.len() {
                            push_u8(&mut v, id[j]);
                        } else {
                            push_u8(&mut v, 0);
                        }
                        proof {
                            assert(v@ =~= v0 + pad16(id@).take(j as int + 1));
                        }
                        j = j + 1;
                    }
                    proof {
                        assert(pad16(id@).take(16) =~= pad16(id@));
                        lemma_roster_enc_push(ids_view(player_ids@).take(i as int), id@);
                        assert(ids_view(player_ids@).take(i as int).push(id@) =~= ids_view(
                            player_ids@,
                        ).take(i as int + 1));
                        assert(v@ =~= header + roster_enc(
                            ids_view(player_ids@).take(i as int + 1),
                        ));
                    }
                    i = i + 1;
                }
                proof {
                    assert(ids_view(player_ids@).take(player_ids@.len() as int) =~= ids_view(
                        player_ids@,
                    ));
                    assert(v@ =~= spec_tencode(self@));
                }
            },
        }
        Ok(v)
    }

    /// Decodes one transport frame, exactly as the parser `spec_tdecode`:
    /// unknown discriminators are rejected with `InvalidPacketType`, any
    /// truncation with `PacketTooSmall`; roster ids come back with their
    /// zero padding trimmed.
    #[verifier::loop_isolation(false)]
    pub fn decode(buffer: &[u8]) -> (r: Result<Packet, TransportServerError>)
        ensures
            r matches Ok(p) ==> spec_tdecode(buffer@) == Ok::<SpecTPacket, TransportServerError>(
                p@,
            ),
            r matches Err(e) ==> spec_tdecode(buffer@) == Err::<
                SpecTPacket,
                TransportServerError,
            >(e),
    {
        let blen: usize = buffer.len();
        if blen < 1 {
            return Err(TransportServerError::PacketTooSmall);
        }
        let t = buffer[0];
        if t == 1 {
            if blen < 9 {
                return Err(TransportServerError::PacketTooSmall);
            }
            let client_identifier = read_u64_le(buffer, 1);
            let payload = read_bytes(buffer, 9, blen - 9);
            Ok(Packet::Data { client_identifier, payload })
        } else if t == 2 {
            if blen < 9 {
                return Err(TransportServerError::PacketTooSmall);
            }
            let client_identifier = read_u64_le(buffer, 1);
            Ok(Packet::Disconnect { client_identifier })
        } else if t == 3 {
            if blen < 9 {
                return Err(TransportServerError::PacketTooSmall);
            }
            let client_identifier = read_u64_le(buffer, 1);
            Ok(Packet::KeepAlive { client_identifier })
        } else if t == 85 {
            if blen < 13 {
                return Err(TransportServerError::PacketTooSmall);
            }
            let connection_prefix: [u8; 3] = [buffer[1], buffer[2], buffer[3]];
            let connection_side_id = buffer[4];
            let client_identifier = read_u64_le(buffer, 5);
            proof {
                assert(connection_prefix@ =~= buffer@.subrange(1, 4));
            }
            Ok(Packet::ConnectionRequest {
                connection_prefix,
                connection_side_id,
                client_identifier,
            })
        } else if t == 100 {
            if blen < 15 {
                return Err(TransportServerError::PacketTooSmall);
            }
            let client_identifier = read_u64_le(buffer, 1);
            let session_id = read_u32_le(buffer, 9);
            let count = read_u16_le(buffer, 13);
            let mut ids: Vec<Vec<u8>> = Vec::new();
            let mut pos: usize = 15;
            let mut j: u16 = 0;
            proof {
                assert(prepend_roster(ids_view(ids@), parse_roster(buffer@, 15, count as int))
                    == parse_roster(buffer@, 15, count as int)) by {
                    assert(ids_view(ids@) =~= Seq::<Seq<u8>>::empty());
                    match parse_roster(buffer@, 15, count as int) {
                        Option::None => {},
                        Option::Some((x, e)) => {
                            assert(Seq::<Seq<u8>>::empty() + x =~= x);
                        },
                    }
                }
            }
            while j < count
                invariant
                    15 <= pos <= blen,
                    j <= count,
                    parse_roster(buffer@, 15, count as int) == prepend_roster(
                        ids_view(ids@),
                        parse_roster(buffer@, pos as int, count as int - j as int),
                    ),
                decreases count - j,
            {
                if blen - pos < 16 {
                    proof {
                        assert(parse_roster(buffer@, pos as int, count as int - j as int)
                            is None);
                    }
                    return Err(TransportServerError::PacketTooSmall);
                }
                let raw = read_bytes(buffer, pos, 16);
                let trimmed = trim_zeros_exec(raw);
                let ghost ids0 = ids@;
                ids.push(trimmed);
                proof {
                    assert(ids_view(ids@) =~= ids_view(ids0) + seq![
                        trim_zeros(buffer@.subrange(pos as int, pos as int + 16)),
                    ]);
                    lemma_prepend_roster_assoc(
                        ids_view(ids0),
                        seq![trim_zeros(buffer@.subrange(pos as int, pos as int + 16))],
                        parse_roster(buffer@, pos as int + 16, count as int - j as int - 1),
                    );
                }
                pos = pos + 16;
                j = j + 1;
            }
            proof {
                assert(parse_roster(buffer@, pos as int, 0) == Option::Some(
                    (Seq::<Seq<u8>>::empty(), pos as int),
                ));
                assert(ids_view(ids@) + Seq::<Seq<u8>>::empty() =~= ids_view(ids@));
            }
            Ok(Packet::CreateSession { client_identifier, session_id, player_ids: ids })
        } else {
            Err(TransportServerError::InvalidPacketType)
        }
    }
}

/// Appending one id appends its padded encoding.
pub proof fn lemma_roster_enc_push(ids: Seq<Seq<u8>>, id: Seq<u8>)
    ensures
        roster_enc(ids.push(id)) == roster_enc(ids) + pad16(id),
    decreases ids.len(),
{
    if ids.len() == 0 {
        assert(ids.push(id)[0] == id);
        assert(ids.push(id).drop_first() =~= Seq::<Seq<u8>>::empty());
        assert(roster_enc(Seq::<Seq<u8>>::empty()) =~= Seq::<u8>::empty());
        assert(roster_enc(ids.push(id)) =~= pad16(id) + Seq::<u8>::empty());
        assert(pad16(id) + Seq::<u8>::empty() =~= pad16(id));
        assert(roster_enc(ids) + pad16(id) =~= pad16(id));
    } else {
        assert(ids.push(id).drop_first() =~= ids.drop_first().push(id));
        lemma_roster_enc_push(ids.drop_first(), id);
        assert(roster_enc(ids.push(id)) =~= roster_enc(ids) + pad16(id));
    }
}

/// `prepend_roster` composes over concatenation.
proof fn lemma_prepend_roster_assoc(
    a: Seq<Seq<u8>>,
    c: Seq<Seq<u8>>,
    r: Option<(Seq<Seq<u8>>, int)>,
)
    ensures
        prepend_roster(a + c, r) == prepend_roster(a, prepend_roster(c, r)),
{
    match r {
        Option::None => {},
        Option::Some((ids2, end)) => {
            assert((a + c) + ids2 =~= a + (c + ids2));
        },
    }
}

/// A byte vector with its trailing zero bytes removed.
pub fn trim_zeros_exec(mut v: Vec<u8>) -> (r: Vec<u8>)
    ensures
        r@ == trim_zeros(v@),
{
    let ghost orig = v@;
    while v.len() > 0 && v[v.len() - 1] == 0
        invariant
            trim_zeros(v@) == trim_zeros(orig),
        decreases v@.len(),
    {
        let ghost pre = v@;
        v.pop();
        proof {
            assert(v@ =~= pre.drop_last());
        }
    }
    proof {
        assert(trim_zeros(v@) == v@);
    }
    v
}

} // verus!
