use denaria_net::error::TransportServerError;
use denaria_net::packet::{Packet, SerializationError};
use denaria_net::transport_packet::{Packet as TPacket, PacketType};

#[test]
fn unreliable_frame_round_trip() {
    let p = Packet::SmallUnreliable {
        channel_id: 0,
        messages: vec![vec![1, 2, 3], vec![], vec![9; 40]],
    };
    let bytes = p.to_bytes().unwrap();
    assert_eq!(bytes[0], 0);
    assert_eq!(bytes[1], 3);
    assert_eq!(bytes[2], 0);
    let q = Packet::from_bytes(&bytes).unwrap();
    assert_eq!(p, q);
    let bytes2 = q.to_bytes().unwrap();
    assert_eq!(bytes, bytes2);
}

#[test]
fn reliable_frame_round_trip() {
    let p = Packet::SmallReliable {
        channel_id: 1,
        packet_type: 0,
        packet_process_time: 7,
        sequence_id: 515,
        acked_seq_id: u16::MAX,
        acked_mask: 0,
        messages: vec![(0, vec![10, 20]), (1, vec![]), (900, vec![5; 100])],
    };
    let bytes = p.to_bytes().unwrap();
    assert_eq!(bytes[0], 1);
    // sequence id 515 = 0x0203 little-endian at offset 5
    assert_eq!(bytes[5], 3);
    assert_eq!(bytes[6], 2);
    let q = Packet::from_bytes(&bytes).unwrap();
    assert_eq!(p, q);
    assert_eq!(q.to_bytes().unwrap(), bytes);
}

#[test]
fn ack_frame_exact_bytes_and_round_trip() {
    let p = Packet::Ack {
        channel_id: 1,
        packet_type: 1,
        packet_process_time: 0x0102,
        sequence_id: 0,
        acked_seq_id: 103,
        acked_mask: 0b1101,
        end_posfix: 0,
    };
    let bytes = p.to_bytes().unwrap();
    assert_eq!(
        bytes,
        vec![1, 1, 0, 0x02, 0x01, 0, 0, 103, 0, 0b1101, 0, 0, 0, 0]
    );
    let q = Packet::from_bytes(&bytes).unwrap();
    assert_eq!(p, q);
}

#[test]
fn decode_rejects_bad_discriminators_and_truncation() {
    assert_eq!(
        Packet::from_bytes(&[]).unwrap_err(),
        SerializationError::BufferTooShort
    );
    assert_eq!(
        Packet::from_bytes(&[9, 0, 0]).unwrap_err(),
        SerializationError::InvalidChannelId
    );
    // reliable header truncated
    assert_eq!(
        Packet::from_bytes(&[1, 0, 0, 0]).unwrap_err(),
        SerializationError::BufferTooShort
    );
    // unknown packet type inside channel 1
    let bad = [1u8, 5, 0, 0, 0, 0, 0, 0, 0, 0, 0, 0, 0, 0];
    assert_eq!(
        Packet::from_bytes(&bad).unwrap_err(),
        SerializationError::InvalidPacketType
    );
    // unreliable message payload truncated
    let truncated = [0u8, 1, 0, 5, 0, 1, 2];
    assert_eq!(
        Packet::from_bytes(&truncated).unwrap_err(),
        SerializationError::BufferTooShort
    );
}

#[test]
fn oversized_frame_is_refused() {
    let p = Packet::SmallUnreliable {
        channel_id: 0,
        messages: vec![vec![0; 2000]],
    };
    assert_eq!(p.to_bytes().unwrap_err(), SerializationError::BufferTooShort);
}

#[test]
fn transport_packet_types() {
    assert_eq!(PacketType::from_u8(1).unwrap(), PacketType::Data);
    assert_eq!(PacketType::from_u8(2).unwrap(), PacketType::Disconnect);
    assert_eq!(PacketType::from_u8(3).unwrap(), PacketType::KeepAlive);
    assert_eq!(PacketType::from_u8(85).unwrap(), PacketType::ConnectionRequest);
    assert_eq!(PacketType::from_u8(100).unwrap(), PacketType::CreateSession);
    assert!(PacketType::from_u8(7).is_err());
    assert_eq!(PacketType::Data.to_u8().unwrap(), 1);
    assert_eq!(PacketType::CreateSession.to_u8().unwrap(), 100);
}

#[test]
fn transport_frames_round_trip() {
    let p = TPacket::ConnectionRequest {
        connection_prefix: [7, 8, 9],
        connection_side_id: 1,
        client_identifier: 42,
    };
    let bytes = p.encode().unwrap();
    assert_eq!(bytes[0], 85);
    assert_eq!(TPacket::decode(&bytes).unwrap(), p);

    let p = TPacket::KeepAlive { client_identifier: 99 };
    let bytes = p.encode().unwrap();
    assert_eq!(TPacket::decode(&bytes).unwrap(), p);

    let p = TPacket::Data {
        client_identifier: 3,
        payload: vec![1, 2, 3, 4],
    };
    let bytes = p.encode().unwrap();
    assert_eq!(TPacket::decode(&bytes).unwrap(), p);

    let p = TPacket::Disconnect { client_identifier: 17 };
    let bytes = p.encode().unwrap();
    assert_eq!(TPacket::decode(&bytes).unwrap(), p);
}

#[test]
fn create_session_roster_is_padded_and_trimmed() {
    let p = TPacket::CreateSession {
        client_identifier: 1,
        session_id: 77,
        player_ids: vec![b"p01".to_vec(), b"another".to_vec()],
    };
    let bytes = p.encode().unwrap();
    assert_eq!(bytes[0], 100);
    // one 16-byte block per player after the 15-byte header
    assert_eq!(bytes.len(), 15 + 32);
    let q = TPacket::decode(&bytes).unwrap();
    match q {
        TPacket::CreateSession { client_identifier, session_id, player_ids } => {
            assert_eq!(client_identifier, 1);
            assert_eq!(session_id, 77);
            assert_eq!(player_ids, vec![b"p01".to_vec(), b"another".to_vec()]);
        }
        _ => panic!("wrong frame"),
    }
}

#[test]
fn transport_decode_rejects_unknown_type_and_truncation() {
    assert!(TPacket::decode(&[]).is_err());
    assert!(TPacket::decode(&[50]).is_err());
    assert!(TPacket::decode(&[1, 0, 0]).is_err());
}

#[test]
fn oversized_roster_is_refused() {
    let p = TPacket::CreateSession {
        client_identifier: 1,
        session_id: 1,
        player_ids: vec![vec![0u8]; 70000],
    };
    assert_eq!(p.encode().unwrap_err(), TransportServerError::PayloadAboveLimit);
}
