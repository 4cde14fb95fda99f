use denaria_net::channel::DefaultChannel;
use denaria_net::connection::ConnectionConfig;
use denaria_net::connection_stats::ConnectionStats;
use denaria_net::dispatcher::{DispatchAction, SessionRouter, ToDenariaServerMessage};
use denaria_net::event_in::{digest_connect_event, digest_move_event, EventIn, EventInType};
use denaria_net::event_out::{EventOut, EventOutType};
use denaria_net::message_in::{MessageIn, MessageInType};
use denaria_net::message_out::{normalize_player_id, MessageOut, MessageOutType, Vec3Bits};
use denaria_net::packet::Packet;
use denaria_net::server::{ClientId, DenariaServer, ServerEvent};
use denaria_net::transport_server::{Addr, ServerResult};

fn config() -> ConnectionConfig {
    ConnectionConfig {
        available_bytes_per_tick: 60000,
        server_channels_config: DefaultChannel::config(),
        client_channels_config: DefaultChannel::config(),
    }
}

#[test]
fn server_tracks_connections_and_events() {
    let mut s = DenariaServer::new(config());
    assert!(!s.has_connections());
    s.add_connection(ClientId::from_raw(1), b"p01".to_vec());
    assert!(s.has_connections());
    assert!(s.is_connected(ClientId::from_raw(1)));
    assert_eq!(
        s.get_event(),
        Some(ServerEvent::ClientConnected { client_id: ClientId::from_raw(1) })
    );
    assert_eq!(s.get_event(), None);
    assert_eq!(s.player_id(ClientId::from_raw(1)).unwrap(), b"p01".to_vec());
    assert_eq!(
        s.client_id_by_player_id(&b"p01".to_vec()).unwrap().raw(),
        1
    );

    // adding the same id again changes nothing
    s.add_connection(ClientId::from_raw(1), b"p01".to_vec());
    assert_eq!(s.get_event(), None);

    s.remove_connection(ClientId::from_raw(1));
    assert!(!s.has_connections());
    match s.get_event() {
        Some(ServerEvent::ClientDisconnected { client_id, player_id, .. }) => {
            assert_eq!(client_id.raw(), 1);
            assert_eq!(player_id, b"p01".to_vec());
        }
        other => panic!("unexpected event: {:?}", other),
    }
}

#[test]
fn server_routes_payloads_into_connections() {
    let mut s = DenariaServer::new(config());
    s.add_connection(ClientId::from_raw(3), b"p03".to_vec());
    let frame = Packet::SmallReliable {
        channel_id: 1,
        packet_type: 0,
        packet_process_time: 0,
        sequence_id: 0,
        acked_seq_id: u16::MAX,
        acked_mask: 0,
        messages: vec![(0, b"ping".to_vec())],
    }
    .to_bytes()
    .unwrap();
    s.process_packet_from(&frame, ClientId::from_raw(3)).unwrap();
    let (msg, player) = s.receive_message(ClientId::from_raw(3), 1).unwrap();
    assert_eq!(msg, b"ping".to_vec());
    assert_eq!(player, b"p03".to_vec());

    // the tick produces the ack the connection owes
    let packets = s.get_packets_to_send(ClientId::from_raw(3)).unwrap();
    assert_eq!(packets.len(), 1);
    assert!(s.get_packets_to_send(ClientId::from_raw(99)).is_err());
}

#[test]
fn transport_messages_drive_the_server() {
    let mut s = DenariaServer::new(config());
    s.process_transport_message(ToDenariaServerMessage::ClientConnected {
        client_id: 5,
        addr: Addr { ip: 1, port: 2 },
        payload: vec![],
        player_id: b"p05".to_vec(),
    });
    assert!(s.is_connected(ClientId::from_raw(5)));
    s.process_transport_message(ToDenariaServerMessage::ClientDisconnected { client_id: 5 });
    assert!(!s.is_connected(ClientId::from_raw(5)));
}

#[test]
fn router_delivers_by_player_then_by_client() {
    let mut r = SessionRouter::new();
    let roster = vec![b"p01".to_vec(), b"p02".to_vec()];
    let actions = r.route_server_result(ServerResult::CreateSession {
        id: 4,
        player_ids: roster.clone(),
    });
    assert_eq!(
        actions,
        vec![DispatchAction::StartSession { id: 4, player_ids: roster }]
    );

    // an unknown player's connect is dropped
    let a = Addr { ip: 9, port: 9 };
    let dropped = r.route_server_result(ServerResult::ClientConnected {
        client_id: 1,
        addr: a,
        payload: vec![5],
        player_id: b"stranger".to_vec(),
    });
    assert_eq!(dropped.len(), 0);

    // a known player's connect goes to its session and is confirmed
    let actions = r.route_server_result(ServerResult::ClientConnected {
        client_id: 1,
        addr: a,
        payload: vec![5],
        player_id: b"p01".to_vec(),
    });
    assert_eq!(actions.len(), 2);
    match &actions[0] {
        DispatchAction::ToSession { session_id, message } => {
            assert_eq!(*session_id, 4);
            assert!(matches!(
                message,
                ToDenariaServerMessage::ClientConnected { client_id: 1, .. }
            ));
        }
        other => panic!("unexpected action: {:?}", other),
    }
    assert!(matches!(&actions[1], DispatchAction::SendDatagram { .. }));

    // payloads now follow the remembered client route
    let actions = r.route_server_result(ServerResult::Payload {
        client_id: 1,
        payload: vec![1, 2],
    });
    assert_eq!(
        actions,
        vec![DispatchAction::ToSession {
            session_id: 4,
            message: ToDenariaServerMessage::Payload { client_id: 1, payload: vec![1, 2] },
        }]
    );

    // a disconnect notifies the session and forgets the route
    let actions = r.route_server_result(ServerResult::ClientDisconnected {
        client_id: 1,
        addr: a,
        payload: None,
    });
    assert_eq!(actions.len(), 1);
    let actions = r.route_server_result(ServerResult::Payload {
        client_id: 1,
        payload: vec![3],
    });
    assert_eq!(actions.len(), 0);
}

#[test]
fn inbound_message_framing_reads_float_patterns() {
    let mut bytes = vec![2u8];
    bytes.extend_from_slice(&1.5f32.to_le_bytes());
    bytes.extend_from_slice(&(-2.0f32).to_le_bytes());
    let m = MessageIn::new(bytes, b"p01".to_vec()).unwrap();
    assert_eq!(m.event_type, MessageInType::Move);
    let mv = m.to_move_event().unwrap();
    assert_eq!(f32::from_bits(mv.x_bits), 1.5);
    assert_eq!(f32::from_bits(mv.y_bits), -2.0);

    let spawn = MessageIn::new(vec![0u8, 1], b"p02".to_vec()).unwrap();
    assert_eq!(spawn.event_type, MessageInType::Spawn);
    assert_eq!(spawn.to_spawn_event().unwrap().player_id, b"p02".to_vec());

    assert!(MessageIn::new(vec![], b"p".to_vec()).is_err());
    let unknown = MessageIn::new(vec![200u8, 0], b"p".to_vec()).unwrap();
    assert_eq!(unknown.event_type, MessageInType::Invalid);
}

#[test]
fn compact_event_framing() {
    let e = EventIn::new(vec![0u8, b'h', b'i']).unwrap();
    assert_eq!(e.event_type, EventInType::Connect);
    assert_eq!(
        digest_connect_event(e.data).unwrap().message,
        b"hi".to_vec()
    );
    let mut move_bytes = Vec::new();
    move_bytes.extend_from_slice(&3.0f32.to_le_bytes());
    move_bytes.extend_from_slice(&4.0f32.to_le_bytes());
    let mv = digest_move_event(move_bytes).unwrap();
    assert_eq!(f32::from_bits(mv.x_bits), 3.0);
    assert_eq!(f32::from_bits(mv.y_bits), 4.0);
    assert!(EventIn::new(vec![0u8]).is_err());
}

#[test]
fn outbound_message_framing_is_exact() {
    let id = b"p1".to_vec();
    let pos = Vec3Bits { x_bits: 1.0f32.to_bits(), y_bits: 2.0f32.to_bits(), z_bits: 3.0f32.to_bits() };
    let m = MessageOut::position_message(vec![(pos, id.clone())]).unwrap();
    assert_eq!(m.event_type, MessageOutType::Position);
    let mut expected = vec![1u8];
    expected.extend_from_slice(&1u64.to_le_bytes());
    let mut id16 = id.clone();
    id16.resize(16, 0);
    expected.extend_from_slice(&id16);
    expected.extend_from_slice(&1.0f32.to_le_bytes());
    expected.extend_from_slice(&2.0f32.to_le_bytes());
    expected.extend_from_slice(&3.0f32.to_le_bytes());
    assert_eq!(m.data, expected);

    assert!(MessageOut::position_message(vec![]).is_none());

    let header = m.get_with_event_header(vec![9, 9]);
    let mut expected_header = vec![1u8, 9, 9, 0];
    expected_header.extend_from_slice(&m.data);
    assert_eq!(header, expected_header);

    let d = MessageOut::disconnect_message(vec![b"p1".to_vec()]).unwrap();
    assert_eq!(d.event_type, MessageOutType::Disconnect);
    assert_eq!(d.data[0], 10);
    assert_eq!(d.data.len(), 1 + 8 + 16);

    let e = EventOut::disconnect_event(vec![b"p1".to_vec()]).unwrap();
    assert_eq!(e.event_type, EventOutType::Disconnect);
    assert_eq!(e.data, d.data);
}

#[test]
fn player_id_normalisation_pads_and_truncates() {
    assert_eq!(
        normalize_player_id("p01"),
        [b'p', b'0', b'1', 0, 0, 0, 0, 0, 0, 0, 0, 0, 0, 0, 0, 0]
    );
    assert_eq!(
        normalize_player_id("aaaaaaaaaaaaaaaaaaaa"),
        [b'a'; 16]
    );
}

#[test]
fn stats_buckets_rotate_by_the_second() {
    let mut s = ConnectionStats::new();
    s.sent_packets(10, 1000);
    s.received_packet(300);
    s.acked_packet();
    // within the first second nothing is reported yet
    s.update(900);
    assert_eq!(s.bytes_sent_per_second(), 0);
    // after the second rolls over, the previous bucket reports
    s.update(1100);
    assert_eq!(s.bytes_sent_per_second(), 1000);
    assert_eq!(s.bytes_received_per_second(), 300);
    // 10 sent, 1 acked: 900 lost per thousand
    assert_eq!(s.packet_loss_permille(), 900);
    // after two idle seconds the report is stale and reads zero
    s.update(5000);
    assert_eq!(s.bytes_sent_per_second(), 0);
    assert_eq!(s.packet_loss_permille(), 0);
}

#[test]
fn disconnect_all_closes_every_connection() {
    let mut s = DenariaServer::new(config());
    s.add_connection(ClientId::from_raw(1), b"p01".to_vec());
    s.add_connection(ClientId::from_raw(2), b"p02".to_vec());
    s.disconnect_all();
    assert!(!s.is_connected(ClientId::from_raw(1)));
    assert!(!s.is_connected(ClientId::from_raw(2)));
    assert_eq!(s.disconnections_id().len(), 2);
    assert_eq!(s.clients_id().len(), 0);
}

#[test]
fn broadcasts_reach_every_connection_but_the_excepted() {
    let mut s = DenariaServer::new(config());
    s.add_connection(ClientId::from_raw(1), b"p01".to_vec());
    s.add_connection(ClientId::from_raw(2), b"p02".to_vec());
    s.add_connection(ClientId::from_raw(3), b"p03".to_vec());
    assert_eq!(s.connected_clients(), 3);
    assert!(s.can_send_message(ClientId::from_raw(1), 1, 100));
    assert_eq!(s.packet_loss(ClientId::from_raw(1)), 0);

    s.broadcast_message_except(ClientId::from_raw(2), 1, b"hello".to_vec());
    let sent_1 = s.get_packets_to_send(ClientId::from_raw(1)).unwrap();
    let sent_2 = s.get_packets_to_send(ClientId::from_raw(2)).unwrap();
    let sent_3 = s.get_packets_to_send(ClientId::from_raw(3)).unwrap();
    assert_eq!(sent_1.len(), 1);
    assert_eq!(sent_2.len(), 0);
    assert_eq!(sent_3.len(), 1);

    s.broadcast_message(1, b"all".to_vec());
    // the fresh message goes out to everyone; 1 and 3 also retry nothing yet
    assert_eq!(s.get_packets_to_send(ClientId::from_raw(2)).unwrap().len(), 1);
}
