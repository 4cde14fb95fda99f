use denaria_net::transport_packet::Packet as TPacket;
use denaria_net::transport_server::{
    Addr, ServerConfig, ServerResult, TransportServer, PENDING_EXPIRE_MS,
};

fn addr(n: u16) -> Addr {
    Addr { ip: 0x7f000001, port: n }
}

fn server(max_clients: usize) -> TransportServer {
    TransportServer::new(ServerConfig {
        current_time_ms: 0,
        max_clients,
        public_addresses: vec![addr(5000)],
        admin_client_id: 0,
    })
}

fn connection_request(client_id: u64) -> Vec<u8> {
    TPacket::ConnectionRequest {
        connection_prefix: [0, 0, 0],
        connection_side_id: 1,
        client_identifier: client_id,
    }
    .encode()
    .unwrap()
}

fn auth_preamble(player: &[u8], ticket: &[u8]) -> Vec<u8> {
    let mut payload = vec![0u8, 1, 0, 0, 0, 0];
    let mut id16 = player.to_vec();
    id16.resize(16, 0);
    payload.extend_from_slice(&id16);
    payload.extend_from_slice(ticket);
    TPacket::Data {
        client_identifier: 42,
        payload,
    }
    .encode()
    .unwrap()
}

#[test]
fn clean_handshake_connects_the_client() {
    let mut s = server(64);
    let a = addr(9000);

    // the opener is answered with side 2 and the same client id
    let r = s.process_packet(a, &connection_request(42));
    match r {
        ServerResult::PacketToSend { addr: ra, payload } => {
            assert_eq!(ra, a);
            match TPacket::decode(&payload).unwrap() {
                TPacket::ConnectionRequest { connection_side_id, client_identifier, .. } => {
                    assert_eq!(connection_side_id, 2);
                    assert_eq!(client_identifier, 42);
                }
                _ => panic!("expected a connection request reply"),
            }
        }
        other => panic!("unexpected result: {:?}", other),
    }

    // the auth preamble starts a ticket validation and is answered KeepAlive
    let r = s.process_packet(a, &auth_preamble(b"p01", b"ok"));
    match r {
        ServerResult::PacketToSend { payload, .. } => {
            assert!(matches!(
                TPacket::decode(&payload).unwrap(),
                TPacket::KeepAlive { client_identifier: 42 }
            ));
        }
        other => panic!("unexpected result: {:?}", other),
    }
    let requests = s.take_auth_requests();
    assert_eq!(requests.len(), 1);
    assert_eq!(requests[0].addr, a);
    assert_eq!(requests[0].player_id, b"p01".to_vec());
    assert_eq!(requests[0].session_ticket, b"ok".to_vec());

    // before the validation reports back, data keeps the client pending
    let keep = TPacket::Data { client_identifier: 42, payload: vec![0] }
        .encode()
        .unwrap();
    assert_eq!(s.process_packet(a, &keep), ServerResult::NoAction);
    assert!(!s.is_client_connected(42));

    // the validation succeeds; the next data takes a slot
    s.set_auth_result(a, true, b"p01".to_vec());
    let r = s.process_packet(a, &keep);
    match r {
        ServerResult::ClientConnected { client_id, addr: ra, payload, player_id } => {
            assert_eq!(client_id, 42);
            assert_eq!(ra, a);
            assert_eq!(player_id, b"p01".to_vec());
            assert!(matches!(
                TPacket::decode(&payload).unwrap(),
                TPacket::KeepAlive { client_identifier: 42 }
            ));
        }
        other => panic!("unexpected result: {:?}", other),
    }
    assert!(s.is_client_connected(42));
    assert_eq!(s.connected_clients(), 1);
    assert_eq!(s.client_addr(42), Some(a));

    // payloads from the connected client are routed upward
    let data = TPacket::Data { client_identifier: 42, payload: vec![1, 2, 3] }
        .encode()
        .unwrap();
    match s.process_packet(a, &data) {
        ServerResult::Payload { client_id, payload } => {
            assert_eq!(client_id, 42);
            assert_eq!(payload, vec![1, 2, 3]);
        }
        other => panic!("unexpected result: {:?}", other),
    }
}

fn connect(s: &mut TransportServer, a: Addr, client_id: u64, player: &[u8]) {
    let opener = TPacket::ConnectionRequest {
        connection_prefix: [0, 0, 0],
        connection_side_id: 1,
        client_identifier: client_id,
    }
    .encode()
    .unwrap();
    s.process_packet(a, &opener);
    let mut payload = vec![0u8, 1, 0, 0, 0, 0];
    let mut id16 = player.to_vec();
    id16.resize(16, 0);
    payload.extend_from_slice(&id16);
    payload.extend_from_slice(b"t");
    let pre = TPacket::Data { client_identifier: client_id, payload }
        .encode()
        .unwrap();
    s.process_packet(a, &pre);
    s.set_auth_result(a, true, player.to_vec());
    let again = TPacket::Data { client_identifier: client_id, payload: vec![0] }
        .encode()
        .unwrap();
    s.process_packet(a, &again);
}

#[test]
fn idle_timeout_disconnects_with_a_datagram() {
    let mut s = server(64);
    let a = addr(9001);
    connect(&mut s, a, 7, b"p07");
    assert!(s.is_client_connected(7));

    // past the 10-second idle timeout the client is reaped
    s.update(10_100);
    match s.update_client(7) {
        ServerResult::ClientDisconnected { client_id, addr: ra, payload } => {
            assert_eq!(client_id, 7);
            assert_eq!(ra, a);
            let bytes = payload.expect("a disconnect datagram");
            assert!(matches!(
                TPacket::decode(&bytes).unwrap(),
                TPacket::Disconnect { client_identifier: 7 }
            ));
        }
        other => panic!("unexpected result: {:?}", other),
    }
    assert!(!s.is_client_connected(7));
}

#[test]
fn keepalive_goes_out_after_the_send_interval() {
    let mut s = server(64);
    let a = addr(9002);
    connect(&mut s, a, 8, b"p08");
    // a moment later, nothing is owed yet
    s.update(100);
    assert_eq!(s.update_client(8), ServerResult::NoAction);
    // past the 250 ms send interval a keep-alive goes out
    s.update(200);
    match s.update_client(8) {
        ServerResult::PacketToSend { payload, .. } => {
            assert!(matches!(
                TPacket::decode(&payload).unwrap(),
                TPacket::KeepAlive { client_identifier: 8 }
            ));
        }
        other => panic!("unexpected result: {:?}", other),
    }
}

#[test]
fn client_disconnect_frees_the_slot() {
    let mut s = server(64);
    let a = addr(9003);
    connect(&mut s, a, 9, b"p09");
    let bye = TPacket::Disconnect { client_identifier: 9 }.encode().unwrap();
    match s.process_packet(a, &bye) {
        ServerResult::ClientDisconnected { client_id, payload, .. } => {
            assert_eq!(client_id, 9);
            assert!(payload.is_none());
        }
        other => panic!("unexpected result: {:?}", other),
    }
    assert!(!s.is_client_connected(9));
    assert_eq!(s.connected_clients(), 0);
}

#[test]
fn full_pending_table_drops_new_requests_and_expiry_restores_capacity() {
    let mut s = server(8);
    // fill the pending table
    for i in 0..4096u32 {
        let a = Addr { ip: 0x0a000000 + i as u128, port: 1 };
        let r = s.process_packet(a, &connection_request(100000 + i as u64));
        assert!(matches!(r, ServerResult::PacketToSend { .. }));
    }
    // one more, from a new address, is dropped silently
    let extra = Addr { ip: 0x0b000000, port: 1 };
    assert_eq!(
        s.process_packet(extra, &connection_request(999999)),
        ServerResult::NoAction
    );
    // expiry evicts the whole table and capacity is restored
    s.update(PENDING_EXPIRE_MS + 1);
    let r = s.process_packet(extra, &connection_request(999999));
    assert!(matches!(r, ServerResult::PacketToSend { .. }));
}

#[test]
fn create_session_requires_the_admin_identity() {
    let mut s = TransportServer::new(ServerConfig {
        current_time_ms: 0,
        max_clients: 8,
        public_addresses: vec![],
        admin_client_id: 777,
    });
    let roster = vec![b"p01".to_vec(), b"p02".to_vec()];
    let from_admin = TPacket::CreateSession {
        client_identifier: 777,
        session_id: 5,
        player_ids: roster.clone(),
    }
    .encode()
    .unwrap();
    match s.process_packet(addr(9004), &from_admin) {
        ServerResult::CreateSession { id, player_ids } => {
            assert_eq!(id, 5);
            assert_eq!(player_ids, roster);
        }
        other => panic!("unexpected result: {:?}", other),
    }
    // anyone else is refused
    let from_other = TPacket::CreateSession {
        client_identifier: 1,
        session_id: 5,
        player_ids: roster,
    }
    .encode()
    .unwrap();
    assert_eq!(s.process_packet(addr(9005), &from_other), ServerResult::NoAction);
}

#[test]
fn generate_payload_packet_wraps_and_stamps() {
    let mut s = server(64);
    let a = addr(9006);
    connect(&mut s, a, 11, b"p11");
    let (ra, bytes) = s.generate_payload_packet(11, &vec![9, 8, 7]).unwrap();
    assert_eq!(ra, a);
    match TPacket::decode(&bytes).unwrap() {
        TPacket::Data { client_identifier, payload } => {
            assert_eq!(client_identifier, 11);
            assert_eq!(payload, vec![9, 8, 7]);
        }
        _ => panic!("expected a data frame"),
    }
    assert!(s.generate_payload_packet(999, &vec![1]).is_err());
}

#[test]
fn duplicate_connection_requests_are_ignored_once_connected() {
    let mut s = server(64);
    let a = addr(9007);
    connect(&mut s, a, 12, b"p12");
    // a second handshake from the same id at a new address is denied
    assert_eq!(
        s.process_packet(addr(9008), &connection_request(12)),
        ServerResult::NoAction
    );
}
