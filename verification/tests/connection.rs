use denaria_net::channel::DefaultChannel;
use denaria_net::connection::{ConnectionConfig, UnityClient};
use denaria_net::error::{ChannelError, DisconnectReason};
use denaria_net::packet::Packet;

fn config() -> ConnectionConfig {
    ConnectionConfig {
        available_bytes_per_tick: 60000,
        server_channels_config: DefaultChannel::config(),
        client_channels_config: DefaultChannel::config(),
    }
}

fn small_receive_config(cap: usize) -> ConnectionConfig {
    let mut c = config();
    c.client_channels_config[1].max_memory_usage_bytes = cap;
    c
}

#[test]
fn status_machine_is_terminal_on_disconnect() {
    let mut c = UnityClient::new(config());
    assert!(c.is_connecting());
    c.set_connected(b"p01".to_vec());
    assert!(c.is_connected());
    assert_eq!(c.player_id(), b"p01".to_vec());
    c.disconnect();
    assert!(c.is_disconnected());
    assert_eq!(
        c.disconnect_reason(),
        Some(DisconnectReason::DisconnectedByClient)
    );
    // a disconnected connection is not reused
    c.set_connected(b"p02".to_vec());
    assert!(c.is_disconnected());
    assert_eq!(c.player_id(), b"p01".to_vec());
}

#[test]
fn reliable_round_trip_with_retransmission_and_ack() {
    let mut c = UnityClient::new(config());
    c.set_connected(b"p01".to_vec());
    c.send_message(1, vec![42; 100]);

    // first tick: the message goes out once
    let packets = c.get_packets_to_send();
    assert_eq!(packets.len(), 1);
    let parsed = Packet::from_bytes(&packets[0]).unwrap();
    let seq = match parsed {
        Packet::SmallReliable { sequence_id, ref messages, .. } => {
            assert_eq!(messages.len(), 1);
            assert_eq!(messages[0].1, vec![42; 100]);
            sequence_id
        }
        _ => panic!("wrong packet shape"),
    };
    assert_eq!(seq, 0);

    // 100 ms later the resend interval (300 ms) has not elapsed
    c.update(100);
    assert_eq!(c.get_packets_to_send().len(), 0);

    // 301 ms after the send it has
    c.update(201);
    assert_eq!(c.get_packets_to_send().len(), 1);

    // the peer acks sequence 0: memory is released
    assert!(c.channel_available_memory(1) < 5242880);
    let ack = Packet::Ack {
        channel_id: 1,
        packet_type: 1,
        packet_process_time: 0,
        sequence_id: 0,
        acked_seq_id: 0,
        acked_mask: 1,
        end_posfix: 0,
    };
    c.process_packet(&ack.to_bytes().unwrap());
    assert_eq!(c.channel_available_memory(1), 5242880);
    // no further re-sends
    c.update(1000);
    assert_eq!(c.get_packets_to_send().len(), 0);
}

#[test]
fn inbound_reliable_messages_are_delivered_in_order() {
    let mut c = UnityClient::new(config());
    c.set_connected(b"p01".to_vec());
    let frame = |seq: u16, msgs: Vec<(u64, Vec<u8>)>| {
        Packet::SmallReliable {
            channel_id: 1,
            packet_type: 0,
            packet_process_time: 0,
            sequence_id: seq,
            acked_seq_id: u16::MAX,
            acked_mask: 0,
            messages: msgs,
        }
        .to_bytes()
        .unwrap()
    };
    c.process_packet(&frame(5, vec![(0, b"first".to_vec()), (2, b"third".to_vec())]));
    assert_eq!(c.receive_message(1), Some(b"first".to_vec()));
    assert_eq!(c.receive_message(1), None);
    // the duplicate of id 0 is not delivered twice
    c.process_packet(&frame(6, vec![(0, b"first".to_vec()), (1, b"second".to_vec())]));
    assert_eq!(c.receive_message(1), Some(b"second".to_vec()));
    assert_eq!(c.receive_message(1), Some(b"third".to_vec()));
    assert_eq!(c.receive_message(1), None);
}

#[test]
fn ack_mask_encodes_the_pending_window() {
    let mut c = UnityClient::new(config());
    c.set_connected(b"p01".to_vec());
    let frame = |seq: u16| {
        Packet::SmallReliable {
            channel_id: 1,
            packet_type: 0,
            packet_process_time: 0,
            sequence_id: seq,
            acked_seq_id: u16::MAX,
            acked_mask: 0,
            messages: vec![],
        }
        .to_bytes()
        .unwrap()
    };
    c.process_packet(&frame(100));
    c.process_packet(&frame(102));
    c.process_packet(&frame(103));
    assert_eq!(c.create_acked_bytes(), Some((103, 0b1011)));

    // the owed ack goes out as a standalone frame
    let packets = c.get_packets_to_send();
    assert_eq!(packets.len(), 1);
    match Packet::from_bytes(&packets[0]).unwrap() {
        Packet::Ack { acked_seq_id, acked_mask, .. } => {
            assert_eq!(acked_seq_id, 103);
            assert_eq!(acked_mask, 0b1011);
        }
        _ => panic!("expected a standalone ack"),
    }
    // and is owed only once
    assert_eq!(c.get_packets_to_send().len(), 0);
}

#[test]
fn ack_decode_matches_the_window() {
    assert_eq!(
        UnityClient::get_acked_packet_ids(103, 0b1011),
        vec![103, 102, 100]
    );
    // decoding across the wrap: anchor 0 with two bits yields 0 and 65535
    assert_eq!(UnityClient::get_acked_packet_ids(0, 0b11), vec![0, 65535]);
}

#[test]
fn receive_memory_exhaustion_disconnects_the_client() {
    let mut c = UnityClient::new(small_receive_config(150));
    c.set_connected(b"p01".to_vec());
    let frame = |seq: u16, id: u64| {
        Packet::SmallReliable {
            channel_id: 1,
            packet_type: 0,
            packet_process_time: 0,
            sequence_id: seq,
            acked_seq_id: u16::MAX,
            acked_mask: 0,
            messages: vec![(id, vec![7; 100])],
        }
        .to_bytes()
        .unwrap()
    };
    c.process_packet(&frame(0, 0));
    assert!(c.is_connected());
    // the second 100-byte message exceeds the 150-byte cap: fatal
    c.process_packet(&frame(1, 1));
    assert!(c.is_disconnected());
    assert_eq!(
        c.disconnect_reason(),
        Some(DisconnectReason::ReceiveChannelError {
            channel_id: 1,
            error: ChannelError::ReliableChannelMaxMemoryReached,
        })
    );
    // a disconnected connection emits no further packets
    assert_eq!(c.get_packets_to_send().len(), 0);
}

#[test]
fn send_channel_overflow_disconnects_the_client() {
    let mut cfg = config();
    cfg.server_channels_config[1].max_memory_usage_bytes = 50;
    let mut c = UnityClient::new(cfg);
    c.set_connected(b"p01".to_vec());
    c.send_message(1, vec![1; 51]);
    assert_eq!(
        c.disconnect_reason(),
        Some(DisconnectReason::SendChannelError {
            channel_id: 1,
            error: ChannelError::ReliableChannelMaxMemoryReached,
        })
    );
}

#[test]
fn undecodable_datagram_is_fatal() {
    let mut c = UnityClient::new(config());
    c.set_connected(b"p01".to_vec());
    c.process_packet(&[9, 9, 9]);
    assert!(c.is_disconnected());
    match c.disconnect_reason() {
        Some(DisconnectReason::PacketDeserialization(_)) => {}
        other => panic!("unexpected reason: {:?}", other),
    }
}

#[test]
fn unreliable_messages_flow_both_ways() {
    let mut c = UnityClient::new(config());
    c.set_connected(b"p01".to_vec());
    c.send_message(0, b"hello".to_vec());
    let packets = c.get_packets_to_send();
    assert_eq!(packets.len(), 1);
    match Packet::from_bytes(&packets[0]).unwrap() {
        Packet::SmallUnreliable { messages, .. } => {
            assert_eq!(messages, vec![b"hello".to_vec()]);
        }
        _ => panic!("wrong packet shape"),
    }

    let inbound = Packet::SmallUnreliable {
        channel_id: 0,
        messages: vec![b"from-peer".to_vec()],
    }
    .to_bytes()
    .unwrap();
    c.process_packet(&inbound);
    assert_eq!(c.receive_message(0), Some(b"from-peer".to_vec()));
    assert_eq!(c.receive_message(0), None);
}

#[test]
fn rtt_is_smoothed_with_an_eighth_weight() {
    let mut c = UnityClient::new(config());
    c.set_connected(b"p01".to_vec());
    c.send_message(1, vec![1; 10]);
    let packets = c.get_packets_to_send();
    assert_eq!(packets.len(), 1);
    c.update(80);
    let ack = Packet::Ack {
        channel_id: 1,
        packet_type: 1,
        packet_process_time: 0,
        sequence_id: 0,
        acked_seq_id: 0,
        acked_mask: 1,
        end_posfix: 0,
    };
    c.process_packet(&ack.to_bytes().unwrap());
    // the first sample initialises the estimate
    assert_eq!(c.rtt(), 80);
}

#[test]
fn owed_ack_rides_on_reliable_traffic() {
    let mut c = UnityClient::new(config());
    c.set_connected(b"p01".to_vec());
    // the peer's reliable frame makes an ack owed
    let inbound = Packet::SmallReliable {
        channel_id: 1,
        packet_type: 0,
        packet_process_time: 0,
        sequence_id: 7,
        acked_seq_id: u16::MAX,
        acked_mask: 0,
        messages: vec![],
    }
    .to_bytes()
    .unwrap();
    c.process_packet(&inbound);
    // with reliable traffic outbound, the ack goes piggybacked: one frame only
    c.send_message(1, b"payload".to_vec());
    let packets = c.get_packets_to_send();
    assert_eq!(packets.len(), 1);
    match Packet::from_bytes(&packets[0]).unwrap() {
        Packet::SmallReliable { acked_seq_id, acked_mask, messages, .. } => {
            assert_eq!(acked_seq_id, 7);
            assert_eq!(acked_mask, 1);
            assert_eq!(messages.len(), 1);
        }
        _ => panic!("expected a reliable frame"),
    }
    // the ack was delivered: nothing further is owed
    assert_eq!(c.create_acked_bytes(), Some((7, 1)));
    let mut quiet = c.get_packets_to_send();
    // only the retransmission gate holds traffic back now; no standalone ack
    for p in quiet.drain(..) {
        assert!(matches!(
            Packet::from_bytes(&p).unwrap(),
            Packet::SmallReliable { .. }
        ));
    }
}
