use denaria_net::error::ChannelError;
use denaria_net::packet::Packet;
use denaria_net::reliable::{wrap_inc16, ReceiveChannelReliable, SendChannelReliable};
use denaria_net::unreliable::SendChannelUnreliable;

#[test]
fn reliable_send_memory_boundary() {
    // a send that exactly fills the cap is accepted
    let mut ch = SendChannelReliable::new(1, 200, 100);
    assert!(ch.can_send_message(100));
    assert_eq!(ch.send_message(vec![7; 100]), Ok(()));
    assert_eq!(ch.available_memory(), 0);
    // one byte over the cap is rejected
    let mut ch = SendChannelReliable::new(1, 200, 100);
    assert!(!ch.can_send_message(101));
    assert_eq!(
        ch.send_message(vec![7; 101]),
        Err(ChannelError::ReliableChannelMaxMemoryReached)
    );
    assert_eq!(ch.available_memory(), 100);
}

#[test]
fn reliable_send_rejects_oversized_message() {
    let mut ch = SendChannelReliable::new(1, 200, 100000);
    assert_eq!(
        ch.send_message(vec![7; 1191]),
        Err(ChannelError::MessageTooLarge)
    );
    assert_eq!(ch.send_message(vec![7; 1190]), Ok(()));
}

#[test]
fn retransmission_waits_for_the_resend_interval() {
    // a 100-byte reliable message, resend interval 200 ms
    let mut ch = SendChannelReliable::new(1, 200, 10000);
    ch.send_message(vec![1; 100]).unwrap();

    let mut budget = 60000u64;
    let packets = ch.get_packets_to_send(&mut budget, 0, None);
    assert_eq!(packets.len(), 1);

    // at 100 ms the interval has not elapsed: nothing is re-sent
    let mut budget = 60000u64;
    assert_eq!(ch.get_packets_to_send(&mut budget, 100, None).len(), 0);

    // at 201 ms it has: the message goes out again
    let mut budget = 60000u64;
    let packets = ch.get_packets_to_send(&mut budget, 201, None);
    assert_eq!(packets.len(), 1);
    match &packets[0] {
        Packet::SmallReliable { messages, sequence_id, .. } => {
            assert_eq!(*sequence_id, 1);
            assert_eq!(messages.len(), 1);
            assert_eq!(messages[0].0, 0);
            assert_eq!(messages[0].1.len(), 100);
        }
        _ => panic!("wrong packet shape"),
    }

    // after the ack the memory is released
    assert_eq!(ch.available_memory(), 10000 - 100);
    ch.process_message_ack(0);
    assert_eq!(ch.available_memory(), 10000);
}

#[test]
fn message_ack_is_idempotent() {
    let mut ch = SendChannelReliable::new(1, 200, 10000);
    ch.send_message(vec![1; 50]).unwrap();
    ch.send_message(vec![2; 60]).unwrap();
    ch.process_message_ack(0);
    assert_eq!(ch.available_memory(), 10000 - 60);
    // acking the same id again changes nothing
    ch.process_message_ack(0);
    assert_eq!(ch.available_memory(), 10000 - 60);
    // an unknown id changes nothing either
    ch.process_message_ack(42);
    assert_eq!(ch.available_memory(), 10000 - 60);
}

#[test]
fn budget_skips_messages_it_cannot_take() {
    let mut ch = SendChannelReliable::new(1, 200, 10000);
    ch.send_message(vec![1; 100]).unwrap();
    ch.send_message(vec![2; 10]).unwrap();
    // budget takes only the second message
    let mut budget = 50u64;
    let packets = ch.get_packets_to_send(&mut budget, 0, None);
    assert_eq!(packets.len(), 1);
    match &packets[0] {
        Packet::SmallReliable { messages, .. } => {
            assert_eq!(messages.len(), 1);
            assert_eq!(messages[0].0, 1);
        }
        _ => panic!("wrong packet shape"),
    }
    assert_eq!(budget, 40);
}

#[test]
fn out_of_order_delivery_stalls_on_the_gap() {
    let mut ch = ReceiveChannelReliable::new(10000, Some(true));
    ch.process_message(vec![0; 4], 0).unwrap();
    ch.process_message(vec![2; 4], 2).unwrap();
    ch.process_message(vec![3; 4], 3).unwrap();
    assert_eq!(ch.receive_message(), Some(vec![0; 4]));
    // the gap at id 1 stalls delivery
    assert_eq!(ch.receive_message(), None);
    ch.process_message(vec![1; 4], 1).unwrap();
    assert_eq!(ch.receive_message(), Some(vec![1; 4]));
    assert_eq!(ch.receive_message(), Some(vec![2; 4]));
    assert_eq!(ch.receive_message(), Some(vec![3; 4]));
    assert_eq!(ch.receive_message(), None);
}

#[test]
fn duplicate_reliable_message_is_delivered_once() {
    let mut ch = ReceiveChannelReliable::new(10000, None);
    ch.process_message(vec![5; 8], 0).unwrap();
    ch.process_message(vec![9; 8], 0).unwrap();
    assert_eq!(ch.receive_message(), Some(vec![5; 8]));
    assert_eq!(ch.receive_message(), None);
    // a message older than the cursor is discarded, not delivered again
    ch.process_message(vec![5; 8], 0).unwrap();
    assert_eq!(ch.receive_message(), None);
}

#[test]
fn receive_memory_exhaustion_is_fatal() {
    let mut ch = ReceiveChannelReliable::new(150, Some(true));
    ch.process_message(vec![1; 100], 0).unwrap();
    assert_eq!(
        ch.process_message(vec![2; 100], 1),
        Err(ChannelError::ReliableChannelMaxMemoryReached)
    );
}

#[test]
fn aggregation_flushes_before_the_cap_is_exceeded() {
    let mut ch = SendChannelUnreliable::new(0, 100000);
    // serialized sizes 502 each: two fit under 1200, the third flushes
    ch.send_message(vec![1; 500]);
    ch.send_message(vec![2; 500]);
    ch.send_message(vec![3; 500]);
    let mut budget = 60000u64;
    let packets = ch.get_packets_to_send(&mut budget);
    assert_eq!(packets.len(), 2);
    match &packets[0] {
        Packet::SmallUnreliable { messages, .. } => assert_eq!(messages.len(), 2),
        _ => panic!("wrong packet shape"),
    }
    match &packets[1] {
        Packet::SmallUnreliable { messages, .. } => assert_eq!(messages.len(), 1),
        _ => panic!("wrong packet shape"),
    }
}

#[test]
fn unreliable_overflow_drops_the_message() {
    let mut ch = SendChannelUnreliable::new(0, 100);
    ch.send_message(vec![1; 80]);
    // admission would exceed the cap: dropped
    ch.send_message(vec![2; 30]);
    let mut budget = 60000u64;
    let packets = ch.get_packets_to_send(&mut budget);
    assert_eq!(packets.len(), 1);
    match &packets[0] {
        Packet::SmallUnreliable { messages, .. } => {
            assert_eq!(messages.len(), 1);
            assert_eq!(messages[0].len(), 80);
        }
        _ => panic!("wrong packet shape"),
    }
}

#[test]
fn unreliable_budget_drops_instead_of_waiting() {
    let mut ch = SendChannelUnreliable::new(0, 100000);
    ch.send_message(vec![1; 100]);
    ch.send_message(vec![2; 10]);
    let mut budget = 50u64;
    let packets = ch.get_packets_to_send(&mut budget);
    // the first message is dropped for good; only the second goes out
    assert_eq!(packets.len(), 1);
    match &packets[0] {
        Packet::SmallUnreliable { messages, .. } => {
            assert_eq!(messages.len(), 1);
            assert_eq!(messages[0], vec![2; 10]);
        }
        _ => panic!("wrong packet shape"),
    }
    // nothing is left queued
    let mut budget = 60000u64;
    assert_eq!(ch.get_packets_to_send(&mut budget).len(), 0);
}

#[test]
fn sequence_ids_wrap_at_the_16_bit_boundary() {
    assert_eq!(wrap_inc16(0), 1);
    assert_eq!(wrap_inc16(65534), 65535);
    assert_eq!(wrap_inc16(65535), 0);
}
