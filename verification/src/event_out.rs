//! Outbound events of the compact event framing: the recipient-framed
//! header over a typed payload.

use vstd::prelude::*;

use crate::message_out::{disc_records, records_enc};
use crate::wire::{push_u64_le, push_u8, u64_le};

verus! {

/// The outbound event types.
#[derive(Debug, Clone, Copy, PartialEq, Eq)]
pub enum EventOutType {
    Spawn,
    Position,
    Rotation,
    Disconnect,
}

/// One outbound event: its type and its serialized payload.
#[derive(Debug, Clone, PartialEq, Eq)]
pub struct EventOut {
    pub event_type: EventOutType,
    pub data: Vec<u8>,
}

impl EventOut {
    /// Frames the event for one recipient: a leading marker byte, the
    /// recipient identifier, a zero separator, then the payload.
    pub fn get_with_event_header(&self, identifier: Vec<u8>) -> (r: Vec<u8>)
        ensures
            r@ == seq![1u8] + identifier@ + seq![0u8] + self.data@,
    {
        let mut with_header: Vec<u8> = Vec::new();
        push_u8(&mut with_header, 1);
        crate::wire::push_bytes(&mut with_header, &identifier);
        push_u8(&mut with_header, 0);
        crate::wire::push_bytes(&mut with_header, &self.data);
        proof {
            assert(with_header@ =~= seq![1u8] + identifier@ + seq![0u8] + self.data@);
        }
        with_header
    }

    /// The disconnect broadcast: type byte 10, a record count, then one
    /// 16-byte id per departed player.
    #[verifier::loop_isolation(false)]
    pub fn disconnect_event(player_ids: Vec<Vec<u8>>) -> (r: Option<EventOut>)
        requires
            player_ids@.len() <= u64::MAX,
        ensures
            player_ids@.len() == 0 ==> r is None,
            player_ids@.len() > 0 ==> (r matches Some(e) && e.event_type
                == EventOutType::Disconnect && e.data@ == seq![10u8] + u64_le(
                player_ids@.len() as u64,
            ) + records_enc(disc_records(player_ids@))),
    {
        if player_ids.len() == 0 {
            return None;
        }
        let mut data: Vec<u8> = Vec::new();
        push_u8(&mut data, 10);
        push_u64_le(&mut data, player_ids.len() as u64);
        let ghost header = data@;
        let mut i: usize = 0;
        while i < player_ids.len()
            invariant
                i <= player_ids@.len(),
                data@ == header + records_enc(disc_records(player_ids@).take(i as int)),
            decreases player_ids@.len() - i,
        {
            crate::message_out::push_pad16(&mut data, &player_ids[i]);
            proof {
                crate::message_out::lemma_records_enc_push(
                    disc_records(player_ids@).take(i as int),
                    disc_records(player_ids@)[i as int],
                );
                assert(disc_records(player_ids@).take(i as int).push(
                    disc_records(player_ids@)[i as int],
                ) =~= disc_records(player_ids@).take(i as int + 1));
                assert(crate::transport_packet::pad16(player_ids@[i as int]@) + Seq::<
                    u8,
                >::empty() =~= crate::transport_packet::pad16(player_ids@[i as int]@));
                assert(data@ =~= header + records_enc(
                    disc_records(player_ids@).take(i as int + 1),
                ));
            }
            i = i + 1;
        }
        proof {
            assert(disc_records(player_ids@).take(player_ids@.len() as int) =~= disc_records(
                player_ids@,
            ));
        }
        Some(EventOut { event_type: EventOutType::Disconnect, data })
    }
}

} // verus!
