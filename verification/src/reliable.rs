//! Reliable-ordered send and receive channels: per-message retransmission
//! under a resend interval, strict memory budgets, greedy aggregation with
//! wrapping packet sequence numbers, and in-order gap-stalled delivery.

use vstd::prelude::*;

use crate::channel::{lemma_sum_len_nonneg, lemma_sum_len_push, sum_len};
use crate::constants::{MAX_MESSAGES_LENGTH, TRANSPORT_MAX_PACKET_BYTES};
use crate::error::ChannelError;
use crate::packet::{rel_msgs_enc, spec_encode, wf_packet, Packet, SpecPacket};

verus! {

/// One unacked outbound message: id, payload, and when it was last emitted.
#[derive(Debug)]
struct UnackedEntry {
    id: u64,
    payload: Vec<u8>,
    last_sent: Option<u64>,
}

/// The model of one unacked entry.
pub type EntryModel = (u64, Seq<u8>, Option<u64>);

/// Outbound reliable-ordered channel.
#[derive(Debug)]
pub struct SendChannelReliable {
    channel_id: u8,
    unacked_messages: Vec<UnackedEntry>,
    next_package_sequence_id: u16,
    next_message_id: u64,
    resend_time: u64,
    max_memory_usage_bytes: usize,
    memory_usage_bytes: usize,
}

/// Inbound reliable-ordered channel.
#[derive(Debug)]
pub struct ReceiveChannelReliable {
    messages: Vec<(u64, Vec<u8>)>,
    oldest_pending_message_id: u64,
    memory_usage_bytes: usize,
    max_memory_usage_bytes: usize,
}

/// The payloads of a list of entries.
pub open spec fn entry_payloads(es: Seq<EntryModel>) -> Seq<Seq<u8>> {
    Seq::new(es.len(), |i: int| es[i].1)
}

/// Whether a message last sent at `last_sent` is due again at `now`.
pub open spec fn resend_due(last_sent: Option<u64>, now: u64, resend_time: u64) -> bool {
    match last_sent {
        Option::None => true,
        Option::Some(t) => t + resend_time <= now,
    }
}

/// The messages emitted by walking the unacked entries in id order at `now`
/// with `budget` bytes: an entry is skipped when the budget cannot take its
/// payload or its resend interval has not elapsed.
pub open spec fn scan_kept(es: Seq<EntryModel>, budget: int, now: u64, resend: u64) -> Seq<
    (u64, Seq<u8>),
>
    decreases es.len(),
{
    if es.len() == 0 {
        Seq::empty()
    } else if es[0].1.len() <= budget && resend_due(es[0].2, now, resend) {
        seq![(es[0].0, es[0].1)] + scan_kept(es.drop_first(), budget - es[0].1.len(), now, resend)
    } else {
        scan_kept(es.drop_first(), budget, now, resend)
    }
}

/// The budget left after the walk of `scan_kept`.
pub open spec fn scan_budget(es: Seq<EntryModel>, budget: int, now: u64, resend: u64) -> int
    decreases es.len(),
{
    if es.len() == 0 {
        budget
    } else if es[0].1.len() <= budget && resend_due(es[0].2, now, resend) {
        scan_budget(es.drop_first(), budget - es[0].1.len(), now, resend)
    } else {
        scan_budget(es.drop_first(), budget, now, resend)
    }
}

/// The entries after the walk: emitted entries have `last_sent` set to `now`.
pub open spec fn scan_entries(es: Seq<EntryModel>, budget: int, now: u64, resend: u64) -> Seq<
    EntryModel,
>
    decreases es.len(),
{
    if es.len() == 0 {
        Seq::empty()
    } else if es[0].1.len() <= budget && resend_due(es[0].2, now, resend) {
        seq![(es[0].0, es[0].1, Option::Some(now))] + scan_entries(
            es.drop_first(),
            budget - es[0].1.len(),
            now,
            resend,
        )
    } else {
        seq![es[0]] + scan_entries(es.drop_first(), budget, now, resend)
    }
}

/// The walk changes only `last_sent`: ids and payloads stay as they were.
pub proof fn lemma_scan_entries_shape(es: Seq<EntryModel>, budget: int, now: u64, resend: u64)
    ensures
        scan_entries(es, budget, now, resend).len() == es.len(),
        forall|i: int|
            0 <= i < es.len() ==> (#[trigger] scan_entries(es, budget, now, resend)[i]).0
                == es[i].0 && scan_entries(es, budget, now, resend)[i].1 == es[i].1,
    decreases es.len(),
{
    if es.len() > 0 {
        if es[0].1.len() <= budget && resend_due(es[0].2, now, resend) {
            lemma_scan_entries_shape(es.drop_first(), budget - es[0].1.len(), now, resend);
        } else {
            lemma_scan_entries_shape(es.drop_first(), budget, now, resend);
        }
    }
}

/// Greedy aggregation of emitted messages: each costs its length plus a
/// ten-byte id-and-length prefix; a packet whose addition of the next message
/// would exceed the cap is flushed before the message goes to a fresh one.
pub open spec fn pack_rel_from(
    ms: Seq<(u64, Seq<u8>)>,
    cur: Seq<(u64, Seq<u8>)>,
    cur_bytes: int,
) -> Seq<Seq<(u64, Seq<u8>)>>
    decreases ms.len(),
{
    if ms.len() == 0 {
        if cur.len() == 0 {
            Seq::empty()
        } else {
            seq![cur]
        }
    } else {
        let sz: int = 10 + ms[0].1.len() as int;
        if cur_bytes + sz > MAX_MESSAGES_LENGTH {
            seq![cur] + pack_rel_from(ms.drop_first(), seq![ms[0]], sz)
        } else {
            pack_rel_from(ms.drop_first(), cur.push(ms[0]), cur_bytes + sz)
        }
    }
}

/// The message lists carried by a list of reliable packets.
pub open spec fn rel_packs_msgs(ps: Seq<Packet>) -> Seq<Seq<(u64, Seq<u8>)>> {
    Seq::new(
        ps.len(),
        |i: int|
            match ps[i]@ {
                SpecPacket::SmallReliable { messages, .. } => messages,
                _ => Seq::empty(),
            },
    )
}

/// The anchor a packet carries for a piggybacked ack pair: the no-ack
/// sentinel when none is owed.
pub open spec fn ack_anchor(ack: Option<(u16, u32)>) -> u16 {
    match ack {
        Option::Some((a, _)) => a,
        Option::None => u16::MAX,
    }
}

/// The mask a packet carries for a piggybacked ack pair.
pub open spec fn ack_bits(ack: Option<(u16, u32)>) -> u32 {
    match ack {
        Option::Some((_, m)) => m,
        Option::None => 0u32,
    }
}

/// `base + n` in the 16-bit sequence space.
pub open spec fn add_wrap16(base: u16, n: int) -> u16 {
    ((base + n) % 0x10000) as u16
}

/// The lengths of the emitted messages.
pub open spec fn kept_payloads(ms: Seq<(u64, Seq<u8>)>) -> Seq<Seq<u8>> {
    Seq::new(ms.len(), |i: int| ms[i].1)
}

/// The encoding of a reliable message list costs ten bytes plus the payload
/// per entry.
pub proof fn lemma_rel_enc_len(ms: Seq<(u64, Seq<u8>)>)
    ensures
        rel_msgs_enc(ms).len() == 10 * ms.len() + sum_len(kept_payloads(ms)),
    decreases ms.len(),
{
    if ms.len() > 0 {
        lemma_rel_enc_len(ms.drop_first());
        assert(kept_payloads(ms).drop_first() =~= kept_payloads(ms.drop_first()));
        assert(sum_len(kept_payloads(ms)) == kept_payloads(ms)[0].len() + sum_len(
            kept_payloads(ms).drop_first(),
        ));
    } else {
        assert(kept_payloads(ms) =~= Seq::<Seq<u8>>::empty());
    }
}

/// The index of the entry carrying `id`, or `-1` when none does.
pub open spec fn find_id(es: Seq<EntryModel>, id: u64) -> int
    decreases es.len(),
{
    if es.len() == 0 {
        -1
    } else if es[0].0 == id {
        0
    } else {
        let r = find_id(es.drop_first(), id);
        if r == -1 {
            -1
        } else {
            r + 1
        }
    }
}

/// What `find_id` returns: a valid index carrying `id`, or `-1` exactly when
/// no entry carries it.
pub proof fn lemma_find_id(es: Seq<EntryModel>, id: u64)
    ensures
        -1 <= find_id(es, id) < es.len(),
        find_id(es, id) == -1 ==> forall|i: int| 0 <= i < es.len() ==> (#[trigger] es[i]).0 != id,
        find_id(es, id) >= 0 ==> es[find_id(es, id)].0 == id,
    decreases es.len(),
{
    if es.len() == 0 {
    } else if es[0].0 == id {
    } else {
        let d = es.drop_first();
        lemma_find_id(d, id);
        if find_id(es, id) == -1 {
            assert(find_id(d, id) == -1);
            assert forall|i: int| 0 <= i < es.len() implies (#[trigger] es[i]).0 != id by {
                if i > 0 {
                    assert(es[i] == d[i - 1]);
                }
            }
        } else {
            assert(find_id(d, id) == find_id(es, id) - 1);
            assert(es[find_id(es, id)] == d[find_id(d, id)]);
        }
    }
}

/// The result of acknowledging `id` on the model: the entry carrying it is
/// removed; unknown ids change nothing.
pub open spec fn spec_ack(es: Seq<EntryModel>, id: u64) -> Seq<EntryModel> {
    let i = find_id(es, id);
    if i == -1 {
        es
    } else {
        es.remove(i)
    }
}

/// Acknowledging the same message id twice is the same as acknowledging it
/// once: the second call finds nothing to remove.
pub proof fn lemma_ack_idempotent(es: Seq<EntryModel>, id: u64)
    requires
        forall|i: int, j: int|
            0 <= i < j < es.len() ==> (#[trigger] es[i]).0 != (#[trigger] es[j]).0,
    ensures
        spec_ack(spec_ack(es, id), id) == spec_ack(es, id),
{
    lemma_find_id(es, id);
    let i = find_id(es, id);
    if i >= 0 {
        let es2 = es.remove(i);
        assert(forall|k: int| 0 <= k < i ==> (#[trigger] es2[k]) == es[k]);
        assert(forall|k: int| i <= k < es2.len() ==> (#[trigger] es2[k]) == es[k + 1]);
        assert(forall|k: int| 0 <= k < es2.len() ==> (#[trigger] es2[k]).0 != id);
        lemma_find_id(es2, id);
        if find_id(es2, id) >= 0 {
            assert(es2[find_id(es2, id)].0 == id);
            assert(false);
        }
    }
}

impl SendChannelReliable {
    /// The unacked entries, in strictly increasing id order.
    pub closed spec fn entries(&self) -> Seq<EntryModel> {
        Seq::new(
            self.unacked_messages@.len(),
            |i: int|
                (
                    self.unacked_messages@[i].id,
                    self.unacked_messages@[i].payload@,
                    self.unacked_messages@[i].last_sent,
                ),
        )
    }

    /// The next packet sequence number to be emitted.
    pub closed spec fn spec_next_sequence_id(&self) -> u16 {
        self.next_package_sequence_id
    }

    /// The next message id to be assigned.
    pub closed spec fn spec_next_message_id(&self) -> u64 {
        self.next_message_id
    }

    /// The channel's memory cap.
    pub closed spec fn spec_max_memory(&self) -> int {
        self.max_memory_usage_bytes as int
    }

    /// The accounted memory.
    pub closed spec fn spec_memory_usage(&self) -> int {
        self.memory_usage_bytes as int
    }

    /// The resend interval in milliseconds.
    pub closed spec fn spec_resend_time(&self) -> u64 {
        self.resend_time
    }

    /// The channel discriminator the emitted packets carry.
    pub closed spec fn spec_channel_id(&self) -> u8 {
        self.channel_id
    }

    /// Accounted memory is exactly the unacked payload bytes and stays under
    /// the cap; entries are in strictly increasing id order, below the next
    /// message id; every payload fits one aggregated packet.
    pub closed spec fn inv(&self) -> bool {
        &&& self.memory_usage_bytes == sum_len(entry_payloads(self.entries()))
        &&& self.memory_usage_bytes <= self.max_memory_usage_bytes
        &&& forall|i: int, j: int|
            0 <= i < j < self.entries().len() ==> (#[trigger] self.entries()[i]).0 < (
            #[trigger] self.entries()[j]).0
        &&& forall|i: int|
            0 <= i < self.entries().len() ==> (#[trigger] self.entries()[i]).0
                < self.next_message_id
        &&& forall|i: int|
            0 <= i < self.entries().len() ==> (#[trigger] self.entries()[i]).1.len() + 10
                <= MAX_MESSAGES_LENGTH
        &&& self.channel_id == 1
    }


    /// What the channel invariant guarantees, stated publicly: unacked ids
    /// are strictly increasing (hence pairwise distinct), every payload fits
    /// one aggregated packet, and the accounted memory is exactly the sum of
    /// the unacked payload bytes, under the cap.
    pub proof fn lemma_entries_wf(&self)
        requires
            self.inv(),
        ensures
            forall|i: int, j: int|
                0 <= i < j < self.entries().len() ==> (#[trigger] self.entries()[i]).0 < (
                #[trigger] self.entries()[j]).0,
            forall|i: int|
                0 <= i < self.entries().len() ==> (#[trigger] self.entries()[i]).1.len() + 10
                    <= MAX_MESSAGES_LENGTH,
            self.spec_memory_usage() == sum_len(entry_payloads(self.entries())),
            self.spec_memory_usage() <= self.spec_max_memory(),
    {
    }

    /// Acknowledging the same message id twice on this channel leaves the
    /// same entries as acknowledging it once: the channel's ids are pairwise
    /// distinct, so the second acknowledgement finds nothing to remove.
    pub proof fn lemma_ack_idempotent_on_channel(&self, message_id: u64)
        requires
            self.inv(),
        ensures
            spec_ack(spec_ack(self.entries(), message_id), message_id) == spec_ack(
                self.entries(),
                message_id,
            ),
    {
        self.lemma_entries_wf();
        lemma_ack_idempotent(self.entries(), message_id);
    }

    /// A fresh empty channel.
    pub fn new(channel_id: u8, resend_time: u64, max_memory_usage_bytes: usize) -> (r: Self)
        requires
            channel_id == 1,
        ensures
            r.inv(),
            r.entries().len() == 0,
            r.spec_next_sequence_id() == 0,
            r.spec_next_message_id() == 0,
            r.spec_max_memory() == max_memory_usage_bytes,
            r.spec_memory_usage() == 0,
            r.spec_resend_time() == resend_time,
            r.spec_channel_id() == channel_id,
    {
        let r = Self {
            channel_id,
            unacked_messages: Vec::new(),
            next_package_sequence_id: 0,
            next_message_id: 0,
            resend_time,
            max_memory_usage_bytes,
            memory_usage_bytes: 0,
        };
        proof {
            assert(r.entries() =~= Seq::<EntryModel>::empty());
            assert(entry_payloads(r.entries()) =~= Seq::<Seq<u8>>::empty());
        }
        r
    }

    /// Memory still available under the cap.
    pub fn available_memory(&self) -> (r: usize)
        requires
            self.inv(),
        ensures
            r == self.spec_max_memory() - self.spec_memory_usage(),
    {
        self.max_memory_usage_bytes - self.memory_usage_bytes
    }

    /// Whether a message of `size_bytes` would be admitted by the memory cap.
    pub fn can_send_message(&self, size_bytes: usize) -> (r: bool)
        requires
            self.inv(),
        ensures
            r == (size_bytes + self.spec_memory_usage() <= self.spec_max_memory()),
    {
        size_bytes <= self.max_memory_usage_bytes - self.memory_usage_bytes
    }

    /// Admits a message: it is assigned the next message id and recorded as
    /// never sent. A message whose admission would exceed the memory cap is
    /// rejected, as is one that cannot fit one aggregated packet, or one for
    /// which the 64-bit id space has run out.
    pub fn send_message(&mut self, message: Vec<u8>) -> (r: Result<(), ChannelError>)
        requires
            old(self).inv(),
        ensures
            final(self).inv(),
            final(self).spec_channel_id() == old(self).spec_channel_id(),
            final(self).spec_max_memory() == old(self).spec_max_memory(),
            final(self).spec_resend_time() == old(self).spec_resend_time(),
            final(self).spec_next_sequence_id() == old(self).spec_next_sequence_id(),
            old(self).spec_memory_usage() + message@.len() > old(self).spec_max_memory() ==> r
                == Err::<(), ChannelError>(ChannelError::ReliableChannelMaxMemoryReached)
                && *final(self) == *old(self),
            old(self).spec_memory_usage() + message@.len() <= old(self).spec_max_memory()
                && message@.len() + 10 > MAX_MESSAGES_LENGTH ==> r == Err::<(), ChannelError>(
                ChannelError::MessageTooLarge,
            ) && *final(self) == *old(self),
            old(self).spec_memory_usage() + message@.len() <= old(self).spec_max_memory()
                && message@.len() + 10 <= MAX_MESSAGES_LENGTH && old(self).spec_next_message_id()
                == u64::MAX ==> r == Err::<(), ChannelError>(ChannelError::MessageIdExhausted)
                && *final(self) == *old(self),
            old(self).spec_memory_usage() + message@.len() <= old(self).spec_max_memory()
                && message@.len() + 10 <= MAX_MESSAGES_LENGTH && old(self).spec_next_message_id()
                != u64::MAX ==> r == Ok::<(), ChannelError>(()) && final(self).entries() == old(self).entries().push(
                (old(self).spec_next_message_id(), message@, Option::<u64>::None),
            ) && final(self).spec_memory_usage() == old(self).spec_memory_usage()
                + message@.len() && final(self).spec_next_message_id() == old(self).spec_next_message_id() + 1,
    {
        if message.len() > self.max_memory_usage_bytes - self.memory_usage_bytes {
            return Err(ChannelError::ReliableChannelMaxMemoryReached);
        }
        if message.len() > MAX_MESSAGES_LENGTH - 10 {
            return Err(ChannelError::MessageTooLarge);
        }
        if self.next_message_id == u64::MAX {
            return Err(ChannelError::MessageIdExhausted);
        }
        let ghost pre = self.entries();
        proof {
            lemma_sum_len_push(entry_payloads(pre), message@);
        }
        self.memory_usage_bytes = self.memory_usage_bytes + message.len();
        let entry = UnackedEntry { id: self.next_message_id, payload: message, last_sent: None };
        self.unacked_messages.push(entry);
        self.next_message_id = self.next_message_id + 1;
        proof {
            assert(self.entries() =~= pre.push(
                ((self.next_message_id - 1) as u64, self.entries()[pre.len() as int].1, Option::<
                    u64,
                >::None),
            ));
            assert(entry_payloads(self.entries()) =~= entry_payloads(pre).push(
                self.entries()[pre.len() as int].1,
            ));
        }
        Ok(())
    }

    /// Removes the entry carrying an acked message id and releases its
    /// memory. Unknown ids change nothing, so a repeated ack is harmless.
    #[verifier::loop_isolation(false)]
    pub fn process_message_ack(&mut self, message_id: u64)
        requires
            old(self).inv(),
        ensures
            final(self).inv(),
            final(self).spec_channel_id() == old(self).spec_channel_id(),
            final(self).spec_max_memory() == old(self).spec_max_memory(),
            final(self).spec_resend_time() == old(self).spec_resend_time(),
            final(self).spec_next_sequence_id() == old(self).spec_next_sequence_id(),
            final(self).spec_next_message_id() == old(self).spec_next_message_id(),
            final(self).entries() == spec_ack(old(self).entries(), message_id),
            find_id(old(self).entries(), message_id) == -1 ==> *final(self) == *old(self),
            find_id(old(self).entries(), message_id) >= 0 ==> final(self).spec_memory_usage()
                == old(self).spec_memory_usage() - old(self).entries()[find_id(
                old(self).entries(),
                message_id,
            )].1.len(),
    {
        let ghost pre = self.entries();
        proof {
            lemma_find_id(pre, message_id);
        }
        let mut i: usize = 0;
        while i < self.unacked_messages.len()
            invariant
                *self == *old(self),
                i <= pre.len(),
                forall|k: int| 0 <= k < i ==> (#[trigger] pre[k]).0 != message_id,
                find_id(pre, message_id) >= 0 ==> find_id(pre, message_id) >= i,
            decreases pre.len() - i,
        {
            if self.unacked_messages[i].id == message_id {
                proof {
                    assert(pre[i as int].0 == message_id);
                    assert(find_id(pre, message_id) >= 0) by {
                        if find_id(pre, message_id) == -1 {
                            lemma_find_id(pre, message_id);
                        }
                    }
                    assert(find_id(pre, message_id) == i) by {
                        lemma_find_id(pre, message_id);
                        let f = find_id(pre, message_id);
                        if f > i {
                            assert(pre[i as int].0 == pre[f].0);
                        }
                    }
                    lemma_sum_len_remove(entry_payloads(pre), i as int);
                    lemma_sum_len_nonneg(entry_payloads(pre).remove(i as int));
                    assert(entry_payloads(pre)[i as int] == pre[i as int].1);
                }
                let removed = self.unacked_messages.remove(i);
                proof {
                    assert(removed.payload@ == pre[i as int].1);
                }
                self.memory_usage_bytes = self.memory_usage_bytes - removed.payload.len();
                proof {
                    assert(self.entries() =~= pre.remove(i as int));
                    assert(entry_payloads(self.entries()) =~= entry_payloads(pre).remove(
                        i as int,
                    ));
                }
                return ;
            }
            proof {
                if find_id(pre, message_id) == i {
                    lemma_find_id(pre, message_id);
                }
            }
            i = i + 1;
        }
        proof {
            if find_id(pre, message_id) >= 0 {
                lemma_find_id(pre, message_id);
            }
            assert(find_id(pre, message_id) == -1);
        }
    }

    /// Walks the unacked entries in id order and aggregates what the budget
    /// and the resend interval admit into packets with consecutive (wrapping)
    /// sequence numbers; emitted entries are stamped with `current_time_ms`.
    /// When an acknowledgement pair is given, every emitted packet carries it
    /// piggybacked; otherwise the packets carry the no-ack sentinel.
    #[verifier::loop_isolation(false)]
    #[verifier::rlimit(100)]
    pub fn get_packets_to_send(
        &mut self,
        available_bytes: &mut u64,
        current_time_ms: u64,
        ack: Option<(u16, u32)>,
    ) -> (r: Vec<Packet>)
        requires
            old(self).inv(),
        ensures
            final(self).inv(),
            final(self).spec_channel_id() == old(self).spec_channel_id(),
            final(self).spec_max_memory() == old(self).spec_max_memory(),
            final(self).spec_resend_time() == old(self).spec_resend_time(),
            final(self).spec_next_message_id() == old(self).spec_next_message_id(),
            final(self).spec_memory_usage() == old(self).spec_memory_usage(),
            final(self).entries() == scan_entries(
                old(self).entries(),
                *old(available_bytes) as int,
                current_time_ms,
                old(self).spec_resend_time(),
            ),
            *final(available_bytes) == scan_budget(
                old(self).entries(),
                *old(available_bytes) as int,
                current_time_ms,
                old(self).spec_resend_time(),
            ),
            rel_packs_msgs(r@) == pack_rel_from(
                scan_kept(
                    old(self).entries(),
                    *old(available_bytes) as int,
                    current_time_ms,
                    old(self).spec_resend_time(),
                ),
                Seq::empty(),
                0,
            ),
            forall|i: int|
                0 <= i < r@.len() ==> ((#[trigger] r@[i]@) matches SpecPacket::SmallReliable {
                    channel_id,
                    packet_type,
                    packet_process_time,
                    sequence_id,
                    acked_seq_id,
                    acked_mask,
                    messages,
                } && channel_id == old(self).spec_channel_id() && packet_type == 0
                    && packet_process_time == 0 && sequence_id == add_wrap16(
                    old(self).spec_next_sequence_id(),
                    i,
                ) && acked_seq_id == ack_anchor(ack) && acked_mask == ack_bits(ack)
                    && messages.len() > 0),
            final(self).spec_next_sequence_id() == add_wrap16(
                old(self).spec_next_sequence_id(),
                r@.len() as int,
            ),
            forall|i: int|
                0 <= i < r@.len() ==> wf_packet(#[trigger] r@[i]@) && spec_encode(r@[i]@).len()
                    <= TRANSPORT_MAX_PACKET_BYTES,
    {
        let ghost es0 = self.entries();
        let ghost b0 = *available_bytes as int;
        let ghost resend = self.resend_time;

        // walk: rebuild the entry list, stamping and collecting what is due
        let mut kept: Vec<(u64, Vec<u8>)> = Vec::new();
        let mut rebuilt: Vec<UnackedEntry> = Vec::new();
        let mut i: usize = 0;
        proof {
            assert(es0.skip(0) =~= es0);
        }
        while i < self.unacked_messages.len()
            invariant
                i <= es0.len(),
                self.unacked_messages@.len() == es0.len(),
                self.entries() == es0,
                scan_kept(es0, b0, current_time_ms, resend) == kept_view(kept@) + scan_kept(
                    es0.skip(i as int),
                    *available_bytes as int,
                    current_time_ms,
                    resend,
                ),
                scan_budget(es0, b0, current_time_ms, resend) == scan_budget(
                    es0.skip(i as int),
                    *available_bytes as int,
                    current_time_ms,
                    resend,
                ),
                scan_entries(es0, b0, current_time_ms, resend) == rebuilt_view(rebuilt@)
                    + scan_entries(
                    es0.skip(i as int),
                    *available_bytes as int,
                    current_time_ms,
                    resend,
                ),
                rebuilt@.len() == i,
                forall|k: int|
                    0 <= k < kept@.len() ==> (#[trigger] kept@[k]).1@.len() + 10
                        <= MAX_MESSAGES_LENGTH,
            decreases es0.len() - i,
        {
            let ghost rem = es0.skip(i as int);
            proof {
                assert(rem[0] == es0[i as int]);
                assert(rem.drop_first() =~= es0.skip(i as int + 1));
            }
            let due = match self.unacked_messages[i].last_sent {
                None => true,
                Some(t) => current_time_ms >= self.resend_time && t <= current_time_ms
                    - self.resend_time,
            };
            proof {
                assert(due == resend_due(es0[i as int].2, current_time_ms, resend));
            }
            let plen = self.unacked_messages[i].payload.len();
            if plen as u64 <= *available_bytes && due {
                *available_bytes = *available_bytes - plen as u64;
                let ghost kv = kept_view(kept@);
                let ghost rv = rebuilt_view(rebuilt@);
                kept.push(
                    (self.unacked_messages[i].id, self.unacked_messages[i].payload.clone()),
                );
                rebuilt.push(
                    UnackedEntry {
                        id: self.unacked_messages[i].id,
                        payload: self.unacked_messages[i].payload.clone(),
                        last_sent: Some(current_time_ms),
                    },
                );
                proof {
                    assert(kept_view(kept@) =~= kv.push((rem[0].0, rem[0].1)));
                    assert(rebuilt_view(rebuilt@) =~= rv.push(
                        (rem[0].0, rem[0].1, Option::Some(current_time_ms)),
                    ));
                    assert(kv.push((rem[0].0, rem[0].1)) + scan_kept(
                        rem.drop_first(),
                        *available_bytes as int,
                        current_time_ms,
                        resend,
                    ) =~= kv + (seq![(rem[0].0, rem[0].1)] + scan_kept(
                        rem.drop_first(),
                        *available_bytes as int,
                        current_time_ms,
                        resend,
                    )));
                    assert(rv.push((rem[0].0, rem[0].1, Option::Some(current_time_ms)))
                        + scan_entries(
                        rem.drop_first(),
                        *available_bytes as int,
                        current_time_ms,
                        resend,
                    ) =~= rv + (seq![(rem[0].0, rem[0].1, Option::Some(current_time_ms))]
                        + scan_entries(
                        rem.drop_first(),
                        *available_bytes as int,
                        current_time_ms,
                        resend,
                    )));
                }
            } else {
                let ghost rv = rebuilt_view(rebuilt@);
                rebuilt.push(
                    UnackedEntry {
                        id: self.unacked_messages[i].id,
                        payload: self.unacked_messages[i].payload.clone(),
                        last_sent: self.unacked_messages[i].last_sent,
                    },
                );
                proof {
                    assert(rebuilt_view(rebuilt@) =~= rv.push(rem[0]));
                    assert(rv.push(rem[0]) + scan_entries(
                        rem.drop_first(),
                        *available_bytes as int,
                        current_time_ms,
                        resend,
                    ) =~= rv + (seq![rem[0]] + scan_entries(
                        rem.drop_first(),
                        *available_bytes as int,
                        current_time_ms,
                        resend,
                    )));
                }
            }
            i = i + 1;
        }
        proof {
            assert(es0.skip(es0.len() as int) =~= Seq::<EntryModel>::empty());
            assert(kept_view(kept@) + Seq::<(u64, Seq<u8>)>::empty() =~= kept_view(kept@));
            assert(rebuilt_view(rebuilt@) + Seq::<EntryModel>::empty() =~= rebuilt_view(rebuilt@));
        }
        self.unacked_messages = rebuilt;
        proof {
            assert(self.entries() =~= rebuilt_view(rebuilt@));
            lemma_scan_entries_shape(es0, b0, current_time_ms, resend);
            assert(forall|k: int|
                0 <= k < es0.len() ==> (#[trigger] self.entries()[k]).0 == es0[k].0
                    && self.entries()[k].1 == es0[k].1);
            assert(entry_payloads(self.entries()) =~= entry_payloads(es0)) by {
                assert(forall|k: int|
                    0 <= k < es0.len() ==> (#[trigger] entry_payloads(self.entries())[k])
                        == entry_payloads(es0)[k]);
            }
        }

        // aggregation walk over the emitted messages
        let (carried_seq_id, carried_mask) = match ack {
            Some((a, m)) => (a, m),
            None => (u16::MAX, 0),
        };
        proof {
            assert(carried_seq_id == ack_anchor(ack) && carried_mask == ack_bits(ack));
        }
        let ghost kv = kept_view(kept@);
        let ghost seq0 = self.next_package_sequence_id;
        let mut packets: Vec<Packet> = Vec::new();
        let mut cur: Vec<(u64, Vec<u8>)> = Vec::new();
        let mut cur_bytes: usize = 0;
        let mut j: usize = 0;
        proof {
            assert(rel_packs_msgs(packets@) =~= Seq::<Seq<(u64, Seq<u8>)>>::empty());
            assert(kv.skip(0) =~= kv);
            assert(kept_view(cur@) =~= Seq::<(u64, Seq<u8>)>::empty());
            assert(Seq::<Seq<(u64, Seq<u8>)>>::empty() + pack_rel_from(kv, Seq::empty(), 0)
                =~= pack_rel_from(kv, Seq::empty(), 0));
        }
        let ghost es1 = self.entries();
        while j < kept.len()
            invariant
                j <= kept@.len(),
                self.entries() == es1,
                self.channel_id == old(self).channel_id,
                self.memory_usage_bytes == old(self).memory_usage_bytes,
                self.max_memory_usage_bytes == old(self).max_memory_usage_bytes,
                self.resend_time == old(self).resend_time,
                self.next_message_id == old(self).next_message_id,
                kv == kept_view(kept@),
                forall|k: int|
                    0 <= k < kept@.len() ==> (#[trigger] kept@[k]).1@.len() + 10
                        <= MAX_MESSAGES_LENGTH,
                cur_bytes == 10 * cur@.len() + sum_len(kept_payloads(kept_view(cur@))),
                cur_bytes <= MAX_MESSAGES_LENGTH,
                forall|k: int|
                    0 <= k < cur@.len() ==> (#[trigger] cur@[k]).1@.len() + 10
                        <= MAX_MESSAGES_LENGTH,
                rel_packs_msgs(packets@) + pack_rel_from(
                    kv.skip(j as int),
                    kept_view(cur@),
                    cur_bytes as int,
                ) == pack_rel_from(kv, Seq::empty(), 0),
                self.next_package_sequence_id == add_wrap16(seq0, packets@.len() as int),
                forall|k: int|
                    0 <= k < packets@.len() ==> ((#[trigger] packets@[k]@)
                        matches SpecPacket::SmallReliable {
                        channel_id,
                        packet_type,
                        packet_process_time,
                        sequence_id,
                        acked_seq_id,
                        acked_mask,
                        messages,
                    } && channel_id == old(self).spec_channel_id() && packet_type == 0
                        && packet_process_time == 0 && sequence_id == add_wrap16(seq0, k)
                        && acked_seq_id == ack_anchor(ack) && acked_mask == ack_bits(ack)
                        && messages.len() > 0),
                forall|k: int|
                    0 <= k < packets@.len() ==> wf_packet(#[trigger] packets@[k]@) && spec_encode(
                        packets@[k]@,
                    ).len() <= TRANSPORT_MAX_PACKET_BYTES,
            decreases kept@.len() - j,
        {
            let ghost rem = kv.skip(j as int);
            proof {
                assert(rem[0] == kept_view(kept@)[j as int]);
                assert(rem.drop_first() =~= kv.skip(j as int + 1));
            }
            let m = kept[j].1.clone();
            let mid = kept[j].0;
            proof {
                lemma_sum_len_nonneg(kept_payloads(kept_view(cur@)));
            }
            let sz = 10 + m.len();
            if cur_bytes + sz > MAX_MESSAGES_LENGTH {
                let ghost cb0 = cur_bytes as int;
                let flushed = cur;
                cur = Vec::new();
                let ghost fv = kept_view(flushed@);
                let p = Packet::SmallReliable {
                    channel_id: self.channel_id,
                    packet_type: 0,
                    packet_process_time: 0,
                    sequence_id: self.next_package_sequence_id,
                    acked_seq_id: carried_seq_id,
                    acked_mask: carried_mask,
                    messages: flushed,
                };
                proof {
                    lemma_rel_enc_len(fv);
                    lemma_sum_len_nonneg(kept_payloads(fv));
                    assert(p@ matches SpecPacket::SmallReliable { messages, .. } && messages
                        == fv);
                    assert(fv.len() > 0);
                    assert(10 * fv.len() <= cb0);
                    assert(forall|k: int|
                        0 <= k < fv.len() ==> (#[trigger] fv[k]).1.len() + 10
                            <= MAX_MESSAGES_LENGTH);
                    assert(wf_packet(p@));
                    assert(spec_encode(p@).len() == 15 + rel_msgs_enc(fv).len());
                    assert(spec_encode(p@).len() <= TRANSPORT_MAX_PACKET_BYTES);
                }
                let ghost pk0 = rel_packs_msgs(packets@);
                packets.push(p);
                self.next_package_sequence_id = wrap_inc16(self.next_package_sequence_id);
                cur.push((mid, m));
                cur_bytes = sz;
                proof {
                    assert(rel_packs_msgs(packets@) =~= pk0.push(fv));
                    assert(kept_view(cur@) =~= seq![rem[0]]);
                    assert(sum_len(kept_payloads(seq![rem[0]])) == rem[0].1.len()) by {
                        assert(kept_payloads(seq![rem[0]]).drop_first() =~= Seq::<
                            Seq<u8>,
                        >::empty());
                        assert(kept_payloads(seq![rem[0]])[0] == rem[0].1);
                        assert(sum_len(Seq::<Seq<u8>>::empty()) == 0);
                    }
                    assert(pk0.push(fv) + pack_rel_from(rem.drop_first(), seq![rem[0]], sz as int)
                        =~= pk0 + (seq![fv] + pack_rel_from(
                        rem.drop_first(),
                        seq![rem[0]],
                        sz as int,
                    )));
                }
            } else {
                let ghost cv = kept_view(cur@);
                cur.push((mid, m));
                cur_bytes = cur_bytes + sz;
                proof {
                    assert(kept_view(cur@) =~= cv.push(rem[0]));
                    assert(kept_payloads(cv.push(rem[0])) =~= kept_payloads(cv).push(rem[0].1));
                    lemma_sum_len_push(kept_payloads(cv), rem[0].1);
                }
            }
            j = j + 1;
        }
        if cur.len() > 0 {
            let ghost fv = kept_view(cur@);
            let ghost cb0 = cur_bytes as int;
            proof {
                assert(kv.skip(kv.len() as int) =~= Seq::<(u64, Seq<u8>)>::empty());
                lemma_rel_enc_len(fv);
                lemma_sum_len_nonneg(kept_payloads(fv));
                assert(10 * fv.len() <= cb0);
            }
            let ghost pk0 = rel_packs_msgs(packets@);
            let p = Packet::SmallReliable {
                channel_id: self.channel_id,
                packet_type: 0,
                packet_process_time: 0,
                sequence_id: self.next_package_sequence_id,
                acked_seq_id: carried_seq_id,
                acked_mask: carried_mask,
                messages: cur,
            };
            proof {
                assert(p@ matches SpecPacket::SmallReliable { messages, .. } && messages == fv);
                assert(forall|k: int|
                    0 <= k < fv.len() ==> (#[trigger] fv[k]).1.len() + 10
                        <= MAX_MESSAGES_LENGTH);
                assert(wf_packet(p@));
                assert(spec_encode(p@).len() == 15 + rel_msgs_enc(fv).len());
                assert(spec_encode(p@).len() <= TRANSPORT_MAX_PACKET_BYTES);
            }
            packets.push(p);
            self.next_package_sequence_id = wrap_inc16(self.next_package_sequence_id);
            proof {
                assert(rel_packs_msgs(packets@) =~= pk0.push(fv));
                assert(pk0.push(fv) =~= pk0 + seq![fv]);
            }
        } else {
            proof {
                assert(kv.skip(kv.len() as int) =~= Seq::<(u64, Seq<u8>)>::empty());
                assert(rel_packs_msgs(packets@) + Seq::<Seq<(u64, Seq<u8>)>>::empty()
                    =~= rel_packs_msgs(packets@));
            }
        }
        packets
    }
}


/// The model of a buffered inbound message list.
pub open spec fn recv_view(v: Seq<(u64, Vec<u8>)>) -> Seq<(u64, Seq<u8>)> {
    Seq::new(v.len(), |i: int| (v[i].0, v[i].1@))
}

/// The payloads of buffered inbound messages.
pub open spec fn recv_payloads(es: Seq<(u64, Seq<u8>)>) -> Seq<Seq<u8>> {
    Seq::new(es.len(), |i: int| es[i].1)
}

/// Whether some buffered message carries `id`.
pub open spec fn has_id(es: Seq<(u64, Seq<u8>)>, id: u64) -> bool {
    exists|i: int| 0 <= i < es.len() && (#[trigger] es[i]).0 == id
}

/// The index at which a message with `id` belongs: the number of leading
/// entries with a smaller id.
pub open spec fn insert_pos(es: Seq<(u64, Seq<u8>)>, id: u64) -> int
    decreases es.len(),
{
    if es.len() == 0 {
        0
    } else if es[0].0 < id {
        1 + insert_pos(es.drop_first(), id)
    } else {
        0
    }
}

/// `insert_pos` is the first index whose id is not below `id`.
pub proof fn lemma_insert_pos(es: Seq<(u64, Seq<u8>)>, id: u64)
    ensures
        0 <= insert_pos(es, id) <= es.len(),
        insert_pos(es, id) < es.len() ==> es[insert_pos(es, id)].0 >= id,
        forall|k: int| 0 <= k < insert_pos(es, id) ==> (#[trigger] es[k]).0 < id,
    decreases es.len(),
{
    if es.len() > 0 && es[0].0 < id {
        let d = es.drop_first();
        lemma_insert_pos(d, id);
        assert forall|k: int| 0 <= k < insert_pos(es, id) implies (#[trigger] es[k]).0 < id by {
            if k > 0 {
                assert(es[k] == d[k - 1]);
            }
        }
    }
}

impl ReceiveChannelReliable {
    /// The buffered messages, in strictly increasing id order.
    pub closed spec fn entries(&self) -> Seq<(u64, Seq<u8>)> {
        recv_view(self.messages@)
    }

    /// The id the next delivery must carry.
    pub closed spec fn spec_oldest_pending(&self) -> u64 {
        self.oldest_pending_message_id
    }

    /// The channel's memory cap.
    pub closed spec fn spec_max_memory(&self) -> int {
        self.max_memory_usage_bytes as int
    }

    /// The accounted memory.
    pub closed spec fn spec_memory_usage(&self) -> int {
        self.memory_usage_bytes as int
    }

    /// Buffered ids are strictly increasing, at or above the delivery cursor,
    /// and below the largest id (which is never buffered, so that the cursor
    /// can always advance past a delivered message); accounted memory is
    /// exactly the buffered bytes and stays under the cap.
    pub closed spec fn inv(&self) -> bool {
        &&& self.memory_usage_bytes == sum_len(recv_payloads(self.entries()))
        &&& self.memory_usage_bytes <= self.max_memory_usage_bytes
        &&& forall|i: int, j: int|
            0 <= i < j < self.entries().len() ==> (#[trigger] self.entries()[i]).0 < (
            #[trigger] self.entries()[j]).0
        &&& forall|i: int|
            0 <= i < self.entries().len() ==> (#[trigger] self.entries()[i]).0
                >= self.oldest_pending_message_id
        &&& forall|i: int|
            0 <= i < self.entries().len() ==> (#[trigger] self.entries()[i]).0 < u64::MAX
    }

    /// A fresh empty channel. Only ordered delivery is supported: asking for
    /// unordered delivery is outside this channel's contract.
    pub fn new(max_memory_usage_bytes: usize, ordered: Option<bool>) -> (r: Self)
        requires
            ordered matches Some(b) ==> b,
        ensures
            r.inv(),
            r.entries().len() == 0,
            r.spec_oldest_pending() == 0,
            r.spec_max_memory() == max_memory_usage_bytes,
            r.spec_memory_usage() == 0,
    {
        let r = Self {
            messages: Vec::new(),
            oldest_pending_message_id: 0,
            memory_usage_bytes: 0,
            max_memory_usage_bytes,
        };
        proof {
            assert(r.entries() =~= Seq::<(u64, Seq<u8>)>::empty());
            assert(recv_payloads(r.entries()) =~= Seq::<Seq<u8>>::empty());
        }
        r
    }

    /// Buffers an incoming message under its id. A message older than the
    /// delivery cursor or already buffered is discarded; a new message whose
    /// admission would exceed the memory cap is fatal; an admitted message
    /// carrying the largest id is discarded, so the delivery cursor can
    /// always advance past what was buffered.
    #[verifier::loop_isolation(false)]
    pub fn process_message(&mut self, message: Vec<u8>, message_id: u64) -> (r: Result<
        (),
        ChannelError,
    >)
        requires
            old(self).inv(),
        ensures
            final(self).inv(),
            final(self).spec_oldest_pending() == old(self).spec_oldest_pending(),
            final(self).spec_max_memory() == old(self).spec_max_memory(),
            message_id < old(self).spec_oldest_pending() || has_id(
                old(self).entries(),
                message_id,
            ) ==> r == Ok::<(), ChannelError>(()) && *final(self) == *old(self),
            message_id >= old(self).spec_oldest_pending() && !has_id(
                old(self).entries(),
                message_id,
            ) && old(self).spec_memory_usage() + message@.len() > old(self).spec_max_memory()
                ==> r == Err::<(), ChannelError>(ChannelError::ReliableChannelMaxMemoryReached)
                && *final(self) == *old(self),
            message_id == u64::MAX && old(self).spec_memory_usage() + message@.len() <= old(
                self,
            ).spec_max_memory() ==> r == Ok::<(), ChannelError>(()) && *final(self) == *old(self),
            message_id >= old(self).spec_oldest_pending() && message_id != u64::MAX && !has_id(
                old(self).entries(),
                message_id,
            ) && old(self).spec_memory_usage() + message@.len() <= old(self).spec_max_memory()
                ==> r == Ok::<(), ChannelError>(()) && final(self).entries() == old(self).entries().insert(
                insert_pos(old(self).entries(), message_id),
                (message_id, message@),
            ) && final(self).spec_memory_usage() == old(self).spec_memory_usage()
                + message@.len(),
    {
        let ghost pre = self.entries();
        if message_id < self.oldest_pending_message_id {
            return Ok(());
        }
        let mut idx: usize = 0;
        while idx < self.messages.len() && self.messages[idx].0 < message_id
            invariant
                idx <= pre.len(),
                forall|k: int| 0 <= k < idx ==> (#[trigger] pre[k]).0 < message_id,
            decreases pre.len() - idx,
        {
            idx = idx + 1;
        }
        proof {
            lemma_insert_pos(pre, message_id);
            assert(idx as int == insert_pos(pre, message_id)) by {
                let ip = insert_pos(pre, message_id);
                if ip < idx {
                    assert(pre[ip].0 < message_id);
                }
                if idx < ip {
                    assert(pre[idx as int].0 >= message_id);
                }
            }
        }
        if idx < self.messages.len() && self.messages[idx].0 == message_id {
            proof {
                assert(has_id(pre, message_id));
            }
            return Ok(());
        }
        proof {
            assert(!has_id(pre, message_id)) by {
                if has_id(pre, message_id) {
                    let j = choose|j: int| 0 <= j < pre.len() && (#[trigger] pre[j]).0
                        == message_id;
                    if j < idx {
                        assert(pre[j].0 < message_id);
                    }
                    if j > idx {
                        assert(pre[idx as int].0 < pre[j].0);
                    }
                }
            }
        }
        if message.len() > self.max_memory_usage_bytes - self.memory_usage_bytes {
            return Err(ChannelError::ReliableChannelMaxMemoryReached);
        }
        if message_id == u64::MAX {
            return Ok(());
        }
        proof {
            lemma_sum_len_insert(recv_payloads(pre), idx as int, message@);
        }
        self.memory_usage_bytes = self.memory_usage_bytes + message.len();
        self.messages.insert(idx, (message_id, message));
        proof {
            assert(self.entries() =~= pre.insert(idx as int, (message_id, pre_insert_payload(
                self.entries(),
                idx as int,
            ))));
            assert(self.entries() =~= pre.insert(
                idx as int,
                (message_id, self.entries()[idx as int].1),
            ));
            assert(recv_payloads(self.entries()) =~= recv_payloads(pre).insert(
                idx as int,
                self.entries()[idx as int].1,
            ));
        }
        Ok(())
    }

    /// Delivers and removes the message at the delivery cursor, then advances
    /// the cursor by one. A gap stalls delivery: nothing is returned until
    /// the message with the exact cursor id has arrived.
    pub fn receive_message(&mut self) -> (r: Option<Vec<u8>>)
        requires
            old(self).inv(),
        ensures
            final(self).inv(),
            final(self).spec_max_memory() == old(self).spec_max_memory(),
            old(self).entries().len() > 0 && old(self).entries()[0].0 == old(self).spec_oldest_pending() ==> (r matches Some(m) && m@ == old(self).entries()[0].1
                && final(self).entries() == old(self).entries().drop_first() && final(self).spec_oldest_pending() == old(self).spec_oldest_pending() + 1 && final(self).spec_memory_usage() == old(self).spec_memory_usage() - old(self).entries()[0].1.len()),
            !(old(self).entries().len() > 0 && old(self).entries()[0].0 == old(self).spec_oldest_pending()) ==> r is None && *final(self) == *old(self),
    {
        let ghost pre = self.entries();
        if self.messages.len() == 0 {
            return None;
        }
        if self.messages[0].0 != self.oldest_pending_message_id {
            return None;
        }
        proof {
            assert(pre[0].0 < u64::MAX);
            assert(recv_payloads(pre)[0] == pre[0].1);
            lemma_sum_len_remove(recv_payloads(pre), 0);
            lemma_sum_len_nonneg(recv_payloads(pre).remove(0));
        }
        let (_, payload) = self.messages.remove(0);
        self.oldest_pending_message_id = self.oldest_pending_message_id + 1;
        self.memory_usage_bytes = self.memory_usage_bytes - payload.len();
        proof {
            assert(self.entries() =~= pre.drop_first());
            assert(pre.remove(0) =~= pre.drop_first());
            assert(recv_payloads(self.entries()) =~= recv_payloads(pre).remove(0));
        }
        Some(payload)
    }
}

/// The payload stored at `i`; a helper to phrase the insertion proof.
spec fn pre_insert_payload(es: Seq<(u64, Seq<u8>)>, i: int) -> Seq<u8> {
    es[i].1
}

/// Inserting an element adds its length to the total.
pub proof fn lemma_sum_len_insert(ms: Seq<Seq<u8>>, i: int, m: Seq<u8>)
    requires
        0 <= i <= ms.len(),
    ensures
        sum_len(ms.insert(i, m)) == sum_len(ms) + m.len(),
    decreases ms.len(),
{
    if i == 0 {
        assert(ms.insert(0, m).drop_first() =~= ms);
        assert(ms.insert(0, m)[0] == m);
    } else {
        assert(ms.insert(i, m)[0] == ms[0]);
        assert(ms.insert(i, m).drop_first() =~= ms.drop_first().insert(i - 1, m));
        lemma_sum_len_insert(ms.drop_first(), i - 1, m);
    }
}

/// The model of a kept-message list.
pub open spec fn kept_view(v: Seq<(u64, Vec<u8>)>) -> Seq<(u64, Seq<u8>)> {
    Seq::new(v.len(), |i: int| (v[i].0, v[i].1@))
}

/// The model of a rebuilt entry list.
spec fn rebuilt_view(v: Seq<UnackedEntry>) -> Seq<EntryModel> {
    Seq::new(v.len(), |i: int| (v[i].id, v[i].payload@, v[i].last_sent))
}

/// Increment in the 16-bit sequence space: after 65535 comes 0.
pub fn wrap_inc16(v: u16) -> (r: u16)
    ensures
        r == add_wrap16(v, 1),
{
    if v == u16::MAX {
        0
    } else {
        v + 1
    }
}

/// Removing an element subtracts its length from the total.
pub proof fn lemma_sum_len_remove(ms: Seq<Seq<u8>>, i: int)
    requires
        0 <= i < ms.len(),
    ensures
        sum_len(ms.remove(i)) == sum_len(ms) - ms[i].len(),
    decreases ms.len(),
{
    if i == 0 {
        assert(ms.remove(0) =~= ms.drop_first());
    } else {
        assert(ms.remove(i).drop_first() =~= ms.drop_first().remove(i - 1));
        lemma_sum_len_remove(ms.drop_first(), i - 1);
    }
}

} // verus!
