//! Best-effort send and receive channels: memory-capped FIFOs whose overflow
//! drops the message, with greedy aggregation under the per-packet byte cap.

use std::collections::VecDeque;

use vstd::prelude::*;

use crate::channel::{lemma_sum_len_nonneg, lemma_sum_len_push, sum_len};
use crate::constants::{MAX_MESSAGES_LENGTH, TRANSPORT_MAX_PACKET_BYTES};
use crate::packet::{spec_encode, unrel_msgs_enc, unrel_view, wf_packet, Packet, SpecPacket};

verus! {

/// The messages admitted by walking `ms` in order with `budget` bytes:
/// a message is kept when its length still fits the remaining budget,
/// otherwise it is dropped and the walk continues.
pub open spec fn kept_msgs(ms: Seq<Seq<u8>>, budget: int) -> Seq<Seq<u8>>
    decreases ms.len(),
{
    if ms.len() == 0 {
        Seq::empty()
    } else if ms[0].len() <= budget {
        seq![ms[0]] + kept_msgs(ms.drop_first(), budget - ms[0].len())
    } else {
        kept_msgs(ms.drop_first(), budget)
    }
}

/// The budget left after the walk of `kept_msgs`.
pub open spec fn budget_after(ms: Seq<Seq<u8>>, budget: int) -> int
    decreases ms.len(),
{
    if ms.len() == 0 {
        budget
    } else if ms[0].len() <= budget {
        budget_after(ms.drop_first(), budget - ms[0].len())
    } else {
        budget_after(ms.drop_first(), budget)
    }
}

/// Greedy aggregation of admitted messages into packets: each message costs
/// its length plus a two-byte length prefix; a packet whose addition of the
/// next message would exceed the cap is flushed before the message is
/// appended to a fresh one.
pub open spec fn pack_unrel_from(
    ms: Seq<Seq<u8>>,
    cur: Seq<Seq<u8>>,
    cur_bytes: int,
) -> Seq<Seq<Seq<u8>>>
    decreases ms.len(),
{
    if ms.len() == 0 {
        if cur.len() == 0 {
            Seq::empty()
        } else {
            seq![cur]
        }
    } else {
        let sz: int = 2 + ms[0].len() as int;
        if cur_bytes + sz > MAX_MESSAGES_LENGTH {
            seq![cur] + pack_unrel_from(ms.drop_first(), seq![ms[0]], sz)
        } else {
            pack_unrel_from(ms.drop_first(), cur.push(ms[0]), cur_bytes + sz)
        }
    }
}

/// The message lists carried by a list of unreliable packets.
pub open spec fn packs_msgs(ps: Seq<Packet>) -> Seq<Seq<Seq<u8>>> {
    Seq::new(
        ps.len(),
        |i: int|
            match ps[i]@ {
                SpecPacket::SmallUnreliable { messages, .. } => messages,
                _ => Seq::empty(),
            },
    )
}

/// The encoding of a message list costs two bytes plus the payload per entry.
pub proof fn lemma_unrel_enc_len(ms: Seq<Seq<u8>>)
    ensures
        unrel_msgs_enc(ms).len() == 2 * ms.len() + sum_len(ms),
    decreases ms.len(),
{
    if ms.len() > 0 {
        lemma_unrel_enc_len(ms.drop_first());
    }
}

/// Outbound best-effort channel.
#[derive(Debug)]
pub struct SendChannelUnreliable {
    channel_id: u8,
    unreliable_messages: VecDeque<Vec<u8>>,
    max_memory_usage_bytes: usize,
    memory_usage_bytes: usize,
}

/// Inbound best-effort channel.
#[derive(Debug)]
pub struct ReceiveChannelUnreliable {
    channel_id: u8,
    messages: VecDeque<Vec<u8>>,
    max_memory_usage_bytes: usize,
    memory_usage_bytes: usize,
}

impl SendChannelUnreliable {
    /// The queued messages, oldest first.
    pub closed spec fn msgs(&self) -> Seq<Seq<u8>> {
        unrel_view(self.unreliable_messages@)
    }

    /// The channel discriminator the emitted packets carry.
    pub closed spec fn spec_channel_id(&self) -> u8 {
        self.channel_id
    }

    /// The channel's memory cap.
    pub closed spec fn spec_max_memory(&self) -> int {
        self.max_memory_usage_bytes as int
    }

    /// The accounted memory.
    pub closed spec fn spec_memory_usage(&self) -> int {
        self.memory_usage_bytes as int
    }

    /// Accounted memory is exactly the queued bytes and stays under the cap;
    /// every queued message fits one aggregated packet; the discriminator is
    /// the one the codec decodes as unreliable.
    pub closed spec fn inv(&self) -> bool {
        &&& self.memory_usage_bytes == sum_len(self.msgs())
        &&& self.memory_usage_bytes <= self.max_memory_usage_bytes
        &&& forall|i: int|
            0 <= i < self.msgs().len() ==> (#[trigger] self.msgs()[i]).len() + 2
                <= MAX_MESSAGES_LENGTH
        &&& self.channel_id == 0
    }

    /// A fresh empty channel.
    pub fn new(channel_id: u8, max_memory_usage_bytes: usize) -> (r: Self)
        requires
            channel_id == 0,
        ensures
            r.inv(),
            r.msgs().len() == 0,
            r.spec_max_memory() == max_memory_usage_bytes,
            r.spec_channel_id() == channel_id,
    {
        let r = Self {
            channel_id,
            unreliable_messages: VecDeque::new(),
            max_memory_usage_bytes,
            memory_usage_bytes: 0,
        };
        proof {
            assert(r.msgs() =~= Seq::<Seq<u8>>::empty());
        }
        r
    }

    /// Whether a message of `size_bytes` would be admitted by the memory cap.
    pub fn can_send_message(&self, size_bytes: usize) -> (r: bool)
        requires
            self.inv(),
        ensures
            r == (size_bytes + self.spec_memory_usage() <= self.spec_max_memory()),
    {
        size_bytes <= self.max_memory_usage_bytes - self.memory_usage_bytes
    }

    /// Memory still available under the cap.
    pub fn available_memory(&self) -> (r: usize)
        requires
            self.inv(),
        ensures
            r == self.spec_max_memory() - self.spec_memory_usage(),
    {
        self.max_memory_usage_bytes - self.memory_usage_bytes
    }

    /// Enqueues a message; one that cannot fit an aggregated packet, or whose
    /// admission would exceed the memory cap, is dropped.
    pub fn send_message(&mut self, message: Vec<u8>)
        requires
            old(self).inv(),
        ensures
            final(self).inv(),
            final(self).spec_channel_id() == old(self).spec_channel_id(),
            final(self).spec_max_memory() == old(self).spec_max_memory(),
            message@.len() + 2 > MAX_MESSAGES_LENGTH || old(self).spec_memory_usage()
                + message@.len() > old(self).spec_max_memory() ==> *final(self) == *old(self),
            message@.len() + 2 <= MAX_MESSAGES_LENGTH && old(self).spec_memory_usage()
                + message@.len() <= old(self).spec_max_memory() ==> final(self).msgs() == old(self).msgs().push(message@) && final(self).spec_memory_usage() == old(self).spec_memory_usage() + message@.len(),
    {
        if message.len() > MAX_MESSAGES_LENGTH - 2 {
            return ;
        }
        if message.len() > self.max_memory_usage_bytes - self.memory_usage_bytes {
            return ;
        }
        proof {
            lemma_sum_len_push(self.msgs(), message@);
        }
        self.memory_usage_bytes = self.memory_usage_bytes + message.len();
        let ghost oldq = self.msgs();
        self.unreliable_messages.push_back(message);
        proof {
            assert(self.msgs() =~= oldq.push(message@));
        }
    }

    /// Drains the queue into packets: messages the budget admits are
    /// aggregated greedily under the byte cap, the rest are dropped.
    #[verifier::loop_isolation(false)]
    pub fn get_packets_to_send(&mut self, available_bytes: &mut u64) -> (r: Vec<Packet>)
        requires
            old(self).inv(),
        ensures
            final(self).inv(),
            final(self).spec_channel_id() == old(self).spec_channel_id(),
            final(self).spec_max_memory() == old(self).spec_max_memory(),
            final(self).msgs().len() == 0,
            final(self).spec_memory_usage() == 0,
            *final(available_bytes) == budget_after(
                old(self).msgs(),
                *old(available_bytes) as int,
            ),
            packs_msgs(r@) == pack_unrel_from(
                kept_msgs(old(self).msgs(), *old(available_bytes) as int),
                Seq::empty(),
                0,
            ),
            forall|i: int|
                0 <= i < r@.len() ==> ((#[trigger] r@[i]@) matches SpecPacket::SmallUnreliable {
                    channel_id,
                    messages,
                } && channel_id == old(self).spec_channel_id() && messages.len() > 0),
            forall|i: int|
                0 <= i < r@.len() ==> wf_packet(#[trigger] r@[i]@) && spec_encode(r@[i]@).len()
                    <= TRANSPORT_MAX_PACKET_BYTES,
    {
        let ghost q0 = self.msgs();
        let ghost b0 = *available_bytes as int;

        // admission walk: drain the queue, keeping what the budget admits
        let mut kept: Vec<Vec<u8>> = Vec::new();
        while self.unreliable_messages.len() > 0
            invariant
                self.inv(),
                self.channel_id == old(self).channel_id,
                self.max_memory_usage_bytes == old(self).max_memory_usage_bytes,
                kept_msgs(q0, b0) == unrel_view(kept@) + kept_msgs(
                    self.msgs(),
                    *available_bytes as int,
                ),
                budget_after(q0, b0) == budget_after(self.msgs(), *available_bytes as int),
                forall|i: int|
                    0 <= i < kept@.len() ==> (#[trigger] kept@[i]@).len() + 2
                        <= MAX_MESSAGES_LENGTH,
            decreases self.unreliable_messages@.len(),
        {
            let ghost pre = self.msgs();
            let m = self.unreliable_messages.pop_front().unwrap();
            proof {
                assert(self.msgs() =~= pre.drop_first());
                assert(pre[0] == m@);
                lemma_sum_len_nonneg(pre.drop_first());
            }
            self.memory_usage_bytes = self.memory_usage_bytes - m.len();
            if m.len() as u64 <= *available_bytes {
                *available_bytes = *available_bytes - m.len() as u64;
                let ghost kv = unrel_view(kept@);
                kept.push(m);
                proof {
                    assert(unrel_view(kept@) =~= kv.push(pre[0]));
                    assert(kv.push(pre[0]) + kept_msgs(self.msgs(), *available_bytes as int)
                        =~= kv + (seq![pre[0]] + kept_msgs(self.msgs(), *available_bytes as int)));
                }
            }
        }
        proof {
            assert(self.msgs() =~= Seq::<Seq<u8>>::empty());
            assert(unrel_view(kept@) + Seq::<Seq<u8>>::empty() =~= unrel_view(kept@));
        }

        // aggregation walk over the admitted messages
        let ghost kv = unrel_view(kept@);
        let mut packets: Vec<Packet> = Vec::new();
        let mut cur: Vec<Vec<u8>> = Vec::new();
        let mut cur_bytes: usize = 0;
        let mut i: usize = 0;
        proof {
            assert(packs_msgs(packets@) =~= Seq::<Seq<Seq<u8>>>::empty());
            assert(kv.skip(0) =~= kv);
            assert(unrel_view(cur@) =~= Seq::<Seq<u8>>::empty());
            assert(Seq::<Seq<Seq<u8>>>::empty() + pack_unrel_from(kv, Seq::empty(), 0)
                =~= pack_unrel_from(kv, Seq::empty(), 0));
        }
        while i < kept.len()
            invariant
                i <= kept@.len(),
                kv == unrel_view(kept@),
                forall|k: int|
                    0 <= k < kept@.len() ==> (#[trigger] kept@[k]@).len() + 2
                        <= MAX_MESSAGES_LENGTH,
                cur_bytes == 2 * cur@.len() + sum_len(unrel_view(cur@)),
                cur_bytes <= MAX_MESSAGES_LENGTH,
                forall|k: int|
                    0 <= k < cur@.len() ==> (#[trigger] cur@[k]@).len() + 2
                        <= MAX_MESSAGES_LENGTH,
                packs_msgs(packets@) + pack_unrel_from(
                    kv.skip(i as int),
                    unrel_view(cur@),
                    cur_bytes as int,
                ) == pack_unrel_from(kv, Seq::empty(), 0),
                i < kept@.len() || cur@.len() > 0 || packs_msgs(packets@) == pack_unrel_from(
                    kv,
                    Seq::empty(),
                    0,
                ),
                forall|k: int|
                    0 <= k < packets@.len() ==> ((#[trigger] packets@[k]@)
                        matches SpecPacket::SmallUnreliable { channel_id, messages }
                        && channel_id == old(self).spec_channel_id() && messages.len() > 0),
                forall|k: int|
                    0 <= k < packets@.len() ==> wf_packet(#[trigger] packets@[k]@) && spec_encode(
                        packets@[k]@,
                    ).len() <= TRANSPORT_MAX_PACKET_BYTES,
            decreases kept@.len() - i,
        {
            let ghost rem = kv.skip(i as int);
            proof {
                assert(rem[0] == kept@[i as int]@);
                assert(rem.drop_first() =~= kv.skip(i as int + 1));
            }
            let m = kept[i].clone();
            proof {
                assert(m@ == kept@[i as int]@);
                lemma_sum_len_nonneg(unrel_view(cur@));
            }
            let sz = 2 + m.len();
            if cur_bytes + sz > MAX_MESSAGES_LENGTH {
                let ghost cb0 = cur_bytes as int;
                let flushed = cur;
                cur = Vec::new();
                let ghost fv = unrel_view(flushed@);
                let p = Packet::SmallUnreliable { channel_id: self.channel_id, messages: flushed };
                proof {
                    lemma_unrel_enc_len(fv);
                    lemma_sum_len_nonneg(fv);
                    assert(p@ matches SpecPacket::SmallUnreliable { channel_id, messages }
                        && channel_id == old(self).spec_channel_id() && messages == fv);
                    assert(fv.len() > 0);
                    assert(2 * fv.len() <= cb0);
                    assert(wf_packet(p@));
                    assert(spec_encode(p@).len() == 3 + unrel_msgs_enc(fv).len());
                    assert(spec_encode(p@).len() <= TRANSPORT_MAX_PACKET_BYTES);
                }
                let ghost pk0 = packs_msgs(packets@);
                packets.push(p);
                cur.push(m);
                cur_bytes = sz;
                proof {
                    assert(packs_msgs(packets@) =~= pk0.push(fv));
                    assert(unrel_view(cur@) =~= seq![rem[0]]);
                    assert(sum_len(seq![rem[0]]) == rem[0].len() + sum_len(
                        Seq::<Seq<u8>>::empty(),
                    )) by {
                        assert(seq![rem[0]].drop_first() =~= Seq::<Seq<u8>>::empty());
                    }
                    assert(pk0.push(fv) + pack_unrel_from(rem.drop_first(), seq![rem[0]], sz as int)
                        =~= pk0 + (seq![fv] + pack_unrel_from(
                        rem.drop_first(),
                        seq![rem[0]],
                        sz as int,
                    )));
                }
            } else {
                let ghost cv = unrel_view(cur@);
                cur.push(m);
                cur_bytes = cur_bytes + sz;
                proof {
                    assert(unrel_view(cur@) =~= cv.push(rem[0]));
                    lemma_sum_len_push(cv, rem[0]);
                }
            }
            i = i + 1;
        }
        if cur.len() > 0 {
            let ghost fv = unrel_view(cur@);
            let ghost cb0 = cur_bytes as int;
            proof {
                assert(kv.skip(kv.len() as int) =~= Seq::<Seq<u8>>::empty());
                lemma_unrel_enc_len(fv);
                lemma_sum_len_nonneg(fv);
                assert(2 * fv.len() <= cb0);
            }
            let ghost pk0 = packs_msgs(packets@);
            let p = Packet::SmallUnreliable { channel_id: self.channel_id, messages: cur };
            proof {
                assert(p@ matches SpecPacket::SmallUnreliable { channel_id, messages }
                    && channel_id == old(self).spec_channel_id() && messages == fv);
                assert(wf_packet(p@));
                assert(spec_encode(p@).len() == 3 + unrel_msgs_enc(fv).len());
                assert(spec_encode(p@).len() <= TRANSPORT_MAX_PACKET_BYTES);
            }
            packets.push(p);
            proof {
                assert(packs_msgs(packets@) =~= pk0.push(fv));
                assert(pk0.push(fv) =~= pk0 + seq![fv]);
            }
        } else {
            proof {
                assert(kv.skip(kv.len() as int) =~= Seq::<Seq<u8>>::empty());
                assert(packs_msgs(packets@) + Seq::<Seq<Seq<u8>>>::empty() =~= packs_msgs(
                    packets@,
                ));
            }
        }
        packets
    }
}

impl ReceiveChannelUnreliable {
    /// The buffered messages, oldest first.
    pub closed spec fn msgs(&self) -> Seq<Seq<u8>> {
        unrel_view(self.messages@)
    }

    /// The channel's memory cap.
    pub closed spec fn spec_max_memory(&self) -> int {
        self.max_memory_usage_bytes as int
    }

    /// The accounted memory.
    pub closed spec fn spec_memory_usage(&self) -> int {
        self.memory_usage_bytes as int
    }

    /// Accounted memory is exactly the buffered bytes and stays under the cap.
    pub closed spec fn inv(&self) -> bool {
        &&& self.memory_usage_bytes == sum_len(self.msgs())
        &&& self.memory_usage_bytes <= self.max_memory_usage_bytes
    }

    /// A fresh empty channel.
    pub fn new(channel_id: u8, max_memory_usage_bytes: usize) -> (r: Self)
        ensures
            r.inv(),
            r.msgs().len() == 0,
            r.spec_max_memory() == max_memory_usage_bytes,
    {
        let r = Self {
            channel_id,
            messages: VecDeque::new(),
            memory_usage_bytes: 0,
            max_memory_usage_bytes,
        };
        proof {
            assert(r.msgs() =~= Seq::<Seq<u8>>::empty());
        }
        r
    }

    /// Buffers an incoming message; one whose admission would exceed the
    /// memory cap is dropped.
    pub fn process_message(&mut self, message: Vec<u8>)
        requires
            old(self).inv(),
        ensures
            final(self).inv(),
            final(self).spec_max_memory() == old(self).spec_max_memory(),
            old(self).spec_memory_usage() + message@.len() > old(self).spec_max_memory() ==> *final(self) == *old(self),
            old(self).spec_memory_usage() + message@.len() <= old(self).spec_max_memory()
                ==> final(self).msgs() == old(self).msgs().push(message@) && final(self).spec_memory_usage() == old(self).spec_memory_usage() + message@.len(),
    {
        if message.len() > self.max_memory_usage_bytes - self.memory_usage_bytes {
            return ;
        }
        proof {
            lemma_sum_len_push(self.msgs(), message@);
        }
        self.memory_usage_bytes = self.memory_usage_bytes + message.len();
        let ghost oldq = self.msgs();
        self.messages.push_back(message);
        proof {
            assert(self.msgs() =~= oldq.push(message@));
        }
    }

    /// Takes the oldest buffered message, if any.
    pub fn receive_message(&mut self) -> (r: Option<Vec<u8>>)
        requires
            old(self).inv(),
        ensures
            final(self).inv(),
            final(self).spec_max_memory() == old(self).spec_max_memory(),
            old(self).msgs().len() == 0 ==> r is None && final(self).msgs() == old(self).msgs()
                && final(self).spec_memory_usage() == old(self).spec_memory_usage(),
            old(self).msgs().len() > 0 ==> (r matches Some(m) && m@ == old(self).msgs()[0]
                && final(self).msgs() == old(self).msgs().drop_first() && final(self).spec_memory_usage() == old(self).spec_memory_usage() - old(self).msgs()[0].len()),
    {
        let ghost pre = self.msgs();
        match self.messages.pop_front() {
            None => {
                proof {
                    assert(pre =~= Seq::<Seq<u8>>::empty());
                }
                None
            },
            Some(m) => {
                proof {
                    assert(self.msgs() =~= pre.drop_first());
                    assert(pre[0] == m@);
                    lemma_sum_len_nonneg(pre.drop_first());
                }
                self.memory_usage_bytes = self.memory_usage_bytes - m.len();
                Some(m)
            },
        }
    }
}

} // verus!
