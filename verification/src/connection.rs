//! Per-client connection: sequence-space management, bitmask
//! acknowledgement, retransmission bookkeeping, RTT estimation, lost-packet
//! reaping, channel priority, and the connection status machine.

use vstd::prelude::*;

use crate::channel::{ChannelConfig, SendType};
use crate::connection_stats::{sat_add, ConnectionStats};
use crate::error::{ChannelError, DisconnectReason};
use crate::packet::{spec_decode, spec_encode, Packet, Payload, SpecPacket};
use crate::reliable::{ReceiveChannelReliable, SendChannelReliable};
use crate::unreliable::{ReceiveChannelUnreliable, SendChannelUnreliable};

verus! {

/// How many milliseconds a sent packet stays tracked before it is given up
/// as lost.
pub const DISCARD_AFTER_MS: u64 = 3000;

/// How many peer sequence ids the pending-ack window holds.
pub const PENDING_ACKS_CAPACITY: usize = 32;

/// Configuration of a connection: the per-tick byte budget and the channel
/// layouts of each direction, in priority order.
#[derive(Debug, Clone)]
pub struct ConnectionConfig {
    pub available_bytes_per_tick: u64,
    pub server_channels_config: Vec<ChannelConfig>,
    pub client_channels_config: Vec<ChannelConfig>,
}

/// Whether a connection is being set up, established, or terminally closed.
#[derive(Debug, Clone, Copy, PartialEq, Eq)]
pub enum ClientConnectionStatus {
    Connected,
    Connecting,
    Disconnected { reason: DisconnectReason },
}

/// A snapshot of the connection's statistics.
#[derive(Debug, Clone, Copy, PartialEq, Eq)]
pub struct NetworkInfo {
    /// Smoothed round-trip time in milliseconds.
    pub rtt_ms: u64,
    /// Packets lost per thousand sent, over the previous second.
    pub packet_loss_permille: u64,
    pub bytes_sent_per_second: u64,
    pub bytes_received_per_second: u64,
}

/// What a tracked sent packet carried.
#[derive(Debug, Clone)]
pub enum PacketSentInfo {
    /// An unreliable carrier: nothing to do on ack.
    Plain,
    /// The reliable message ids the packet carried.
    ReliableMessages { channel_id: u8, message_ids: Vec<u64> },
}

/// A tracked sent packet.
#[derive(Debug, Clone)]
pub struct PacketSent {
    pub sent_at_ms: u64,
    pub info: PacketSentInfo,
}

/// The model of a tracked sent packet: time sent, and the channel and
/// message ids it carried, if reliable.
pub type SentModel = (u64, Option<(u8, Seq<u64>)>);

/// The model of one tracked entry: sequence id and packet record.
pub type SentRec = (u16, SentModel);

/// When a tracked packet was sent.
pub open spec fn rec_sent_at(r: SentRec) -> u64 {
    (r.1).0
}

/// The model of the sent-packet table.
pub open spec fn sent_view(v: Seq<(u16, PacketSent)>) -> Seq<SentRec> {
    Seq::new(
        v.len(),
        |i: int|
            (
                v[i].0,
                (
                    v[i].1.sent_at_ms,
                    match v[i].1.info {
                        PacketSentInfo::Plain => Option::<(u8, Seq<u64>)>::None,
                        PacketSentInfo::ReliableMessages { channel_id, message_ids } => Option::Some(
                            (channel_id, message_ids@),
                        ),
                    },
                ),
            ),
    )
}

/// `base - n` in the 16-bit sequence space.
pub open spec fn sub_wrap16(base: u16, n: int) -> u16 {
    ((base - n) % 0x10000) as u16
}

/// `base - n` in the 16-bit sequence space.
pub fn sub_wrap16_exec(base: u16, n: u16) -> (r: u16)
    ensures
        r == sub_wrap16(base, n as int),
{
    if base >= n {
        base - n
    } else {
        let d = (0x10000u32 - (n - base) as u32) as u16;
        proof {
            assert((base - n) % 0x10000 == 0x10000 - (n - base)) by {
                assert((base - n) + 0x10000 == 0x10000 - (n - base));
            }
        }
        d
    }
}

/// Bit `i` of the ack mask.
pub open spec fn mask_bit(mask: u32, i: u32) -> bool {
    (mask >> i) & 1 == 1
}

/// The ack mask for a pending set with the given anchor: bit `i` is set
/// exactly when the id `anchor - i` (wrapping) is pending.
pub open spec fn spec_ack_mask_from(pending: Seq<u16>, anchor: u16, i: int) -> u32
    decreases 32 - i,
{
    if i >= 32 {
        0u32
    } else {
        let rest = spec_ack_mask_from(pending, anchor, i + 1);
        if pending.contains(sub_wrap16(anchor, i)) {
            rest | (1u32 << (i as u32))
        } else {
            rest
        }
    }
}

/// The ack mask for a pending set with the given anchor.
pub open spec fn spec_ack_mask(pending: Seq<u16>, anchor: u16) -> u32 {
    spec_ack_mask_from(pending, anchor, 0)
}

/// Setting a bit leaves every other bit as it was, and makes that bit one.
proof fn lemma_or_bit(m: u32, i: u32, j: u32)
    requires
        i < 32,
        j < 32,
    ensures
        i != j ==> ((m | (1u32 << i)) >> j) & 1 == (m >> j) & 1,
        i == j ==> ((m | (1u32 << i)) >> j) & 1 == 1,
{
    assert(i != j ==> ((m | (1u32 << i)) >> j) & 1 == (m >> j) & 1) by (bit_vector)
        requires
            i < 32,
            j < 32,
    ;
    assert(i == j ==> ((m | (1u32 << i)) >> j) & 1 == 1) by (bit_vector)
        requires
            i < 32,
            j < 32,
    ;
}

/// The bits of `spec_ack_mask_from` below `i` are zero, and bit `j >= i`
/// says whether `anchor - j` is pending.
proof fn lemma_ack_mask_bits(pending: Seq<u16>, anchor: u16, i: int)
    requires
        0 <= i <= 32,
    ensures
        forall|j: u32|
            j < 32 && i <= j ==> (mask_bit(spec_ack_mask_from(pending, anchor, i), j)
                <==> pending.contains(sub_wrap16(anchor, j as int))),
        forall|j: u32| j < 32 && j < i ==> !mask_bit(spec_ack_mask_from(pending, anchor, i), j),
    decreases 32 - i,
{
    if i < 32 {
        lemma_ack_mask_bits(pending, anchor, i + 1);
        let rest = spec_ack_mask_from(pending, anchor, i + 1);
        if pending.contains(sub_wrap16(anchor, i)) {
            let m = spec_ack_mask_from(pending, anchor, i);
            assert(m == (rest | (1u32 << (i as u32))));
            assert forall|j: u32| j < 32 implies {
                &&& i <= j ==> (mask_bit(m, j) <==> pending.contains(
                    sub_wrap16(anchor, j as int),
                ))
                &&& j < i ==> !mask_bit(m, j)
            } by {
                lemma_or_bit(rest, i as u32, j);
                if j as int == i {
                    assert(mask_bit(m, j));
                } else if j as int > i {
                    assert(mask_bit(m, j) == mask_bit(rest, j));
                    assert(mask_bit(rest, j) <==> pending.contains(sub_wrap16(anchor, j as int)));
                } else {
                    assert(mask_bit(m, j) == mask_bit(rest, j));
                    assert(!mask_bit(rest, j));
                }
            }
        } else {
            let m = spec_ack_mask_from(pending, anchor, i);
            assert(m == rest);
            assert forall|j: u32| j < 32 implies {
                &&& i <= j ==> (mask_bit(m, j) <==> pending.contains(
                    sub_wrap16(anchor, j as int),
                ))
                &&& j < i ==> !mask_bit(m, j)
            } by {
                if j as int == i {
                    assert(!mask_bit(rest, j));
                    assert(!pending.contains(sub_wrap16(anchor, i)));
                }
            }
        }
    } else {
        assert forall|j: u32| j < 32 implies !mask_bit(0u32, j) by {
            assert((0u32 >> j) & 1 == 0) by (bit_vector);
        }
    }
}

/// Bit `i` of the ack mask says exactly whether `anchor - i` is pending.
pub proof fn lemma_ack_mask(pending: Seq<u16>, anchor: u16)
    ensures
        forall|i: u32|
            i < 32 ==> (mask_bit(spec_ack_mask(pending, anchor), i) <==> pending.contains(
                sub_wrap16(anchor, i as int),
            )),
{
    lemma_ack_mask_bits(pending, anchor, 0);
}

/// Two 32-bit values that agree on each of their bits are equal.
pub proof fn lemma_u32_bit_ext(m1: u32, m2: u32)
    requires
        forall|i: u32| i < 32 ==> ((m1 >> i) & 1 == (m2 >> i) & 1),
    ensures
        m1 == m2,
{
    assert(m1 == m2) by (bit_vector)
        requires
            (m1 >> 0u32) & 1 == (m2 >> 0u32) & 1,
            (m1 >> 1u32) & 1 == (m2 >> 1u32) & 1,
            (m1 >> 2u32) & 1 == (m2 >> 2u32) & 1,
            (m1 >> 3u32) & 1 == (m2 >> 3u32) & 1,
            (m1 >> 4u32) & 1 == (m2 >> 4u32) & 1,
            (m1 >> 5u32) & 1 == (m2 >> 5u32) & 1,
            (m1 >> 6u32) & 1 == (m2 >> 6u32) & 1,
            (m1 >> 7u32) & 1 == (m2 >> 7u32) & 1,
            (m1 >> 8u32) & 1 == (m2 >> 8u32) & 1,
            (m1 >> 9u32) & 1 == (m2 >> 9u32) & 1,
            (m1 >> 10u32) & 1 == (m2 >> 10u32) & 1,
            (m1 >> 11u32) & 1 == (m2 >> 11u32) & 1,
            (m1 >> 12u32) & 1 == (m2 >> 12u32) & 1,
            (m1 >> 13u32) & 1 == (m2 >> 13u32) & 1,
            (m1 >> 14u32) & 1 == (m2 >> 14u32) & 1,
            (m1 >> 15u32) & 1 == (m2 >> 15u32) & 1,
            (m1 >> 16u32) & 1 == (m2 >> 16u32) & 1,
            (m1 >> 17u32) & 1 == (m2 >> 17u32) & 1,
            (m1 >> 18u32) & 1 == (m2 >> 18u32) & 1,
            (m1 >> 19u32) & 1 == (m2 >> 19u32) & 1,
            (m1 >> 20u32) & 1 == (m2 >> 20u32) & 1,
            (m1 >> 21u32) & 1 == (m2 >> 21u32) & 1,
            (m1 >> 22u32) & 1 == (m2 >> 22u32) & 1,
            (m1 >> 23u32) & 1 == (m2 >> 23u32) & 1,
            (m1 >> 24u32) & 1 == (m2 >> 24u32) & 1,
            (m1 >> 25u32) & 1 == (m2 >> 25u32) & 1,
            (m1 >> 26u32) & 1 == (m2 >> 26u32) & 1,
            (m1 >> 27u32) & 1 == (m2 >> 27u32) & 1,
            (m1 >> 28u32) & 1 == (m2 >> 28u32) & 1,
            (m1 >> 29u32) & 1 == (m2 >> 29u32) & 1,
            (m1 >> 30u32) & 1 == (m2 >> 30u32) & 1,
            (m1 >> 31u32) & 1 == (m2 >> 31u32) & 1,
    ;
}

/// The sequence ids acknowledged by an `(anchor, mask)` pair, in mask bit
/// order: the id `anchor - i` (wrapping) for each set bit `i`.
pub open spec fn decoded_ids_from(anchor: u16, mask: u32, i: int) -> Seq<u16>
    decreases 32 - i,
{
    if i >= 32 {
        Seq::empty()
    } else if mask_bit(mask, i as u32) {
        seq![sub_wrap16(anchor, i)] + decoded_ids_from(anchor, mask, i + 1)
    } else {
        decoded_ids_from(anchor, mask, i + 1)
    }
}

/// The sequence ids acknowledged by an `(anchor, mask)` pair.
pub open spec fn decoded_ids(anchor: u16, mask: u32) -> Seq<u16> {
    decoded_ids_from(anchor, mask, 0)
}

/// Decoding an `(anchor, mask)` ack pair and re-encoding the decoded pending
/// set against the same anchor restores exactly the same mask: the encoding
/// is a fixed point over any pending set that holds precisely the decoded
/// ids. The anchor must be re-used: for a pair whose window wraps the
/// sequence space (anchor 0 with mask bits 0 and 1, decoding to 0 and
/// 65535), the ascending window's largest id is 65535, not the anchor, so
/// re-encoding against the largest id instead would yield a different pair.
pub proof fn lemma_ack_mask_fixed_point(anchor: u16, mask: u32, pending: Seq<u16>)
    requires
        forall|v: u16|
            #[trigger] pending.contains(v) <==> exists|i: u32|
                i < 32 && mask_bit(mask, i) && v == sub_wrap16(anchor, i as int),
    ensures
        spec_ack_mask(pending, anchor) == mask,
{
    lemma_ack_mask(pending, anchor);
    let m2 = spec_ack_mask(pending, anchor);
    assert forall|i: u32| i < 32 implies ((mask >> i) & 1 == (m2 >> i) & 1) by {
        assert((mask >> i) & 1 == 0 || (mask >> i) & 1 == 1) by (bit_vector);
        assert((m2 >> i) & 1 == 0 || (m2 >> i) & 1 == 1) by (bit_vector);
        if mask_bit(mask, i) {
            assert(pending.contains(sub_wrap16(anchor, i as int)));
            assert(mask_bit(m2, i));
        } else {
            if pending.contains(sub_wrap16(anchor, i as int)) {
                let j = choose|j: u32|
                    j < 32 && mask_bit(mask, j) && sub_wrap16(anchor, i as int) == sub_wrap16(
                        anchor,
                        j as int,
                    );
                assert((anchor - i as int) % 0x10000 == (anchor - j as int) % 0x10000);
                assert(i == j);
                assert(false);
            }
            assert(!mask_bit(m2, i));
        }
    }
    lemma_u32_bit_ext(mask, m2);
}

/// Where a peer sequence id belongs in the ascending pending window.
pub open spec fn pos16(s: Seq<u16>, v: u16) -> int
    decreases s.len(),
{
    if s.len() == 0 {
        0
    } else if s[0] < v {
        1 + pos16(s.drop_first(), v)
    } else {
        0
    }
}

/// `pos16` is the first index whose value is not below `v`.
pub proof fn lemma_pos16(s: Seq<u16>, v: u16)
    ensures
        0 <= pos16(s, v) <= s.len(),
        pos16(s, v) < s.len() ==> s[pos16(s, v)] >= v,
        forall|k: int| 0 <= k < pos16(s, v) ==> s[k] < v,
    decreases s.len(),
{
    if s.len() > 0 && s[0] < v {
        let d = s.drop_first();
        lemma_pos16(d, v);
        assert forall|k: int| 0 <= k < pos16(s, v) implies s[k] < v by {
            if k > 0 {
                assert(s[k] == d[k - 1]);
            }
        }
    }
}

/// The pending-ack window after seeing peer sequence id `s`: a stale or
/// already-pending id changes nothing; otherwise the oldest entry is evicted
/// at capacity and `s` is inserted in ascending position. The first id seen
/// initialises the window unconditionally.
pub open spec fn spec_add_pending(pending: Seq<u16>, s: u16) -> Seq<u16> {
    if pending.len() > 0 && (pending[0] >= s || pending.contains(s)) {
        pending
    } else {
        let p = if pending.len() >= PENDING_ACKS_CAPACITY {
            pending.drop_first()
        } else {
            pending
        };
        p.insert(pos16(p, s), s)
    }
}


/// The exponentially weighted RTT estimate after one sample: the first
/// sample initialises the estimate, later ones blend in with weight 1/8.
pub open spec fn ewma_rtt(old_rtt: u64, sample: u64) -> u64 {
    if old_rtt == 0 {
        sample
    } else {
        ((7 * old_rtt + sample) / 8) as u64
    }
}

/// The exponentially weighted RTT estimate after one sample.
pub fn ewma_rtt_exec(old_rtt: u64, sample: u64) -> (r: u64)
    ensures
        r == ewma_rtt(old_rtt, sample),
{
    if old_rtt == 0 {
        sample
    } else {
        let v = (7u128 * (old_rtt as u128) + (sample as u128)) / 8;
        proof {
            assert(v <= u64::MAX) by (nonlinear_arith)
                requires
                    v == (7 * (old_rtt as int) + sample) / 8,
                    old_rtt <= u64::MAX,
                    sample <= u64::MAX,
            ;
        }
        v as u64
    }
}

/// The tracked sent packets still within the loss window: leading entries
/// older than the discard threshold are dropped; the first young enough
/// entry stops the walk, since later entries were sent later.
pub open spec fn reap_sent(sent: Seq<SentRec>, now: u64) -> Seq<SentRec>
    decreases sent.len(),
{
    if sent.len() > 0 && rec_sent_at(sent[0]) + DISCARD_AFTER_MS <= now {
        reap_sent(sent.drop_first(), now)
    } else {
        sent
    }
}

/// The index of the tracked packet with sequence id `s`, or `-1`.
pub open spec fn find_seq(sent: Seq<SentRec>, s: u16) -> int
    decreases sent.len(),
{
    if sent.len() == 0 {
        -1
    } else if sent[0].0 == s {
        0
    } else {
        let r = find_seq(sent.drop_first(), s);
        if r == -1 {
            -1
        } else {
            r + 1
        }
    }
}

/// What `find_seq` returns: a valid index carrying `s`, or `-1` exactly when
/// none does.
pub proof fn lemma_find_seq(sent: Seq<SentRec>, s: u16)
    ensures
        -1 <= find_seq(sent, s) < sent.len(),
        find_seq(sent, s) == -1 ==> forall|i: int|
            0 <= i < sent.len() ==> (#[trigger] sent[i]).0 != s,
        find_seq(sent, s) >= 0 ==> sent[find_seq(sent, s)].0 == s,
        find_seq(sent, s) >= 0 ==> forall|i: int|
            0 <= i < find_seq(sent, s) ==> (#[trigger] sent[i]).0 != s,
    decreases sent.len(),
{
    if sent.len() == 0 {
    } else if sent[0].0 == s {
    } else {
        let d = sent.drop_first();
        lemma_find_seq(d, s);
        if find_seq(sent, s) == -1 {
            assert forall|i: int| 0 <= i < sent.len() implies (#[trigger] sent[i]).0 != s by {
                if i > 0 {
                    assert(sent[i] == d[i - 1]);
                }
            }
        } else {
            assert(sent[find_seq(sent, s)] == d[find_seq(d, s)]);
            assert forall|i: int| 0 <= i < find_seq(sent, s) implies (#[trigger] sent[i]).0
                != s by {
                if i > 0 {
                    assert(sent[i] == d[i - 1]);
                }
            }
        }
    }
}

/// The unacked entries left after acknowledging each of `ids` in turn.
pub open spec fn ack_ids_fold(
    es: Seq<crate::reliable::EntryModel>,
    ids: Seq<u64>,
) -> Seq<crate::reliable::EntryModel>
    decreases ids.len(),
{
    if ids.len() == 0 {
        es
    } else {
        ack_ids_fold(crate::reliable::spec_ack(es, ids[0]), ids.drop_first())
    }
}

/// The connection state reached by processing a list of acked sequence ids:
/// an untracked id changes nothing; a tracked one is dropped from the table,
/// blended into the RTT estimate, counted, and its reliable message ids are
/// acknowledged on the send channel.
pub open spec fn ack_seqs_fold(
    sent: Seq<SentRec>,
    rel: Seq<crate::reliable::EntryModel>,
    rtt: u64,
    now: u64,
    seqs: Seq<u16>,
) -> (Seq<SentRec>, Seq<crate::reliable::EntryModel>, u64, int)
    decreases seqs.len(),
{
    if seqs.len() == 0 {
        (sent, rel, rtt, 0)
    } else {
        let f = find_seq(sent, seqs[0]);
        if f == -1 {
            ack_seqs_fold(sent, rel, rtt, now, seqs.drop_first())
        } else {
            let rec = sent[f];
            let sample = (now - rec_sent_at(rec)) as u64;
            let rtt1 = ewma_rtt(rtt, sample);
            let rel1 = match (rec.1).1 {
                Option::None => rel,
                Option::Some((_cid, ids)) => ack_ids_fold(rel, ids),
            };
            let rest = ack_seqs_fold(sent.remove(f), rel1, rtt1, now, seqs.drop_first());
            (rest.0, rest.1, rest.2, 1 + rest.3)
        }
    }
}

/// The reliable receive channel state after buffering a list of messages in
/// order: a memory rejection stops the walk and is fatal.
pub open spec fn rc_fold(
    es: Seq<(u64, Seq<u8>)>,
    oldest: u64,
    mem: int,
    maxm: int,
    msgs: Seq<(u64, Seq<u8>)>,
) -> (Seq<(u64, Seq<u8>)>, int, bool)
    decreases msgs.len(),
{
    if msgs.len() == 0 {
        (es, mem, true)
    } else {
        let id = msgs[0].0;
        let m = msgs[0].1;
        let rejected = id >= oldest && !crate::reliable::has_id(es, id) && mem + m.len() > maxm;
        let is_new_msg = id >= oldest && id != u64::MAX && !crate::reliable::has_id(es, id);
        if rejected {
            (es, mem, false)
        } else {
            let es1 = if is_new_msg {
                es.insert(crate::reliable::insert_pos(es, id), (id, m))
            } else {
                es
            };
            let mem1 = if is_new_msg {
                mem + m.len()
            } else {
                mem
            };
            rc_fold(es1, oldest, mem1, maxm, msgs.drop_first())
        }
    }
}

/// The unreliable receive queue after buffering a list of messages in order:
/// a message that would exceed the memory cap is dropped.
pub open spec fn ru_fold(
    q: Seq<Seq<u8>>,
    mem: int,
    maxm: int,
    msgs: Seq<Seq<u8>>,
) -> (Seq<Seq<u8>>, int)
    decreases msgs.len(),
{
    if msgs.len() == 0 {
        (q, mem)
    } else if mem + msgs[0].len() <= maxm {
        ru_fold(q.push(msgs[0]), mem + msgs[0].len(), maxm, msgs.drop_first())
    } else {
        ru_fold(q, mem, maxm, msgs.drop_first())
    }
}

/// Whether the ascending pending window contains `v`.
pub fn vec_contains_u16(v: &Vec<u16>, x: u16) -> (r: bool)
    ensures
        r == v@.contains(x),
{
    let mut i: usize = 0;
    while i < v.len()
        invariant
            i <= v@.len(),
            forall|k: int| 0 <= k < i ==> v@[k] != x,
        decreases v@.len() - i,
    {
        if v[i] == x {
            return true;
        }
        i = i + 1;
    }
    false
}





/// What queueing one outbound message does, given the connection before
/// (`pre`) and after (`post`): on the unreliable channel an oversized or
/// over-budget message is dropped; on the reliable channel an admitted
/// message takes the next id, and a memory rejection closes the connection.
pub open spec fn spec_send(pre: UnityClient, post: UnityClient, channel_id: u8, message: Seq<u8>) -> bool {
    &&& (channel_id == 0 ==> {
        &&& post.rel_send() == pre.rel_send()
        &&& post.spec_status() == pre.spec_status()
        &&& (message.len() + 2 <= crate::constants::MAX_MESSAGES_LENGTH
            && pre.unrel_send().spec_memory_usage() + message.len()
            <= pre.unrel_send().spec_max_memory() ==> post.unrel_send().msgs()
            == pre.unrel_send().msgs().push(message))
        &&& (!(message.len() + 2 <= crate::constants::MAX_MESSAGES_LENGTH
            && pre.unrel_send().spec_memory_usage() + message.len()
            <= pre.unrel_send().spec_max_memory()) ==> post.unrel_send() == pre.unrel_send())
    })
    &&& (channel_id == 1 ==> {
        &&& post.unrel_send() == pre.unrel_send()
        &&& (pre.rel_send().spec_memory_usage() + message.len()
            <= pre.rel_send().spec_max_memory() && message.len() + 10
            <= crate::constants::MAX_MESSAGES_LENGTH && pre.rel_send().spec_next_message_id()
            != u64::MAX ==> post.rel_send().entries() == pre.rel_send().entries().push(
            (pre.rel_send().spec_next_message_id(), message, Option::<u64>::None),
        ) && post.spec_status() == pre.spec_status())
        &&& (pre.rel_send().spec_memory_usage() + message.len()
            > pre.rel_send().spec_max_memory() ==> post.rel_send() == pre.rel_send()
            && post.spec_status() == (ClientConnectionStatus::Disconnected {
            reason: DisconnectReason::SendChannelError {
                channel_id: 1u8,
                error: ChannelError::ReliableChannelMaxMemoryReached,
            },
        }))
    })
    &&& post.rel_recv() == pre.rel_recv()
    &&& post.unrel_recv() == pre.unrel_recv()
    &&& post.spec_sent_packets() == pre.spec_sent_packets()
    &&& post.spec_pending_acks() == pre.spec_pending_acks()
    &&& post.spec_new_ack_to_send() == pre.spec_new_ack_to_send()
    &&& post.spec_current_time() == pre.spec_current_time()
    &&& post.spec_rtt() == pre.spec_rtt()
    &&& post.spec_player_id() == pre.spec_player_id()
    &&& post.spec_stats() == pre.spec_stats()
    &&& post.spec_bytes_per_tick() == pre.spec_bytes_per_tick()
}


/// What one clock tick does, given the connection before (`pre`) and after
/// (`post`): the clock advances (saturating), the statistics window
/// rotates, and tracked sent packets older than the loss threshold are
/// dropped from the front of the table.
pub open spec fn spec_update(pre: UnityClient, post: UnityClient, duration_ms: u64) -> bool {
    &&& post.spec_current_time() == sat_add(pre.spec_current_time(), duration_ms)
    &&& post.spec_stats() == pre.spec_stats().spec_after_update(
        sat_add(pre.spec_current_time(), duration_ms),
    )
    &&& post.spec_sent_packets() == reap_sent(
        pre.spec_sent_packets(),
        sat_add(pre.spec_current_time(), duration_ms),
    )
    &&& post.spec_pending_acks() == pre.spec_pending_acks()
    &&& post.spec_new_ack_to_send() == pre.spec_new_ack_to_send()
    &&& post.rel_send() == pre.rel_send()
    &&& post.rel_recv() == pre.rel_recv()
    &&& post.unrel_send() == pre.unrel_send()
    &&& post.unrel_recv() == pre.unrel_recv()
    &&& post.spec_status() == pre.spec_status()
    &&& post.spec_rtt() == pre.spec_rtt()
    &&& post.spec_player_id() == pre.spec_player_id()
    &&& post.spec_bytes_per_tick() == pre.spec_bytes_per_tick()
}

/// What processing one inbound datagram does, given the connection before
/// (`pre`) and after (`post`): the received bytes are accounted; an
/// undecodable datagram is fatal; a reliable batch records its sequence id
/// for acknowledgement and folds its messages into the receive channel,
/// fatally on a memory rejection; an unreliable batch folds into its queue;
/// an acknowledgement folds over the decoded ids, dropping acked packets
/// from the sent table, blending their round trips into the RTT estimate
/// and acknowledging the reliable message ids they carried.
pub open spec fn spec_process(pre: UnityClient, post: UnityClient, packet: Seq<u8>) -> bool {
    &&& post.spec_current_time() == pre.spec_current_time()
    &&& post.spec_bytes_per_tick() == pre.spec_bytes_per_tick()
    &&& post.spec_player_id() == pre.spec_player_id()
    &&& post.spec_stats().spec_cur_bytes_received() == sat_add(
        pre.spec_stats().spec_cur_bytes_received(),
        packet.len() as u64,
    )
    &&& post.spec_stats().spec_cur_bytes_sent() == pre.spec_stats().spec_cur_bytes_sent()
    &&& post.spec_stats().spec_cur_packets_sent() == pre.spec_stats().spec_cur_packets_sent()
    &&& post.unrel_send() == pre.unrel_send()
    &&& (spec_decode(packet) matches Err(e) ==> {
        &&& post.spec_status() == (ClientConnectionStatus::Disconnected {
            reason: DisconnectReason::PacketDeserialization(e),
        })
        &&& post.rel_send() == pre.rel_send()
        &&& post.rel_recv() == pre.rel_recv()
        &&& post.unrel_recv() == pre.unrel_recv()
        &&& post.spec_sent_packets() == pre.spec_sent_packets()
        &&& post.spec_pending_acks() == pre.spec_pending_acks()
        &&& post.spec_rtt() == pre.spec_rtt()
    })
    &&& (spec_decode(packet) matches Ok(
        SpecPacket::SmallReliable { channel_id, sequence_id, messages, .. },
    ) ==> {
        &&& post.spec_pending_acks() == spec_add_pending(pre.spec_pending_acks(), sequence_id)
        &&& (post.spec_pending_acks() != pre.spec_pending_acks() ==> post.spec_new_ack_to_send()
            && post.spec_ack_process_start() == pre.spec_current_time())
        &&& (post.spec_pending_acks() == pre.spec_pending_acks() ==> post.spec_new_ack_to_send()
            == pre.spec_new_ack_to_send() && post.spec_ack_process_start()
            == pre.spec_ack_process_start())
        &&& post.rel_recv().entries() == rc_fold(
            pre.rel_recv().entries(),
            pre.rel_recv().spec_oldest_pending(),
            pre.rel_recv().spec_memory_usage(),
            pre.rel_recv().spec_max_memory(),
            messages,
        ).0
        &&& post.rel_recv().spec_memory_usage() == rc_fold(
            pre.rel_recv().entries(),
            pre.rel_recv().spec_oldest_pending(),
            pre.rel_recv().spec_memory_usage(),
            pre.rel_recv().spec_max_memory(),
            messages,
        ).1
        &&& post.rel_recv().spec_oldest_pending() == pre.rel_recv().spec_oldest_pending()
        &&& (rc_fold(
            pre.rel_recv().entries(),
            pre.rel_recv().spec_oldest_pending(),
            pre.rel_recv().spec_memory_usage(),
            pre.rel_recv().spec_max_memory(),
            messages,
        ).2 ==> post.spec_status() == pre.spec_status())
        &&& (!rc_fold(
            pre.rel_recv().entries(),
            pre.rel_recv().spec_oldest_pending(),
            pre.rel_recv().spec_memory_usage(),
            pre.rel_recv().spec_max_memory(),
            messages,
        ).2 ==> post.spec_status() == (ClientConnectionStatus::Disconnected {
            reason: DisconnectReason::ReceiveChannelError {
                channel_id,
                error: ChannelError::ReliableChannelMaxMemoryReached,
            },
        }))
        &&& post.rel_send() == pre.rel_send()
        &&& post.unrel_recv() == pre.unrel_recv()
        &&& post.spec_sent_packets() == pre.spec_sent_packets()
        &&& post.spec_rtt() == pre.spec_rtt()
    })
    &&& (spec_decode(packet) matches Ok(SpecPacket::SmallUnreliable { messages, .. }) ==> {
        &&& post.unrel_recv().msgs() == ru_fold(
            pre.unrel_recv().msgs(),
            pre.unrel_recv().spec_memory_usage(),
            pre.unrel_recv().spec_max_memory(),
            messages,
        ).0
        &&& post.spec_status() == pre.spec_status()
        &&& post.rel_send() == pre.rel_send()
        &&& post.rel_recv() == pre.rel_recv()
        &&& post.spec_sent_packets() == pre.spec_sent_packets()
        &&& post.spec_pending_acks() == pre.spec_pending_acks()
        &&& post.spec_new_ack_to_send() == pre.spec_new_ack_to_send()
        &&& post.spec_rtt() == pre.spec_rtt()
    })
    &&& (spec_decode(packet) matches Ok(SpecPacket::Ack { acked_seq_id, acked_mask, .. }) ==> {
        &&& post.spec_sent_packets() == ack_seqs_fold(
            pre.spec_sent_packets(),
            pre.rel_send().entries(),
            pre.spec_rtt(),
            pre.spec_current_time(),
            decoded_ids(acked_seq_id, acked_mask),
        ).0
        &&& post.rel_send().entries() == ack_seqs_fold(
            pre.spec_sent_packets(),
            pre.rel_send().entries(),
            pre.spec_rtt(),
            pre.spec_current_time(),
            decoded_ids(acked_seq_id, acked_mask),
        ).1
        &&& post.spec_rtt() == ack_seqs_fold(
            pre.spec_sent_packets(),
            pre.rel_send().entries(),
            pre.spec_rtt(),
            pre.spec_current_time(),
            decoded_ids(acked_seq_id, acked_mask),
        ).2
        &&& post.spec_status() == pre.spec_status()
        &&& post.rel_recv() == pre.rel_recv()
        &&& post.unrel_recv() == pre.unrel_recv()
        &&& post.spec_pending_acks() == pre.spec_pending_acks()
        &&& post.spec_new_ack_to_send() == pre.spec_new_ack_to_send()
    })
}

/// What one send tick does, given the connection before (`pre`) and after
/// (`post`) and the emitted datagrams `out`: the reliable packets the budget
/// and resend gate admit go first under consecutive wrapping sequence
/// numbers, each carrying the owed acknowledgement pair piggybacked (or the
/// no-ack sentinel); then the unreliable packets the remaining budget
/// admits; then a standalone acknowledgement frame exactly when one is owed
/// and no reliable packet carried it. Emitted reliable packets are recorded
/// in the sent table; the owed flag clears once the acknowledgement went
/// out; every datagram fits the 1400-byte limit.
pub open spec fn spec_tick(pre: UnityClient, post: UnityClient, out: Seq<Vec<u8>>) -> bool {
    &&& out.len() == pre.tick_rel_packs().len() + pre.tick_unrel_packs().len() + (
    if pre.tick_standalone_ack() {
        1int
    } else {
        0int
    })
    &&& (forall|i: int|
        0 <= i < pre.tick_rel_packs().len() ==> (#[trigger] out[i])@ == spec_encode(
            SpecPacket::SmallReliable {
                channel_id: 1u8,
                packet_type: 0u16,
                packet_process_time: 0u16,
                sequence_id: crate::reliable::add_wrap16(
                    pre.rel_send().spec_next_sequence_id(),
                    i,
                ),
                acked_seq_id: crate::reliable::ack_anchor(pre.tick_ack_pair()),
                acked_mask: crate::reliable::ack_bits(pre.tick_ack_pair()),
                messages: pre.tick_rel_packs()[i],
            },
        ))
    &&& (forall|i: int|
        0 <= i < pre.tick_unrel_packs().len() ==> (#[trigger] out[pre.tick_rel_packs().len()
            + i])@ == spec_encode(
            SpecPacket::SmallUnreliable {
                channel_id: 0u8,
                messages: pre.tick_unrel_packs()[i],
            },
        ))
    &&& (pre.tick_standalone_ack() ==> out[out.len() - 1]@ == spec_encode(
        SpecPacket::Ack {
            channel_id: 1u8,
            packet_type: 1u16,
            packet_process_time: pre.tick_ack_ppt(),
            sequence_id: 0u16,
            acked_seq_id: pre.spec_pending_acks().last(),
            acked_mask: spec_ack_mask(pre.spec_pending_acks(), pre.spec_pending_acks().last()),
            end_posfix: 0u8,
        },
    ))
    &&& (forall|i: int|
        0 <= i < out.len() ==> (#[trigger] out[i])@.len()
            <= crate::constants::TRANSPORT_MAX_PACKET_BYTES)
    &&& post.rel_send().entries() == crate::reliable::scan_entries(
        pre.rel_send().entries(),
        pre.spec_bytes_per_tick() as int,
        pre.spec_current_time(),
        pre.rel_send().spec_resend_time(),
    )
    &&& post.rel_send().spec_next_sequence_id() == crate::reliable::add_wrap16(
        pre.rel_send().spec_next_sequence_id(),
        pre.tick_rel_packs().len() as int,
    )
    &&& post.rel_send().spec_memory_usage() == pre.rel_send().spec_memory_usage()
    &&& post.unrel_send().msgs().len() == 0
    &&& post.spec_sent_packets() == pre.spec_sent_packets() + Seq::new(
        pre.tick_rel_packs().len(),
        |i: int|
            (
                crate::reliable::add_wrap16(pre.rel_send().spec_next_sequence_id(), i),
                (pre.spec_current_time(), Option::Some((1u8, msg_ids(pre.tick_rel_packs()[i])))),
            ),
    )
    &&& post.spec_new_ack_to_send() == (pre.spec_new_ack_to_send() && !pre.tick_has_ack())
    &&& post.spec_pending_acks() == pre.spec_pending_acks()
    &&& post.rel_recv() == pre.rel_recv()
    &&& post.unrel_recv() == pre.unrel_recv()
    &&& post.spec_rtt() == pre.spec_rtt()
    &&& post.spec_status() == pre.spec_status()
    &&& post.spec_current_time() == pre.spec_current_time()
    &&& post.spec_player_id() == pre.spec_player_id()
    &&& post.spec_stats().spec_cur_packets_sent() == sat_add(
        pre.spec_stats().spec_cur_packets_sent(),
        out.len() as u64,
    )
    &&& post.spec_stats().spec_cur_bytes_sent() == sat_add(
        pre.spec_stats().spec_cur_bytes_sent(),
        sat_len_sum(crate::packet::unrel_view(out)),
    )
}

/// The message ids of an aggregated reliable message list.
pub open spec fn msg_ids(ms: Seq<(u64, Seq<u8>)>) -> Seq<u64> {
    Seq::new(ms.len(), |i: int| ms[i].0)
}

/// Byte total of a list of datagrams, saturating at the largest `u64`.
pub open spec fn sat_len_sum(ms: Seq<Seq<u8>>) -> u64
    decreases ms.len(),
{
    if ms.len() == 0 {
        0u64
    } else {
        sat_add(sat_len_sum(ms.drop_last()), ms.last().len() as u64)
    }
}

// The connection object: channels, tracking tables, and status.

/// A per-client connection. Channel 0 is unreliable, channel 1 is
/// reliable-ordered; the reliable channel has send priority.
#[derive(Debug)]
pub struct UnityClient {
    current_time_ms: u64,
    sent_packets: Vec<(u16, PacketSent)>,
    pending_acks: Vec<u16>,
    new_ack_to_send: bool,
    ack_process_start_ms: u64,
    send_unreliable_channel: SendChannelUnreliable,
    receive_unreliable_channel: ReceiveChannelUnreliable,
    send_reliable_channel: SendChannelReliable,
    receive_reliable_channel: ReceiveChannelReliable,
    stats: ConnectionStats,
    available_bytes_per_tick: u64,
    connection_status: ClientConnectionStatus,
    rtt_ms: u64,
    player_id: Vec<u8>,
}

impl UnityClient {
    /// The connection's clock in milliseconds.
    pub closed spec fn spec_current_time(&self) -> u64 {
        self.current_time_ms
    }

    /// The tracked sent packets, in emission order.
    pub closed spec fn spec_sent_packets(&self) -> Seq<SentRec> {
        sent_view(self.sent_packets@)
    }

    /// The pending peer sequence ids awaiting acknowledgement, ascending.
    pub closed spec fn spec_pending_acks(&self) -> Seq<u16> {
        self.pending_acks@
    }

    /// Whether an acknowledgement is owed to the peer.
    pub closed spec fn spec_new_ack_to_send(&self) -> bool {
        self.new_ack_to_send
    }

    /// When the pending acknowledgement batch started.
    pub closed spec fn spec_ack_process_start(&self) -> u64 {
        self.ack_process_start_ms
    }

    /// The reliable send channel.
    pub closed spec fn rel_send(&self) -> SendChannelReliable {
        self.send_reliable_channel
    }

    /// The reliable receive channel.
    pub closed spec fn rel_recv(&self) -> ReceiveChannelReliable {
        self.receive_reliable_channel
    }

    /// The unreliable send channel.
    pub closed spec fn unrel_send(&self) -> SendChannelUnreliable {
        self.send_unreliable_channel
    }

    /// The unreliable receive channel.
    pub closed spec fn unrel_recv(&self) -> ReceiveChannelUnreliable {
        self.receive_unreliable_channel
    }

    /// The statistics counters.
    pub closed spec fn spec_stats(&self) -> ConnectionStats {
        self.stats
    }

    /// The per-tick byte budget.
    pub closed spec fn spec_bytes_per_tick(&self) -> u64 {
        self.available_bytes_per_tick
    }

    /// The connection status.
    pub closed spec fn spec_status(&self) -> ClientConnectionStatus {
        self.connection_status
    }

    /// The smoothed round-trip time in milliseconds.
    pub closed spec fn spec_rtt(&self) -> u64 {
        self.rtt_ms
    }

    /// The peer's player id bytes.
    pub closed spec fn spec_player_id(&self) -> Seq<u8> {
        self.player_id@
    }

    /// The channels' own invariants hold; pending acks are ascending and at
    /// most the window capacity; tracked sent packets are in time order, none
    /// from the future; the ack batch start does not lie in the future.
    pub closed spec fn inv(&self) -> bool {
        &&& self.send_reliable_channel.inv()
        &&& self.receive_reliable_channel.inv()
        &&& self.send_unreliable_channel.inv()
        &&& self.receive_unreliable_channel.inv()
        &&& self.pending_acks@.len() <= PENDING_ACKS_CAPACITY
        &&& forall|i: int, j: int|
            0 <= i < j < self.pending_acks@.len() ==> (#[trigger] self.pending_acks@[i]) < (
            #[trigger] self.pending_acks@[j])
        &&& forall|i: int, j: int|
            0 <= i < j < self.spec_sent_packets().len() ==> rec_sent_at(
                #[trigger] self.spec_sent_packets()[i],
            ) <= rec_sent_at(#[trigger] self.spec_sent_packets()[j])
        &&& forall|i: int|
            0 <= i < self.spec_sent_packets().len() ==> rec_sent_at(
                #[trigger] self.spec_sent_packets()[i],
            ) <= self.current_time_ms
        &&& self.ack_process_start_ms <= self.current_time_ms
    }

    /// A fresh connection in `Connecting` state with the two default
    /// channels per direction.
    pub fn new(config: ConnectionConfig) -> (r: Self)
        requires
            config.server_channels_config@.len() >= 2,
            config.client_channels_config@.len() >= 2,
            config.server_channels_config@[0].channel_id == 0,
            config.server_channels_config@[0].send_type is Unreliable,
            config.server_channels_config@[1].channel_id == 1,
            config.server_channels_config@[1].send_type is ReliableOrdered,
            config.client_channels_config@[0].channel_id == 0,
            config.client_channels_config@[1].channel_id == 1,
    ensures
            r.inv(),
            r.spec_status() == ClientConnectionStatus::Connecting,
            r.spec_current_time() == 0,
            r.spec_sent_packets().len() == 0,
            r.spec_pending_acks().len() == 0,
            !r.spec_new_ack_to_send(),
            r.spec_rtt() == 0,
            r.spec_bytes_per_tick() == config.available_bytes_per_tick,
            r.rel_send().entries().len() == 0,
            r.rel_send().spec_next_sequence_id() == 0,
            r.rel_send().spec_next_message_id() == 0,
            r.rel_send().spec_max_memory()
                == config.server_channels_config@[1].max_memory_usage_bytes,
            config.server_channels_config@[1].send_type matches SendType::ReliableOrdered {
                resend_time_ms,
            } ==> r.rel_send().spec_resend_time() == resend_time_ms,
            r.rel_recv().entries().len() == 0,
            r.rel_recv().spec_oldest_pending() == 0,
            r.rel_recv().spec_max_memory()
                == config.client_channels_config@[1].max_memory_usage_bytes,
            r.unrel_send().msgs().len() == 0,
            r.unrel_send().spec_max_memory()
                == config.server_channels_config@[0].max_memory_usage_bytes,
            r.unrel_recv().msgs().len() == 0,
            r.unrel_recv().spec_max_memory()
                == config.client_channels_config@[0].max_memory_usage_bytes,
            r.spec_player_id().len() == 0,
    {
        Self::from_channels(config)
    }

    /// As `new`: a server-side connection object uses the server channel
    /// layout for sending and the client layout for receiving.
    pub fn new_from_server(config: ConnectionConfig) -> (r: Self)
        requires
            config.server_channels_config@.len() >= 2,
            config.client_channels_config@.len() >= 2,
            config.server_channels_config@[0].channel_id == 0,
            config.server_channels_config@[0].send_type is Unreliable,
            config.server_channels_config@[1].channel_id == 1,
            config.server_channels_config@[1].send_type is ReliableOrdered,
            config.client_channels_config@[0].channel_id == 0,
            config.client_channels_config@[1].channel_id == 1,
        ensures
            r.inv(),
            r.spec_status() == ClientConnectionStatus::Connecting,
            r.spec_current_time() == 0,
            r.spec_rtt() == 0,
            r.spec_sent_packets().len() == 0,
            r.spec_pending_acks().len() == 0,
            !r.spec_new_ack_to_send(),
            r.spec_bytes_per_tick() == config.available_bytes_per_tick,
            r.rel_send().entries().len() == 0,
            r.rel_recv().entries().len() == 0,
            r.unrel_send().msgs().len() == 0,
            r.unrel_recv().msgs().len() == 0,
            r.rel_send().spec_max_memory()
                == config.server_channels_config@[1].max_memory_usage_bytes,
            r.rel_recv().spec_max_memory()
                == config.client_channels_config@[1].max_memory_usage_bytes,
    {
        Self::from_channels(config)
    }

    /// Builds the four channels from the configuration.
    fn from_channels(config: ConnectionConfig) -> (r: Self)
        requires
            config.server_channels_config@.len() >= 2,
            config.client_channels_config@.len() >= 2,
            config.server_channels_config@[0].channel_id == 0,
            config.server_channels_config@[0].send_type is Unreliable,
            config.server_channels_config@[1].channel_id == 1,
            config.server_channels_config@[1].send_type is ReliableOrdered,
            config.client_channels_config@[0].channel_id == 0,
            config.client_channels_config@[1].channel_id == 1,
        ensures
            r.inv(),
            r.spec_status() == ClientConnectionStatus::Connecting,
            r.spec_current_time() == 0,
            r.spec_rtt() == 0,
            r.spec_sent_packets().len() == 0,
            r.spec_pending_acks().len() == 0,
            !r.spec_new_ack_to_send(),
            r.spec_bytes_per_tick() == config.available_bytes_per_tick,
            r.rel_send().entries().len() == 0,
            r.rel_send().spec_next_sequence_id() == 0,
            r.rel_send().spec_next_message_id() == 0,
            r.rel_send().spec_max_memory()
                == config.server_channels_config@[1].max_memory_usage_bytes,
            config.server_channels_config@[1].send_type matches SendType::ReliableOrdered {
                resend_time_ms,
            } ==> r.rel_send().spec_resend_time() == resend_time_ms,
            r.rel_recv().entries().len() == 0,
            r.rel_recv().spec_oldest_pending() == 0,
            r.rel_recv().spec_max_memory()
                == config.client_channels_config@[1].max_memory_usage_bytes,
            r.unrel_send().msgs().len() == 0,
            r.unrel_send().spec_max_memory()
                == config.server_channels_config@[0].max_memory_usage_bytes,
            r.unrel_recv().msgs().len() == 0,
            r.unrel_recv().spec_max_memory()
                == config.client_channels_config@[0].max_memory_usage_bytes,
            r.spec_player_id().len() == 0,
    {
        let send_unreliable_channel = SendChannelUnreliable::new(
            config.server_channels_config[0].channel_id,
            config.server_channels_config[0].max_memory_usage_bytes,
        );
        let resend_time_ms = match &config.server_channels_config[1].send_type {
            SendType::ReliableOrdered { resend_time_ms } => *resend_time_ms,
            SendType::Unreliable => 0,
        };
        let send_reliable_channel = SendChannelReliable::new(
            config.server_channels_config[1].channel_id,
            resend_time_ms,
            config.server_channels_config[1].max_memory_usage_bytes,
        );
        let receive_unreliable_channel = ReceiveChannelUnreliable::new(
            config.client_channels_config[0].channel_id,
            config.client_channels_config[0].max_memory_usage_bytes,
        );
        let receive_reliable_channel = ReceiveChannelReliable::new(
            config.client_channels_config[1].max_memory_usage_bytes,
            Some(true),
        );
        let r = Self {
            current_time_ms: 0,
            sent_packets: Vec::new(),
            pending_acks: Vec::new(),
            new_ack_to_send: false,
            ack_process_start_ms: 0,
            send_unreliable_channel,
            receive_unreliable_channel,
            send_reliable_channel,
            receive_reliable_channel,
            stats: ConnectionStats::new(),
            available_bytes_per_tick: config.available_bytes_per_tick,
            connection_status: ClientConnectionStatus::Connecting,
            rtt_ms: 0,
            player_id: Vec::new(),
        };
        proof {
            assert(r.spec_sent_packets() =~= Seq::<SentRec>::empty());
        }
        r
    }

    /// The smoothed round-trip time in milliseconds.
    pub fn rtt(&self) -> (r: u64)
        ensures
            r == self.spec_rtt(),
    {
        self.rtt_ms
    }

    /// Packets lost per thousand sent, over the previous second.
    pub fn packet_loss(&self) -> (r: u64)
        ensures
            self.spec_stats().spec_prev_packets_sent() == 0
                || self.spec_stats().spec_prev_packets_acked()
                >= self.spec_stats().spec_prev_packets_sent() ==> r == 0,
            self.spec_stats().spec_prev_packets_sent() > 0
                && self.spec_stats().spec_prev_packets_acked()
                < self.spec_stats().spec_prev_packets_sent() ==> r == ((
            self.spec_stats().spec_prev_packets_sent()
                - self.spec_stats().spec_prev_packets_acked()) * 1000) / (
            self.spec_stats().spec_prev_packets_sent() as int),
    {
        self.stats.packet_loss_permille()
    }

    /// Bytes sent over the previous second.
    pub fn bytes_sent_per_sec(&self) -> (r: u64)
        ensures
            r == self.spec_stats().spec_prev_bytes_sent(),
    {
        self.stats.bytes_sent_per_second()
    }

    /// Bytes received over the previous second.
    pub fn bytes_received_per_sec(&self) -> (r: u64)
        ensures
            r == self.spec_stats().spec_prev_bytes_received(),
    {
        self.stats.bytes_received_per_second()
    }

    /// All the connection's statistics in one snapshot.
    pub fn network_info(&self) -> (r: NetworkInfo)
        ensures
            r.rtt_ms == self.spec_rtt(),
            r.bytes_sent_per_second == self.spec_stats().spec_prev_bytes_sent(),
            r.bytes_received_per_second == self.spec_stats().spec_prev_bytes_received(),
    {
        NetworkInfo {
            rtt_ms: self.rtt_ms,
            packet_loss_permille: self.stats.packet_loss_permille(),
            bytes_sent_per_second: self.stats.bytes_sent_per_second(),
            bytes_received_per_second: self.stats.bytes_received_per_second(),
        }
    }

    /// Whether the connection is established.
    pub fn is_connected(&self) -> (r: bool)
        ensures
            r == (self.spec_status() is Connected),
    {
        matches!(self.connection_status, ClientConnectionStatus::Connected)
    }

    /// Whether the connection is still being set up.
    pub fn is_connecting(&self) -> (r: bool)
        ensures
            r == (self.spec_status() is Connecting),
    {
        matches!(self.connection_status, ClientConnectionStatus::Connecting)
    }

    /// Whether the connection is terminally closed.
    pub fn is_disconnected(&self) -> (r: bool)
        ensures
            r == (self.spec_status() is Disconnected),
    {
        matches!(self.connection_status, ClientConnectionStatus::Disconnected { .. })
    }

    /// The reason the connection closed, if it did.
    pub fn disconnect_reason(&self) -> (r: Option<DisconnectReason>)
        ensures
            self.spec_status() matches ClientConnectionStatus::Disconnected { reason } ==> r
                == Some(reason),
            !(self.spec_status() is Disconnected) ==> r is None,
    {
        if let ClientConnectionStatus::Disconnected { reason } = self.connection_status {
            Some(reason)
        } else {
            None
        }
    }

    /// Marks the connection established under the given player identity.
    /// A disconnected connection stays disconnected: it is discarded, never
    /// reused.
    pub fn set_connected(&mut self, player_id: Vec<u8>)
        requires
            old(self).inv(),
        ensures
            final(self).inv(),
            old(self).spec_status() is Disconnected ==> *final(self) == *old(self),
            !(old(self).spec_status() is Disconnected) ==> final(self).spec_status()
                == ClientConnectionStatus::Connected && final(self).spec_player_id() == player_id@
                && final(self).same_but_status_player(*old(self)),
    {
        if !self.is_disconnected() {
            self.connection_status = ClientConnectionStatus::Connected;
            self.player_id = player_id;
        }
        proof {
            assert(self.sent_packets@ == old(self).sent_packets@);
            assert(self.spec_sent_packets() == old(self).spec_sent_packets());
            assert(self.current_time_ms == old(self).current_time_ms);
            assert(self.inv());
        }
    }

    /// Everything but the status and player identity is unchanged.
    pub closed spec fn same_but_status_player(&self, other: Self) -> bool {
        &&& self.current_time_ms == other.current_time_ms
        &&& self.sent_packets@ == other.sent_packets@
        &&& self.pending_acks@ == other.pending_acks@
        &&& self.new_ack_to_send == other.new_ack_to_send
        &&& self.ack_process_start_ms == other.ack_process_start_ms
        &&& self.send_unreliable_channel == other.send_unreliable_channel
        &&& self.receive_unreliable_channel == other.receive_unreliable_channel
        &&& self.send_reliable_channel == other.send_reliable_channel
        &&& self.receive_reliable_channel == other.receive_reliable_channel
        &&& self.stats == other.stats
        &&& self.available_bytes_per_tick == other.available_bytes_per_tick
        &&& self.rtt_ms == other.rtt_ms
    }

    /// The peer's player id bytes.
    pub fn player_id(&self) -> (r: Vec<u8>)
        ensures
            r@ == self.spec_player_id(),
    {
        self.player_id.clone()
    }

    /// Marks the connection as being set up. A disconnected connection stays
    /// disconnected.
    pub fn set_connecting(&mut self)
        requires
            old(self).inv(),
        ensures
            final(self).inv(),
            old(self).spec_status() is Disconnected ==> *final(self) == *old(self),
            !(old(self).spec_status() is Disconnected) ==> final(self).spec_status()
                == ClientConnectionStatus::Connecting && final(self).spec_player_id() == old(self).spec_player_id() && final(self).same_but_status_player(*old(self)),
    {
        if !self.is_disconnected() {
            self.connection_status = ClientConnectionStatus::Connecting;
        }
        proof {
            assert(self.sent_packets@ == old(self).sent_packets@);
            assert(self.spec_sent_packets() == old(self).spec_sent_packets());
        }
    }

    /// Closes the connection at the peer's request. Closing twice keeps the
    /// first reason.
    pub fn disconnect(&mut self)
        requires
            old(self).inv(),
        ensures
            final(self).inv(),
            old(self).spec_status() is Disconnected ==> *final(self) == *old(self),
            !(old(self).spec_status() is Disconnected) ==> final(self).spec_status() == (
            ClientConnectionStatus::Disconnected {
                reason: DisconnectReason::DisconnectedByClient,
            }) && final(self).spec_player_id() == old(self).spec_player_id() && final(self).same_but_status_player(*old(self)),
    {
        self.disconnect_with_reason(DisconnectReason::DisconnectedByClient);
    }

    /// Closes the connection because the transport layer failed.
    pub fn disconnect_due_to_transport(&mut self)
        requires
            old(self).inv(),
        ensures
            final(self).inv(),
            old(self).spec_status() is Disconnected ==> *final(self) == *old(self),
            !(old(self).spec_status() is Disconnected) ==> final(self).spec_status() == (
            ClientConnectionStatus::Disconnected { reason: DisconnectReason::Transport })
                && final(self).spec_player_id() == old(self).spec_player_id() && final(self).same_but_status_player(*old(self)),
    {
        self.disconnect_with_reason(DisconnectReason::Transport);
    }

    /// Closes the connection with the given reason; the first reason sticks.
    pub fn disconnect_with_reason(&mut self, reason: DisconnectReason)
        requires
            old(self).inv(),
        ensures
            final(self).inv(),
            old(self).spec_status() is Disconnected ==> *final(self) == *old(self),
            !(old(self).spec_status() is Disconnected) ==> final(self).spec_status() == (
            ClientConnectionStatus::Disconnected { reason }) && final(self).spec_player_id()
                == old(self).spec_player_id() && final(self).same_but_status_player(*old(self)),
    {
        if !self.is_disconnected() {
            self.connection_status = ClientConnectionStatus::Disconnected { reason };
        }
        proof {
            assert(self.sent_packets@ == old(self).sent_packets@);
            assert(self.spec_sent_packets() == old(self).spec_sent_packets());
        }
    }

    /// Memory still available on the send channel with the given id.
    pub fn channel_available_memory(&self, channel_id: u8) -> (r: usize)
        requires
            self.inv(),
            channel_id == 0 || channel_id == 1,
        ensures
            channel_id == 0 ==> r == self.unrel_send().spec_max_memory()
                - self.unrel_send().spec_memory_usage(),
            channel_id == 1 ==> r == self.rel_send().spec_max_memory()
                - self.rel_send().spec_memory_usage(),
    {
        if channel_id == 0 {
            self.send_unreliable_channel.available_memory()
        } else {
            self.send_reliable_channel.available_memory()
        }
    }

    /// Whether the send channel with the given id would admit a message of
    /// `size_bytes` under its memory cap.
    pub fn can_send_message(&self, channel_id: u8, size_bytes: usize) -> (r: bool)
        requires
            self.inv(),
            channel_id == 0 || channel_id == 1,
        ensures
            channel_id == 0 ==> r == (size_bytes + self.unrel_send().spec_memory_usage()
                <= self.unrel_send().spec_max_memory()),
            channel_id == 1 ==> r == (size_bytes + self.rel_send().spec_memory_usage()
                <= self.rel_send().spec_max_memory()),
    {
        if channel_id == 0 {
            self.send_unreliable_channel.can_send_message(size_bytes)
        } else {
            self.send_reliable_channel.can_send_message(size_bytes)
        }
    }

    /// Queues a message on a send channel. On the unreliable channel an
    /// oversized or over-budget message is dropped; on the reliable channel a
    /// rejection closes the connection with `SendChannelError`. A
    /// disconnected connection ignores the message.
    pub fn send_message(&mut self, channel_id: u8, message: Vec<u8>)
        requires
            old(self).inv(),
            channel_id == 0 || channel_id == 1,
        ensures
            final(self).inv(),
            old(self).spec_status() is Disconnected ==> *final(self) == *old(self),
            !(old(self).spec_status() is Disconnected) ==> spec_send(
                *old(self),
                *final(self),
                channel_id,
                message@,
            ),
    {
        if self.is_disconnected() {
            return ;
        }
        if channel_id == 0 {
            self.send_unreliable_channel.send_message(message);
        } else {
            match self.send_reliable_channel.send_message(message) {
                Ok(_) => {},
                Err(error) => {
                    self.disconnect_with_reason(
                        DisconnectReason::SendChannelError { channel_id, error },
                    );
                },
            }
        }
        proof {
            assert(self.sent_packets@ == old(self).sent_packets@);
            assert(self.spec_sent_packets() == old(self).spec_sent_packets());
        }
    }

    /// Takes the next deliverable message from a receive channel: the oldest
    /// buffered unreliable message, or the reliable message at the delivery
    /// cursor. A disconnected connection delivers nothing.
    pub fn receive_message(&mut self, channel_id: u8) -> (r: Option<Vec<u8>>)
        requires
            old(self).inv(),
            channel_id == 0 || channel_id == 1,
        ensures
            final(self).inv(),
            old(self).spec_status() is Disconnected ==> r is None && *final(self) == *old(self),
            !(old(self).spec_status() is Disconnected) ==> final(self).spec_status() == old(self).spec_status()
                && final(self).spec_player_id() == old(self).spec_player_id(),
            !(old(self).spec_status() is Disconnected) && channel_id == 0 ==> {
                &&& final(self).rel_recv() == old(self).rel_recv()
                &&& (old(self).unrel_recv().msgs().len() > 0 ==> (r matches Some(m) && m@ == old(self).unrel_recv().msgs()[0] && final(self).unrel_recv().msgs() == old(self).unrel_recv().msgs().drop_first()))
                &&& (old(self).unrel_recv().msgs().len() == 0 ==> r is None)
            },
            !(old(self).spec_status() is Disconnected) && channel_id == 1 ==> {
                &&& final(self).unrel_recv() == old(self).unrel_recv()
                &&& (old(self).rel_recv().entries().len() > 0 && old(self).rel_recv().entries()[0].0 == old(self).rel_recv().spec_oldest_pending() ==> (
                r matches Some(m) && m@ == old(self).rel_recv().entries()[0].1 && final(self).rel_recv().entries() == old(self).rel_recv().entries().drop_first() && final(self).rel_recv().spec_oldest_pending() == old(self).rel_recv().spec_oldest_pending()
                    + 1))
                &&& (!(old(self).rel_recv().entries().len() > 0 && old(self).rel_recv().entries()[0].0 == old(self).rel_recv().spec_oldest_pending()) ==> r
                    is None && final(self).rel_recv() == old(self).rel_recv())
            },
    {
        if self.is_disconnected() {
            return None;
        }
        let r = if channel_id == 0 {
            self.receive_unreliable_channel.receive_message()
        } else {
            self.receive_reliable_channel.receive_message()
        };
        proof {
            assert(self.sent_packets@ == old(self).sent_packets@);
            assert(self.spec_sent_packets() == old(self).spec_sent_packets());
        }
        r
    }


    /// Processes one datagram from the peer: a reliable batch records the
    /// sequence id for acknowledgement and buffers each message in order (a
    /// memory rejection is fatal); an unreliable batch buffers what fits; an
    /// acknowledgement drops the acked packets from the sent table, blends
    /// their round trips into the RTT estimate, and acknowledges the reliable
    /// message ids they carried. An undecodable datagram is fatal; a
    /// disconnected connection ignores everything.
    #[verifier::loop_isolation(false)]
    #[verifier::rlimit(100)]
    pub fn process_packet(&mut self, packet: &[u8])
        requires
            old(self).inv(),
        ensures
            final(self).inv(),
            old(self).spec_status() is Disconnected ==> *final(self) == *old(self),
            !(old(self).spec_status() is Disconnected) ==> spec_process(
                *old(self),
                *final(self),
                packet@,
            ),
    {
        if self.is_disconnected() {
            return ;
        }
        self.stats.received_packet(packet.len() as u64);
        proof {
            assert(self.sent_packets@ == old(self).sent_packets@);
            assert(self.spec_sent_packets() == old(self).spec_sent_packets());
        }
        let p = match Packet::from_bytes(packet) {
            Err(err) => {
                self.disconnect_with_reason(DisconnectReason::PacketDeserialization(err));
                return ;
            },
            Ok(p) => p,
        };
        let ghost pv = p@;
        match p {
            Packet::SmallReliable { channel_id, sequence_id, messages, .. } => {
                proof {
                    assert(pv matches SpecPacket::SmallReliable {
                        channel_id: c2,
                        sequence_id: s2,
                        messages: m2,
                        ..
                    } && c2 == channel_id && s2 == sequence_id && m2 == crate::packet::rel_view(
                        messages@,
                    ));
                }
                self.add_pending_ack(sequence_id);
                let ghost pend1 = self.pending_acks@;
                let ghost flag1 = self.new_ack_to_send;
                let ghost start1 = self.ack_process_start_ms;
                let ghost msgs = crate::packet::rel_view(messages@);
                let ghost e0 = self.receive_reliable_channel.entries();
                let ghost m0 = self.receive_reliable_channel.spec_memory_usage();
                let ghost old0 = self.receive_reliable_channel.spec_oldest_pending();
                let ghost mx = self.receive_reliable_channel.spec_max_memory();
                let mut i: usize = 0;
                proof {
                    assert(msgs.skip(0) =~= msgs);
                }
                while i < messages.len()
                    invariant
                        i <= messages@.len(),
                        self.inv(),
                        msgs == crate::packet::rel_view(messages@),
                        rc_fold(e0, old0, m0, mx, msgs) == rc_fold(
                            self.receive_reliable_channel.entries(),
                            old0,
                            self.receive_reliable_channel.spec_memory_usage(),
                            mx,
                            msgs.skip(i as int),
                        ),
                        self.receive_reliable_channel.spec_oldest_pending() == old0,
                        self.receive_reliable_channel.spec_max_memory() == mx,
                        self.pending_acks@ == pend1,
                        self.new_ack_to_send == flag1,
                        self.ack_process_start_ms == start1,
                        pend1 == spec_add_pending(old(self).pending_acks@, sequence_id),
                        self.spec_sent_packets() == old(self).spec_sent_packets(),
                        self.stats == old(self).stats.spec_after_received(packet@.len() as u64),
                        self.send_reliable_channel == old(self).send_reliable_channel,
                        self.send_unreliable_channel == old(self).send_unreliable_channel,
                        self.receive_unreliable_channel == old(self).receive_unreliable_channel,
                        self.rtt_ms == old(self).rtt_ms,
                        self.current_time_ms == old(self).current_time_ms,
                        self.available_bytes_per_tick == old(self).available_bytes_per_tick,
                        self.player_id@ == old(self).player_id@,
                        !(self.connection_status is Disconnected),
                        self.connection_status == old(self).connection_status,
                    decreases messages@.len() - i,
                {
                    let ghost rem = msgs.skip(i as int);
                    proof {
                        assert(rem[0] == msgs[i as int]);
                        assert(rem.drop_first() =~= msgs.skip(i as int + 1));
                    }
                    let message_id = messages[i].0;
                    let message = messages[i].1.clone();
                    match self.receive_reliable_channel.process_message(message, message_id) {
                        Ok(_) => {},
                        Err(error) => {
                            proof {
                                assert(rem[0] == (message_id, messages@[i as int].1@));
                                assert(rc_fold(
                                    self.receive_reliable_channel.entries(),
                                    old0,
                                    self.receive_reliable_channel.spec_memory_usage(),
                                    mx,
                                    rem,
                                ) == (
                                    self.receive_reliable_channel.entries(),
                                    self.receive_reliable_channel.spec_memory_usage(),
                                    false,
                                ));
                            }
                            self.disconnect_with_reason(
                                DisconnectReason::ReceiveChannelError { channel_id, error },
                            );
                            return ;
                        },
                    }
                    i = i + 1;
                }
                proof {
                    assert(msgs.skip(messages@.len() as int) =~= Seq::<(u64, Seq<u8>)>::empty());
                    assert(self.spec_sent_packets() == old(self).spec_sent_packets());
                }
            },
            Packet::SmallUnreliable { messages, .. } => {
                proof {
                    assert(pv matches SpecPacket::SmallUnreliable { messages: m2, .. } && m2
                        == crate::packet::unrel_view(messages@));
                }
                let ghost msgs = crate::packet::unrel_view(messages@);
                let ghost q0 = self.receive_unreliable_channel.msgs();
                let ghost m0 = self.receive_unreliable_channel.spec_memory_usage();
                let ghost mx = self.receive_unreliable_channel.spec_max_memory();
                let mut i: usize = 0;
                proof {
                    assert(msgs.skip(0) =~= msgs);
                }
                while i < messages.len()
                    invariant
                        i <= messages@.len(),
                        self.inv(),
                        msgs == crate::packet::unrel_view(messages@),
                        ru_fold(q0, m0, mx, msgs) == ru_fold(
                            self.receive_unreliable_channel.msgs(),
                            self.receive_unreliable_channel.spec_memory_usage(),
                            mx,
                            msgs.skip(i as int),
                        ),
                        self.receive_unreliable_channel.spec_max_memory() == mx,
                        self.spec_sent_packets() == old(self).spec_sent_packets(),
                        self.send_reliable_channel == old(self).send_reliable_channel,
                        self.receive_reliable_channel == old(self).receive_reliable_channel,
                        self.send_unreliable_channel == old(self).send_unreliable_channel,
                        self.pending_acks@ == old(self).pending_acks@,
                        self.new_ack_to_send == old(self).new_ack_to_send,
                        self.ack_process_start_ms == old(self).ack_process_start_ms,
                        self.rtt_ms == old(self).rtt_ms,
                        self.current_time_ms == old(self).current_time_ms,
                        self.available_bytes_per_tick == old(self).available_bytes_per_tick,
                        self.player_id@ == old(self).player_id@,
                        self.connection_status == old(self).connection_status,
                        self.stats == old(self).stats.spec_after_received(packet@.len() as u64),
                    decreases messages@.len() - i,
                {
                    let ghost rem = msgs.skip(i as int);
                    proof {
                        assert(rem[0] == msgs[i as int]);
                        assert(rem.drop_first() =~= msgs.skip(i as int + 1));
                    }
                    let message = messages[i].clone();
                    self.receive_unreliable_channel.process_message(message);
                    i = i + 1;
                }
                proof {
                    assert(msgs.skip(messages@.len() as int) =~= Seq::<Seq<u8>>::empty());
                    assert(self.spec_sent_packets() == old(self).spec_sent_packets());
                }
            },
            Packet::Ack { acked_seq_id, acked_mask, .. } => {
                proof {
                    assert(pv matches SpecPacket::Ack { acked_seq_id: a2, acked_mask: m2, .. }
                        && a2 == acked_seq_id && m2 == acked_mask);
                }
                let new_acks = Self::get_acked_packet_ids(acked_seq_id, acked_mask);
                let ghost seqs = new_acks@;
                let ghost sv0 = self.spec_sent_packets();
                let ghost rl0 = self.send_reliable_channel.entries();
                let ghost rtt0 = self.rtt_ms;
                let now = self.current_time_ms;
                let ghost acked0 = self.stats.spec_cur_packets_acked();
                let ghost done: int = 0;
                let mut k: usize = 0;
                proof {
                    assert(seqs.skip(0) =~= seqs);
                }
                while k < new_acks.len()
                    invariant
                        k <= seqs.len(),
                        new_acks@ == seqs,
                        self.inv(),
                        self.current_time_ms == now,
                        ack_seqs_fold(sv0, rl0, rtt0, now, seqs).0 == ack_seqs_fold(
                            self.spec_sent_packets(),
                            self.send_reliable_channel.entries(),
                            self.rtt_ms,
                            now,
                            seqs.skip(k as int),
                        ).0,
                        ack_seqs_fold(sv0, rl0, rtt0, now, seqs).1 == ack_seqs_fold(
                            self.spec_sent_packets(),
                            self.send_reliable_channel.entries(),
                            self.rtt_ms,
                            now,
                            seqs.skip(k as int),
                        ).1,
                        ack_seqs_fold(sv0, rl0, rtt0, now, seqs).2 == ack_seqs_fold(
                            self.spec_sent_packets(),
                            self.send_reliable_channel.entries(),
                            self.rtt_ms,
                            now,
                            seqs.skip(k as int),
                        ).2,
                        self.receive_reliable_channel == old(self).receive_reliable_channel,
                        self.send_unreliable_channel == old(self).send_unreliable_channel,
                        self.receive_unreliable_channel == old(self).receive_unreliable_channel,
                        self.send_reliable_channel.spec_channel_id() == old(
                            self,
                        ).send_reliable_channel.spec_channel_id(),
                        self.send_reliable_channel.spec_max_memory() == old(
                            self,
                        ).send_reliable_channel.spec_max_memory(),
                        self.send_reliable_channel.spec_resend_time() == old(
                            self,
                        ).send_reliable_channel.spec_resend_time(),
                        self.send_reliable_channel.spec_next_sequence_id() == old(
                            self,
                        ).send_reliable_channel.spec_next_sequence_id(),
                        self.send_reliable_channel.spec_next_message_id() == old(
                            self,
                        ).send_reliable_channel.spec_next_message_id(),
                        self.pending_acks@ == old(self).pending_acks@,
                        self.new_ack_to_send == old(self).new_ack_to_send,
                        self.ack_process_start_ms == old(self).ack_process_start_ms,
                        self.available_bytes_per_tick == old(self).available_bytes_per_tick,
                        self.player_id@ == old(self).player_id@,
                        self.connection_status == old(self).connection_status,
                        self.stats.spec_window_start() == old(self).stats.spec_window_start(),
                        self.stats.spec_cur_bytes_received() == sat_add(
                            old(self).stats.spec_cur_bytes_received(),
                            packet@.len() as u64,
                        ),
                        self.stats.spec_cur_bytes_sent() == old(self).stats.spec_cur_bytes_sent(),
                        self.stats.spec_cur_packets_sent() == old(
                            self,
                        ).stats.spec_cur_packets_sent(),
                        self.stats.spec_prev_bytes_sent() == old(self).stats.spec_prev_bytes_sent(),
                        self.stats.spec_prev_bytes_received() == old(
                            self,
                        ).stats.spec_prev_bytes_received(),
                        self.stats.spec_prev_packets_sent() == old(
                            self,
                        ).stats.spec_prev_packets_sent(),
                        self.stats.spec_prev_packets_acked() == old(
                            self,
                        ).stats.spec_prev_packets_acked(),
                    decreases seqs.len() - k,
                {
                    let ghost rem = seqs.skip(k as int);
                    proof {
                        assert(rem[0] == seqs[k as int]);
                        assert(rem.drop_first() =~= seqs.skip(k as int + 1));
                    }
                    let s = new_acks[k];
                    let ghost sv = self.spec_sent_packets();
                    proof {
                        lemma_find_seq(sv, s);
                    }
                    let mut idx: usize = 0;
                    let mut found: bool = false;
                    while idx < self.sent_packets.len() && !found
                        invariant
                            idx <= sv.len(),
                            self.spec_sent_packets() == sv,
                            found ==> idx < sv.len() && sv[idx as int].0 == s && find_seq(sv, s)
                                == idx,
                            !found ==> (forall|t: int| 0 <= t < idx ==> (#[trigger] sv[t]).0 != s),
                            !found ==> (find_seq(sv, s) >= 0 ==> find_seq(sv, s) >= idx),
                        decreases sv.len() - idx, (if found { 0int } else { 1int }),
                    {
                        if self.sent_packets[idx].0 == s {
                            found = true;
                            proof {
                                assert(sv[idx as int].0 == s);
                                lemma_find_seq(sv, s);
                                let f = find_seq(sv, s);
                                if f == -1 {
                                    assert(sv[idx as int].0 != s);
                                }
                                if f > idx {
                                    assert(sv[idx as int].0 != s);
                                }
                                assert(f == idx);
                            }
                        } else {
                            proof {
                                if find_seq(sv, s) == idx {
                                    lemma_find_seq(sv, s);
                                }
                            }
                            idx = idx + 1;
                        }
                    }
                    if found {
                        let rec = self.sent_packets.remove(idx);
                        proof {
                            assert(self.spec_sent_packets() =~= sv.remove(idx as int));
                            assert(rec_sent_at(sv[idx as int]) <= now);
                            let svr = self.spec_sent_packets();
                            assert forall|a: int, b: int|
                                0 <= a < b < svr.len() implies rec_sent_at(#[trigger] svr[a])
                                <= rec_sent_at(#[trigger] svr[b]) by {
                                if b < idx {
                                } else if a >= idx {
                                    assert(svr[a] == sv[a + 1] && svr[b] == sv[b + 1]);
                                } else {
                                    assert(svr[a] == sv[a] && svr[b] == sv[b + 1]);
                                }
                            }
                            assert forall|a: int| 0 <= a < svr.len() implies rec_sent_at(
                                #[trigger] svr[a],
                            ) <= self.current_time_ms by {
                                if a >= idx {
                                    assert(svr[a] == sv[a + 1]);
                                }
                            }
                        }
                        self.stats.acked_packet();
                        let sample = now - rec.1.sent_at_ms;
                        proof {
                            assert(sample == (now - rec_sent_at(sv[idx as int])) as u64);
                        }
                        self.rtt_ms = ewma_rtt_exec(self.rtt_ms, sample);
                        match rec.1.info {
                            PacketSentInfo::Plain => {},
                            PacketSentInfo::ReliableMessages { channel_id: _, message_ids } => {
                                let ghost ids = message_ids@;
                                let ghost rb = self.send_reliable_channel.entries();
                                let ghost sv2 = self.spec_sent_packets();
                                let ghost st2 = self.stats;
                                let ghost rtt2 = self.rtt_ms;
                                let mut t: usize = 0;
                                proof {
                                    assert(ids.skip(0) =~= ids);
                                }
                                while t < message_ids.len()
                                    invariant
                                        t <= ids.len(),
                                        message_ids@ == ids,
                                        self.inv(),
                                        self.spec_sent_packets() == sv2,
                                        self.stats == st2,
                                        self.rtt_ms == rtt2,
                                        self.current_time_ms == now,
                                        self.receive_reliable_channel == old(
                                            self,
                                        ).receive_reliable_channel,
                                        self.send_unreliable_channel == old(
                                            self,
                                        ).send_unreliable_channel,
                                        self.receive_unreliable_channel == old(
                                            self,
                                        ).receive_unreliable_channel,
                                        self.pending_acks@ == old(self).pending_acks@,
                                        self.new_ack_to_send == old(self).new_ack_to_send,
                                        self.ack_process_start_ms == old(
                                            self,
                                        ).ack_process_start_ms,
                                        self.available_bytes_per_tick == old(
                                            self,
                                        ).available_bytes_per_tick,
                                        self.player_id@ == old(self).player_id@,
                                        self.connection_status == old(self).connection_status,
                                        self.send_reliable_channel.inv(),
                                        ack_ids_fold(rb, ids) == ack_ids_fold(
                                            self.send_reliable_channel.entries(),
                                            ids.skip(t as int),
                                        ),
                                        self.send_reliable_channel.spec_channel_id() == old(
                                            self,
                                        ).send_reliable_channel.spec_channel_id(),
                                        self.send_reliable_channel.spec_max_memory() == old(
                                            self,
                                        ).send_reliable_channel.spec_max_memory(),
                                        self.send_reliable_channel.spec_resend_time() == old(
                                            self,
                                        ).send_reliable_channel.spec_resend_time(),
                                        self.send_reliable_channel.spec_next_sequence_id()
                                            == old(self).send_reliable_channel.spec_next_sequence_id(),
                                        self.send_reliable_channel.spec_next_message_id() == old(
                                            self,
                                        ).send_reliable_channel.spec_next_message_id(),
                                    decreases ids.len() - t,
                                {
                                    let ghost idrem = ids.skip(t as int);
                                    proof {
                                        assert(idrem[0] == ids[t as int]);
                                        assert(idrem.drop_first() =~= ids.skip(t as int + 1));
                                    }
                                    self.send_reliable_channel.process_message_ack(
                                        message_ids[t],
                                    );
                                    t = t + 1;
                                }
                                proof {
                                    assert(ids.skip(ids.len() as int) =~= Seq::<u64>::empty());
                                }
                            },
                        }
                    } else {
                        proof {
                            if find_seq(sv, s) >= 0 {
                                lemma_find_seq(sv, s);
                            }
                            assert(find_seq(sv, s) == -1);
                        }
                    }
                    k = k + 1;
                }
                proof {
                    assert(seqs.skip(seqs.len() as int) =~= Seq::<u16>::empty());
                }
            },
        }
    }


    /// The reliable messages this tick would emit.
    pub closed spec fn tick_kept(&self) -> Seq<(u64, Seq<u8>)> {
        crate::reliable::scan_kept(
            self.send_reliable_channel.entries(),
            self.available_bytes_per_tick as int,
            self.current_time_ms,
            self.send_reliable_channel.spec_resend_time(),
        )
    }

    /// The reliable packets this tick would emit, as message lists.
    pub closed spec fn tick_rel_packs(&self) -> Seq<Seq<(u64, Seq<u8>)>> {
        crate::reliable::pack_rel_from(self.tick_kept(), Seq::empty(), 0)
    }

    /// The byte budget left for the unreliable channel this tick.
    pub closed spec fn tick_budget_after_rel(&self) -> int {
        crate::reliable::scan_budget(
            self.send_reliable_channel.entries(),
            self.available_bytes_per_tick as int,
            self.current_time_ms,
            self.send_reliable_channel.spec_resend_time(),
        )
    }

    /// The unreliable messages this tick would emit.
    pub closed spec fn tick_unrel_kept(&self) -> Seq<Seq<u8>> {
        crate::unreliable::kept_msgs(
            self.send_unreliable_channel.msgs(),
            self.tick_budget_after_rel(),
        )
    }

    /// The unreliable packets this tick would emit, as message lists.
    pub closed spec fn tick_unrel_packs(&self) -> Seq<Seq<Seq<u8>>> {
        crate::unreliable::pack_unrel_from(self.tick_unrel_kept(), Seq::empty(), 0)
    }

    /// The acknowledgement pair this tick would emit, piggybacked or
    /// standalone: the pending window's anchor and mask when one is owed.
    pub closed spec fn tick_ack_pair(&self) -> Option<(u16, u32)> {
        if self.new_ack_to_send && self.pending_acks@.len() > 0 {
            Option::Some(
                (
                    self.pending_acks@.last(),
                    spec_ack_mask(self.pending_acks@, self.pending_acks@.last()),
                ),
            )
        } else {
            Option::None
        }
    }

    /// Whether an acknowledgement is owed and goes out this tick.
    pub closed spec fn tick_has_ack(&self) -> bool {
        self.new_ack_to_send && self.pending_acks@.len() > 0
    }

    /// Whether this tick emits a standalone acknowledgement frame: one is
    /// owed and no reliable packet carries it piggybacked.
    pub closed spec fn tick_standalone_ack(&self) -> bool {
        self.tick_has_ack() && self.tick_rel_packs().len() == 0
    }

    /// The reported ack processing time: milliseconds since the pending
    /// batch started, truncated to sixteen bits.
    pub closed spec fn tick_ack_ppt(&self) -> u16 {
        (((self.current_time_ms - self.ack_process_start_ms) as int) % 0x10000) as u16
    }

    /// The datagrams to hand to the transport this tick: the reliable
    /// packets the budget and resend gate admit, with consecutive wrapping
    /// sequence numbers and the owed acknowledgement piggybacked, then the
    /// unreliable packets the remaining budget admits, then a standalone
    /// acknowledgement frame exactly when one is owed and no reliable
    /// packet carried it. Each emitted reliable packet is registered in the
    /// sent table under its sequence number with the message ids it
    /// carried. A disconnected connection emits nothing.
    #[verifier::loop_isolation(false)]
    #[verifier::rlimit(100)]
    pub fn get_packets_to_send(&mut self) -> (r: Vec<Payload>)
        requires
            old(self).inv(),
        ensures
            final(self).inv(),
            old(self).spec_status() is Disconnected ==> r@.len() == 0 && *final(self) == *old(
                self,
            ),
            !(old(self).spec_status() is Disconnected) ==> spec_tick(
                *old(self),
                *final(self),
                r@,
            ),
    {
        if self.is_disconnected() {
            return Vec::new();
        }
        let now = self.current_time_ms;
        let ghost seq0 = self.send_reliable_channel.spec_next_sequence_id();
        let ghost relpacks = self.tick_rel_packs();
        let ghost unpacks0 = self.tick_unrel_packs();
        let ack_pair: Option<(u16, u32)> = if self.new_ack_to_send {
            self.create_acked_bytes()
        } else {
            None
        };
        proof {
            assert(ack_pair == old(self).tick_ack_pair());
        }
        let mut available: u64 = self.available_bytes_per_tick;
        let rel_packets = self.send_reliable_channel.get_packets_to_send(
            &mut available,
            now,
            ack_pair,
        );
        proof {
            assert(crate::reliable::rel_packs_msgs(rel_packets@) == relpacks);
            assert(rel_packets@.len() == relpacks.len()) by {
                assert(crate::reliable::rel_packs_msgs(rel_packets@).len()
                    == rel_packets@.len());
            }
        }
        let unrel_packets = self.send_unreliable_channel.get_packets_to_send(&mut available);
        proof {
            assert(crate::unreliable::packs_msgs(unrel_packets@) == unpacks0);
            assert(unrel_packets@.len() == unpacks0.len()) by {
                assert(crate::unreliable::packs_msgs(unrel_packets@).len()
                    == unrel_packets@.len());
            }
        }
        // register each reliable packet in the sent table
        let ghost sent0 = self.spec_sent_packets();
        let ghost relch = self.send_reliable_channel;
        let ghost unrelch = self.send_unreliable_channel;
        let mut pi: usize = 0;
        proof {
            assert(self.sent_packets@ == old(self).sent_packets@);
            assert(self.spec_sent_packets() == old(self).spec_sent_packets());
            assert(sent0 + Seq::new(
                0nat,
                |i: int|
                    (
                        crate::reliable::add_wrap16(seq0, i),
                        (now, Option::Some((1u8, msg_ids(relpacks[i])))),
                    ),
            ) =~= sent0);
        }
        while pi < rel_packets.len()
            invariant
                pi <= rel_packets@.len(),
                self.spec_sent_packets() == sent0 + Seq::new(
                    pi as nat,
                    |i: int|
                        (
                            crate::reliable::add_wrap16(seq0, i),
                            (now, Option::Some((1u8, msg_ids(relpacks[i])))),
                        ),
                ),
                forall|i: int, j: int|
                    0 <= i < j < self.spec_sent_packets().len() ==> rec_sent_at(
                        #[trigger] self.spec_sent_packets()[i],
                    ) <= rec_sent_at(#[trigger] self.spec_sent_packets()[j]),
                forall|i: int|
                    0 <= i < self.spec_sent_packets().len() ==> rec_sent_at(
                        #[trigger] self.spec_sent_packets()[i],
                    ) <= self.current_time_ms,
                self.current_time_ms == now,
                self.pending_acks@ == old(self).pending_acks@,
                self.new_ack_to_send == old(self).new_ack_to_send,
                self.ack_process_start_ms == old(self).ack_process_start_ms,
                self.connection_status == old(self).connection_status,
                self.rtt_ms == old(self).rtt_ms,
                self.player_id@ == old(self).player_id@,
                self.available_bytes_per_tick == old(self).available_bytes_per_tick,
                self.stats == old(self).stats,
                self.send_reliable_channel == relch,
                self.send_reliable_channel.inv(),
                self.receive_reliable_channel == old(self).receive_reliable_channel,
                self.send_unreliable_channel == unrelch,
                self.send_unreliable_channel.inv(),
                self.receive_unreliable_channel == old(self).receive_unreliable_channel,
            decreases rel_packets@.len() - pi,
        {
            let ghost svb = self.spec_sent_packets();
            match &rel_packets[pi] {
                Packet::SmallReliable { sequence_id, channel_id, messages, .. } => {
                    proof {
                        assert(rel_packets@[pi as int]@ matches SpecPacket::SmallReliable {
                            sequence_id: s2,
                            messages: m2,
                            ..
                        } && s2 == *sequence_id && m2 == crate::packet::rel_view(messages@)
                            && s2 == crate::reliable::add_wrap16(seq0, pi as int) && m2
                            == relpacks[pi as int]);
                    }
                    let mut ids: Vec<u64> = Vec::new();
                    let mut mi: usize = 0;
                    while mi < messages.len()
                        invariant
                            mi <= messages@.len(),
                            ids@ == msg_ids(crate::packet::rel_view(messages@)).take(mi as int),
                        decreases messages@.len() - mi,
                    {
                        ids.push(messages[mi].0);
                        proof {
                            assert(ids@ =~= msg_ids(crate::packet::rel_view(messages@)).take(
                                mi as int + 1,
                            ));
                        }
                        mi = mi + 1;
                    }
                    proof {
                        assert(msg_ids(crate::packet::rel_view(messages@)).take(
                            messages@.len() as int,
                        ) =~= msg_ids(crate::packet::rel_view(messages@)));
                    }
                    self.sent_packets.push(
                        (
                            *sequence_id,
                            PacketSent {
                                sent_at_ms: now,
                                info: PacketSentInfo::ReliableMessages {
                                    channel_id: *channel_id,
                                    message_ids: ids,
                                },
                            },
                        ),
                    );
                    proof {
                        assert(self.spec_sent_packets() =~= svb.push(
                            (
                                crate::reliable::add_wrap16(seq0, pi as int),
                                (now, Option::Some((1u8, msg_ids(relpacks[pi as int])))),
                            ),
                        ));
                        assert(self.spec_sent_packets() =~= sent0 + Seq::new(
                            (pi + 1) as nat,
                            |i: int|
                                (
                                    crate::reliable::add_wrap16(seq0, i),
                                    (now, Option::Some((1u8, msg_ids(relpacks[i])))),
                                ),
                        ));
                    }
                },
                _ => {
                    proof {
                        assert(rel_packets@[pi as int]@ is SmallReliable);
                        assert(false);
                    }
                },
            }
            pi = pi + 1;
        }
        // the acknowledgement went out piggybacked on the reliable packets;
        // with no reliable traffic this tick it goes out standalone
        let mut ack_packet: Option<Packet> = None;
        match ack_pair {
            Some((ack_seq_id, ack_mask)) => {
                if rel_packets.len() == 0 {
                    let ppt = ((now - self.ack_process_start_ms) % 0x10000) as u16;
                    ack_packet = Some(
                        Packet::Ack {
                            channel_id: 1,
                            packet_type: 1,
                            packet_process_time: ppt,
                            sequence_id: 0,
                            acked_seq_id: ack_seq_id,
                            acked_mask: ack_mask,
                            end_posfix: 0,
                        },
                    );
                }
                self.new_ack_to_send = false;
            },
            None => {},
        }
        proof {
            assert(self.spec_sent_packets() == sent0 + Seq::new(
                relpacks.len(),
                |i: int|
                    (
                        crate::reliable::add_wrap16(seq0, i),
                        (now, Option::Some((1u8, msg_ids(relpacks[i])))),
                    ),
            ));
        }
        // serialize: reliable, then unreliable, then the acknowledgement
        let ghost nrel = relpacks.len() as int;
        let ghost nun = unpacks0.len() as int;
        let mut out: Vec<Vec<u8>> = Vec::new();
        let mut total_bytes: u64 = 0;
        let mut k: usize = 0;
        while k < rel_packets.len()
            invariant
                k <= rel_packets@.len(),
                out@.len() == k,
                total_bytes == sat_len_sum(crate::packet::unrel_view(out@)),
                forall|i: int|
                    0 <= i < k ==> (#[trigger] out@[i])@ == spec_encode(rel_packets@[i]@),
                forall|i: int|
                    0 <= i < k ==> (#[trigger] out@[i])@.len()
                        <= crate::constants::TRANSPORT_MAX_PACKET_BYTES,
            decreases rel_packets@.len() - k,
        {
            let ghost ov = out@;
            match rel_packets[k].to_bytes() {
                Ok(v) => {
                    total_bytes = crate::connection_stats::sat_add_exec(
                        total_bytes,
                        v.len() as u64,
                    );
                    out.push(v);
                    proof {
                        assert(crate::packet::unrel_view(out@).drop_last() =~= crate::packet::unrel_view(
                            ov,
                        ));
                    }
                },
                Err(_) => {
                    proof {
                        assert(false);
                    }
                    vstd::pervasive::unreached::<()>();
                },
            }
            k = k + 1;
        }
        let mut k2: usize = 0;
        while k2 < unrel_packets.len()
            invariant
                k2 <= unrel_packets@.len(),
                out@.len() == rel_packets@.len() + k2,
                total_bytes == sat_len_sum(crate::packet::unrel_view(out@)),
                forall|i: int|
                    0 <= i < rel_packets@.len() ==> (#[trigger] out@[i])@ == spec_encode(
                        rel_packets@[i]@,
                    ),
                forall|i: int|
                    0 <= i < k2 ==> (#[trigger] out@[rel_packets@.len() + i])@ == spec_encode(
                        unrel_packets@[i]@,
                    ),
                forall|i: int|
                    0 <= i < out@.len() ==> (#[trigger] out@[i])@.len()
                        <= crate::constants::TRANSPORT_MAX_PACKET_BYTES,
            decreases unrel_packets@.len() - k2,
        {
            let ghost ov = out@;
            match unrel_packets[k2].to_bytes() {
                Ok(v) => {
                    total_bytes = crate::connection_stats::sat_add_exec(
                        total_bytes,
                        v.len() as u64,
                    );
                    out.push(v);
                    proof {
                        assert(crate::packet::unrel_view(out@).drop_last() =~= crate::packet::unrel_view(
                            ov,
                        ));
                    }
                },
                Err(_) => {
                    proof {
                        assert(false);
                    }
                    vstd::pervasive::unreached::<()>();
                },
            }
            k2 = k2 + 1;
        }
        match ack_packet {
            Some(p) => {
                let ghost ov = out@;
                proof {
                    assert(spec_encode(p@).len() == 14);
                }
                match p.to_bytes() {
                    Ok(v) => {
                        total_bytes = crate::connection_stats::sat_add_exec(
                            total_bytes,
                            v.len() as u64,
                        );
                        out.push(v);
                        proof {
                            assert(crate::packet::unrel_view(out@).drop_last()
                                =~= crate::packet::unrel_view(ov));
                        }
                    },
                    Err(_) => {
                        proof {
                            assert(false);
                        }
                        vstd::pervasive::unreached::<()>();
                    },
                }
            },
            None => {},
        }
        self.stats.sent_packets(out.len() as u64, total_bytes);
        out
    }

    /// Records a peer sequence id for acknowledgement, as `spec_add_pending`
    /// says: the first id seen initialises the window; a stale or duplicate
    /// id changes nothing; otherwise the oldest pending id is evicted at
    /// capacity and the new one inserted in ascending position, and an
    /// acknowledgement becomes owed.
    #[verifier::loop_isolation(false)]
    fn add_pending_ack(&mut self, sequence_id: u16)
        requires
            old(self).inv(),
        ensures
            final(self).inv(),
            final(self).spec_pending_acks() == spec_add_pending(
                old(self).spec_pending_acks(),
                sequence_id,
            ),
            final(self).spec_pending_acks() == old(self).spec_pending_acks() ==> *final(self)
                == *old(self),
            final(self).spec_pending_acks() != old(self).spec_pending_acks() ==> final(self).spec_new_ack_to_send() && final(self).spec_ack_process_start() == old(self).spec_current_time() && final(self).spec_current_time() == old(self).spec_current_time() && final(self).spec_sent_packets() == old(self).spec_sent_packets() && final(self).rel_send() == old(self).rel_send() && final(self).rel_recv() == old(self).rel_recv() && final(self).unrel_send() == old(self).unrel_send() && final(self).unrel_recv() == old(self).unrel_recv() && final(self).spec_stats() == old(self).spec_stats() && final(self).spec_status() == old(self).spec_status() && final(self).spec_rtt() == old(self).spec_rtt() && final(self).spec_bytes_per_tick() == old(self).spec_bytes_per_tick() && final(self).spec_player_id() == old(self).spec_player_id(),
    {
        let ghost pre = self.pending_acks@;
        if self.pending_acks.len() > 0 {
            let stale = self.pending_acks[0] >= sequence_id;
            let dup = vec_contains_u16(&self.pending_acks, sequence_id);
            if stale || dup {
                return ;
            }
        }
        if self.pending_acks.len() >= PENDING_ACKS_CAPACITY {
            self.pending_acks.remove(0);
            proof {
                assert(self.pending_acks@ =~= pre.drop_first());
            }
        }
        let ghost p = self.pending_acks@;
        proof {
            assert(forall|i: int, j: int|
                0 <= i < j < p.len() ==> (#[trigger] p[i]) < (#[trigger] p[j]));
            assert(!p.contains(sequence_id)) by {
                if p.contains(sequence_id) {
                    let w = choose|w: int| 0 <= w < p.len() && p[w] == sequence_id;
                    if pre.len() >= PENDING_ACKS_CAPACITY {
                        assert(pre[w + 1] == sequence_id);
                        assert(pre.contains(sequence_id));
                    } else {
                        assert(pre.contains(sequence_id));
                    }
                }
            }
        }
        let mut idx: usize = 0;
        while idx < self.pending_acks.len() && self.pending_acks[idx] < sequence_id
            invariant
                idx <= p.len(),
                self.pending_acks@ == p,
                forall|k: int| 0 <= k < idx ==> (#[trigger] p[k]) < sequence_id,
            decreases p.len() - idx,
        {
            idx = idx + 1;
        }
        proof {
            lemma_pos16(p, sequence_id);
            assert(idx as int == pos16(p, sequence_id)) by {
                let ip = pos16(p, sequence_id);
                if ip < idx {
                    assert(p[ip] >= sequence_id);
                }
                if idx < ip {
                    assert(p[idx as int] >= sequence_id);
                }
            }
        }
        self.new_ack_to_send = true;
        self.ack_process_start_ms = self.current_time_ms;
        self.pending_acks.insert(idx, sequence_id);
        proof {
            assert(self.pending_acks@ =~= p.insert(idx as int, sequence_id));
            assert(self.spec_pending_acks() == spec_add_pending(pre, sequence_id));
            let q = self.pending_acks@;
            assert forall|i: int, j: int| 0 <= i < j < q.len() implies (#[trigger] q[i]) < (
            #[trigger] q[j]) by {
                if j < idx {
                } else if i >= idx + 1 {
                    assert(q[i] == p[i - 1] && q[j] == p[j - 1]);
                } else if j == idx && i < idx {
                    assert(q[i] == p[i] && q[j] == sequence_id);
                } else if i == idx {
                    assert(q[i] == sequence_id && q[j] == p[j - 1]);
                    assert(p[j - 1] >= sequence_id);
                    assert(p[j - 1] != sequence_id);
                } else if i < idx && j > idx {
                    assert(q[i] == p[i] && q[j] == p[j - 1]);
                }
            }
            assert(self.sent_packets@ == old(self).sent_packets@);
            assert(self.spec_sent_packets() == old(self).spec_sent_packets());
            assert(self.spec_pending_acks() != pre) by {
                if self.spec_pending_acks() == pre {
                    assert(pre.len() == p.insert(idx as int, sequence_id).len());
                }
            }
        }
    }

    /// The outbound acknowledgement for the pending window: the anchor is
    /// the highest pending id, and bit `i` of the mask says whether the id
    /// `anchor - i` (wrapping) is pending. Nothing is pending, nothing to
    /// acknowledge.
    #[verifier::loop_isolation(false)]
    pub fn create_acked_bytes(&self) -> (r: Option<(u16, u32)>)
        requires
            self.inv(),
        ensures
            self.spec_pending_acks().len() == 0 ==> r is None,
            self.spec_pending_acks().len() > 0 ==> r == Some(
                (
                    self.spec_pending_acks().last(),
                    spec_ack_mask(self.spec_pending_acks(), self.spec_pending_acks().last()),
                ),
            ),
    {
        if self.pending_acks.len() == 0 {
            return None;
        }
        let anchor = self.pending_acks[self.pending_acks.len() - 1];
        let mut mask: u32 = 0;
        let mut i: u32 = 32;
        while i > 0
            invariant
                i <= 32,
                mask == spec_ack_mask_from(self.pending_acks@, anchor, i as int),
            decreases i,
        {
            i = i - 1;
            if vec_contains_u16(&self.pending_acks, sub_wrap16_exec(anchor, i as u16)) {
                mask = mask | (1u32 << i);
            }
        }
        Some((anchor, mask))
    }

    /// The sequence ids acknowledged by an `(anchor, mask)` pair: the id
    /// `anchor - i` (wrapping) for each set bit `i`, in bit order.
    #[verifier::loop_isolation(false)]
    pub fn get_acked_packet_ids(ack_seq: u16, ack_mask: u32) -> (r: Vec<u16>)
        ensures
            r@ == decoded_ids(ack_seq, ack_mask),
    {
        let mut r: Vec<u16> = Vec::new();
        let mut i: u32 = 0;
        proof {
            assert(r@ + decoded_ids_from(ack_seq, ack_mask, 0) =~= decoded_ids_from(
                ack_seq,
                ack_mask,
                0,
            ));
        }
        while i < 32
            invariant
                i <= 32,
                decoded_ids(ack_seq, ack_mask) == r@ + decoded_ids_from(
                    ack_seq,
                    ack_mask,
                    i as int,
                ),
            decreases 32 - i,
        {
            let ghost r0 = r@;
            if (ack_mask >> i) & 1 == 1 {
                r.push(sub_wrap16_exec(ack_seq, i as u16));
                proof {
                    assert(r@ =~= r0.push(sub_wrap16(ack_seq, i as int)));
                    assert(r0.push(sub_wrap16(ack_seq, i as int)) + decoded_ids_from(
                        ack_seq,
                        ack_mask,
                        i as int + 1,
                    ) =~= r0 + (seq![sub_wrap16(ack_seq, i as int)] + decoded_ids_from(
                        ack_seq,
                        ack_mask,
                        i as int + 1,
                    )));
                }
            }
            i = i + 1;
        }
        proof {
            assert(decoded_ids_from(ack_seq, ack_mask, 32) =~= Seq::<u16>::empty());
            assert(r@ + Seq::<u16>::empty() =~= r@);
        }
        r
    }

    /// Advances the connection clock, rotates the statistics window, and
    /// drops tracked sent packets older than the loss threshold: once the
    /// first young enough entry is reached the walk stops, since later
    /// entries were sent later.
    #[verifier::loop_isolation(false)]
    pub fn update(&mut self, duration_ms: u64)
        requires
            old(self).inv(),
        ensures
            final(self).inv(),
            spec_update(*old(self), *final(self), duration_ms),
    {
        self.current_time_ms = crate::connection_stats::sat_add_exec(
            self.current_time_ms,
            duration_ms,
        );
        self.stats.update(self.current_time_ms);
        let ghost s0 = self.spec_sent_packets();
        let now = self.current_time_ms;
        proof {
            assert(self.sent_packets@ == old(self).sent_packets@);
            assert(self.spec_sent_packets() == old(self).spec_sent_packets());
            assert(now >= old(self).spec_current_time());
        }
        while self.sent_packets.len() > 0 && now >= DISCARD_AFTER_MS && self.sent_packets[0].1.sent_at_ms
            <= now - DISCARD_AFTER_MS
            invariant
                reap_sent(s0, now) == reap_sent(self.spec_sent_packets(), now),
                forall|i: int, j: int|
                    0 <= i < j < self.spec_sent_packets().len() ==> rec_sent_at(
                        #[trigger] self.spec_sent_packets()[i],
                    ) <= rec_sent_at(#[trigger] self.spec_sent_packets()[j]),
                forall|i: int|
                    0 <= i < self.spec_sent_packets().len() ==> rec_sent_at(
                        #[trigger] self.spec_sent_packets()[i],
                    ) <= now,
                self.current_time_ms == now,
                self.stats == old(self).spec_stats().spec_after_update(now),
                self.pending_acks@ == old(self).pending_acks@,
                self.new_ack_to_send == old(self).new_ack_to_send,
                self.ack_process_start_ms == old(self).ack_process_start_ms,
                self.send_reliable_channel == old(self).send_reliable_channel,
                self.receive_reliable_channel == old(self).receive_reliable_channel,
                self.send_unreliable_channel == old(self).send_unreliable_channel,
                self.receive_unreliable_channel == old(self).receive_unreliable_channel,
                self.connection_status == old(self).connection_status,
                self.rtt_ms == old(self).rtt_ms,
                self.player_id@ == old(self).player_id@,
                self.available_bytes_per_tick == old(self).available_bytes_per_tick,
            decreases self.sent_packets@.len(),
        {
            let ghost cur = self.spec_sent_packets();
            self.sent_packets.remove(0);
            proof {
                assert(self.spec_sent_packets() =~= cur.drop_first());
                assert(rec_sent_at(cur[0]) + DISCARD_AFTER_MS <= now);
            }
        }
        proof {
            let cur = self.spec_sent_packets();
            if cur.len() > 0 {
                assert(!(rec_sent_at(cur[0]) + DISCARD_AFTER_MS <= now));
            }
            assert(reap_sent(cur, now) == cur);
        }
    }

}

} // verus!
