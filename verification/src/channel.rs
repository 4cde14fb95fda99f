//! Definitions shared by the send and receive channels.

use vstd::prelude::*;

verus! {


/// How a channel delivers: best effort, or reliable in order with a resend
/// interval in milliseconds.
#[derive(Debug, Clone, PartialEq, Eq)]
pub enum SendType {
    Unreliable,
    ReliableOrdered { resend_time_ms: u64 },
}

/// Configuration of one channel.
#[derive(Debug, Clone, PartialEq, Eq)]
pub struct ChannelConfig {
    pub channel_id: u8,
    pub max_memory_usage_bytes: usize,
    pub send_type: SendType,
}

/// The fixed two-channel layout: channel 0 is unreliable, channel 1 is
/// reliable-ordered.
#[derive(Debug, Clone, Copy, PartialEq, Eq)]
pub enum DefaultChannel {
    Unreliable,
    ReliableOrdered,
}

impl DefaultChannel {
    /// The wire discriminator of the channel.
    pub fn id(&self) -> (r: u8)
        ensures
            *self is Unreliable ==> r == 0,
            *self is ReliableOrdered ==> r == 1,
    {
        match self {
            DefaultChannel::Unreliable => 0,
            DefaultChannel::ReliableOrdered => 1,
        }
    }

    /// The default two channels: five megabytes of memory each, and a
    /// 300-millisecond resend interval for the reliable one.
    pub fn config() -> (r: Vec<ChannelConfig>)
        ensures
            r@.len() == 2,
            r@[0] == (ChannelConfig {
                channel_id: 0u8,
                max_memory_usage_bytes: 5242880usize,
                send_type: SendType::Unreliable,
            }),
            r@[1] == (ChannelConfig {
                channel_id: 1u8,
                max_memory_usage_bytes: 5242880usize,
                send_type: SendType::ReliableOrdered { resend_time_ms: 300u64 },
            }),
    {
        let mut v: Vec<ChannelConfig> = Vec::new();
        v.push(
            ChannelConfig {
                channel_id: 0,
                max_memory_usage_bytes: 5242880,
                send_type: SendType::Unreliable,
            },
        );
        v.push(
            ChannelConfig {
                channel_id: 1,
                max_memory_usage_bytes: 5242880,
                send_type: SendType::ReliableOrdered { resend_time_ms: 300 },
            },
        );
        v
    }
}

/// Total length in bytes of a list of message payloads.
pub open spec fn sum_len(ms: Seq<Seq<u8>>) -> int
    decreases ms.len(),
{
    if ms.len() == 0 {
        0
    } else {
        ms[0].len() + sum_len(ms.drop_first())
    }
}

/// Appending a message adds its length to the total.
pub proof fn lemma_sum_len_push(ms: Seq<Seq<u8>>, m: Seq<u8>)
    ensures
        sum_len(ms.push(m)) == sum_len(ms) + m.len(),
    decreases ms.len(),
{
    if ms.len() == 0 {
        assert(ms.push(m).drop_first() =~= Seq::<Seq<u8>>::empty());
        assert(ms.push(m)[0] == m);
        assert(sum_len(Seq::<Seq<u8>>::empty()) == 0);
    } else {
        assert(ms.push(m).drop_first() =~= ms.drop_first().push(m));
        lemma_sum_len_push(ms.drop_first(), m);
    }
}

/// Every message contributes a non-negative amount.
pub proof fn lemma_sum_len_nonneg(ms: Seq<Seq<u8>>)
    ensures
        sum_len(ms) >= 0,
    decreases ms.len(),
{
    if ms.len() > 0 {
        lemma_sum_len_nonneg(ms.drop_first());
    }
}

} // verus!
