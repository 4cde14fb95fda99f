//! Rolling connection statistics over one-second buckets: bytes and packets
//! sent, bytes received, packets acked, and the derived loss ratio.

use vstd::prelude::*;

verus! {

/// Two one-second buckets per counter: the current (filling) bucket and the
/// previous (reported) one. Rates are read from the previous bucket.
#[derive(Debug, Clone, PartialEq, Eq)]
pub struct ConnectionStats {
    window_start_ms: u64,
    cur_bytes_sent: u64,
    prev_bytes_sent: u64,
    cur_bytes_received: u64,
    prev_bytes_received: u64,
    cur_packets_sent: u64,
    prev_packets_sent: u64,
    cur_packets_acked: u64,
    prev_packets_acked: u64,
}

/// `a + b`, saturating at the largest `u64`.
pub open spec fn sat_add(a: u64, b: u64) -> u64 {
    if a + b > u64::MAX {
        u64::MAX
    } else {
        (a + b) as u64
    }
}

/// `a + b`, saturating at the largest `u64`.
pub fn sat_add_exec(a: u64, b: u64) -> (r: u64)
    ensures
        r == sat_add(a, b),
{
    if b > u64::MAX - a {
        u64::MAX
    } else {
        a + b
    }
}

impl ConnectionStats {
    /// When the current bucket started.
    pub closed spec fn spec_window_start(&self) -> u64 {
        self.window_start_ms
    }

    /// Bytes sent in the previous full second.
    pub closed spec fn spec_prev_bytes_sent(&self) -> u64 {
        self.prev_bytes_sent
    }

    /// Bytes received in the previous full second.
    pub closed spec fn spec_prev_bytes_received(&self) -> u64 {
        self.prev_bytes_received
    }

    /// Packets sent in the previous full second.
    pub closed spec fn spec_prev_packets_sent(&self) -> u64 {
        self.prev_packets_sent
    }

    /// Packets acked in the previous full second.
    pub closed spec fn spec_prev_packets_acked(&self) -> u64 {
        self.prev_packets_acked
    }

    /// Bytes sent in the current, still filling, second.
    pub closed spec fn spec_cur_bytes_sent(&self) -> u64 {
        self.cur_bytes_sent
    }

    /// Bytes received in the current, still filling, second.
    pub closed spec fn spec_cur_bytes_received(&self) -> u64 {
        self.cur_bytes_received
    }

    /// Packets sent in the current, still filling, second.
    pub closed spec fn spec_cur_packets_sent(&self) -> u64 {
        self.cur_packets_sent
    }

    /// Packets acked in the current, still filling, second.
    pub closed spec fn spec_cur_packets_acked(&self) -> u64 {
        self.cur_packets_acked
    }

    /// Fresh counters with the window starting at zero.
    pub fn new() -> (r: Self)
        ensures
            r.spec_window_start() == 0,
            r.spec_prev_bytes_sent() == 0,
            r.spec_prev_bytes_received() == 0,
            r.spec_prev_packets_sent() == 0,
            r.spec_prev_packets_acked() == 0,
            r.spec_cur_bytes_sent() == 0,
            r.spec_cur_bytes_received() == 0,
            r.spec_cur_packets_sent() == 0,
            r.spec_cur_packets_acked() == 0,
    {
        Self {
            window_start_ms: 0,
            cur_bytes_sent: 0,
            prev_bytes_sent: 0,
            cur_bytes_received: 0,
            prev_bytes_received: 0,
            cur_packets_sent: 0,
            prev_packets_sent: 0,
            cur_packets_acked: 0,
            prev_packets_acked: 0,
        }
    }

    /// The counters after `update` at `now_ms`.
    pub closed spec fn spec_after_update(&self, now_ms: u64) -> ConnectionStats {
        if now_ms < self.window_start_ms + 1000 {
            *self
        } else if now_ms < self.window_start_ms + 2000 {
            ConnectionStats {
                window_start_ms: (self.window_start_ms + 1000) as u64,
                prev_bytes_sent: self.cur_bytes_sent,
                prev_bytes_received: self.cur_bytes_received,
                prev_packets_sent: self.cur_packets_sent,
                prev_packets_acked: self.cur_packets_acked,
                cur_bytes_sent: 0,
                cur_bytes_received: 0,
                cur_packets_sent: 0,
                cur_packets_acked: 0,
            }
        } else {
            ConnectionStats {
                window_start_ms: now_ms,
                prev_bytes_sent: 0,
                prev_bytes_received: 0,
                prev_packets_sent: 0,
                prev_packets_acked: 0,
                cur_bytes_sent: 0,
                cur_bytes_received: 0,
                cur_packets_sent: 0,
                cur_packets_acked: 0,
            }
        }
    }

    /// Rotates the buckets when a second has elapsed: after one full second
    /// the current bucket becomes the previous one; after two or more, both
    /// are stale and the previous bucket reads zero.
    pub fn update(&mut self, now_ms: u64)
        ensures
            *final(self) == old(self).spec_after_update(now_ms),
            now_ms < old(self).spec_window_start() + 1000 ==> *final(self) == *old(self),
            old(self).spec_window_start() + 1000 <= now_ms < old(self).spec_window_start() + 2000
                ==> final(self).spec_window_start() == old(self).spec_window_start() + 1000
                && final(self).spec_prev_bytes_sent() == old(self).spec_cur_bytes_sent()
                && final(self).spec_prev_bytes_received() == old(self).spec_cur_bytes_received()
                && final(self).spec_prev_packets_sent() == old(self).spec_cur_packets_sent()
                && final(self).spec_prev_packets_acked() == old(self).spec_cur_packets_acked()
                && final(self).spec_cur_bytes_sent() == 0 && final(self).spec_cur_bytes_received()
                == 0 && final(self).spec_cur_packets_sent() == 0 && final(self).spec_cur_packets_acked() == 0,
            now_ms >= old(self).spec_window_start() + 2000 ==> final(self).spec_window_start()
                == now_ms && final(self).spec_prev_bytes_sent() == 0 && final(self).spec_prev_bytes_received() == 0 && final(self).spec_prev_packets_sent() == 0
                && final(self).spec_prev_packets_acked() == 0 && final(self).spec_cur_bytes_sent()
                == 0 && final(self).spec_cur_bytes_received() == 0 && final(self).spec_cur_packets_sent() == 0 && final(self).spec_cur_packets_acked() == 0,
    {
        if now_ms < 1000 || self.window_start_ms > now_ms - 1000 {
            return ;
        }
        if now_ms - self.window_start_ms >= 2000 {
            self.window_start_ms = now_ms;
            self.prev_bytes_sent = 0;
            self.prev_bytes_received = 0;
            self.prev_packets_sent = 0;
            self.prev_packets_acked = 0;
        } else {
            self.window_start_ms = self.window_start_ms + 1000;
            self.prev_bytes_sent = self.cur_bytes_sent;
            self.prev_bytes_received = self.cur_bytes_received;
            self.prev_packets_sent = self.cur_packets_sent;
            self.prev_packets_acked = self.cur_packets_acked;
        }
        self.cur_bytes_sent = 0;
        self.cur_bytes_received = 0;
        self.cur_packets_sent = 0;
        self.cur_packets_acked = 0;
    }

    /// Accounts packets handed to the transport in the current second.
    pub fn sent_packets(&mut self, count: u64, bytes: u64)
        ensures
            final(self).spec_cur_packets_sent() == sat_add(old(self).spec_cur_packets_sent(), count),
            final(self).spec_cur_bytes_sent() == sat_add(old(self).spec_cur_bytes_sent(), bytes),
            final(self).spec_cur_bytes_received() == old(self).spec_cur_bytes_received(),
            final(self).spec_cur_packets_acked() == old(self).spec_cur_packets_acked(),
            final(self).spec_window_start() == old(self).spec_window_start(),
            final(self).spec_prev_bytes_sent() == old(self).spec_prev_bytes_sent(),
            final(self).spec_prev_bytes_received() == old(self).spec_prev_bytes_received(),
            final(self).spec_prev_packets_sent() == old(self).spec_prev_packets_sent(),
            final(self).spec_prev_packets_acked() == old(self).spec_prev_packets_acked(),
    {
        self.cur_packets_sent = sat_add_exec(self.cur_packets_sent, count);
        self.cur_bytes_sent = sat_add_exec(self.cur_bytes_sent, bytes);
    }

    /// The counters after accounting `bytes` received.
    pub closed spec fn spec_after_received(&self, bytes: u64) -> ConnectionStats {
        ConnectionStats { cur_bytes_received: sat_add(self.cur_bytes_received, bytes), ..*self }
    }

    /// Accounts one received packet of `bytes` in the current second.
    pub fn received_packet(&mut self, bytes: u64)
        ensures
            *final(self) == old(self).spec_after_received(bytes),
            final(self).spec_cur_bytes_received() == sat_add(
                old(self).spec_cur_bytes_received(),
                bytes,
            ),
            final(self).spec_cur_bytes_sent() == old(self).spec_cur_bytes_sent(),
            final(self).spec_cur_packets_sent() == old(self).spec_cur_packets_sent(),
            final(self).spec_cur_packets_acked() == old(self).spec_cur_packets_acked(),
            final(self).spec_window_start() == old(self).spec_window_start(),
            final(self).spec_prev_bytes_sent() == old(self).spec_prev_bytes_sent(),
            final(self).spec_prev_bytes_received() == old(self).spec_prev_bytes_received(),
            final(self).spec_prev_packets_sent() == old(self).spec_prev_packets_sent(),
            final(self).spec_prev_packets_acked() == old(self).spec_prev_packets_acked(),
    {
        self.cur_bytes_received = sat_add_exec(self.cur_bytes_received, bytes);
    }

    /// Accounts one acked packet in the current second.
    pub fn acked_packet(&mut self)
        ensures
            final(self).spec_cur_packets_acked() == sat_add(
                old(self).spec_cur_packets_acked(),
                1,
            ),
            final(self).spec_cur_bytes_sent() == old(self).spec_cur_bytes_sent(),
            final(self).spec_cur_bytes_received() == old(self).spec_cur_bytes_received(),
            final(self).spec_cur_packets_sent() == old(self).spec_cur_packets_sent(),
            final(self).spec_window_start() == old(self).spec_window_start(),
            final(self).spec_prev_bytes_sent() == old(self).spec_prev_bytes_sent(),
            final(self).spec_prev_bytes_received() == old(self).spec_prev_bytes_received(),
            final(self).spec_prev_packets_sent() == old(self).spec_prev_packets_sent(),
            final(self).spec_prev_packets_acked() == old(self).spec_prev_packets_acked(),
    {
        self.cur_packets_acked = sat_add_exec(self.cur_packets_acked, 1);
    }

    /// Bytes sent per second: the previous full second's total.
    pub fn bytes_sent_per_second(&self) -> (r: u64)
        ensures
            r == self.spec_prev_bytes_sent(),
    {
        self.prev_bytes_sent
    }

    /// Bytes received per second: the previous full second's total.
    pub fn bytes_received_per_second(&self) -> (r: u64)
        ensures
            r == self.spec_prev_bytes_received(),
    {
        self.prev_bytes_received
    }

    /// Packet loss over the previous full second, in permille: the share of
    /// sent packets not acked, or zero when nothing was sent or every sent
    /// packet was acked.
    pub fn packet_loss_permille(&self) -> (r: u64)
        ensures
            self.spec_prev_packets_sent() == 0 || self.spec_prev_packets_acked()
                >= self.spec_prev_packets_sent() ==> r == 0,
            self.spec_prev_packets_sent() > 0 && self.spec_prev_packets_acked()
                < self.spec_prev_packets_sent() ==> r == ((self.spec_prev_packets_sent()
                - self.spec_prev_packets_acked()) * 1000) / (self.spec_prev_packets_sent() as int),
    {
        if self.prev_packets_sent == 0 || self.prev_packets_acked >= self.prev_packets_sent {
            return 0;
        }
        let lost = self.prev_packets_sent - self.prev_packets_acked;
        let scaled = (lost as u128) * 1000;
        let r = scaled / (self.prev_packets_sent as u128);
        proof {
            assert(r <= 1000) by (nonlinear_arith)
                requires
                    r == ((lost as u128) * 1000) as int / (self.prev_packets_sent as int),
                    0 < lost <= self.prev_packets_sent,
            ;
        }
        r as u64
    }
}

} // verus!
