//! The transport server: a fixed slot table of connected clients, a pending
//! table of mid-handshake peers, the connection-request handshake, the
//! asynchronous session-ticket authentication hand-off, payload
//! classification, and idle-timeout / keep-alive handling.

use vstd::prelude::*;

use crate::constants::{TRANSPORT_MAX_CLIENTS, TRANSPORT_MAX_PENDING_CLIENTS, TRANSPORT_SEND_RATE_MS};
use crate::connection_stats::{sat_add, sat_add_exec};
use crate::error::TransportServerError;
use crate::transport_packet::{ids_view, spec_tdecode, spec_tencode, Packet, SpecTPacket};

verus! {

/// How long a pending handshake may live, in milliseconds.
pub const PENDING_EXPIRE_MS: u64 = 10000;

/// The default idle timeout of a connected client, in milliseconds.
pub const CLIENT_TIMEOUT_MS: u64 = 10000;

/// A peer address as plain values: IP bytes and port.
#[derive(Debug, Clone, Copy, PartialEq, Eq, Structural, Hash)]
pub struct Addr {
    pub ip: u128,
    pub port: u16,
}

/// Where a handshake stands.
#[derive(Debug, Clone, Copy, PartialEq, Eq)]
pub enum ConnectionState {
    Disconnected,
    PendingResponse,
    Authenticating,
    Connected,
}

/// One transport-level client record.
#[derive(Debug, Clone, Copy, PartialEq, Eq)]
pub struct Connection {
    pub confirmed: bool,
    pub client_id: u64,
    pub state: ConnectionState,
    /// Whether the asynchronous ticket validation has reported success.
    pub auth_ok: bool,
    /// The validated player identity, null-padded, published with the
    /// success report.
    pub auth_player_id: [u8; 16],
    pub addr: Addr,
    pub last_packet_received_time: u64,
    pub last_packet_send_time: u64,
    pub timeout_ms: u64,
    pub expire_timestamp_ms: u64,
}

/// A ticket validation the caller must run against the identity provider,
/// reporting the outcome through `set_auth_result`.
#[derive(Debug, Clone, PartialEq, Eq)]
pub struct AuthRequest {
    pub addr: Addr,
    pub player_id: Vec<u8>,
    pub session_ticket: Vec<u8>,
}

/// What processing one datagram asks the caller to do.
#[derive(Debug, Clone, PartialEq, Eq)]
pub enum ServerResult {
    /// Nothing needs to be done.
    NoAction,
    /// A packet to send back to the processed address.
    PacketToSend { addr: Addr, payload: Vec<u8> },
    /// A payload received from a connected client.
    Payload { client_id: u64, payload: Vec<u8> },
    /// A new client has connected.
    ClientConnected { client_id: u64, addr: Addr, payload: Vec<u8>, player_id: Vec<u8> },
    /// The client connection has been terminated.
    ClientDisconnected { client_id: u64, addr: Addr, payload: Option<Vec<u8>> },
    /// A trusted peer asked for a new session with the given roster.
    CreateSession { id: u32, player_ids: Vec<Vec<u8>> },
}

/// Configuration of the transport server.
#[derive(Debug, Clone)]
pub struct ServerConfig {
    pub current_time_ms: u64,
    /// Maximum number of clients connected at a time.
    pub max_clients: usize,
    /// Publicly reachable addresses.
    pub public_addresses: Vec<Addr>,
    /// The only client identifier allowed to create sessions.
    pub admin_client_id: u64,
}

/// The slot index holding the client with `id`, or `-1`.
pub open spec fn slot_by_id(clients: Seq<Option<Connection>>, id: u64) -> int
    decreases clients.len(),
{
    if clients.len() == 0 {
        -1
    } else if clients[0] matches Some(c) && c.client_id == id {
        0
    } else {
        let r = slot_by_id(clients.drop_first(), id);
        if r == -1 {
            -1
        } else {
            r + 1
        }
    }
}

/// The slot index holding the client at `addr`, or `-1`.
pub open spec fn slot_by_addr(clients: Seq<Option<Connection>>, addr: Addr) -> int
    decreases clients.len(),
{
    if clients.len() == 0 {
        -1
    } else if clients[0] matches Some(c) && c.addr == addr {
        0
    } else {
        let r = slot_by_addr(clients.drop_first(), addr);
        if r == -1 {
            -1
        } else {
            r + 1
        }
    }
}

/// The index of the pending entry at `addr`, or `-1`.
pub open spec fn pending_at(pending: Seq<(Addr, Connection)>, addr: Addr) -> int
    decreases pending.len(),
{
    if pending.len() == 0 {
        -1
    } else if pending[0].0 == addr {
        0
    } else {
        let r = pending_at(pending.drop_first(), addr);
        if r == -1 {
            -1
        } else {
            r + 1
        }
    }
}

/// The first free slot index, or `-1` when the table is full.
pub open spec fn first_free_slot(clients: Seq<Option<Connection>>) -> int
    decreases clients.len(),
{
    if clients.len() == 0 {
        -1
    } else if clients[0] is None {
        0
    } else {
        let r = first_free_slot(clients.drop_first());
        if r == -1 {
            -1
        } else {
            r + 1
        }
    }
}

/// How many slots are occupied.
pub open spec fn occupied_count(clients: Seq<Option<Connection>>) -> int
    decreases clients.len(),
{
    if clients.len() == 0 {
        0
    } else {
        (if clients[0] is Some {
            1int
        } else {
            0int
        }) + occupied_count(clients.drop_first())
    }
}

/// The connected clients' ids, in slot order.
pub open spec fn slot_ids(clients: Seq<Option<Connection>>) -> Seq<u64>
    decreases clients.len(),
{
    if clients.len() == 0 {
        Seq::empty()
    } else {
        slot_ids(clients.drop_last()) + (if clients.last() is Some {
            seq![clients.last()->Some_0.client_id]
        } else {
            Seq::empty()
        })
    }
}

/// The occupied slot indexes, in slot order.
pub open spec fn occupied_slots(clients: Seq<Option<Connection>>) -> Seq<int>
    decreases clients.len(),
{
    if clients.len() == 0 {
        Seq::empty()
    } else {
        occupied_slots(clients.drop_last()) + (if clients.last() is Some {
            seq![clients.len() - 1]
        } else {
            Seq::empty()
        })
    }
}

/// The pending entries that have not expired at `now`.
pub open spec fn keep_unexpired(pending: Seq<(Addr, Connection)>, now: u64) -> Seq<
    (Addr, Connection),
>
    decreases pending.len(),
{
    if pending.len() == 0 {
        Seq::empty()
    } else if now <= pending[0].1.expire_timestamp_ms {
        seq![pending[0]] + keep_unexpired(pending.drop_first(), now)
    } else {
        keep_unexpired(pending.drop_first(), now)
    }
}

/// What each of the search functions returns: a valid hit, or `-1` exactly
/// when there is none.
pub proof fn lemma_finds(clients: Seq<Option<Connection>>, pending: Seq<(Addr, Connection)>, id: u64, addr: Addr)
    ensures
        -1 <= slot_by_id(clients, id) < clients.len(),
        slot_by_id(clients, id) >= 0 ==> (clients[slot_by_id(clients, id)] matches Some(c)
            && c.client_id == id),
        slot_by_id(clients, id) == -1 ==> forall|i: int|
            0 <= i < clients.len() ==> !((#[trigger] clients[i]) matches Some(c) && c.client_id
                == id),
        -1 <= slot_by_addr(clients, addr) < clients.len(),
        slot_by_addr(clients, addr) >= 0 ==> (clients[slot_by_addr(clients, addr)] matches Some(
            c,
        ) && c.addr == addr),
        slot_by_addr(clients, addr) == -1 ==> forall|i: int|
            0 <= i < clients.len() ==> !((#[trigger] clients[i]) matches Some(c) && c.addr
                == addr),
        -1 <= pending_at(pending, addr) < pending.len(),
        pending_at(pending, addr) >= 0 ==> pending[pending_at(pending, addr)].0 == addr,
        pending_at(pending, addr) == -1 ==> forall|i: int|
            0 <= i < pending.len() ==> (#[trigger] pending[i]).0 != addr,
        -1 <= first_free_slot(clients) < clients.len(),
        first_free_slot(clients) >= 0 ==> clients[first_free_slot(clients)] is None,
        first_free_slot(clients) == -1 ==> forall|i: int|
            0 <= i < clients.len() ==> (#[trigger] clients[i]) is Some,
    decreases clients.len() + pending.len(),
{
    if clients.len() > 0 {
        let d = clients.drop_first();
        lemma_finds(d, pending, id, addr);
        assert(forall|i: int| 1 <= i < clients.len() ==> (#[trigger] clients[i]) == d[i - 1]);
    }
    if pending.len() > 0 {
        let d = pending.drop_first();
        lemma_finds(Seq::empty(), d, id, addr);
        assert(forall|i: int| 1 <= i < pending.len() ==> (#[trigger] pending[i]) == d[i - 1]);
    }
}

/// A server that turns raw datagrams into connection events and replies. It
/// is agnostic of the socket: it only consumes and produces byte strings.
#[derive(Debug)]
pub struct TransportServer {
    clients: Vec<Option<Connection>>,
    pending_clients: Vec<(Addr, Connection)>,
    max_clients: usize,
    public_addresses: Vec<Addr>,
    current_time_ms: u64,
    admin_client_id: u64,
    auth_requests: Vec<AuthRequest>,
}

impl TransportServer {
    /// The slot table.
    pub closed spec fn spec_clients(&self) -> Seq<Option<Connection>> {
        self.clients@
    }

    /// The pending (mid-handshake) table.
    pub closed spec fn spec_pending(&self) -> Seq<(Addr, Connection)> {
        self.pending_clients@
    }

    /// The server clock in milliseconds.
    pub closed spec fn spec_current_time(&self) -> u64 {
        self.current_time_ms
    }

    /// The configured client capacity.
    pub closed spec fn spec_max_clients(&self) -> int {
        self.max_clients as int
    }

    /// The queued ticket validations the caller has not yet taken.
    pub closed spec fn spec_auth_requests(&self) -> Seq<AuthRequest> {
        self.auth_requests@
    }

    /// The only client identifier allowed to create sessions.
    pub closed spec fn spec_admin_client_id(&self) -> u64 {
        self.admin_client_id
    }

    /// The publicly reachable addresses.
    pub closed spec fn spec_addresses(&self) -> Seq<Addr> {
        self.public_addresses@
    }

    /// A client id or address occupies at most one slot; an address is
    /// pending at most once and never both pending and slotted; nothing is
    /// stamped from the future.
    pub closed spec fn inv(&self) -> bool {
        &&& forall|i: int, j: int|
            0 <= i < j < self.clients@.len() && (#[trigger] self.clients@[i]) is Some && (
            #[trigger] self.clients@[j]) is Some ==> self.clients@[i]->Some_0.client_id
                != self.clients@[j]->Some_0.client_id && self.clients@[i]->Some_0.addr
                != self.clients@[j]->Some_0.addr
        &&& forall|i: int, j: int|
            0 <= i < j < self.pending_clients@.len() ==> (
            #[trigger] self.pending_clients@[i]).0 != (#[trigger] self.pending_clients@[j]).0
        &&& forall|k: int, i: int|
            0 <= k < self.pending_clients@.len() && 0 <= i < self.clients@.len() && (
            #[trigger] self.clients@[i]) is Some ==> self.clients@[i]->Some_0.addr != (
            #[trigger] self.pending_clients@[k]).0
        &&& forall|i: int|
            0 <= i < self.clients@.len() && (#[trigger] self.clients@[i]) is Some ==> self.clients@[i]->Some_0.last_packet_received_time
                <= self.current_time_ms && self.clients@[i]->Some_0.last_packet_send_time
                <= self.current_time_ms
        &&& forall|k: int|
            0 <= k < self.pending_clients@.len() ==> (#[trigger] self.pending_clients@[k]).1.addr
                == self.pending_clients@[k].0
        &&& self.pending_clients@.len() <= TRANSPORT_MAX_PENDING_CLIENTS
    }

    /// A fresh server with an empty slot table of the configured capacity.
    #[verifier::loop_isolation(false)]
    pub fn new(config: ServerConfig) -> (r: Self)
        requires
            config.max_clients <= TRANSPORT_MAX_CLIENTS,
        ensures
            r.inv(),
            r.spec_clients().len() == config.max_clients,
            forall|i: int| 0 <= i < r.spec_clients().len() ==> (#[trigger] r.spec_clients()[i]) is None,
            r.spec_pending().len() == 0,
            r.spec_current_time() == config.current_time_ms,
            r.spec_max_clients() == config.max_clients,
            r.spec_auth_requests().len() == 0,
            r.spec_admin_client_id() == config.admin_client_id,
    {
        let mut clients: Vec<Option<Connection>> = Vec::new();
        let mut i: usize = 0;
        while i < config.max_clients
            invariant
                i <= config.max_clients,
                clients@.len() == i,
                forall|k: int| 0 <= k < i ==> (#[trigger] clients@[k]) is None,
            decreases config.max_clients - i,
        {
            clients.push(None);
            i = i + 1;
        }
        TransportServer {
            clients,
            pending_clients: Vec::new(),
            max_clients: config.max_clients,
            public_addresses: config.public_addresses,
            current_time_ms: config.current_time_ms,
            admin_client_id: config.admin_client_id,
            auth_requests: Vec::new(),
        }
    }

    /// The publicly reachable addresses.
    pub fn addresses(&self) -> (r: Vec<Addr>)
        ensures
            r@ == self.spec_addresses(),
    {
        self.public_addresses.clone()
    }

    /// The server clock in milliseconds.
    pub fn current_time(&self) -> (r: u64)
        ensures
            r == self.spec_current_time(),
    {
        self.current_time_ms
    }

    /// Milliseconds since the connected client last sent anything.
    pub fn time_since_last_received_packet(&self, client_id: u64) -> (r: Option<u64>)
        requires
            self.inv(),
        ensures
            slot_by_id(self.spec_clients(), client_id) == -1 ==> r is None,
            slot_by_id(self.spec_clients(), client_id) >= 0 ==> r == Some(
                (self.spec_current_time() - self.spec_clients()[slot_by_id(
                    self.spec_clients(),
                    client_id,
                )]->Some_0.last_packet_received_time) as u64,
            ),
    {
        match self.find_slot_by_id(client_id) {
            None => None,
            Some(slot) => {
                let c = self.clients[slot].as_ref().unwrap();
                Some(self.current_time_ms - c.last_packet_received_time)
            },
        }
    }

    /// The connected client's address.
    pub fn client_addr(&self, client_id: u64) -> (r: Option<Addr>)
        requires
            self.inv(),
        ensures
            slot_by_id(self.spec_clients(), client_id) == -1 ==> r is None,
            slot_by_id(self.spec_clients(), client_id) >= 0 ==> r == Some(
                self.spec_clients()[slot_by_id(self.spec_clients(), client_id)]->Some_0.addr,
            ),
    {
        match self.find_slot_by_id(client_id) {
            None => None,
            Some(slot) => Some(self.clients[slot].as_ref().unwrap().addr),
        }
    }

    /// The slot of the client with `client_id`, if any.
    #[verifier::loop_isolation(false)]
    fn find_slot_by_id(&self, client_id: u64) -> (r: Option<usize>)
        ensures
            slot_by_id(self.spec_clients(), client_id) == -1 <==> r is None,
            r matches Some(s) ==> s == slot_by_id(self.spec_clients(), client_id) && s
                < self.spec_clients().len() && (self.spec_clients()[s as int] matches Some(c)
                && c.client_id == client_id),
    {
        let ghost cs = self.clients@;
        proof {
            lemma_finds(cs, Seq::empty(), client_id, Addr { ip: 0, port: 0 });
        }
        let mut i: usize = 0;
        while i < self.clients.len()
            invariant
                i <= cs.len(),
                self.clients@ == cs,
                forall|k: int|
                    0 <= k < i ==> !((#[trigger] cs[k]) matches Some(c) && c.client_id
                        == client_id),
                slot_by_id(cs, client_id) >= 0 ==> slot_by_id(cs, client_id) >= i,
            decreases cs.len() - i,
        {
            match &self.clients[i] {
                Some(c) => {
                    if c.client_id == client_id {
                        proof {
                            lemma_slot_by_id_first(cs, client_id);
                            let f = slot_by_id(cs, client_id);
                            assert(cs[i as int] matches Some(c2) && c2.client_id == client_id);
                            if f == -1 {
                                lemma_finds(cs, Seq::empty(), client_id, Addr { ip: 0, port: 0 });
                                assert(false);
                            }
                            if f > i {
                                assert(false);
                            }
                            if f < i {
                                assert(false);
                            }
                            assert(f == i);
                        }
                        return Some(i);
                    }
                },
                None => {},
            }
            proof {
                if slot_by_id(cs, client_id) == i {
                    assert(cs[i as int] matches Some(c) && c.client_id == client_id);
                }
            }
            i = i + 1;
        }
        None
    }

    /// The slot of the client at `addr`, if any.
    #[verifier::loop_isolation(false)]
    fn find_slot_by_addr(&self, addr: Addr) -> (r: Option<usize>)
        ensures
            slot_by_addr(self.spec_clients(), addr) == -1 <==> r is None,
            r matches Some(s) ==> s == slot_by_addr(self.spec_clients(), addr) && s
                < self.spec_clients().len() && (self.spec_clients()[s as int] matches Some(c)
                && c.addr == addr),
    {
        let ghost cs = self.clients@;
        proof {
            lemma_finds(cs, Seq::empty(), 0, addr);
        }
        let mut i: usize = 0;
        while i < self.clients.len()
            invariant
                i <= cs.len(),
                self.clients@ == cs,
                forall|k: int|
                    0 <= k < i ==> !((#[trigger] cs[k]) matches Some(c) && c.addr == addr),
                slot_by_addr(cs, addr) >= 0 ==> slot_by_addr(cs, addr) >= i,
            decreases cs.len() - i,
        {
            match &self.clients[i] {
                Some(c) => {
                    if c.addr.ip == addr.ip && c.addr.port == addr.port {
                        proof {
                            assert(c.addr == addr);
                            lemma_slot_by_addr_first(cs, addr);
                            let f = slot_by_addr(cs, addr);
                            assert(cs[i as int] matches Some(c2) && c2.addr == addr);
                            if f == -1 {
                                lemma_finds(cs, Seq::empty(), 0, addr);
                                assert(false);
                            }
                            if f > i {
                                assert(false);
                            }
                            if f < i {
                                assert(false);
                            }
                            assert(f == i);
                        }
                        return Some(i);
                    }
                },
                None => {},
            }
            proof {
                if slot_by_addr(cs, addr) == i {
                    assert(cs[i as int] matches Some(c) && c.addr == addr);
                }
            }
            i = i + 1;
        }
        None
    }

    /// The index of the pending entry at `addr`, if any.
    #[verifier::loop_isolation(false)]
    fn find_pending(&self, addr: Addr) -> (r: Option<usize>)
        ensures
            pending_at(self.spec_pending(), addr) == -1 <==> r is None,
            r matches Some(s) ==> s == pending_at(self.spec_pending(), addr) && s
                < self.spec_pending().len() && self.spec_pending()[s as int].0 == addr,
    {
        let ghost ps = self.pending_clients@;
        proof {
            lemma_finds(Seq::empty(), ps, 0, addr);
        }
        let mut i: usize = 0;
        while i < self.pending_clients.len()
            invariant
                i <= ps.len(),
                self.pending_clients@ == ps,
                forall|k: int| 0 <= k < i ==> (#[trigger] ps[k]).0 != addr,
                pending_at(ps, addr) >= 0 ==> pending_at(ps, addr) >= i,
            decreases ps.len() - i,
        {
            if self.pending_clients[i].0.ip == addr.ip && self.pending_clients[i].0.port
                == addr.port {
                proof {
                    assert(ps[i as int].0 == addr);
                    lemma_pending_at_first(ps, addr);
                    let f = pending_at(ps, addr);
                    if f == -1 {
                        lemma_finds(Seq::empty(), ps, 0, addr);
                        assert(false);
                    }
                    if f > i {
                        assert(false);
                    }
                    if f < i {
                        assert(false);
                    }
                    assert(f == i);
                }
                return Some(i);
            }
            proof {
                if pending_at(ps, addr) == i {
                    assert(ps[i as int].0 == addr);
                }
            }
            i = i + 1;
        }
        None
    }

    /// How many clients are connected.
    #[verifier::loop_isolation(false)]
    pub fn connected_clients(&self) -> (r: usize)
        ensures
            r == occupied_count(self.spec_clients()),
    {
        let ghost cs = self.clients@;
        let mut n: usize = 0;
        let mut i: usize = 0;
        proof {
            assert(cs.skip(0) =~= cs);
        }
        while i < self.clients.len()
            invariant
                i <= cs.len(),
                self.clients@ == cs,
                n <= i,
                occupied_count(cs) == n + occupied_count(cs.skip(i as int)),
            decreases cs.len() - i,
        {
            let ghost rem = cs.skip(i as int);
            proof {
                assert(rem[0] == cs[i as int]);
                assert(rem.drop_first() =~= cs.skip(i as int + 1));
            }
            if self.clients[i].is_some() {
                n = n + 1;
            }
            i = i + 1;
        }
        proof {
            assert(cs.skip(cs.len() as int) =~= Seq::<Option<Connection>>::empty());
        }
        n
    }

    /// The occupied slot indexes, in slot order.
    #[verifier::loop_isolation(false)]
    pub fn clients_slot(&self) -> (r: Vec<usize>)
        ensures
            Seq::new(r@.len(), |k: int| r@[k] as int) == occupied_slots(self.spec_clients()),
            forall|i: int|
                0 <= i < r@.len() ==> (#[trigger] r@[i]) < self.spec_clients().len()
                    && self.spec_clients()[r@[i] as int] is Some,
    {
        let ghost cs = self.clients@;
        let mut r: Vec<usize> = Vec::new();
        let mut i: usize = 0;
        proof {
            assert(occupied_slots(cs.take(0)) =~= Seq::<int>::empty());
            assert(Seq::new(r@.len(), |k: int| r@[k] as int) =~= Seq::<int>::empty());
        }
        while i < self.clients.len()
            invariant
                i <= cs.len(),
                Seq::new(r@.len(), |k: int| r@[k] as int) == occupied_slots(cs.take(i as int)),
                forall|k: int|
                    0 <= k < r@.len() ==> (#[trigger] r@[k]) < cs.len() && cs[r@[k] as int]
                        is Some,
            decreases cs.len() - i,
        {
            proof {
                assert(cs.take(i as int + 1).drop_last() =~= cs.take(i as int));
                assert(cs.take(i as int + 1).last() == cs[i as int]);
            }
            if self.clients[i].is_some() {
                r.push(i);
                proof {
                    assert(Seq::new(r@.len(), |k: int| r@[k] as int) =~= occupied_slots(
                        cs.take(i as int + 1),
                    ));
                }
            } else {
                proof {
                    assert(occupied_slots(cs.take(i as int)) + Seq::<int>::empty()
                        =~= occupied_slots(cs.take(i as int)));
                }
            }
            i = i + 1;
        }
        proof {
            assert(cs.take(cs.len() as int) =~= cs);
        }
        r
    }

    /// The connected clients' ids, in slot order.
    #[verifier::loop_isolation(false)]
    pub fn clients_id(&self) -> (r: Vec<u64>)
        ensures
            r@ == slot_ids(self.spec_clients()),
            forall|i: int|
                0 <= i < r@.len() ==> slot_by_id(self.spec_clients(), #[trigger] r@[i]) >= 0,
    {
        let ghost cs = self.clients@;
        let mut r: Vec<u64> = Vec::new();
        let mut i: usize = 0;
        proof {
            assert(slot_ids(cs.take(0)) =~= Seq::<u64>::empty());
        }
        while i < self.clients.len()
            invariant
                i <= cs.len(),
                r@ == slot_ids(cs.take(i as int)),
                forall|k: int| 0 <= k < r@.len() ==> slot_by_id(cs, #[trigger] r@[k]) >= 0,
            decreases cs.len() - i,
        {
            proof {
                assert(cs.take(i as int + 1).drop_last() =~= cs.take(i as int));
                assert(cs.take(i as int + 1).last() == cs[i as int]);
            }
            match &self.clients[i] {
                Some(c) => {
                    let id = c.client_id;
                    proof {
                        lemma_finds(cs, Seq::empty(), id, Addr { ip: 0, port: 0 });
                        if slot_by_id(cs, id) == -1 {
                            assert(!(cs[i as int] matches Some(c2) && c2.client_id == id));
                        }
                    }
                    r.push(id);
                    proof {
                        assert(r@ =~= slot_ids(cs.take(i as int + 1)));
                    }
                },
                None => {
                    proof {
                        assert(slot_ids(cs.take(i as int)) + Seq::<u64>::empty() =~= slot_ids(
                            cs.take(i as int),
                        ));
                    }
                },
            }
            i = i + 1;
        }
        proof {
            assert(cs.take(cs.len() as int) =~= cs);
        }
        r
    }

    /// The configured client capacity.
    pub fn max_clients(&self) -> (r: usize)
        ensures
            r == self.spec_max_clients(),
    {
        self.max_clients
    }

    /// Whether a client with `client_id` holds a slot.
    pub fn is_client_connected(&self, client_id: u64) -> (r: bool)
        ensures
            r == (slot_by_id(self.spec_clients(), client_id) >= 0),
    {
        self.find_slot_by_id(client_id).is_some()
    }


    /// Raises or lowers the configured capacity. Lowering it below the
    /// current number of connected clients disconnects nobody.
    pub fn set_max_clients(&mut self, max_clients: usize)
        requires
            old(self).inv(),
        ensures
            final(self).inv(),
            final(self).spec_max_clients() == max_clients,
            final(self).spec_clients() == old(self).spec_clients(),
            final(self).spec_pending() == old(self).spec_pending(),
            final(self).spec_current_time() == old(self).spec_current_time(),
    {
        self.max_clients = max_clients;
    }

    /// Wraps an application payload in a Data frame for the connected
    /// client, refreshing its send stamp; an unknown client is refused.
    pub fn generate_payload_packet(&mut self, client_identifier: u64, payload: &Vec<u8>) -> (r:
        Result<(Addr, Vec<u8>), TransportServerError>)
        requires
            old(self).inv(),
        ensures
            final(self).inv(),
            final(self).spec_pending() == old(self).spec_pending(),
            final(self).spec_current_time() == old(self).spec_current_time(),
            final(self).spec_auth_requests() == old(self).spec_auth_requests(),
            slot_by_id(old(self).spec_clients(), client_identifier) == -1 ==> r == Err::<
                (Addr, Vec<u8>),
                TransportServerError,
            >(TransportServerError::ClientNotFound) && final(self).spec_clients() == old(self).spec_clients(),
            slot_by_id(old(self).spec_clients(), client_identifier) >= 0 ==> (r matches Ok(av)
                && av.0 == old(self).spec_clients()[slot_by_id(
                old(self).spec_clients(),
                client_identifier,
            )]->Some_0.addr && av.1@ == spec_tencode(
                SpecTPacket::Data { client_identifier, payload: payload@ },
            ) && final(self).spec_clients().len() == old(self).spec_clients().len() && (final(self).spec_clients()[slot_by_id(old(self).spec_clients(), client_identifier)]
                matches Some(c) && c == send_stamped(
                old(self).spec_clients()[slot_by_id(
                    old(self).spec_clients(),
                    client_identifier,
                )]->Some_0,
                old(self).spec_current_time(),
            )) && (forall|i: int|
                0 <= i < old(self).spec_clients().len() && i != slot_by_id(
                    old(self).spec_clients(),
                    client_identifier,
                ) ==> (#[trigger] final(self).spec_clients()[i]) == old(self).spec_clients()[i])),
    {
        let ghost cs = self.clients@;
        match self.find_slot_by_id(client_identifier) {
            None => Err(TransportServerError::ClientNotFound),
            Some(slot) => {
                let mut c = *self.clients[slot].as_ref().unwrap();
                let a = c.addr;
                c.last_packet_send_time = self.current_time_ms;
                self.clients.set(slot, Some(c));
                let p = Packet::Data { client_identifier, payload: payload.clone() };
                let bytes = match p.encode() {
                    Ok(v) => v,
                    Err(_) => vstd::pervasive::unreached(),
                };
                proof {
                    assert(forall|i: int|
                        0 <= i < cs.len() && i != slot ==> (#[trigger] self.clients@[i])
                            == cs[i]);
                }
                Ok((a, bytes))
            },
        }
    }

    /// Handles a connection request: a peer already slotted (by address or
    /// id) is ignored; a new peer is dropped silently when the pending table
    /// is full; when the slot table is full the pending entry is dropped;
    /// otherwise a pending entry is created or refreshed and the request is
    /// answered with side 2.
    fn handle_connection_request(
        &mut self,
        addr: Addr,
        connection_prefix: [u8; 3],
        client_identifier: u64,
    ) -> (r: ServerResult)
        requires
            old(self).inv(),
        ensures
            final(self).inv(),
            spec_open_handshake(
                *old(self),
                *final(self),
                r,
                addr,
                connection_prefix@,
                client_identifier,
            ),
    {
        let ghost cs = self.clients@;
        let ghost ps = self.pending_clients@;
        let addr_already_connected = self.find_slot_by_addr(addr).is_some();
        let id_already_connected = self.find_slot_by_id(client_identifier).is_some();
        if id_already_connected || addr_already_connected {
            return ServerResult::NoAction;
        }
        let pend = self.find_pending(addr);
        if pend.is_none() && self.pending_clients.len() >= TRANSPORT_MAX_PENDING_CLIENTS {
            return ServerResult::NoAction;
        }
        if self.connected_clients() >= self.max_clients {
            match pend {
                Some(i) => {
                    self.pending_clients.remove(i);
                    proof {
                        assert(forall|a: int, b: int|
                            0 <= a < b < self.pending_clients@.len() ==> (
                            #[trigger] self.pending_clients@[a]).0 != (
                            #[trigger] self.pending_clients@[b]).0) by {
                            assert(forall|a: int|
                                0 <= a < self.pending_clients@.len() ==> (
                                #[trigger] self.pending_clients@[a]) == ps[if a < i {
                                    a
                                } else {
                                    a + 1
                                }]);
                        }
                    }
                },
                None => {},
            }
            return ServerResult::NoAction;
        }
        let p = Packet::ConnectionRequest {
            connection_prefix,
            connection_side_id: 2,
            client_identifier,
        };
        let bytes = match p.encode() {
            Ok(v) => v,
            Err(_) => vstd::pervasive::unreached(),
        };
        match pend {
            Some(i) => {
                let mut e = self.pending_clients[i].1;
                e.last_packet_received_time = self.current_time_ms;
                e.last_packet_send_time = self.current_time_ms;
                let a = self.pending_clients[i].0;
                self.pending_clients.set(i, (a, e));
                proof {
                    assert(forall|k: int|
                        0 <= k < ps.len() && k != i ==> (#[trigger] self.pending_clients@[k])
                            == ps[k]);
                    assert(self.pending_clients@[i as int].0 == ps[i as int].0);
                    lemma_finds(cs, self.pending_clients@, client_identifier, addr);
                    if pending_at(self.pending_clients@, addr) == -1 {
                        assert(self.pending_clients@[i as int].0 != addr);
                        assert(false);
                    }
                }
            },
            None => {
                let entry = Connection {
                    confirmed: false,
                    client_id: client_identifier,
                    state: ConnectionState::PendingResponse,
                    auth_ok: false,
                    auth_player_id: [0; 16],
                    addr,
                    last_packet_received_time: self.current_time_ms,
                    last_packet_send_time: self.current_time_ms,
                    timeout_ms: CLIENT_TIMEOUT_MS,
                    expire_timestamp_ms: sat_add_exec(self.current_time_ms, PENDING_EXPIRE_MS),
                };
                self.pending_clients.push((addr, entry));
                proof {
                    assert(forall|k: int|
                        0 <= k < ps.len() ==> (#[trigger] self.pending_clients@[k]) == ps[k]);
                    lemma_finds(Seq::empty(), ps, 0, addr);
                    lemma_finds(cs, self.pending_clients@, client_identifier, addr);
                    if pending_at(self.pending_clients@, addr) == -1 {
                        assert(self.pending_clients@[ps.len() as int].0 != addr);
                        assert(false);
                    }
                }
            },
        }
        ServerResult::PacketToSend { addr, payload: bytes }
    }

    /// Processes one datagram from `addr`. A connected peer's Data becomes a
    /// `Payload` event, its Disconnect frees the slot; a pending peer walks
    /// the handshake: its auth preamble starts a ticket validation, and once
    /// the validation has succeeded its next Data takes a slot and becomes
    /// `ClientConnected`; an unknown peer may open a handshake, and the
    /// configured admin identifier may create sessions. Undecodable or
    /// unexpected datagrams do nothing.
    #[verifier::loop_isolation(false)]
    #[verifier::rlimit(100)]
    pub fn process_packet(&mut self, addr: Addr, buffer: &[u8]) -> (r: ServerResult)
        requires
            old(self).inv(),
        ensures
            final(self).inv(),
            final(self).spec_current_time() == old(self).spec_current_time(),
            final(self).spec_max_clients() == old(self).spec_max_clients(),
            spec_tdecode(buffer@) is Err ==> r == ServerResult::NoAction && final(self).spec_clients() == old(self).spec_clients() && final(self).spec_pending() == old(self).spec_pending() && final(self).spec_auth_requests() == old(self).spec_auth_requests(),
            slot_by_addr(old(self).spec_clients(), addr) >= 0 && old(self).spec_clients()[
                slot_by_addr(old(self).spec_clients(), addr)
            ]->Some_0.state == ConnectionState::Connected ==> {
                &&& (spec_tdecode(buffer@) matches Ok(SpecTPacket::Data { payload, .. }) ==> (r
                    matches ServerResult::Payload { client_id, payload: rp } && client_id == old(self).spec_clients()[slot_by_addr(old(self).spec_clients(), addr)]->Some_0.client_id
                    && rp@ == payload))
                &&& (spec_tdecode(buffer@) matches Ok(SpecTPacket::Disconnect { .. }) ==> (r
                    matches ServerResult::ClientDisconnected { client_id, addr: ra, payload }
                    && client_id == old(self).spec_clients()[slot_by_addr(
                    old(self).spec_clients(),
                    addr,
                )]->Some_0.client_id && ra == addr && payload is None && final(self).spec_clients()[slot_by_addr(old(self).spec_clients(), addr)] is None))
                &&& (spec_tdecode(buffer@) matches Ok(SpecTPacket::KeepAlive { .. }) ==> (r
                    == ServerResult::NoAction && (final(self).spec_clients()[slot_by_addr(
                    old(self).spec_clients(),
                    addr,
                )] matches Some(c) && c.confirmed && c.last_packet_received_time == old(self).spec_current_time())))
                &&& (spec_tdecode(buffer@) matches Ok(SpecTPacket::Data { .. }) ==> (final(self).spec_clients()[slot_by_addr(
                    old(self).spec_clients(),
                    addr,
                )] matches Some(c) && c.confirmed && c.last_packet_received_time == old(self).spec_current_time()))
            },
            slot_by_addr(old(self).spec_clients(), addr) == -1 ==> (spec_tdecode(buffer@)
                matches Ok(
                SpecTPacket::ConnectionRequest {
                    connection_prefix,
                    connection_side_id,
                    client_identifier,
                },
            ) ==> {
                &&& (connection_side_id == 1 ==> spec_open_handshake(
                    *old(self),
                    *final(self),
                    r,
                    addr,
                    connection_prefix,
                    client_identifier,
                ))
                &&& (connection_side_id != 1 ==> r == ServerResult::NoAction && final(self).spec_clients() == old(self).spec_clients() && final(self).spec_pending()
                    == old(self).spec_pending() && final(self).spec_auth_requests() == old(self).spec_auth_requests())
            }),
            slot_by_addr(old(self).spec_clients(), addr) == -1 && pending_at(
                old(self).spec_pending(),
                addr,
            ) >= 0 && old(self).spec_pending()[pending_at(old(self).spec_pending(), addr)].1.state
                == ConnectionState::PendingResponse ==> (spec_tdecode(buffer@) matches Ok(
                SpecTPacket::Data { client_identifier, payload },
            ) ==> (valid_preamble(payload) ==> {
                &&& (r matches ServerResult::PacketToSend { addr: ra, payload: reply } && ra
                    == addr && reply@ == spec_tencode(
                    SpecTPacket::KeepAlive { client_identifier },
                ))
                &&& final(self).spec_auth_requests().len() == old(self).spec_auth_requests().len() + 1
                &&& (final(self).spec_auth_requests().last().addr == addr && final(self).spec_auth_requests().last().player_id@ == crate::transport_packet::trim_zeros(
                    payload.subrange(6, 22),
                ) && final(self).spec_auth_requests().last().session_ticket@
                    == crate::transport_packet::trim_zeros(
                    payload.subrange(22, payload.len() as int),
                ))
                &&& pending_at(final(self).spec_pending(), addr) >= 0
                &&& final(self).spec_pending()[pending_at(final(self).spec_pending(), addr)].1.state
                    == ConnectionState::Authenticating
            }) && (!valid_preamble(payload) ==> r == ServerResult::NoAction && pending_at(
                final(self).spec_pending(),
                addr,
            ) == -1)),
            slot_by_addr(old(self).spec_clients(), addr) == -1 && pending_at(
                old(self).spec_pending(),
                addr,
            ) >= 0 && old(self).spec_pending()[pending_at(old(self).spec_pending(), addr)].1.state
                == ConnectionState::Authenticating && old(self).spec_pending()[pending_at(
                old(self).spec_pending(),
                addr,
            )].1.auth_ok && slot_by_id(
                old(self).spec_clients(),
                old(self).spec_pending()[pending_at(
                    old(self).spec_pending(),
                    addr,
                )].1.client_id,
            ) == -1 && first_free_slot(old(self).spec_clients()) >= 0 ==> (spec_tdecode(buffer@)
                matches Ok(SpecTPacket::Data { client_identifier, .. }) ==> {
                &&& (r matches ServerResult::ClientConnected {
                    client_id,
                    addr: ra,
                    payload: reply,
                    player_id,
                } && client_id == old(self).spec_pending()[pending_at(
                    old(self).spec_pending(),
                    addr,
                )].1.client_id && ra == addr && reply@ == spec_tencode(
                    SpecTPacket::KeepAlive { client_identifier },
                ) && player_id@ == crate::transport_packet::trim_zeros(
                    old(self).spec_pending()[pending_at(
                        old(self).spec_pending(),
                        addr,
                    )].1.auth_player_id@,
                ))
                &&& (final(self).spec_clients()[first_free_slot(old(self).spec_clients())]
                    matches Some(c) && c.state == ConnectionState::Connected && c.client_id
                    == old(self).spec_pending()[pending_at(
                    old(self).spec_pending(),
                    addr,
                )].1.client_id && c.addr == addr)
                &&& pending_at(final(self).spec_pending(), addr) == -1
            }),
            slot_by_addr(old(self).spec_clients(), addr) == -1 && pending_at(
                old(self).spec_pending(),
                addr,
            ) == -1 ==> (spec_tdecode(buffer@) matches Ok(
                SpecTPacket::CreateSession { client_identifier, session_id, player_ids },
            ) ==> (client_identifier == old(self).spec_admin_client_id() ==> (r
                matches ServerResult::CreateSession { id, player_ids: ids } && id == session_id
                && ids_view(ids@) == player_ids)) && (client_identifier != old(self).spec_admin_client_id() ==> r == ServerResult::NoAction)),
    {
        let ghost cs = self.clients@;
        let ghost ps = self.pending_clients@;
        // connected peer
        match self.find_slot_by_addr(addr) {
            Some(slot) => {
                let packet = match Packet::decode(buffer) {
                    Err(_) => {
                        return ServerResult::NoAction;
                    },
                    Ok(p) => p,
                };
                let ghost pv = packet@;
                let mut c = *self.clients[slot].as_ref().unwrap();
                c.last_packet_received_time = self.current_time_ms;
                let client_id = c.client_id;
                let caddr = c.addr;
                let is_connected_state = matches!(c.state, ConnectionState::Connected);
                if !is_connected_state {
                    self.clients.set(slot, Some(c));
                    proof {
                        assert(forall|i: int|
                            0 <= i < cs.len() && i != slot ==> (#[trigger] self.clients@[i])
                                == cs[i]);
                    }
                    return ServerResult::NoAction;
                }
                match packet {
                    Packet::Disconnect { .. } => {
                        self.clients.set(slot, None);
                        proof {
                            assert(forall|i: int|
                                0 <= i < cs.len() && i != slot ==> (
                                #[trigger] self.clients@[i]) == cs[i]);
                        }
                        return ServerResult::ClientDisconnected {
                            client_id,
                            addr,
                            payload: None,
                        };
                    },
                    Packet::Data { payload, .. } => {
                        c.confirmed = true;
                        self.clients.set(slot, Some(c));
                        proof {
                            assert(forall|i: int|
                                0 <= i < cs.len() && i != slot ==> (
                                #[trigger] self.clients@[i]) == cs[i]);
                            assert(pv matches SpecTPacket::Data { payload: p2, .. } && p2
                                == payload@);
                        }
                        return ServerResult::Payload { client_id, payload };
                    },
                    Packet::KeepAlive { .. } => {
                        c.confirmed = true;
                        self.clients.set(slot, Some(c));
                        proof {
                            assert(forall|i: int|
                                0 <= i < cs.len() && i != slot ==> (
                                #[trigger] self.clients@[i]) == cs[i]);
                        }
                        return ServerResult::NoAction;
                    },
                    _ => {
                        self.clients.set(slot, Some(c));
                        proof {
                            assert(forall|i: int|
                                0 <= i < cs.len() && i != slot ==> (
                                #[trigger] self.clients@[i]) == cs[i]);
                        }
                        return ServerResult::NoAction;
                    },
                }
            },
            None => {},
        }
        // pending peer
        match self.find_pending(addr) {
            Some(pidx) => {
                let packet = match Packet::decode(buffer) {
                    Err(_) => {
                        return ServerResult::NoAction;
                    },
                    Ok(p) => p,
                };
                let ghost packet_view = packet@;
                match packet {
                    Packet::ConnectionRequest {
                        connection_prefix,
                        connection_side_id,
                        client_identifier,
                    } => {
                        proof {
                            assert(packet_view matches SpecTPacket::ConnectionRequest {
                                connection_prefix: p2,
                                connection_side_id: s2,
                                client_identifier: c2,
                            } && p2 == connection_prefix@ && s2 == connection_side_id && c2
                                == client_identifier);
                        }
                        if connection_side_id == 1 {
                            return self.handle_connection_request(
                                addr,
                                connection_prefix,
                                client_identifier,
                            );
                        } else {
                            return ServerResult::NoAction;
                        }
                    },
                    Packet::Data { client_identifier, payload } => {
                        let mut pending = self.pending_clients[pidx].1;
                        pending.last_packet_received_time = self.current_time_ms;
                        self.pending_clients.remove(pidx);
                        proof {
                            lemma_remove_keeps_unique(ps, pidx as int, self.pending_clients@);
                        }
                        match pending.state {
                            ConnectionState::Authenticating => {
                                if pending.auth_ok {
                                    if self.find_slot_by_id(pending.client_id).is_some() {
                                        return ServerResult::NoAction;
                                    }
                                    match self.first_free_slot_exec() {
                                        None => {
                                            let p = Packet::Disconnect { client_identifier };
                                            let bytes = match p.encode() {
                                                Ok(v) => v,
                                                Err(_) => vstd::pervasive::unreached(),
                                            };
                                            return ServerResult::PacketToSend {
                                                addr,
                                                payload: bytes,
                                            };
                                        },
                                        Some(free) => {
                                            pending.state = ConnectionState::Connected;
                                            pending.last_packet_send_time =
                                                self.current_time_ms;
                                            let p = Packet::KeepAlive { client_identifier };
                                            let bytes = match p.encode() {
                                                Ok(v) => v,
                                                Err(_) => vstd::pervasive::unreached(),
                                            };
                                            let new_client_id = pending.client_id;
                                            let mut pid_vec: Vec<u8> = Vec::new();
                                            let mut pj: usize = 0;
                                            while pj < 16
                                                invariant
                                                    pj <= 16,
                                                    pid_vec@ == pending.auth_player_id@.take(
                                                        pj as int,
                                                    ),
                                                decreases 16 - pj,
                                            {
                                                pid_vec.push(pending.auth_player_id[pj]);
                                                proof {
                                                    assert(pid_vec@
                                                        =~= pending.auth_player_id@.take(
                                                        pj as int + 1,
                                                    ));
                                                }
                                                pj = pj + 1;
                                            }
                                            proof {
                                                assert(pending.auth_player_id@.take(16)
                                                    =~= pending.auth_player_id@);
                                            }
                                            let player_id =
                                                crate::transport_packet::trim_zeros_exec(
                                                pid_vec,
                                            );
                                            let ghost cs2 = self.clients@;
                                            proof {
                                                assert(cs2 == cs);
                                                lemma_finds(
                                                    cs,
                                                    self.pending_clients@,
                                                    pending.client_id,
                                                    addr,
                                                );
                                                assert(pending.addr == ps[pidx as int].0);
                                                assert(forall|k: int|
                                                    0 <= k < self.pending_clients@.len() ==> (
                                                    #[trigger] self.pending_clients@[k]).0
                                                        != addr) by {
                                                    assert(forall|k: int|
                                                        0 <= k < self.pending_clients@.len()
                                                            ==> (
                                                        #[trigger] self.pending_clients@[k])
                                                            == (if k < pidx {
                                                            ps[k]
                                                        } else {
                                                            ps[k + 1]
                                                        }));
                                                }
                                            }
                                            self.clients.set(free, Some(pending));
                                            proof {
                                                assert(forall|i: int|
                                                    0 <= i < cs2.len() && i != free ==> (
                                                    #[trigger] self.clients@[i]) == cs2[i]);
                                            }
                                            return ServerResult::ClientConnected {
                                                client_id: new_client_id,
                                                addr,
                                                payload: bytes,
                                                player_id,
                                            };
                                        },
                                    }
                                } else {
                                    let a = addr;
                                    self.pending_clients.push((a, pending));
                                    return ServerResult::NoAction;
                                }
                            },
                            ConnectionState::PendingResponse => {
                                pending.state = ConnectionState::Authenticating;
                                proof {
                                    lemma_finds(Seq::empty(), ps, 0, addr);
                                    assert(ps[pidx as int].0 == addr);
                                    assert forall|k: int|
                                        0 <= k < self.pending_clients@.len() implies (
                                    #[trigger] self.pending_clients@[k]).0 != addr by {
                                        if k < pidx {
                                            assert(self.pending_clients@[k] == ps[k]);
                                        } else {
                                            assert(self.pending_clients@[k] == ps[k + 1]);
                                        }
                                    }
                                }
                                if payload.len() < 22 || payload[0] != 0 || payload[1] != 1
                                    || payload[5] != 0 {
                                    proof {
                                        lemma_finds(
                                            Seq::empty(),
                                            self.pending_clients@,
                                            0,
                                            addr,
                                        );
                                        if pending_at(self.pending_clients@, addr) >= 0 {
                                            assert(false);
                                        }
                                    }
                                    return ServerResult::NoAction;
                                }
                                let player_raw = crate::wire::read_bytes(
                                    payload.as_slice(),
                                    6,
                                    16,
                                );
                                let player_id = crate::transport_packet::trim_zeros_exec(
                                    player_raw,
                                );
                                let ticket_raw = crate::wire::read_bytes(
                                    payload.as_slice(),
                                    22,
                                    payload.len() - 22,
                                );
                                let session_ticket = crate::transport_packet::trim_zeros_exec(
                                    ticket_raw,
                                );
                                self.auth_requests.push(
                                    AuthRequest { addr, player_id, session_ticket },
                                );
                                pending.last_packet_send_time = self.current_time_ms;
                                let p = Packet::KeepAlive { client_identifier };
                                let bytes = match p.encode() {
                                    Ok(v) => v,
                                    Err(_) => vstd::pervasive::unreached(),
                                };
                                let ghost ps2 = self.pending_clients@;
                                self.pending_clients.push((addr, pending));
                                proof {
                                    lemma_finds(Seq::empty(), self.pending_clients@, 0, addr);
                                    lemma_pending_at_first(self.pending_clients@, addr);
                                    let at = pending_at(self.pending_clients@, addr);
                                    assert(self.pending_clients@[ps2.len() as int].0 == addr);
                                    if at == -1 {
                                        assert(false);
                                    }
                                    if at < ps2.len() {
                                        assert(self.pending_clients@[at] == ps2[at]);
                                        assert(false);
                                    }
                                    assert(at == ps2.len());
                                }
                                return ServerResult::PacketToSend { addr, payload: bytes };
                            },
                            _ => {
                                return ServerResult::NoAction;
                            },
                        }
                    },
                    _ => {
                        return ServerResult::NoAction;
                    },
                }
            },
            None => {},
        }
        // unknown peer
        let packet = match Packet::decode(buffer) {
            Err(_) => {
                return ServerResult::NoAction;
            },
            Ok(p) => p,
        };
        let ghost packet_view = packet@;
        match packet {
            Packet::ConnectionRequest {
                connection_prefix,
                connection_side_id,
                client_identifier,
            } => {
                if connection_side_id == 1 {
                    self.handle_connection_request(addr, connection_prefix, client_identifier)
                } else {
                    ServerResult::NoAction
                }
            },
            Packet::CreateSession { client_identifier, session_id, player_ids } => {
                if client_identifier == self.admin_client_id {
                    proof {
                        assert(packet_view matches SpecTPacket::CreateSession {
                            player_ids: pp,
                            ..
                        } && pp == crate::transport_packet::ids_view(player_ids@));
                    }
                    ServerResult::CreateSession { id: session_id, player_ids }
                } else {
                    ServerResult::NoAction
                }
            },
            _ => ServerResult::NoAction,
        }
    }

    /// The first free slot, if any.
    #[verifier::loop_isolation(false)]
    fn first_free_slot_exec(&self) -> (r: Option<usize>)
        ensures
            first_free_slot(self.spec_clients()) == -1 <==> r is None,
            r matches Some(s) ==> s == first_free_slot(self.spec_clients()) && s
                < self.spec_clients().len() && self.spec_clients()[s as int] is None,
    {
        let ghost cs = self.clients@;
        proof {
            lemma_finds(cs, Seq::empty(), 0, Addr { ip: 0, port: 0 });
        }
        let mut i: usize = 0;
        while i < self.clients.len()
            invariant
                i <= cs.len(),
                forall|k: int| 0 <= k < i ==> (#[trigger] cs[k]) is Some,
                first_free_slot(cs) >= 0 ==> first_free_slot(cs) >= i,
            decreases cs.len() - i,
        {
            if self.clients[i].is_none() {
                proof {
                    lemma_first_free_first(cs);
                    let f = first_free_slot(cs);
                    if f == -1 {
                        assert(cs[i as int] is Some);
                        assert(false);
                    }
                    if f > i {
                        assert(cs[i as int] is Some);
                        assert(false);
                    }
                    if f < i {
                        assert(cs[f] is Some);
                        assert(false);
                    }
                }
                return Some(i);
            }
            proof {
                if first_free_slot(cs) == i {
                    assert(cs[i as int] is None);
                }
            }
            i = i + 1;
        }
        None
    }

    /// Advances the server clock and drops every pending handshake whose
    /// expiry has passed; eviction restores pending capacity.
    #[verifier::loop_isolation(false)]
    pub fn update(&mut self, duration_ms: u64)
        requires
            old(self).inv(),
        ensures
            final(self).inv(),
            final(self).spec_current_time() == sat_add(
                old(self).spec_current_time(),
                duration_ms,
            ),
            final(self).spec_pending() == keep_unexpired(
                old(self).spec_pending(),
                sat_add(old(self).spec_current_time(), duration_ms),
            ),
            final(self).spec_clients() == old(self).spec_clients(),
            final(self).spec_max_clients() == old(self).spec_max_clients(),
            final(self).spec_auth_requests() == old(self).spec_auth_requests(),
    {
        self.current_time_ms = sat_add_exec(self.current_time_ms, duration_ms);
        let now = self.current_time_ms;
        let ghost ps = self.pending_clients@;
        proof {
            lemma_keep_unexpired_props(ps, now);
            assert(ps.skip(0) =~= ps);
        }
        let mut kept: Vec<(Addr, Connection)> = Vec::new();
        let mut i: usize = 0;
        while i < self.pending_clients.len()
            invariant
                i <= ps.len(),
                self.pending_clients@ == ps,
                keep_unexpired(ps, now) == kept@ + keep_unexpired(ps.skip(i as int), now),
            decreases ps.len() - i,
        {
            let ghost rem = ps.skip(i as int);
            proof {
                assert(rem[0] == ps[i as int]);
                assert(rem.drop_first() =~= ps.skip(i as int + 1));
            }
            if now <= self.pending_clients[i].1.expire_timestamp_ms {
                let ghost k0 = kept@;
                let a = self.pending_clients[i].0;
                let e = self.pending_clients[i].1;
                proof {
                    assert((a, e) == ps[i as int]);
                }
                kept.push((a, e));
                proof {
                    assert(kept@ =~= k0.push(rem[0]));
                    assert(k0.push(rem[0]) + keep_unexpired(ps.skip(i as int + 1), now) =~= k0
                        + (seq![rem[0]] + keep_unexpired(ps.skip(i as int + 1), now)));
                }
            }
            i = i + 1;
        }
        proof {
            assert(ps.skip(ps.len() as int) =~= Seq::<(Addr, Connection)>::empty());
            assert(kept@ + Seq::<(Addr, Connection)>::empty() =~= kept@);
        }
        self.pending_clients = kept;
    }

    /// Ticks one connected client: past its idle timeout it is disconnected
    /// with a Disconnect datagram; otherwise, when the keep-alive interval
    /// has elapsed since the last send, a KeepAlive datagram goes out.
    pub fn update_client(&mut self, client_id: u64) -> (r: ServerResult)
        requires
            old(self).inv(),
        ensures
            final(self).inv(),
            final(self).spec_current_time() == old(self).spec_current_time(),
            final(self).spec_pending() == old(self).spec_pending(),
            final(self).spec_auth_requests() == old(self).spec_auth_requests(),
            slot_by_id(old(self).spec_clients(), client_id) == -1 ==> r
                == ServerResult::NoAction && final(self).spec_clients() == old(self).spec_clients(),
            slot_by_id(old(self).spec_clients(), client_id) >= 0 && client_timed_out(
                old(self).spec_clients()[slot_by_id(old(self).spec_clients(), client_id)]->Some_0,
                old(self).spec_current_time(),
            ) ==> (r matches ServerResult::ClientDisconnected { client_id: rid, addr, payload }
                && rid == client_id && addr == old(self).spec_clients()[slot_by_id(
                old(self).spec_clients(),
                client_id,
            )]->Some_0.addr && (payload matches Some(b) && b@ == spec_tencode(
                SpecTPacket::Disconnect { client_identifier: client_id },
            )) && final(self).spec_clients()[slot_by_id(old(self).spec_clients(), client_id)]
                is None),
            slot_by_id(old(self).spec_clients(), client_id) >= 0 && !client_timed_out(
                old(self).spec_clients()[slot_by_id(old(self).spec_clients(), client_id)]->Some_0,
                old(self).spec_current_time(),
            ) && keepalive_due(
                old(self).spec_clients()[slot_by_id(old(self).spec_clients(), client_id)]->Some_0,
                old(self).spec_current_time(),
            ) ==> (r matches ServerResult::PacketToSend { addr, payload } && addr == old(self).spec_clients()[slot_by_id(old(self).spec_clients(), client_id)]->Some_0.addr
                && payload@ == spec_tencode(
                SpecTPacket::KeepAlive { client_identifier: client_id },
            ) && final(self).spec_clients().len() == old(self).spec_clients().len() && (final(self).spec_clients()[slot_by_id(old(self).spec_clients(), client_id)] matches Some(c)
                && c == send_stamped(
                old(self).spec_clients()[slot_by_id(old(self).spec_clients(), client_id)]->Some_0,
                old(self).spec_current_time(),
            )) && (forall|i: int|
                0 <= i < old(self).spec_clients().len() && i != slot_by_id(
                    old(self).spec_clients(),
                    client_id,
                ) ==> (#[trigger] final(self).spec_clients()[i]) == old(self).spec_clients()[i])),
            slot_by_id(old(self).spec_clients(), client_id) >= 0 && !client_timed_out(
                old(self).spec_clients()[slot_by_id(old(self).spec_clients(), client_id)]->Some_0,
                old(self).spec_current_time(),
            ) && !keepalive_due(
                old(self).spec_clients()[slot_by_id(old(self).spec_clients(), client_id)]->Some_0,
                old(self).spec_current_time(),
            ) ==> r == ServerResult::NoAction && final(self).spec_clients() == old(self).spec_clients(),
    {
        let ghost cs = self.clients@;
        let slot = match self.find_slot_by_id(client_id) {
            None => {
                return ServerResult::NoAction;
            },
            Some(s) => s,
        };
        let mut c = *self.clients[slot].as_ref().unwrap();
        let now = self.current_time_ms;
        let timed_out = c.timeout_ms > 0 && now > c.timeout_ms && c.last_packet_received_time
            < now - c.timeout_ms;
        proof {
            assert(timed_out == client_timed_out(cs[slot as int]->Some_0, now));
        }
        if timed_out {
            let a = c.addr;
            self.clients.set(slot, None);
            proof {
                assert(forall|i: int|
                    0 <= i < cs.len() && i != slot ==> (#[trigger] self.clients@[i]) == cs[i]);
            }
            let p = Packet::Disconnect { client_identifier: client_id };
            let bytes = match p.encode() {
                Ok(v) => v,
                Err(_) => vstd::pervasive::unreached(),
            };
            return ServerResult::ClientDisconnected {
                client_id,
                addr: a,
                payload: Some(bytes),
            };
        }
        let due = now >= TRANSPORT_SEND_RATE_MS && c.last_packet_send_time <= now
            - TRANSPORT_SEND_RATE_MS;
        proof {
            assert(due == keepalive_due(cs[slot as int]->Some_0, now));
        }
        if due {
            let a = c.addr;
            c.last_packet_send_time = now;
            self.clients.set(slot, Some(c));
            proof {
                assert(forall|i: int|
                    0 <= i < cs.len() && i != slot ==> (#[trigger] self.clients@[i]) == cs[i]);
            }
            let p = Packet::KeepAlive { client_identifier: client_id };
            let bytes = match p.encode() {
                Ok(v) => v,
                Err(_) => vstd::pervasive::unreached(),
            };
            return ServerResult::PacketToSend { addr: a, payload: bytes };
        }
        ServerResult::NoAction
    }

    /// Disconnects a client, freeing its slot and producing the Disconnect
    /// datagram to send.
    pub fn disconnect(&mut self, client_id: u64) -> (r: ServerResult)
        requires
            old(self).inv(),
        ensures
            final(self).inv(),
            final(self).spec_current_time() == old(self).spec_current_time(),
            final(self).spec_pending() == old(self).spec_pending(),
            slot_by_id(old(self).spec_clients(), client_id) == -1 ==> r
                == ServerResult::NoAction && final(self).spec_clients() == old(self).spec_clients(),
            slot_by_id(old(self).spec_clients(), client_id) >= 0 ==> (r
                matches ServerResult::ClientDisconnected { client_id: rid, addr, payload } && rid
                == client_id && addr == old(self).spec_clients()[slot_by_id(
                old(self).spec_clients(),
                client_id,
            )]->Some_0.addr && (payload matches Some(b) && b@ == spec_tencode(
                SpecTPacket::Disconnect { client_identifier: client_id },
            )) && final(self).spec_clients()[slot_by_id(old(self).spec_clients(), client_id)]
                is None),
    {
        let ghost cs = self.clients@;
        let slot = match self.find_slot_by_id(client_id) {
            None => {
                return ServerResult::NoAction;
            },
            Some(s) => s,
        };
        let a = self.clients[slot].as_ref().unwrap().addr;
        self.clients.set(slot, None);
        proof {
            assert(forall|i: int|
                0 <= i < cs.len() && i != slot ==> (#[trigger] self.clients@[i]) == cs[i]);
        }
        let p = Packet::Disconnect { client_identifier: client_id };
        let bytes = match p.encode() {
            Ok(v) => v,
            Err(_) => vstd::pervasive::unreached(),
        };
        ServerResult::ClientDisconnected { client_id, addr: a, payload: Some(bytes) }
    }

    /// Takes the queued ticket validations for the caller to run.
    pub fn take_auth_requests(&mut self) -> (r: Vec<AuthRequest>)
        requires
            old(self).inv(),
        ensures
            final(self).inv(),
            r@ == old(self).spec_auth_requests(),
            final(self).spec_auth_requests().len() == 0,
            final(self).spec_clients() == old(self).spec_clients(),
            final(self).spec_pending() == old(self).spec_pending(),
            final(self).spec_current_time() == old(self).spec_current_time(),
            final(self).spec_max_clients() == old(self).spec_max_clients(),
    {
        let mut taken: Vec<AuthRequest> = Vec::new();
        core_swap_auth(&mut self.auth_requests, &mut taken);
        taken
    }

    /// Publishes the outcome of a ticket validation into the pending entry
    /// at `addr`; an entry that has left the table meanwhile is ignored.
    pub fn set_auth_result(&mut self, addr: Addr, ok: bool, player_id: Vec<u8>)
        requires
            old(self).inv(),
        ensures
            final(self).inv(),
            final(self).spec_clients() == old(self).spec_clients(),
            final(self).spec_current_time() == old(self).spec_current_time(),
            final(self).spec_max_clients() == old(self).spec_max_clients(),
            pending_at(old(self).spec_pending(), addr) == -1 ==> final(self).spec_pending()
                == old(self).spec_pending(),
            pending_at(old(self).spec_pending(), addr) >= 0 ==> {
                &&& final(self).spec_pending().len() == old(self).spec_pending().len()
                &&& final(self).spec_pending()[pending_at(old(self).spec_pending(), addr)].1.auth_ok
                    == ok
                &&& final(self).spec_pending()[pending_at(
                    old(self).spec_pending(),
                    addr,
                )].1.auth_player_id@ == crate::transport_packet::pad16(player_id@)
                &&& forall|i: int|
                    0 <= i < old(self).spec_pending().len() && i != pending_at(
                        old(self).spec_pending(),
                        addr,
                    ) ==> (#[trigger] final(self).spec_pending()[i]) == old(self).spec_pending()[i]
                &&& final(self).spec_pending()[pending_at(old(self).spec_pending(), addr)].0
                    == addr
            },
    {
        let ghost ps = self.pending_clients@;
        match self.find_pending(addr) {
            None => {},
            Some(i) => {
                let mut entry = self.pending_clients[i].1;
                entry.auth_ok = ok;
                entry.auth_player_id = pad16_exec(&player_id);
                let a = self.pending_clients[i].0;
                self.pending_clients.set(i, (a, entry));
                proof {
                    assert(self.pending_clients@[i as int].0 == ps[i as int].0);
                    assert(forall|k: int|
                        0 <= k < ps.len() && k != i ==> (#[trigger] self.pending_clients@[k])
                            == ps[k]);
                }
            },
        }
    }
}



/// The connection with both packet stamps set to `now`.
pub open spec fn stamped(c: Connection, now: u64) -> Connection {
    Connection { last_packet_received_time: now, last_packet_send_time: now, ..c }
}

/// The connection with its send stamp set to `now`.
pub open spec fn send_stamped(c: Connection, now: u64) -> Connection {
    Connection { last_packet_send_time: now, ..c }
}

/// What handling a side-1 connection request does, given the server before
/// (`pre`) and after (`post`) and the result `r`: a peer already slotted by
/// address or id is ignored; an unknown peer is dropped silently when the
/// pending table is full; with the slot table full any pending entry is
/// dropped; otherwise the request is answered with side 2 and a pending
/// entry in state `PendingResponse` expiring in ten seconds is created, or
/// an existing one has its stamps refreshed.
pub open spec fn spec_open_handshake(
    pre: TransportServer,
    post: TransportServer,
    r: ServerResult,
    addr: Addr,
    connection_prefix: Seq<u8>,
    client_identifier: u64,
) -> bool {
    &&& post.spec_current_time() == pre.spec_current_time()
    &&& post.spec_clients() == pre.spec_clients()
    &&& post.spec_max_clients() == pre.spec_max_clients()
    &&& post.spec_auth_requests() == pre.spec_auth_requests()
    &&& (slot_by_addr(pre.spec_clients(), addr) >= 0 || slot_by_id(
        pre.spec_clients(),
        client_identifier,
    ) >= 0 ==> r == ServerResult::NoAction && post.spec_pending() == pre.spec_pending())
    &&& (slot_by_addr(pre.spec_clients(), addr) == -1 && slot_by_id(
        pre.spec_clients(),
        client_identifier,
    ) == -1 && pending_at(pre.spec_pending(), addr) == -1 && pre.spec_pending().len()
        >= TRANSPORT_MAX_PENDING_CLIENTS ==> r == ServerResult::NoAction && post.spec_pending()
        == pre.spec_pending())
    &&& (slot_by_addr(pre.spec_clients(), addr) == -1 && slot_by_id(
        pre.spec_clients(),
        client_identifier,
    ) == -1 && !(pending_at(pre.spec_pending(), addr) == -1 && pre.spec_pending().len()
        >= TRANSPORT_MAX_PENDING_CLIENTS) && occupied_count(pre.spec_clients())
        >= pre.spec_max_clients() ==> r == ServerResult::NoAction)
    &&& (slot_by_addr(pre.spec_clients(), addr) == -1 && slot_by_id(
        pre.spec_clients(),
        client_identifier,
    ) == -1 && !(pending_at(pre.spec_pending(), addr) == -1 && pre.spec_pending().len()
        >= TRANSPORT_MAX_PENDING_CLIENTS) && occupied_count(pre.spec_clients())
        < pre.spec_max_clients() ==> {
        &&& (r matches ServerResult::PacketToSend { addr: ra, payload } && ra == addr
            && payload@ == spec_tencode(
            SpecTPacket::ConnectionRequest {
                connection_prefix,
                connection_side_id: 2u8,
                client_identifier,
            },
        ))
        &&& (pending_at(pre.spec_pending(), addr) == -1 ==> {
            &&& post.spec_pending().len() == pre.spec_pending().len() + 1
            &&& (forall|k: int|
                0 <= k < pre.spec_pending().len() ==> (#[trigger] post.spec_pending()[k])
                    == pre.spec_pending()[k])
            &&& post.spec_pending().last().0 == addr
            &&& post.spec_pending().last().1.confirmed == false
            &&& post.spec_pending().last().1.client_id == client_identifier
            &&& post.spec_pending().last().1.state == ConnectionState::PendingResponse
            &&& post.spec_pending().last().1.auth_ok == false
            &&& post.spec_pending().last().1.addr == addr
            &&& post.spec_pending().last().1.last_packet_received_time
                == pre.spec_current_time()
            &&& post.spec_pending().last().1.last_packet_send_time == pre.spec_current_time()
            &&& post.spec_pending().last().1.timeout_ms == CLIENT_TIMEOUT_MS
            &&& post.spec_pending().last().1.expire_timestamp_ms == sat_add(
                pre.spec_current_time(),
                PENDING_EXPIRE_MS,
            )
        })
        &&& (pending_at(pre.spec_pending(), addr) >= 0 ==> {
            &&& post.spec_pending().len() == pre.spec_pending().len()
            &&& (forall|k: int|
                0 <= k < pre.spec_pending().len() && k != pending_at(pre.spec_pending(), addr)
                    ==> (#[trigger] post.spec_pending()[k]) == pre.spec_pending()[k])
            &&& post.spec_pending()[pending_at(pre.spec_pending(), addr)].0 == addr
            &&& post.spec_pending()[pending_at(pre.spec_pending(), addr)].1 == stamped(
                pre.spec_pending()[pending_at(pre.spec_pending(), addr)].1,
                pre.spec_current_time(),
            )
        })
    })
}

/// Whether a pending peer's first Data payload is a well-formed auth
/// preamble: channel 0, one message, the Connect type, and room for the
/// 16-byte player id.
pub open spec fn valid_preamble(p: Seq<u8>) -> bool {
    p.len() >= 22 && p[0] == 0 && p[1] == 1 && p[5] == 0
}

/// Whether a connected client has been idle past its timeout.
pub open spec fn client_timed_out(c: Connection, now: u64) -> bool {
    c.timeout_ms > 0 && c.last_packet_received_time + c.timeout_ms < now
}

/// Whether the keep-alive interval has elapsed since the last send.
pub open spec fn keepalive_due(c: Connection, now: u64) -> bool {
    c.last_packet_send_time + TRANSPORT_SEND_RATE_MS <= now
}

/// Removing an entry keeps the table's addresses distinct.
proof fn lemma_remove_keeps_unique(
    ps: Seq<(Addr, Connection)>,
    i: int,
    after: Seq<(Addr, Connection)>,
)
    requires
        0 <= i < ps.len(),
        after == ps.remove(i),
        forall|a: int, b: int| 0 <= a < b < ps.len() ==> (#[trigger] ps[a]).0 != (#[trigger] ps[b]).0,
    ensures
        forall|a: int, b: int|
            0 <= a < b < after.len() ==> (#[trigger] after[a]).0 != (#[trigger] after[b]).0,
        forall|k: int|
            0 <= k < after.len() ==> (#[trigger] after[k]) == (if k < i {
                ps[k]
            } else {
                ps[k + 1]
            }),
{
    assert forall|k: int| 0 <= k < after.len() implies (#[trigger] after[k]) == (if k < i {
        ps[k]
    } else {
        ps[k + 1]
    }) by {
        if k < i {
            assert(after[k] == ps[k]);
        } else {
            assert(after[k] == ps[k + 1]);
        }
    }
    assert forall|a: int, b: int| 0 <= a < b < after.len() implies (#[trigger] after[a]).0 != (
    #[trigger] after[b]).0 by {
        let a2: int = if a < i { a } else { a + 1 };
        let b2: int = if b < i { b } else { b + 1 };
        assert(after[a] == ps[a2] && after[b] == ps[b2]);
    }
}

/// Kept pending entries are original entries, so distinctness carries over.
proof fn lemma_keep_unexpired_props(ps: Seq<(Addr, Connection)>, now: u64)
    ensures
        forall|k: int|
            #![trigger keep_unexpired(ps, now)[k]]
            0 <= k < keep_unexpired(ps, now).len() ==> exists|j: int|
                0 <= j < ps.len() && keep_unexpired(ps, now)[k] == #[trigger] ps[j],
        (forall|a: int, b: int|
            0 <= a < b < ps.len() ==> (#[trigger] ps[a]).0 != (#[trigger] ps[b]).0) ==> (forall|
            a: int,
            b: int,
        |
            0 <= a < b < keep_unexpired(ps, now).len() ==> (#[trigger] keep_unexpired(
                ps,
                now,
            )[a]).0 != (#[trigger] keep_unexpired(ps, now)[b]).0),
        keep_unexpired(ps, now).len() <= ps.len(),
    decreases ps.len(),
{
    if ps.len() > 0 {
        let d = ps.drop_first();
        lemma_keep_unexpired_props(d, now);
        assert(forall|i: int| 0 <= i < d.len() ==> (#[trigger] d[i]) == ps[i + 1]);
        let kd = keep_unexpired(d, now);
        assert forall|k: int| #![trigger kd[k]] 0 <= k < kd.len() implies exists|j: int|
            0 <= j < ps.len() && kd[k] == #[trigger] ps[j] by {
            let j0 = choose|j0: int| 0 <= j0 < d.len() && kd[k] == #[trigger] d[j0];
            assert(kd[k] == ps[j0 + 1]);
        }
        if now <= ps[0].1.expire_timestamp_ms {
            let kp = keep_unexpired(ps, now);
            assert(kp == seq![ps[0]] + kd);
            assert forall|k: int| #![trigger kp[k]] 0 <= k < kp.len() implies exists|j: int|
                0 <= j < ps.len() && kp[k] == #[trigger] ps[j] by {
                if k == 0 {
                    assert(kp[0] == ps[0]);
                } else {
                    assert(kp[k] == kd[k - 1]);
                    let j0 = choose|j0: int| 0 <= j0 < ps.len() && kd[k - 1] == #[trigger] ps[j0];
                }
            }
            if forall|a: int, b: int|
                0 <= a < b < ps.len() ==> (#[trigger] ps[a]).0 != (#[trigger] ps[b]).0 {
                assert(forall|a: int, b: int|
                    0 <= a < b < d.len() ==> (#[trigger] d[a]).0 != (#[trigger] d[b]).0);
                assert forall|a: int, b: int|
                    0 <= a < b < kp.len() implies (#[trigger] kp[a]).0 != (
                #[trigger] kp[b]).0 by {
                    if a == 0 {
                        assert(kp[b] == kd[b - 1]);
                        let j0 = choose|j0: int| 0 <= j0 < ps.len() && kd[b - 1] == #[trigger] ps[j0];
                        assert(j0 >= 1) by {
                            if j0 == 0 {
                                let j1 = choose|j1: int|
                                    0 <= j1 < d.len() && kd[b - 1] == #[trigger] d[j1];
                                assert(ps[0].0 == d[j1].0);
                                assert(d[j1] == ps[j1 + 1]);
                            }
                        }
                        assert(kp[a].0 == ps[0].0 && kp[b].0 == ps[j0].0);
                    } else {
                        assert(kp[a] == kd[a - 1] && kp[b] == kd[b - 1]);
                    }
                }
            }
        }
    }
}

/// Search results are first hits.
proof fn lemma_slot_by_id_first(clients: Seq<Option<Connection>>, id: u64)
    ensures
        -1 <= slot_by_id(clients, id) < clients.len(),
        slot_by_id(clients, id) >= 0 ==> forall|i: int|
            0 <= i < slot_by_id(clients, id) ==> !((#[trigger] clients[i]) matches Some(c)
                && c.client_id == id),
    decreases clients.len(),
{
    if clients.len() > 0 && !(clients[0] matches Some(c) && c.client_id == id) {
        let d = clients.drop_first();
        lemma_slot_by_id_first(d, id);
        assert(-1 <= slot_by_id(clients, id) < clients.len());
        if slot_by_id(clients, id) >= 0 {
            assert forall|i: int| 0 <= i < slot_by_id(clients, id) implies !((
            #[trigger] clients[i]) matches Some(c) && c.client_id == id) by {
                if i > 0 {
                    assert(clients[i] == d[i - 1]);
                }
            }
        }
    }
}

/// Search results are first hits.
proof fn lemma_slot_by_addr_first(clients: Seq<Option<Connection>>, addr: Addr)
    ensures
        -1 <= slot_by_addr(clients, addr) < clients.len(),
        slot_by_addr(clients, addr) >= 0 ==> forall|i: int|
            0 <= i < slot_by_addr(clients, addr) ==> !((#[trigger] clients[i]) matches Some(c)
                && c.addr == addr),
    decreases clients.len(),
{
    if clients.len() > 0 && !(clients[0] matches Some(c) && c.addr == addr) {
        let d = clients.drop_first();
        lemma_slot_by_addr_first(d, addr);
        assert(-1 <= slot_by_addr(clients, addr) < clients.len());
        if slot_by_addr(clients, addr) >= 0 {
            assert forall|i: int| 0 <= i < slot_by_addr(clients, addr) implies !((
            #[trigger] clients[i]) matches Some(c) && c.addr == addr) by {
                if i > 0 {
                    assert(clients[i] == d[i - 1]);
                }
            }
        }
    }
}

/// Search results are first hits.
proof fn lemma_pending_at_first(pending: Seq<(Addr, Connection)>, addr: Addr)
    ensures
        -1 <= pending_at(pending, addr) < pending.len(),
        pending_at(pending, addr) >= 0 ==> forall|i: int|
            0 <= i < pending_at(pending, addr) ==> (#[trigger] pending[i]).0 != addr,
    decreases pending.len(),
{
    if pending.len() > 0 && pending[0].0 != addr {
        let d = pending.drop_first();
        lemma_pending_at_first(d, addr);
        assert(-1 <= pending_at(pending, addr) < pending.len());
        if pending_at(pending, addr) >= 0 {
            assert forall|i: int| 0 <= i < pending_at(pending, addr) implies (
            #[trigger] pending[i]).0 != addr by {
                if i > 0 {
                    assert(pending[i] == d[i - 1]);
                }
            }
        }
    }
}

/// Search results are first hits.
proof fn lemma_first_free_first(clients: Seq<Option<Connection>>)
    ensures
        -1 <= first_free_slot(clients) < clients.len(),
        first_free_slot(clients) >= 0 ==> forall|i: int|
            0 <= i < first_free_slot(clients) ==> (#[trigger] clients[i]) is Some,
    decreases clients.len(),
{
    if clients.len() > 0 && !(clients[0] is None) {
        let d = clients.drop_first();
        lemma_first_free_first(d);
        if first_free_slot(clients) >= 0 {
            assert forall|i: int| 0 <= i < first_free_slot(clients) implies (
            #[trigger] clients[i]) is Some by {
                if i > 0 {
                    assert(clients[i] == d[i - 1]);
                }
            }
        }
    }
}

/// Pads (or truncates) a byte string to exactly 16 bytes.
pub fn pad16_exec(s: &Vec<u8>) -> (r: [u8; 16])
    ensures
        r@ == crate::transport_packet::pad16(s@),
{
    let mut r: [u8; 16] = [0; 16];
    let mut i: usize = 0;
    while i < 16
        invariant
            i <= 16,
            forall|k: int|
                0 <= k < i ==> (#[trigger] r@[k]) == crate::transport_packet::pad16(s@)[k],
            forall|k: int| i <= k < 16 ==> (#[trigger] r@[k]) == 0u8,
        decreases 16 - i,
    {
        if i < s.len() {
            r[i] = s[i];
        }
        i = i + 1;
    }
    proof {
        assert(r@ =~= crate::transport_packet::pad16(s@));
    }
    r
}

/// Swaps two vectors of queued validations.
fn core_swap_auth(a: &mut Vec<AuthRequest>, b: &mut Vec<AuthRequest>)
    ensures
        final(a)@ == old(b)@,
        final(b)@ == old(a)@,
{
    core::mem::swap(a, b);
}

} // verus!
