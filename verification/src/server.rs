//! The game-facing server: one connection object per client, keyed lookup,
//! connect/disconnect events, message fan-out, and the per-tick pump that
//! turns transport messages into connection work and back.

use vstd::prelude::*;

use crate::connection::{
    spec_process, spec_send, spec_tick, spec_update, ClientConnectionStatus, ConnectionConfig,
    NetworkInfo, UnityClient,
};
use crate::dispatcher::ToDenariaServerMessage;
use crate::error::{ClientNotFound, DisconnectReason};
use crate::packet::Payload;

verus! {

/// A transport-level client identifier.
#[derive(Debug, Clone, Copy, Hash, PartialEq, Eq, Structural)]
pub struct ClientId(pub u64);

impl ClientId {
    /// A `ClientId` from its raw 64-bit value.
    pub fn from_raw(value: u64) -> (r: Self)
        ensures
            r == ClientId(value),
    {
        ClientId(value)
    }

    /// The raw 64-bit value.
    pub fn raw(&self) -> (r: u64)
        ensures
            r == self.0,
    {
        self.0
    }
}

/// Connection and disconnection events of the server.
#[derive(Debug, Clone, PartialEq, Eq)]
pub enum ServerEvent {
    ClientConnected { client_id: ClientId },
    ClientDisconnected { client_id: ClientId, player_id: Vec<u8>, reason: DisconnectReason },
}

/// The index of the connection with the given raw client id, or `-1`.
pub open spec fn conn_at(cs: Seq<(u64, UnityClient)>, id: u64) -> int
    decreases cs.len(),
{
    if cs.len() == 0 {
        -1
    } else if cs[0].0 == id {
        0
    } else {
        let r = conn_at(cs.drop_first(), id);
        if r == -1 {
            -1
        } else {
            r + 1
        }
    }
}

/// What `conn_at` returns.
pub proof fn lemma_conn_at(cs: Seq<(u64, UnityClient)>, id: u64)
    ensures
        -1 <= conn_at(cs, id) < cs.len(),
        conn_at(cs, id) >= 0 ==> cs[conn_at(cs, id)].0 == id,
        conn_at(cs, id) == -1 ==> forall|i: int| 0 <= i < cs.len() ==> (#[trigger] cs[i]).0 != id,
    decreases cs.len(),
{
    if cs.len() > 0 && cs[0].0 != id {
        let d = cs.drop_first();
        lemma_conn_at(d, id);
        if conn_at(cs, id) == -1 {
            assert forall|i: int| 0 <= i < cs.len() implies (#[trigger] cs[i]).0 != id by {
                if i > 0 {
                    assert(cs[i] == d[i - 1]);
                }
            }
        } else {
            assert(cs[conn_at(cs, id)] == d[conn_at(d, id)]);
        }
    }
}

/// A channel configuration valid for building connections: the fixed
/// two-channel layout in each direction.
pub open spec fn config_ok(c: ConnectionConfig) -> bool {
    &&& c.server_channels_config@.len() >= 2
    &&& c.client_channels_config@.len() >= 2
    &&& c.server_channels_config@[0].channel_id == 0
    &&& c.server_channels_config@[0].send_type is Unreliable
    &&& c.server_channels_config@[1].channel_id == 1
    &&& c.server_channels_config@[1].send_type is ReliableOrdered
    &&& c.client_channels_config@[0].channel_id == 0
    &&& c.client_channels_config@[1].channel_id == 1
}

/// The raw ids of the established connections, in table order.
pub open spec fn connected_ids(cs: Seq<(u64, UnityClient)>) -> Seq<u64>
    decreases cs.len(),
{
    if cs.len() == 0 {
        Seq::empty()
    } else {
        connected_ids(cs.drop_last()) + (if cs.last().1.spec_status() is Connected {
            seq![cs.last().0]
        } else {
            Seq::empty()
        })
    }
}

/// The raw ids of the terminally closed connections, in table order.
pub open spec fn disconnected_ids(cs: Seq<(u64, UnityClient)>) -> Seq<u64>
    decreases cs.len(),
{
    if cs.len() == 0 {
        Seq::empty()
    } else {
        disconnected_ids(cs.drop_last()) + (if cs.last().1.spec_status() is Disconnected {
            seq![cs.last().0]
        } else {
            Seq::empty()
        })
    }
}

/// How many connections are established.
pub open spec fn connected_count(cs: Seq<(u64, UnityClient)>) -> int
    decreases cs.len(),
{
    if cs.len() == 0 {
        0
    } else {
        connected_count(cs.drop_last()) + (if cs.last().1.spec_status() is Connected {
            1int
        } else {
            0int
        })
    }
}

/// The server: one connection per client, a player-to-client index, and a
/// queue of connect/disconnect events for the game logic.
#[derive(Debug)]
pub struct DenariaServer {
    connections: Vec<(u64, UnityClient)>,
    player_connection_map: Vec<(Vec<u8>, u64)>,
    connection_config: ConnectionConfig,
    events: Vec<ServerEvent>,
}

impl DenariaServer {
    /// The connections, keyed by raw client id.
    pub closed spec fn conns(&self) -> Seq<(u64, UnityClient)> {
        self.connections@
    }

    /// The queued events, oldest first.
    pub closed spec fn spec_events(&self) -> Seq<ServerEvent> {
        self.events@
    }

    /// The configuration connections are built from.
    pub closed spec fn spec_config(&self) -> ConnectionConfig {
        self.connection_config
    }

    /// Client ids are unique, every connection satisfies its own invariant,
    /// and the stored configuration can build new connections.
    pub closed spec fn inv(&self) -> bool {
        &&& forall|i: int, j: int|
            0 <= i < j < self.connections@.len() ==> (#[trigger] self.connections@[i]).0 != (
            #[trigger] self.connections@[j]).0
        &&& forall|i: int|
            0 <= i < self.connections@.len() ==> (#[trigger] self.connections@[i]).1.inv()
        &&& config_ok(self.connection_config)
    }

    /// A fresh server with no connections.
    pub fn new(connection_config: ConnectionConfig) -> (r: Self)
        requires
            config_ok(connection_config),
        ensures
            r.inv(),
            r.conns().len() == 0,
            r.spec_events().len() == 0,
    {
        DenariaServer {
            connections: Vec::new(),
            player_connection_map: Vec::new(),
            connection_config,
            events: Vec::new(),
        }
    }

    /// The index of the connection for `client_id`, if any.
    #[verifier::loop_isolation(false)]
    fn find_conn(&self, client_id: u64) -> (r: Option<usize>)
        ensures
            conn_at(self.conns(), client_id) == -1 <==> r is None,
            r matches Some(s) ==> s == conn_at(self.conns(), client_id) && s < self.conns().len()
                && self.conns()[s as int].0 == client_id,
    {
        let ghost cs = self.connections@;
        proof {
            lemma_conn_at(cs, client_id);
        }
        let mut i: usize = 0;
        while i < self.connections.len()
            invariant
                i <= cs.len(),
                forall|k: int| 0 <= k < i ==> (#[trigger] cs[k]).0 != client_id,
                conn_at(cs, client_id) >= 0 ==> conn_at(cs, client_id) >= i,
            decreases cs.len() - i,
        {
            if self.connections[i].0 == client_id {
                proof {
                    lemma_conn_at_first(cs, client_id);
                    let f = conn_at(cs, client_id);
                    if f == -1 || f > i || f < i {
                        assert(false);
                    }
                }
                return Some(i);
            }
            proof {
                if conn_at(cs, client_id) == i {
                    assert(cs[i as int].0 == client_id);
                }
            }
            i = i + 1;
        }
        None
    }

    /// Adds a connection for a newly connected client, already marked
    /// connected under its player identity, and queues the connect event.
    /// An existing client id changes nothing.
    pub fn add_connection(&mut self, client_id: ClientId, player_id: Vec<u8>)
        requires
            old(self).inv(),
        ensures
            final(self).inv(),
            conn_at(old(self).conns(), client_id.0) >= 0 ==> *final(self) == *old(self),
            conn_at(old(self).conns(), client_id.0) == -1 ==> {
                &&& final(self).conns().len() == old(self).conns().len() + 1
                &&& final(self).conns().last().0 == client_id.0
                &&& final(self).conns().last().1.spec_status()
                    == ClientConnectionStatus::Connected
                &&& final(self).conns().last().1.spec_player_id() == player_id@
                &&& forall|i: int|
                    0 <= i < old(self).conns().len() ==> (#[trigger] final(self).conns()[i])
                        == old(self).conns()[i]
                &&& final(self).spec_events() == old(self).spec_events().push(
                    ServerEvent::ClientConnected { client_id },
                )
                &&& final(self).player_map() == old(self).player_map().push(
                    (player_id@, client_id.0),
                )
            },
    {
        if self.find_conn(client_id.0).is_some() {
            return ;
        }
        let ghost cs = self.connections@;
        let mut connection = UnityClient::new_from_server(clone_config(&self.connection_config));
        connection.set_connected(player_id.clone());
        self.connections.push((client_id.0, connection));
        let ghost pm0 = self.player_map();
        self.player_connection_map.push((player_id, client_id.0));
        self.events.push(ServerEvent::ClientConnected { client_id });
        proof {
            assert(self.player_map() =~= pm0.push(
                (
                    self.player_connection_map@[pm0.len() as int].0@,
                    self.player_connection_map@[pm0.len() as int].1,
                ),
            ));
            lemma_conn_at(cs, client_id.0);
            assert(forall|i: int|
                0 <= i < cs.len() ==> (#[trigger] self.connections@[i]) == cs[i]);
        }
    }

    /// The oldest queued event, if any.
    pub fn get_event(&mut self) -> (r: Option<ServerEvent>)
        requires
            old(self).inv(),
        ensures
            final(self).inv(),
            final(self).conns() == old(self).conns(),
            old(self).spec_events().len() == 0 ==> r is None && final(self).spec_events() == old(self).spec_events(),
            old(self).spec_events().len() > 0 ==> r == Some(old(self).spec_events()[0]) && final(self).spec_events() == old(self).spec_events().drop_first(),
    {
        if self.events.len() == 0 {
            return None;
        }
        let e = self.events.remove(0);
        proof {
            assert(self.events@ =~= old(self).events@.drop_first());
        }
        Some(e)
    }

    /// Whether any client is connected.
    pub fn has_connections(&self) -> (r: bool)
        ensures
            r == (self.conns().len() > 0),
    {
        self.connections.len() > 0
    }

    /// The disconnect reason of a client, if it is disconnected.
    pub fn disconnect_reason(&self, client_id: ClientId) -> (r: Option<DisconnectReason>)
        requires
            self.inv(),
        ensures
            conn_at(self.conns(), client_id.0) == -1 ==> r is None,
            conn_at(self.conns(), client_id.0) >= 0 ==> ((self.conns()[conn_at(
                self.conns(),
                client_id.0,
            )].1.spec_status() matches ClientConnectionStatus::Disconnected { reason } ==> r
                == Some(reason)) && (!(self.conns()[conn_at(
                self.conns(),
                client_id.0,
            )].1.spec_status() is Disconnected) ==> r is None)),
    {
        match self.find_conn(client_id.0) {
            None => None,
            Some(i) => self.connections[i].1.disconnect_reason(),
        }
    }

    /// The smoothed round-trip time of a client in milliseconds, or zero for
    /// an unknown client.
    pub fn rtt(&self, client_id: ClientId) -> (r: u64)
        requires
            self.inv(),
        ensures
            conn_at(self.conns(), client_id.0) == -1 ==> r == 0,
            conn_at(self.conns(), client_id.0) >= 0 ==> r == self.conns()[conn_at(
                self.conns(),
                client_id.0,
            )].1.spec_rtt(),
    {
        match self.find_conn(client_id.0) {
            None => 0,
            Some(i) => self.connections[i].1.rtt(),
        }
    }

    /// The player identity of a connected client.
    pub fn player_id(&self, client_id: ClientId) -> (r: Result<Vec<u8>, ClientNotFound>)
        requires
            self.inv(),
        ensures
            conn_at(self.conns(), client_id.0) == -1 ==> r is Err,
            conn_at(self.conns(), client_id.0) >= 0 ==> (r matches Ok(p) && p@ == self.conns()[
                conn_at(self.conns(), client_id.0)
            ].1.spec_player_id()),
    {
        match self.find_conn(client_id.0) {
            None => Err(ClientNotFound),
            Some(i) => Ok(self.connections[i].1.player_id()),
        }
    }

    /// The statistics snapshot of a connected client.
    pub fn network_info(&self, client_id: ClientId) -> (r: Result<NetworkInfo, ClientNotFound>)
        requires
            self.inv(),
        ensures
            conn_at(self.conns(), client_id.0) == -1 ==> r is Err,
            conn_at(self.conns(), client_id.0) >= 0 ==> (r matches Ok(info) && info.rtt_ms
                == self.conns()[conn_at(self.conns(), client_id.0)].1.spec_rtt()),
    {
        match self.find_conn(client_id.0) {
            None => Err(ClientNotFound),
            Some(i) => Ok(self.connections[i].1.network_info()),
        }
    }

    /// The client id a player identity maps to.
    #[verifier::loop_isolation(false)]
    pub fn client_id_by_player_id(&self, player_id: &Vec<u8>) -> (r: Result<
        ClientId,
        ClientNotFound,
    >)
        ensures
            r matches Ok(c) ==> exists|i: int|
                0 <= i < self.player_map().len() && (#[trigger] self.player_map()[i]) == (
                player_id@,
                c.0,
                ),
    {
        let mut i: usize = 0;
        while i < self.player_connection_map.len()
            decreases self.player_connection_map@.len() - i,
        {
            if crate::dispatcher::vec_u8_eq(&self.player_connection_map[i].0, player_id) {
                let c = ClientId(self.player_connection_map[i].1);
                proof {
                    assert(self.player_map()[i as int] == (player_id@, c.0));
                }
                return Ok(c);
            }
            i = i + 1;
        }
        Err(ClientNotFound)
    }

    /// The player-to-client index.
    pub closed spec fn player_map(&self) -> Seq<(Seq<u8>, u64)> {
        Seq::new(
            self.player_connection_map@.len(),
            |i: int| (self.player_connection_map@[i].0@, self.player_connection_map@[i].1),
        )
    }

    /// Removes a client's connection and queues the disconnect event with
    /// the connection's own reason, or `Transport` when it had none.
    pub fn remove_connection(&mut self, client_id: ClientId)
        requires
            old(self).inv(),
        ensures
            final(self).inv(),
            conn_at(old(self).conns(), client_id.0) == -1 ==> final(self).conns() == old(self).conns() && final(self).spec_events() == old(self).spec_events(),
            conn_at(old(self).conns(), client_id.0) >= 0 ==> {
                &&& final(self).conns() == old(self).conns().remove(
                    conn_at(old(self).conns(), client_id.0),
                )
                &&& final(self).spec_events().len() == old(self).spec_events().len() + 1
                &&& (final(self).spec_events().last()
                    matches ServerEvent::ClientDisconnected { client_id: c2, player_id, reason }
                    && c2 == client_id)
            },
    {
        let ghost cs = self.connections@;
        match self.find_conn(client_id.0) {
            None => {},
            Some(i) => {
                let (_, connection) = self.connections.remove(i);
                let player_id = connection.player_id();
                let reason = match connection.disconnect_reason() {
                    Some(r) => r,
                    None => DisconnectReason::Transport,
                };
                self.events.push(
                    ServerEvent::ClientDisconnected { client_id, player_id, reason },
                );
                proof {
                    assert(self.connections@ =~= cs.remove(i as int));
                    assert(forall|k: int|
                        0 <= k < self.connections@.len() ==> (#[trigger] self.connections@[k])
                            == (if k < i {
                            cs[k]
                        } else {
                            cs[k + 1]
                        }));
                }
            },
        }
    }

    /// Marks a client's connection disconnected by the server; the transport
    /// reaps it on its next tick. An unknown client changes nothing.
    pub fn disconnect(&mut self, client_id: ClientId)
        requires
            old(self).inv(),
        ensures
            final(self).inv(),
            final(self).conns().len() == old(self).conns().len(),
            conn_at(old(self).conns(), client_id.0) >= 0 && !(old(self).conns()[conn_at(
                old(self).conns(),
                client_id.0,
            )].1.spec_status() is Disconnected) ==> final(self).conns()[conn_at(
                old(self).conns(),
                client_id.0,
            )].1.spec_status() == (ClientConnectionStatus::Disconnected {
                reason: DisconnectReason::DisconnectedByServer,
            }),
    {
        let ghost cs = self.connections@;
        match self.find_conn(client_id.0) {
            None => {},
            Some(i) => {
                let (id, mut connection) = self.connections.remove(i);
                connection.disconnect_with_reason(DisconnectReason::DisconnectedByServer);
                self.connections.insert(i, (id, connection));
                proof {
                    assert(forall|k: int|
                        0 <= k < cs.len() && k != i ==> (#[trigger] self.connections@[k])
                            == cs[k]);
                    assert(self.connections@[i as int].0 == cs[i as int].0);
                }
            },
        }
    }

    /// Queues a message to one client over a channel; the connection applies
    /// its channel's admission rules. An unknown client changes nothing.
    pub fn send_message(&mut self, client_id: ClientId, channel_id: u8, message: Vec<u8>)
        requires
            old(self).inv(),
            channel_id == 0 || channel_id == 1,
        ensures
            final(self).inv(),
            final(self).conns().len() == old(self).conns().len(),
            forall|k: int|
                0 <= k < old(self).conns().len() && k != conn_at(
                    old(self).conns(),
                    client_id.0,
                ) ==> (#[trigger] final(self).conns()[k]) == old(self).conns()[k],
            conn_at(old(self).conns(), client_id.0) >= 0 ==> {
                let oc = old(self).conns()[conn_at(old(self).conns(), client_id.0)].1;
                let nc = final(self).conns()[conn_at(old(self).conns(), client_id.0)].1;
                &&& final(self).conns()[conn_at(old(self).conns(), client_id.0)].0
                    == client_id.0
                &&& (oc.spec_status() is Disconnected ==> nc == oc)
                &&& (!(oc.spec_status() is Disconnected) ==> spec_send(
                    oc,
                    nc,
                    channel_id,
                    message@,
                ))
            },
    {
        let ghost cs = self.connections@;
        match self.find_conn(client_id.0) {
            None => {},
            Some(i) => {
                let (id, mut connection) = self.connections.remove(i);
                connection.send_message(channel_id, message);
                self.connections.insert(i, (id, connection));
                proof {
                    assert(forall|k: int|
                        0 <= k < cs.len() && k != i ==> (#[trigger] self.connections@[k])
                            == cs[k]);
                    assert(self.connections@[i as int].0 == cs[i as int].0);
                }
            },
        }
    }

    /// Takes the next deliverable message of a client's channel, together
    /// with the client's player identity.
    pub fn receive_message(&mut self, client_id: ClientId, channel_id: u8) -> (r: Option<
        (Vec<u8>, Vec<u8>),
    >)
        requires
            old(self).inv(),
            channel_id == 0 || channel_id == 1,
        ensures
            final(self).inv(),
            final(self).conns().len() == old(self).conns().len(),
            conn_at(old(self).conns(), client_id.0) == -1 ==> r is None && final(self).conns()
                == old(self).conns(),
            forall|k: int|
                0 <= k < old(self).conns().len() && k != conn_at(
                    old(self).conns(),
                    client_id.0,
                ) ==> (#[trigger] final(self).conns()[k]) == old(self).conns()[k],
            conn_at(old(self).conns(), client_id.0) >= 0 ==> {
                let oc = old(self).conns()[conn_at(old(self).conns(), client_id.0)].1;
                let nc = final(self).conns()[conn_at(old(self).conns(), client_id.0)].1;
                &&& (!(oc.spec_status() is Disconnected) && channel_id == 1
                    && oc.rel_recv().entries().len() > 0 && oc.rel_recv().entries()[0].0
                    == oc.rel_recv().spec_oldest_pending() ==> (r matches Some(mp) && mp.0@
                    == oc.rel_recv().entries()[0].1 && mp.1@ == oc.spec_player_id()
                    && nc.rel_recv().entries() == oc.rel_recv().entries().drop_first()
                    && nc.rel_recv().spec_oldest_pending() == oc.rel_recv().spec_oldest_pending()
                    + 1))
                &&& (!(oc.spec_status() is Disconnected) && channel_id == 0
                    && oc.unrel_recv().msgs().len() > 0 ==> (r matches Some(mp) && mp.0@
                    == oc.unrel_recv().msgs()[0] && nc.unrel_recv().msgs()
                    == oc.unrel_recv().msgs().drop_first()))
                &&& (oc.spec_status() is Disconnected ==> r is None)
            },
    {
        let ghost cs = self.connections@;
        match self.find_conn(client_id.0) {
            None => None,
            Some(i) => {
                let (id, mut connection) = self.connections.remove(i);
                let m = connection.receive_message(channel_id);
                let player = connection.player_id();
                self.connections.insert(i, (id, connection));
                proof {
                    assert(forall|k: int|
                        0 <= k < cs.len() && k != i ==> (#[trigger] self.connections@[k])
                            == cs[k]);
                    assert(self.connections@[i as int].0 == cs[i as int].0);
                }
                match m {
                    Some(bytes) => Some((bytes, player)),
                    None => None,
                }
            },
        }
    }


    /// Packets lost per thousand sent over the previous second, or zero for
    /// an unknown client.
    pub fn packet_loss(&self, client_id: ClientId) -> (r: u64)
        requires
            self.inv(),
        ensures
            conn_at(self.conns(), client_id.0) == -1 ==> r == 0,
            conn_at(self.conns(), client_id.0) >= 0 ==> {
                let st = self.conns()[conn_at(self.conns(), client_id.0)].1.spec_stats();
                &&& (st.spec_prev_packets_sent() == 0 || st.spec_prev_packets_acked()
                    >= st.spec_prev_packets_sent() ==> r == 0)
                &&& (st.spec_prev_packets_sent() > 0 && st.spec_prev_packets_acked()
                    < st.spec_prev_packets_sent() ==> r == ((st.spec_prev_packets_sent()
                    - st.spec_prev_packets_acked()) * 1000) / (
                st.spec_prev_packets_sent() as int))
            },
    {
        match self.find_conn(client_id.0) {
            None => 0,
            Some(i) => self.connections[i].1.packet_loss(),
        }
    }

    /// Bytes sent over the previous second, or zero for an unknown client.
    pub fn bytes_sent_per_sec(&self, client_id: ClientId) -> (r: u64)
        requires
            self.inv(),
        ensures
            conn_at(self.conns(), client_id.0) == -1 ==> r == 0,
            conn_at(self.conns(), client_id.0) >= 0 ==> r == self.conns()[conn_at(
                self.conns(),
                client_id.0,
            )].1.spec_stats().spec_prev_bytes_sent(),
    {
        match self.find_conn(client_id.0) {
            None => 0,
            Some(i) => self.connections[i].1.bytes_sent_per_sec(),
        }
    }

    /// Bytes received over the previous second, or zero for an unknown
    /// client.
    pub fn bytes_received_per_sec(&self, client_id: ClientId) -> (r: u64)
        requires
            self.inv(),
        ensures
            conn_at(self.conns(), client_id.0) == -1 ==> r == 0,
            conn_at(self.conns(), client_id.0) >= 0 ==> r == self.conns()[conn_at(
                self.conns(),
                client_id.0,
            )].1.spec_stats().spec_prev_bytes_received(),
    {
        match self.find_conn(client_id.0) {
            None => 0,
            Some(i) => self.connections[i].1.bytes_received_per_sec(),
        }
    }

    /// Memory still available on a client's send channel, or zero for an
    /// unknown client.
    pub fn channel_available_memory(&self, client_id: ClientId, channel_id: u8) -> (r: usize)
        requires
            self.inv(),
            channel_id == 0 || channel_id == 1,
        ensures
            conn_at(self.conns(), client_id.0) == -1 ==> r == 0,
            conn_at(self.conns(), client_id.0) >= 0 && channel_id == 1 ==> r == self.conns()[
                conn_at(self.conns(), client_id.0)
            ].1.rel_send().spec_max_memory() - self.conns()[conn_at(
                self.conns(),
                client_id.0,
            )].1.rel_send().spec_memory_usage(),
    {
        match self.find_conn(client_id.0) {
            None => 0,
            Some(i) => self.connections[i].1.channel_available_memory(channel_id),
        }
    }

    /// Whether a client's send channel would admit a message of
    /// `size_bytes`; an unknown client admits nothing.
    pub fn can_send_message(&self, client_id: ClientId, channel_id: u8, size_bytes: usize) -> (r:
        bool)
        requires
            self.inv(),
            channel_id == 0 || channel_id == 1,
        ensures
            conn_at(self.conns(), client_id.0) == -1 ==> !r,
            conn_at(self.conns(), client_id.0) >= 0 && channel_id == 0 ==> r == (size_bytes
                + self.conns()[conn_at(self.conns(), client_id.0)].1.unrel_send().spec_memory_usage()
                <= self.conns()[conn_at(
                self.conns(),
                client_id.0,
            )].1.unrel_send().spec_max_memory()),
            conn_at(self.conns(), client_id.0) >= 0 && channel_id == 1 ==> r == (size_bytes
                + self.conns()[conn_at(self.conns(), client_id.0)].1.rel_send().spec_memory_usage()
                <= self.conns()[conn_at(
                self.conns(),
                client_id.0,
            )].1.rel_send().spec_max_memory()),
    {
        match self.find_conn(client_id.0) {
            None => false,
            Some(i) => self.connections[i].1.can_send_message(channel_id, size_bytes),
        }
    }

    /// Queues a message to every client over a channel.
    #[verifier::loop_isolation(false)]
    pub fn broadcast_message(&mut self, channel_id: u8, message: Vec<u8>)
        requires
            old(self).inv(),
            channel_id == 0 || channel_id == 1,
        ensures
            final(self).inv(),
            final(self).conns().len() == old(self).conns().len(),
            forall|i: int|
                0 <= i < old(self).conns().len() ==> (#[trigger] final(self).conns()[i]).0 == old(self).conns()[i].0 && (old(self).conns()[i].1.spec_status() is Disconnected
                    ==> final(self).conns()[i].1 == old(self).conns()[i].1) && (!(old(self).conns()[i].1.spec_status() is Disconnected) ==> spec_send(
                    old(self).conns()[i].1,
                    final(self).conns()[i].1,
                    channel_id,
                    message@,
                )),
    {
        let ghost cs = self.connections@;
        let mut i: usize = 0;
        while i < self.connections.len()
            invariant
                i <= cs.len(),
                self.connections@.len() == cs.len(),
                self.connection_config == old(self).connection_config,
                self.player_connection_map@ == old(self).player_connection_map@,
                self.events@ == old(self).events@,
                forall|k: int|
                    i <= k < cs.len() ==> (#[trigger] self.connections@[k]) == cs[k],
                forall|k: int|
                    0 <= k < i ==> (#[trigger] self.connections@[k]).0 == cs[k].0
                        && self.connections@[k].1.inv() && (cs[k].1.spec_status()
                        is Disconnected ==> self.connections@[k].1 == cs[k].1) && (!(
                    cs[k].1.spec_status() is Disconnected) ==> spec_send(
                        cs[k].1,
                        self.connections@[k].1,
                        channel_id,
                        message@,
                    )),
            decreases cs.len() - i,
        {
            let (id, mut connection) = self.connections.remove(i);
            connection.send_message(channel_id, clone_bytes(&message));
            self.connections.insert(i, (id, connection));
            proof {
                assert(forall|k: int|
                    0 <= k < cs.len() && k != i ==> (#[trigger] self.connections@[k])
                        == (if k < i {
                        self.connections@[k]
                    } else {
                        cs[k]
                    }));
            }
            i = i + 1;
        }
    }

    /// Queues a message to every client but one over a channel.
    #[verifier::loop_isolation(false)]
    pub fn broadcast_message_except(&mut self, except_id: ClientId, channel_id: u8, message: Vec<u8>)
        requires
            old(self).inv(),
            channel_id == 0 || channel_id == 1,
        ensures
            final(self).inv(),
            final(self).conns().len() == old(self).conns().len(),
            forall|i: int|
                0 <= i < old(self).conns().len() ==> (#[trigger] final(self).conns()[i]).0 == old(self).conns()[i].0 && (old(self).conns()[i].0 != except_id.0 && !(old(self).conns()[i].1.spec_status() is Disconnected) ==> spec_send(
                    old(self).conns()[i].1,
                    final(self).conns()[i].1,
                    channel_id,
                    message@,
                )) && (old(self).conns()[i].1.spec_status() is Disconnected ==> final(self).conns()[i].1 == old(self).conns()[i].1),
            forall|i: int|
                0 <= i < old(self).conns().len() && old(self).conns()[i].0 == except_id.0 ==> (
                #[trigger] final(self).conns()[i]) == old(self).conns()[i],
    {
        let ghost cs = self.connections@;
        let mut i: usize = 0;
        while i < self.connections.len()
            invariant
                i <= cs.len(),
                self.connections@.len() == cs.len(),
                self.connection_config == old(self).connection_config,
                self.player_connection_map@ == old(self).player_connection_map@,
                self.events@ == old(self).events@,
                forall|k: int|
                    i <= k < cs.len() ==> (#[trigger] self.connections@[k]) == cs[k],
                forall|k: int|
                    0 <= k < i ==> (#[trigger] self.connections@[k]).0 == cs[k].0
                        && self.connections@[k].1.inv() && (cs[k].0 != except_id.0 && !(
                    cs[k].1.spec_status() is Disconnected) ==> spec_send(
                        cs[k].1,
                        self.connections@[k].1,
                        channel_id,
                        message@,
                    )) && (cs[k].1.spec_status() is Disconnected ==> self.connections@[k].1
                        == cs[k].1),
                forall|k: int|
                    0 <= k < i && cs[k].0 == except_id.0 ==> (#[trigger] self.connections@[k])
                        == cs[k],
            decreases cs.len() - i,
        {
            if self.connections[i].0 != except_id.0 {
                let (id, mut connection) = self.connections.remove(i);
                connection.send_message(channel_id, clone_bytes(&message));
                self.connections.insert(i, (id, connection));
                proof {
                    assert(forall|k: int|
                        0 <= k < cs.len() && k != i ==> (#[trigger] self.connections@[k])
                            == (if k < i {
                            self.connections@[k]
                        } else {
                            cs[k]
                        }));
                }
            }
            i = i + 1;
        }
    }

    /// Marks every connection disconnected by the server.
    #[verifier::loop_isolation(false)]
    pub fn disconnect_all(&mut self)
        requires
            old(self).inv(),
        ensures
            final(self).inv(),
            final(self).conns().len() == old(self).conns().len(),
            forall|i: int|
                0 <= i < old(self).conns().len() ==> (#[trigger] final(self).conns()[i]).0 == old(self).conns()[i].0 && final(self).conns()[i].1.spec_status() is Disconnected,
    {
        let ghost cs = self.connections@;
        let mut i: usize = 0;
        while i < self.connections.len()
            invariant
                i <= cs.len(),
                self.connections@.len() == cs.len(),
                self.connection_config == old(self).connection_config,
                self.player_connection_map@ == old(self).player_connection_map@,
                self.events@ == old(self).events@,
                forall|k: int|
                    i <= k < cs.len() ==> (#[trigger] self.connections@[k]) == cs[k],
                forall|k: int|
                    0 <= k < i ==> (#[trigger] self.connections@[k]).0 == cs[k].0
                        && self.connections@[k].1.inv()
                        && self.connections@[k].1.spec_status() is Disconnected,
            decreases cs.len() - i,
        {
            let (id, mut connection) = self.connections.remove(i);
            connection.disconnect_with_reason(DisconnectReason::DisconnectedByServer);
            self.connections.insert(i, (id, connection));
            proof {
                assert(forall|k: int|
                    0 <= k < cs.len() && k != i ==> (#[trigger] self.connections@[k])
                        == (if k < i {
                        self.connections@[k]
                    } else {
                        cs[k]
                    }));
            }
            i = i + 1;
        }
    }

    /// The raw ids of the clients whose connections are terminally closed,
    /// in table order.
    #[verifier::loop_isolation(false)]
    pub fn disconnections_id(&self) -> (r: Vec<u64>)
        requires
            self.inv(),
        ensures
            r@ == disconnected_ids(self.conns()),
            forall|i: int|
                0 <= i < r@.len() ==> conn_at(self.conns(), #[trigger] r@[i]) >= 0,
    {
        let ghost cs = self.connections@;
        let mut r: Vec<u64> = Vec::new();
        let mut i: usize = 0;
        proof {
            assert(disconnected_ids(cs.take(0)) =~= Seq::<u64>::empty());
        }
        while i < self.connections.len()
            invariant
                i <= cs.len(),
                r@ == disconnected_ids(cs.take(i as int)),
                forall|k: int| 0 <= k < r@.len() ==> conn_at(cs, #[trigger] r@[k]) >= 0,
            decreases cs.len() - i,
        {
            proof {
                assert(cs.take(i as int + 1).drop_last() =~= cs.take(i as int));
                assert(cs.take(i as int + 1).last() == cs[i as int]);
            }
            if self.connections[i].1.is_disconnected() {
                let id = self.connections[i].0;
                proof {
                    lemma_conn_at(cs, id);
                    if conn_at(cs, id) == -1 {
                        assert(cs[i as int].0 != id);
                    }
                }
                r.push(id);
                proof {
                    assert(r@ =~= disconnected_ids(cs.take(i as int + 1)));
                }
            } else {
                proof {
                    assert(disconnected_ids(cs.take(i as int)) + Seq::<u64>::empty()
                        =~= disconnected_ids(cs.take(i as int)));
                }
            }
            i = i + 1;
        }
        proof {
            assert(cs.take(cs.len() as int) =~= cs);
        }
        r
    }

    /// The raw ids of the clients whose connections are established, in
    /// table order.
    #[verifier::loop_isolation(false)]
    pub fn clients_id(&self) -> (r: Vec<u64>)
        requires
            self.inv(),
        ensures
            r@ == connected_ids(self.conns()),
            forall|i: int|
                0 <= i < r@.len() ==> conn_at(self.conns(), #[trigger] r@[i]) >= 0,
    {
        let ghost cs = self.connections@;
        let mut r: Vec<u64> = Vec::new();
        let mut i: usize = 0;
        proof {
            assert(connected_ids(cs.take(0)) =~= Seq::<u64>::empty());
        }
        while i < self.connections.len()
            invariant
                i <= cs.len(),
                r@ == connected_ids(cs.take(i as int)),
                forall|k: int| 0 <= k < r@.len() ==> conn_at(cs, #[trigger] r@[k]) >= 0,
            decreases cs.len() - i,
        {
            proof {
                assert(cs.take(i as int + 1).drop_last() =~= cs.take(i as int));
                assert(cs.take(i as int + 1).last() == cs[i as int]);
            }
            if self.connections[i].1.is_connected() {
                let id = self.connections[i].0;
                proof {
                    lemma_conn_at(cs, id);
                    if conn_at(cs, id) == -1 {
                        assert(cs[i as int].0 != id);
                    }
                }
                r.push(id);
                proof {
                    assert(r@ =~= connected_ids(cs.take(i as int + 1)));
                }
            } else {
                proof {
                    assert(connected_ids(cs.take(i as int)) + Seq::<u64>::empty()
                        =~= connected_ids(cs.take(i as int)));
                }
            }
            i = i + 1;
        }
        proof {
            assert(cs.take(cs.len() as int) =~= cs);
        }
        r
    }

    /// How many connections are established.
    #[verifier::loop_isolation(false)]
    pub fn connected_clients(&self) -> (r: usize)
        requires
            self.inv(),
        ensures
            r == connected_count(self.conns()),
    {
        let ghost cs = self.connections@;
        let mut n: usize = 0;
        let mut i: usize = 0;
        proof {
            assert(connected_count(cs.take(0)) == 0);
        }
        while i < self.connections.len()
            invariant
                i <= cs.len(),
                n == connected_count(cs.take(i as int)),
                n <= i,
            decreases cs.len() - i,
        {
            proof {
                assert(cs.take(i as int + 1).drop_last() =~= cs.take(i as int));
                assert(cs.take(i as int + 1).last() == cs[i as int]);
            }
            if self.connections[i].1.is_connected() {
                n = n + 1;
            }
            i = i + 1;
        }
        proof {
            assert(cs.take(cs.len() as int) =~= cs);
        }
        n
    }

    /// Whether the client's connection is established.
    pub fn is_connected(&self, client_id: ClientId) -> (r: bool)
        requires
            self.inv(),
        ensures
            conn_at(self.conns(), client_id.0) == -1 ==> !r,
            conn_at(self.conns(), client_id.0) >= 0 ==> r == (self.conns()[conn_at(
                self.conns(),
                client_id.0,
            )].1.spec_status() is Connected),
    {
        match self.find_conn(client_id.0) {
            None => false,
            Some(i) => self.connections[i].1.is_connected(),
        }
    }

    /// Advances every connection's clock by the duration.
    #[verifier::loop_isolation(false)]
    pub fn update(&mut self, duration_ms: u64)
        requires
            old(self).inv(),
        ensures
            final(self).inv(),
            final(self).conns().len() == old(self).conns().len(),
            forall|i: int|
                0 <= i < old(self).conns().len() ==> (#[trigger] final(self).conns()[i]).0 == old(self).conns()[i].0 && final(self).conns()[i].1.spec_current_time()
                    == crate::connection_stats::sat_add(
                    old(self).conns()[i].1.spec_current_time(),
                    duration_ms,
                ),
    {
        let ghost cs = self.connections@;
        let mut i: usize = 0;
        while i < self.connections.len()
            invariant
                i <= cs.len(),
                self.connections@.len() == cs.len(),
                self.connection_config == old(self).connection_config,
                self.player_connection_map@ == old(self).player_connection_map@,
                self.events@ == old(self).events@,
                forall|k: int|
                    i <= k < cs.len() ==> (#[trigger] self.connections@[k]) == cs[k],
                forall|k: int|
                    0 <= k < i ==> (#[trigger] self.connections@[k]).0 == cs[k].0
                        && self.connections@[k].1.inv() && spec_update(
                        cs[k].1,
                        self.connections@[k].1,
                        duration_ms,
                    ),
            decreases cs.len() - i,
        {
            let (id, mut connection) = self.connections.remove(i);
            connection.update(duration_ms);
            self.connections.insert(i, (id, connection));
            proof {
                assert(forall|k: int|
                    0 <= k < cs.len() && k != i ==> (#[trigger] self.connections@[k])
                        == (if k < i {
                        self.connections@[k]
                    } else {
                        cs[k]
                    }));
            }
            i = i + 1;
        }
    }

    /// The datagrams one client's connection wants to send this tick.
    pub fn get_packets_to_send(&mut self, client_id: ClientId) -> (r: Result<
        Vec<Payload>,
        ClientNotFound,
    >)
        requires
            old(self).inv(),
        ensures
            final(self).inv(),
            conn_at(old(self).conns(), client_id.0) == -1 ==> r is Err && final(self).conns()
                == old(self).conns(),
            final(self).conns().len() == old(self).conns().len(),
            forall|k: int|
                0 <= k < old(self).conns().len() && k != conn_at(
                    old(self).conns(),
                    client_id.0,
                ) ==> (#[trigger] final(self).conns()[k]) == old(self).conns()[k],
            conn_at(old(self).conns(), client_id.0) >= 0 ==> {
                let oc = old(self).conns()[conn_at(old(self).conns(), client_id.0)].1;
                let nc = final(self).conns()[conn_at(old(self).conns(), client_id.0)].1;
                &&& (r matches Ok(out) && final(self).conns()[conn_at(
                    old(self).conns(),
                    client_id.0,
                )].0 == client_id.0 && (oc.spec_status() is Disconnected ==> out@.len() == 0
                    && nc == oc) && (!(oc.spec_status() is Disconnected) ==> spec_tick(
                    oc,
                    nc,
                    out@,
                )))
            },
    {
        let ghost cs = self.connections@;
        match self.find_conn(client_id.0) {
            None => Err(ClientNotFound),
            Some(i) => {
                let (id, mut connection) = self.connections.remove(i);
                let packets = connection.get_packets_to_send();
                self.connections.insert(i, (id, connection));
                proof {
                    assert(forall|k: int|
                        0 <= k < cs.len() && k != i ==> (#[trigger] self.connections@[k])
                            == cs[k]);
                    assert(self.connections@[i as int].0 == cs[i as int].0);
                }
                Ok(packets)
            },
        }
    }

    /// Hands one datagram from the client to its connection.
    pub fn process_packet_from(&mut self, payload: &[u8], client_id: ClientId) -> (r: Result<
        (),
        ClientNotFound,
    >)
        requires
            old(self).inv(),
        ensures
            final(self).inv(),
            conn_at(old(self).conns(), client_id.0) == -1 ==> r is Err && final(self).conns()
                == old(self).conns(),
            conn_at(old(self).conns(), client_id.0) >= 0 ==> r is Ok,
            final(self).conns().len() == old(self).conns().len(),
            forall|k: int|
                0 <= k < old(self).conns().len() && k != conn_at(
                    old(self).conns(),
                    client_id.0,
                ) ==> (#[trigger] final(self).conns()[k]) == old(self).conns()[k],
            conn_at(old(self).conns(), client_id.0) >= 0 ==> {
                let oc = old(self).conns()[conn_at(old(self).conns(), client_id.0)].1;
                let nc = final(self).conns()[conn_at(old(self).conns(), client_id.0)].1;
                &&& final(self).conns()[conn_at(old(self).conns(), client_id.0)].0
                    == client_id.0
                &&& (oc.spec_status() is Disconnected ==> nc == oc)
                &&& (!(oc.spec_status() is Disconnected) ==> spec_process(oc, nc, payload@))
            },
    {
        let ghost cs = self.connections@;
        match self.find_conn(client_id.0) {
            None => Err(ClientNotFound),
            Some(i) => {
                let (id, mut connection) = self.connections.remove(i);
                connection.process_packet(payload);
                self.connections.insert(i, (id, connection));
                proof {
                    assert(forall|k: int|
                        0 <= k < cs.len() && k != i ==> (#[trigger] self.connections@[k])
                            == cs[k]);
                    assert(self.connections@[i as int].0 == cs[i as int].0);
                }
                Ok(())
            },
        }
    }

    /// Applies one message from the transport: a connect adds the
    /// connection, a disconnect removes it, a payload goes to the client's
    /// connection.
    pub fn process_transport_message(&mut self, message: ToDenariaServerMessage)
        requires
            old(self).inv(),
        ensures
            final(self).inv(),
            message matches ToDenariaServerMessage::ClientConnected { client_id, player_id, .. }
                ==> {
                &&& (conn_at(old(self).conns(), client_id) >= 0 ==> *final(self) == *old(self))
                &&& (conn_at(old(self).conns(), client_id) == -1 ==> {
                    &&& final(self).conns().len() == old(self).conns().len() + 1
                    &&& final(self).conns().last().0 == client_id
                    &&& final(self).conns().last().1.spec_status()
                        == ClientConnectionStatus::Connected
                    &&& final(self).conns().last().1.spec_player_id() == player_id@
                    &&& (forall|i: int|
                        0 <= i < old(self).conns().len() ==> (#[trigger] final(self).conns()[i])
                            == old(self).conns()[i])
                    &&& final(self).spec_events() == old(self).spec_events().push(
                        ServerEvent::ClientConnected { client_id: ClientId(client_id) },
                    )
                    &&& final(self).player_map() == old(self).player_map().push(
                        (player_id@, client_id),
                    )
                })
            },
            message matches ToDenariaServerMessage::ClientDisconnected { client_id } ==> {
                &&& (conn_at(old(self).conns(), client_id) == -1 ==> final(self).conns() == old(self).conns() && final(self).spec_events() == old(self).spec_events())
                &&& (conn_at(old(self).conns(), client_id) >= 0 ==> final(self).conns() == old(self).conns().remove(conn_at(old(self).conns(), client_id)) && final(self).spec_events().len() == old(self).spec_events().len() + 1 && (final(self).spec_events().last() matches ServerEvent::ClientDisconnected {
                    client_id: c2,
                    ..
                } && c2 == ClientId(client_id)))
            },
            message matches ToDenariaServerMessage::Payload { client_id, payload } ==> {
                &&& final(self).conns().len() == old(self).conns().len()
                &&& (forall|k: int|
                    0 <= k < old(self).conns().len() && k != conn_at(
                        old(self).conns(),
                        client_id,
                    ) ==> (#[trigger] final(self).conns()[k]) == old(self).conns()[k])
                &&& (conn_at(old(self).conns(), client_id) >= 0 ==> {
                    let oc = old(self).conns()[conn_at(old(self).conns(), client_id)].1;
                    let nc = final(self).conns()[conn_at(old(self).conns(), client_id)].1;
                    &&& (oc.spec_status() is Disconnected ==> nc == oc)
                    &&& (!(oc.spec_status() is Disconnected) ==> spec_process(
                        oc,
                        nc,
                        payload@,
                    ))
                })
            },
    {
        match message {
            ToDenariaServerMessage::ClientConnected { client_id, addr: _, payload: _, player_id } => {
                self.add_connection(ClientId(client_id), player_id);
            },
            ToDenariaServerMessage::ClientDisconnected { client_id } => {
                self.remove_connection(ClientId(client_id));
            },
            ToDenariaServerMessage::Payload { client_id, payload } => {
                let _ = self.process_packet_from(payload.as_slice(), ClientId(client_id));
            },
        }
    }
}

/// Hits are first occurrences.
proof fn lemma_conn_at_first(cs: Seq<(u64, UnityClient)>, id: u64)
    ensures
        -1 <= conn_at(cs, id) < cs.len(),
        conn_at(cs, id) >= 0 ==> forall|i: int|
            0 <= i < conn_at(cs, id) ==> (#[trigger] cs[i]).0 != id,
    decreases cs.len(),
{
    lemma_conn_at(cs, id);
    if cs.len() > 0 && cs[0].0 != id {
        let d = cs.drop_first();
        lemma_conn_at_first(d, id);
        if conn_at(cs, id) >= 0 {
            assert forall|i: int| 0 <= i < conn_at(cs, id) implies (#[trigger] cs[i]).0 != id by {
                if i > 0 {
                    assert(cs[i] == d[i - 1]);
                }
            }
        }
    }
}

/// A byte-for-byte copy of a message.
#[verifier::loop_isolation(false)]
fn clone_bytes(v: &Vec<u8>) -> (r: Vec<u8>)
    ensures
        r@ == v@,
{
    let mut r: Vec<u8> = Vec::new();
    let mut i: usize = 0;
    while i < v.len()
        invariant
            i <= v@.len(),
            r@ == v@.take(i as int),
        decreases v@.len() - i,
    {
        r.push(v[i]);
        proof {
            assert(r@ =~= v@.take(i as int + 1));
        }
        i = i + 1;
    }
    proof {
        assert(v@.take(v@.len() as int) =~= v@);
    }
    r
}

/// A structural copy of a channel configuration.
fn clone_config(c: &ConnectionConfig) -> (r: ConnectionConfig)
    ensures
        r.available_bytes_per_tick == c.available_bytes_per_tick,
        r.server_channels_config@ == c.server_channels_config@,
        r.client_channels_config@ == c.client_channels_config@,
{
    ConnectionConfig {
        available_bytes_per_tick: c.available_bytes_per_tick,
        server_channels_config: clone_channel_list(&c.server_channels_config),
        client_channels_config: clone_channel_list(&c.client_channels_config),
    }
}

/// A structural copy of a channel list.
#[verifier::loop_isolation(false)]
fn clone_channel_list(v: &Vec<crate::channel::ChannelConfig>) -> (r: Vec<
    crate::channel::ChannelConfig,
>)
    ensures
        r@ == v@,
{
    let mut r: Vec<crate::channel::ChannelConfig> = Vec::new();
    let mut i: usize = 0;
    while i < v.len()
        invariant
            i <= v@.len(),
            r@ == v@.take(i as int),
        decreases v@.len() - i,
    {
        let c = &v[i];
        let copy = crate::channel::ChannelConfig {
            channel_id: c.channel_id,
            max_memory_usage_bytes: c.max_memory_usage_bytes,
            send_type: match &c.send_type {
                crate::channel::SendType::Unreliable => crate::channel::SendType::Unreliable,
                crate::channel::SendType::ReliableOrdered { resend_time_ms } => crate::channel::SendType::ReliableOrdered {
                    resend_time_ms: *resend_time_ms,
                },
            },
        };
        proof {
            assert(copy == v@[i as int]);
        }
        r.push(copy);
        proof {
            assert(r@ =~= v@.take(i as int + 1));
        }
        i = i + 1;
    }
    proof {
        assert(v@.take(v@.len() as int) =~= v@);
    }
    r
}

} // verus!
