//! Session dispatching: the typed messages exchanged with per-session
//! workers, the player-to-session and client-to-session routing tables, and
//! the decision of where each transport event goes.

use vstd::prelude::*;

use crate::transport_server::{Addr, ServerResult};

verus! {

/// A message to a session worker.
#[derive(Debug, Clone, PartialEq, Eq)]
pub enum ToDenariaServerMessage {
    ClientConnected { client_id: u64, addr: Addr, payload: Vec<u8>, player_id: Vec<u8> },
    ClientDisconnected { client_id: u64 },
    Payload { client_id: u64, payload: Vec<u8> },
}

/// A message from a session worker.
#[derive(Debug, Clone, PartialEq, Eq)]
pub enum FromDenariaServerMessage {
    SendPacket { client_id: u64, packets: Vec<Vec<u8>> },
}

/// What the caller must do with one routed transport event.
#[derive(Debug, Clone, PartialEq, Eq)]
pub enum DispatchAction {
    /// Write the datagram to the socket.
    SendDatagram { addr: Addr, payload: Vec<u8> },
    /// Enqueue the message on the session's worker channel.
    ToSession { session_id: u32, message: ToDenariaServerMessage },
    /// Spawn a new session worker under this id with this roster.
    StartSession { id: u32, player_ids: Vec<Vec<u8>> },
}

/// The index of the entry with the given player id, or `-1`.
pub open spec fn player_session_at(m: Seq<(Seq<u8>, u32)>, player: Seq<u8>) -> int
    decreases m.len(),
{
    if m.len() == 0 {
        -1
    } else if m[0].0 == player {
        0
    } else {
        let r = player_session_at(m.drop_first(), player);
        if r == -1 {
            -1
        } else {
            r + 1
        }
    }
}

/// The index of the entry with the given client id, or `-1`.
pub open spec fn client_session_at(m: Seq<(u64, u32)>, client: u64) -> int
    decreases m.len(),
{
    if m.len() == 0 {
        -1
    } else if m[0].0 == client {
        0
    } else {
        let r = client_session_at(m.drop_first(), client);
        if r == -1 {
            -1
        } else {
            r + 1
        }
    }
}

/// The client table without any entry for `client`.
pub open spec fn drop_client(m: Seq<(u64, u32)>, client: u64) -> Seq<(u64, u32)>
    decreases m.len(),
{
    if m.len() == 0 {
        Seq::empty()
    } else if m[0].0 == client {
        drop_client(m.drop_first(), client)
    } else {
        seq![m[0]] + drop_client(m.drop_first(), client)
    }
}

/// No entry for the dropped client survives; other entries' lookups agree.
pub proof fn lemma_drop_client(m: Seq<(u64, u32)>, client: u64)
    ensures
        client_session_at(drop_client(m, client), client) == -1,
        forall|k: int|
            0 <= k < drop_client(m, client).len() ==> (#[trigger] drop_client(m, client)[k]).0
                != client,
    decreases m.len(),
{
    if m.len() > 0 {
        let d = m.drop_first();
        lemma_drop_client(d, client);
        if m[0].0 != client {
            let r = drop_client(m, client);
            assert(r == seq![m[0]] + drop_client(d, client));
            assert forall|k: int| 0 <= k < r.len() implies (#[trigger] r[k]).0 != client by {
                if k > 0 {
                    assert(r[k] == drop_client(d, client)[k - 1]);
                }
            }
            lemma_client_session_at_props(r, client);
            if client_session_at(r, client) >= 0 {
                assert(false);
            }
        }
    }
}

/// The routing tables of the dispatcher: which session serves each player,
/// and which session each connected client was routed to.
#[derive(Debug)]
pub struct SessionRouter {
    player_id_session_map: Vec<(Vec<u8>, u32)>,
    client_id_session_map: Vec<(u64, u32)>,
}

impl SessionRouter {
    /// The player-to-session table.
    pub closed spec fn players(&self) -> Seq<(Seq<u8>, u32)> {
        Seq::new(
            self.player_id_session_map@.len(),
            |i: int| (self.player_id_session_map@[i].0@, self.player_id_session_map@[i].1),
        )
    }

    /// The client-to-session table.
    pub closed spec fn clients(&self) -> Seq<(u64, u32)> {
        self.client_id_session_map@
    }

    /// Empty routing tables.
    pub fn new() -> (r: Self)
        ensures
            r.players().len() == 0,
            r.clients().len() == 0,
    {
        let r = SessionRouter { player_id_session_map: Vec::new(), client_id_session_map: Vec::new() };
        proof {
            assert(r.players() =~= Seq::<(Seq<u8>, u32)>::empty());
        }
        r
    }

    /// Seeds the player table with a roster for a new session: every player
    /// of the roster is mapped (or remapped) to `session_id`.
    #[verifier::loop_isolation(false)]
    pub fn register_session(&mut self, session_id: u32, player_ids: &Vec<Vec<u8>>)
        ensures
            final(self).clients() == old(self).clients(),
            forall|p: Seq<u8>|
                #![trigger player_session_at(final(self).players(), p)]
                (exists|i: int|
                    0 <= i < player_ids@.len() && (#[trigger] player_ids@[i])@ == p) ==> {
                    let at = player_session_at(final(self).players(), p);
                    &&& at >= 0
                    &&& final(self).players()[at].1 == session_id
                },
    {
        let mut i: usize = 0;
        while i < player_ids.len()
            invariant
                i <= player_ids@.len(),
                self.clients() == old(self).clients(),
                forall|k: int|
                    #![trigger player_ids@[k]]
                    0 <= k < i ==> {
                        let at = player_session_at(self.players(), player_ids@[k]@);
                        &&& at >= 0
                        &&& self.players()[at].1 == session_id
                    },
            decreases player_ids@.len() - i,
        {
            let ghost before = self.players();
            self.set_player_session(player_ids[i].clone(), session_id);
            proof {
                let pid = player_ids@[i as int]@;
                assert(self.players()[0] == (pid, session_id));
                assert(player_session_at(self.players(), pid) == 0);
                assert forall|k: int| #![trigger player_ids@[k]] 0 <= k < i + 1 implies {
                    let at = player_session_at(self.players(), player_ids@[k]@);
                    at >= 0 && self.players()[at].1 == session_id
                } by {
                    let q = player_ids@[k]@;
                    if q != pid {
                        lemma_player_session_at_cons(
                            (pid, session_id),
                            before,
                            q,
                            self.players(),
                        );
                    }
                }
            }
            i = i + 1;
        }
        assert forall|p: Seq<u8>|
            #![trigger player_session_at(self.players(), p)]
            (exists|k: int|
                0 <= k < player_ids@.len() && (#[trigger] player_ids@[k])@ == p) implies {
            let at = player_session_at(self.players(), p);
            at >= 0 && self.players()[at].1 == session_id
        } by {
            let k = choose|k: int| 0 <= k < player_ids@.len() && (#[trigger] player_ids@[k])@
                == p;
        }
    }

    /// Maps one player to a session. The mapping is prepended, and lookups
    /// take the newest entry, so this shadows any earlier mapping.
    fn set_player_session(&mut self, player_id: Vec<u8>, session_id: u32)
        ensures
            final(self).clients() == old(self).clients(),
            final(self).players() == seq![(player_id@, session_id)] + old(self).players(),
    {
        self.player_id_session_map.insert(0, (player_id, session_id));
        proof {
            assert(self.players() =~= seq![
                (self.player_id_session_map@[0].0@, self.player_id_session_map@[0].1),
            ] + old(self).players());
        }
    }

    /// Remembers which session a connected client was routed to.
    #[verifier::loop_isolation(false)]
    pub fn set_client_session(&mut self, client_id: u64, session_id: u32)
        ensures
            final(self).players() == old(self).players(),
            client_session_at(final(self).clients(), client_id) >= 0,
            final(self).clients()[client_session_at(final(self).clients(), client_id)].1
                == session_id,
    {
        let ghost cs = self.client_id_session_map@;
        let mut i: usize = 0;
        while i < self.client_id_session_map.len()
            invariant
                i <= cs.len(),
                self.client_id_session_map@ == cs,
                self.players() == old(self).players(),
                forall|k: int| 0 <= k < i ==> (#[trigger] cs[k]).0 != client_id,
            decreases cs.len() - i,
        {
            if self.client_id_session_map[i].0 == client_id {
                self.client_id_session_map.set(i, (client_id, session_id));
                proof {
                    lemma_client_session_at_hit(self.client_id_session_map@, client_id, i as int);
                }
                return ;
            }
            i = i + 1;
        }
        self.client_id_session_map.push((client_id, session_id));
        proof {
            lemma_client_session_at_hit(
                self.client_id_session_map@,
                client_id,
                cs.len() as int,
            );
        }
    }

    /// Forgets a disconnected client's route: no entry for the client
    /// survives, the rest keep their order.
    #[verifier::loop_isolation(false)]
    pub fn remove_client_session(&mut self, client_id: u64)
        ensures
            final(self).players() == old(self).players(),
            final(self).clients() == drop_client(old(self).clients(), client_id),
            client_session_at(final(self).clients(), client_id) == -1,
    {
        let ghost cs = self.client_id_session_map@;
        let mut kept: Vec<(u64, u32)> = Vec::new();
        let mut i: usize = 0;
        proof {
            assert(cs.skip(0) =~= cs);
        }
        while i < self.client_id_session_map.len()
            invariant
                i <= cs.len(),
                self.client_id_session_map@ == cs,
                drop_client(cs, client_id) == kept@ + drop_client(
                    cs.skip(i as int),
                    client_id,
                ),
            decreases cs.len() - i,
        {
            let ghost rem = cs.skip(i as int);
            proof {
                assert(rem[0] == cs[i as int]);
                assert(rem.drop_first() =~= cs.skip(i as int + 1));
            }
            if self.client_id_session_map[i].0 != client_id {
                let ghost k0 = kept@;
                kept.push(self.client_id_session_map[i]);
                proof {
                    assert(kept@ =~= k0.push(rem[0]));
                    assert(k0.push(rem[0]) + drop_client(cs.skip(i as int + 1), client_id)
                        =~= k0 + (seq![rem[0]] + drop_client(
                        cs.skip(i as int + 1),
                        client_id,
                    )));
                }
            }
            i = i + 1;
        }
        proof {
            assert(cs.skip(cs.len() as int) =~= Seq::<(u64, u32)>::empty());
            assert(kept@ + Seq::<(u64, u32)>::empty() =~= kept@);
            lemma_drop_client(cs, client_id);
        }
        self.client_id_session_map = kept;
    }

    /// The session a client was routed to, if any.
    #[verifier::loop_isolation(false)]
    pub fn client_session(&self, client_id: u64) -> (r: Option<u32>)
        ensures
            client_session_at(self.clients(), client_id) == -1 ==> r is None,
            client_session_at(self.clients(), client_id) >= 0 ==> r == Some(
                self.clients()[client_session_at(self.clients(), client_id)].1,
            ),
    {
        let ghost cs = self.client_id_session_map@;
        proof {
            lemma_client_session_at_props(cs, client_id);
        }
        let mut i: usize = 0;
        while i < self.client_id_session_map.len()
            invariant
                i <= cs.len(),
                forall|k: int| 0 <= k < i ==> (#[trigger] cs[k]).0 != client_id,
                client_session_at(cs, client_id) >= 0 ==> client_session_at(cs, client_id) >= i,
            decreases cs.len() - i,
        {
            if self.client_id_session_map[i].0 == client_id {
                proof {
                    let f = client_session_at(cs, client_id);
                    if f == -1 || f > i {
                        lemma_client_session_at_first(cs, client_id);
                        assert(false);
                    }
                    if f < i {
                        lemma_client_session_at_props(cs, client_id);
                        assert(false);
                    }
                }
                return Some(self.client_id_session_map[i].1);
            }
            proof {
                if client_session_at(cs, client_id) == i {
                    lemma_client_session_at_props(cs, client_id);
                }
            }
            i = i + 1;
        }
        None
    }

    /// The session that serves a player, if any.
    #[verifier::loop_isolation(false)]
    pub fn player_session(&self, player_id: &Vec<u8>) -> (r: Option<u32>)
        ensures
            player_session_at(self.players(), player_id@) == -1 ==> r is None,
            player_session_at(self.players(), player_id@) >= 0 ==> r == Some(
                self.players()[player_session_at(self.players(), player_id@)].1,
            ),
    {
        let ghost ps = self.players();
        proof {
            lemma_player_session_at_props(ps, player_id@);
        }
        let mut i: usize = 0;
        while i < self.player_id_session_map.len()
            invariant
                i <= ps.len(),
                forall|k: int| 0 <= k < i ==> (#[trigger] ps[k]).0 != player_id@,
                player_session_at(ps, player_id@) >= 0 ==> player_session_at(ps, player_id@)
                    >= i,
            decreases ps.len() - i,
        {
            if vec_u8_eq(&self.player_id_session_map[i].0, player_id) {
                proof {
                    assert(ps[i as int].0 == player_id@);
                    lemma_player_session_at_first(ps, player_id@);
                    let f = player_session_at(ps, player_id@);
                    if f == -1 {
                        lemma_player_session_at_props(ps, player_id@);
                        assert(false);
                    }
                    if f > i {
                        assert(false);
                    }
                    if f < i {
                        assert(false);
                    }
                }
                return Some(self.player_id_session_map[i].1);
            }
            proof {
                if player_session_at(ps, player_id@) == i {
                    lemma_player_session_at_props(ps, player_id@);
                }
            }
            i = i + 1;
        }
        None
    }

    /// Routes one transport event: replies go back to the wire; a payload
    /// goes to the session its client was routed to; a connect routes the
    /// client to its player's session, remembers that route, and confirms on
    /// the wire; a disconnect notifies the session and forgets the route; a
    /// session request becomes a start action with its roster registered.
    /// Events for unknown players or clients are dropped.
    pub fn route_server_result(&mut self, result: ServerResult) -> (r: Vec<DispatchAction>)
        ensures
            result == ServerResult::NoAction ==> r@.len() == 0 && final(self).players() == old(
                self,
            ).players() && final(self).clients() == old(self).clients(),
            (result matches ServerResult::PacketToSend { addr, payload } ==> r@ == seq![
                DispatchAction::SendDatagram { addr, payload },
            ] && final(self).players() == old(self).players() && final(self).clients() == old(
                self,
            ).clients()),
            (result matches ServerResult::Payload { client_id, payload } ==> {
                &&& client_session_at(old(self).clients(), client_id) == -1 ==> r@.len() == 0
                &&& client_session_at(old(self).clients(), client_id) >= 0 ==> r@ == seq![
                    DispatchAction::ToSession {
                        session_id: old(self).clients()[client_session_at(
                            old(self).clients(),
                            client_id,
                        )].1,
                        message: ToDenariaServerMessage::Payload { client_id, payload },
                    },
                ]
                &&& final(self).players() == old(self).players()
                &&& final(self).clients() == old(self).clients()
            }),
            (result matches ServerResult::ClientConnected { client_id, addr, payload, player_id }
                ==> {
                &&& player_session_at(old(self).players(), player_id@) == -1 ==> r@.len() == 0
                    && final(self).clients() == old(self).clients()
                &&& player_session_at(old(self).players(), player_id@) >= 0 ==> (r@.len() == 2
                    && (r@[0] matches DispatchAction::ToSession { session_id, message } && (
                    session_id == old(self).players()[player_session_at(
                        old(self).players(),
                        player_id@,
                    )].1) && (message matches ToDenariaServerMessage::ClientConnected {
                        client_id: c2,
                        addr: a2,
                        payload: p2,
                        player_id: pl2,
                    } && c2 == client_id && a2 == addr && p2@ == payload@ && pl2@ == player_id@))
                    && (r@[1] matches DispatchAction::SendDatagram { addr: a3, payload: p3 } && a3
                    == addr && p3@ == payload@) && client_session_at(
                    final(self).clients(),
                    client_id,
                ) >= 0)
                &&& final(self).players() == old(self).players()
            }),
            (result matches ServerResult::ClientDisconnected { client_id, addr, payload } ==> {
                &&& final(self).players() == old(self).players()
                &&& (client_session_at(old(self).clients(), client_id) >= 0 ==> {
                    &&& r@.len() == 1 + (if payload is Some {
                        1int
                    } else {
                        0int
                    })
                    &&& r@[0] == (DispatchAction::ToSession {
                        session_id: old(self).clients()[client_session_at(
                            old(self).clients(),
                            client_id,
                        )].1,
                        message: ToDenariaServerMessage::ClientDisconnected { client_id },
                    })
                    &&& final(self).clients() == drop_client(old(self).clients(), client_id)
                    &&& client_session_at(final(self).clients(), client_id) == -1
                })
                &&& (client_session_at(old(self).clients(), client_id) == -1 ==> {
                    &&& r@.len() == (if payload is Some {
                        1int
                    } else {
                        0int
                    })
                    &&& final(self).clients() == old(self).clients()
                })
                &&& (payload matches Some(p) ==> (r@[r@.len() - 1]
                    matches DispatchAction::SendDatagram { addr: a2, payload: p2 } && a2 == addr
                    && p2@ == p@))
                &&& (payload is None && client_session_at(old(self).clients(), client_id) == -1
                    ==> r@.len() == 0)
            }),
            (result matches ServerResult::CreateSession { id, player_ids } ==> r@ == seq![
                DispatchAction::StartSession { id, player_ids },
            ]),
    {
        let mut actions: Vec<DispatchAction> = Vec::new();
        match result {
            ServerResult::NoAction => {},
            ServerResult::PacketToSend { addr, payload } => {
                actions.push(DispatchAction::SendDatagram { addr, payload });
                proof {
                    assert(actions@ =~= seq![
                        DispatchAction::SendDatagram { addr, payload },
                    ]);
                }
            },
            ServerResult::Payload { client_id, payload } => {
                match self.client_session(client_id) {
                    Some(session_id) => {
                        actions.push(
                            DispatchAction::ToSession {
                                session_id,
                                message: ToDenariaServerMessage::Payload { client_id, payload },
                            },
                        );
                        proof {
                            assert(actions@ =~= seq![
                                DispatchAction::ToSession {
                                    session_id,
                                    message: ToDenariaServerMessage::Payload {
                                        client_id,
                                        payload,
                                    },
                                },
                            ]);
                        }
                    },
                    None => {},
                }
            },
            ServerResult::ClientConnected { client_id, addr, payload, player_id } => {
                match self.player_session(&player_id) {
                    Some(session_id) => {
                        self.set_client_session(client_id, session_id);
                        let ghost a0 = actions@;
                        actions.push(
                            DispatchAction::ToSession {
                                session_id,
                                message: ToDenariaServerMessage::ClientConnected {
                                    client_id,
                                    addr,
                                    payload: payload.clone(),
                                    player_id,
                                },
                            },
                        );
                        actions.push(DispatchAction::SendDatagram { addr, payload });
                    },
                    None => {},
                }
            },
            ServerResult::ClientDisconnected { client_id, addr, payload } => {
                match self.client_session(client_id) {
                    Some(session_id) => {
                        actions.push(
                            DispatchAction::ToSession {
                                session_id,
                                message: ToDenariaServerMessage::ClientDisconnected { client_id },
                            },
                        );
                        self.remove_client_session(client_id);
                    },
                    None => {},
                }
                match payload {
                    Some(p) => {
                        actions.push(DispatchAction::SendDatagram { addr, payload: p });
                    },
                    None => {},
                }
            },
            ServerResult::CreateSession { id, player_ids } => {
                self.register_session(id, &player_ids);
                actions.push(DispatchAction::StartSession { id, player_ids });
                proof {
                    assert(actions@ =~= seq![DispatchAction::StartSession { id, player_ids }]);
                }
            },
        }
        actions
    }
}

/// Whether two byte vectors hold the same bytes.
pub fn vec_u8_eq(a: &Vec<u8>, b: &Vec<u8>) -> (r: bool)
    ensures
        r == (a@ == b@),
{
    if a.len() != b.len() {
        proof {
            assert(a@.len() != b@.len());
        }
        return false;
    }
    let mut i: usize = 0;
    while i < a.len()
        invariant
            i <= a@.len(),
            a@.len() == b@.len(),
            forall|k: int| 0 <= k < i ==> a@[k] == b@[k],
        decreases a@.len() - i,
    {
        if a[i] != b[i] {
            return false;
        }
        i = i + 1;
    }
    proof {
        assert(a@ =~= b@);
    }
    true
}

/// Prepending an entry with another key shifts a lookup by one.
proof fn lemma_player_session_at_cons(
    e: (Seq<u8>, u32),
    m: Seq<(Seq<u8>, u32)>,
    q: Seq<u8>,
    m2: Seq<(Seq<u8>, u32)>,
)
    requires
        e.0 != q,
        m2 == seq![e] + m,
    ensures
        player_session_at(m, q) == -1 ==> player_session_at(m2, q) == -1,
        player_session_at(m, q) >= 0 ==> player_session_at(m2, q) == player_session_at(m, q) + 1
            && m2[player_session_at(m2, q)] == m[player_session_at(m, q)],
{
    assert(m2[0] == e);
    assert(m2.drop_first() =~= m);
    lemma_player_session_at_props(m, q);
}

/// Hits are first occurrences.
proof fn lemma_player_session_at_first(m: Seq<(Seq<u8>, u32)>, p: Seq<u8>)
    ensures
        player_session_at(m, p) >= 0 ==> forall|i: int|
            0 <= i < player_session_at(m, p) ==> (#[trigger] m[i]).0 != p,
    decreases m.len(),
{
    lemma_player_session_at_props(m, p);
    if m.len() > 0 && m[0].0 != p {
        let d = m.drop_first();
        lemma_player_session_at_first(d, p);
        if player_session_at(m, p) >= 0 {
            assert forall|i: int| 0 <= i < player_session_at(m, p) implies (
            #[trigger] m[i]).0 != p by {
                if i > 0 {
                    assert(m[i] == d[i - 1]);
                }
            }
        }
    }
}

/// What `player_session_at` returns.
proof fn lemma_player_session_at_props(m: Seq<(Seq<u8>, u32)>, p: Seq<u8>)
    ensures
        -1 <= player_session_at(m, p) < m.len(),
        player_session_at(m, p) >= 0 ==> m[player_session_at(m, p)].0 == p,
        player_session_at(m, p) == -1 ==> forall|i: int|
            0 <= i < m.len() ==> (#[trigger] m[i]).0 != p,
    decreases m.len(),
{
    if m.len() > 0 && m[0].0 != p {
        let d = m.drop_first();
        lemma_player_session_at_props(d, p);
        if player_session_at(m, p) == -1 {
            assert forall|i: int| 0 <= i < m.len() implies (#[trigger] m[i]).0 != p by {
                if i > 0 {
                    assert(m[i] == d[i - 1]);
                }
            }
        } else {
            assert(m[player_session_at(m, p)] == d[player_session_at(d, p)]);
        }
    }
}





/// What `client_session_at` returns.
proof fn lemma_client_session_at_props(m: Seq<(u64, u32)>, c: u64)
    ensures
        -1 <= client_session_at(m, c) < m.len(),
        client_session_at(m, c) >= 0 ==> m[client_session_at(m, c)].0 == c,
        client_session_at(m, c) == -1 ==> forall|i: int|
            0 <= i < m.len() ==> (#[trigger] m[i]).0 != c,
    decreases m.len(),
{
    if m.len() > 0 && m[0].0 != c {
        let d = m.drop_first();
        lemma_client_session_at_props(d, c);
        if client_session_at(m, c) == -1 {
            assert forall|i: int| 0 <= i < m.len() implies (#[trigger] m[i]).0 != c by {
                if i > 0 {
                    assert(m[i] == d[i - 1]);
                }
            }
        } else {
            assert(m[client_session_at(m, c)] == d[client_session_at(d, c)]);
        }
    }
}

/// Hits are first occurrences.
proof fn lemma_client_session_at_first(m: Seq<(u64, u32)>, c: u64)
    ensures
        client_session_at(m, c) >= 0 ==> forall|i: int|
            0 <= i < client_session_at(m, c) ==> (#[trigger] m[i]).0 != c,
    decreases m.len(),
{
    lemma_client_session_at_props(m, c);
    if m.len() > 0 && m[0].0 != c {
        let d = m.drop_first();
        lemma_client_session_at_first(d, c);
        if client_session_at(m, c) >= 0 {
            assert forall|i: int| 0 <= i < client_session_at(m, c) implies (
            #[trigger] m[i]).0 != c by {
                if i > 0 {
                    assert(m[i] == d[i - 1]);
                }
            }
        }
    }
}

/// A table whose `i`-th key is `c`, all earlier keys missing, hits at `i`.
proof fn lemma_client_session_at_hit(m: Seq<(u64, u32)>, c: u64, i: int)
    requires
        0 <= i < m.len(),
        m[i].0 == c,
        forall|k: int| 0 <= k < i ==> (#[trigger] m[k]).0 != c,
    ensures
        client_session_at(m, c) == i,
    decreases i,
{
    if i > 0 {
        let d = m.drop_first();
        assert(forall|k: int| 0 <= k < d.len() ==> (#[trigger] d[k]) == m[k + 1]);
        lemma_client_session_at_hit(d, c, i - 1);
    }
}

} // verus!
