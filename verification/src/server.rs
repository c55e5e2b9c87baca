//! The server side: one outbound queue per connected client.
//!
//! The connection manager owns one live channel record per client and
//! exposes "tell this client" and "broadcast" operations.  Enqueuing
//! never blocks and never touches any other connection's queue, so a
//! backlogged client delays nobody: per-connection isolation is part of
//! every contract here.

use crate::components::MessageView;
use crate::components::NetComponent;
use crate::components::NetMessage;
use vstd::prelude::*;

verus! {

/// The per-connection bootstrap state: a connection starts `Joining` and
/// becomes `Active` on its first inbound message.
#[derive(Clone, Copy, PartialEq, Eq, Structural, Debug)]
pub enum ConnState {
    Joining,
    Active,
}

/// One live client connection: its transport address, its bootstrap
/// state, the server-global id reserved for its player entity once
/// established, and its outbound message queue.
pub struct Connection {
    pub addr: u32,
    pub state: ConnState,
    pub reserved_id: Option<u32>,
    pub outbound: Vec<NetMessage>,
}

/// The mathematical shape of one connection.
#[verifier::ext_equal]
pub struct ConnView {
    pub joining: bool,
    pub reserved: Option<u32>,
    pub queue: Seq<MessageView>,
}

impl View for Connection {
    type V = ConnView;

    open spec fn view(&self) -> ConnView {
        ConnView {
            joining: self.state is Joining,
            reserved: self.reserved_id,
            queue: self.outbound@.map_values(|m: NetMessage| m@),
        }
    }
}

impl Connection {
    /// Every queued message fits the wire's length prefixes.
    pub open spec fn wf(self) -> bool {
        forall|i: int| 0 <= i < self.outbound@.len() ==> (#[trigger] self.outbound@[i])@.wf()
    }
}

/// The address-keyed contents of a connection list; later entries win.
pub open spec fn conn_map(s: Seq<Connection>) -> Map<u32, ConnView>
    decreases s.len(),
{
    if s.len() == 0 {
        Map::empty()
    } else {
        conn_map(s.drop_last()).insert(s.last().addr, s.last()@)
    }
}

/// Every address occurs at most once.
pub open spec fn addrs_unique(s: Seq<Connection>) -> bool {
    forall|i: int, j: int|
        0 <= i < j < s.len() ==> (#[trigger] s[i]).addr != (#[trigger] s[j]).addr
}

/// On an address-unique list, the map holds each connection at its own
/// address.
pub proof fn lemma_conn_map_index(s: Seq<Connection>, i: int)
    requires
        addrs_unique(s),
        0 <= i < s.len(),
    ensures
        conn_map(s).dom().contains(s[i].addr),
        conn_map(s)[s[i].addr] == s[i]@,
    decreases s.len(),
{
    if i == s.len() - 1 {
    } else {
        lemma_conn_map_index(s.drop_last(), i);
        assert(s.drop_last()[i] == s[i]);
    }
}

/// An address absent from the list is absent from its map.
pub proof fn lemma_conn_map_absent(s: Seq<Connection>, a: u32)
    requires
        forall|i: int| 0 <= i < s.len() ==> (#[trigger] s[i]).addr != a,
    ensures
        !conn_map(s).dom().contains(a),
    decreases s.len(),
{
    if s.len() > 0 {
        lemma_conn_map_absent(s.drop_last(), a);
    }
}

/// Replacing the connection at `i` by one with the same address updates
/// the map at that address alone.
pub proof fn lemma_conn_map_update(s: Seq<Connection>, i: int, c: Connection)
    requires
        addrs_unique(s),
        0 <= i < s.len(),
        s[i].addr == c.addr,
    ensures
        conn_map(s.update(i, c)) =~= conn_map(s).insert(c.addr, c@),
    decreases s.len(),
{
    let t = s.update(i, c);
    if i == s.len() - 1 {
        assert(t.drop_last() =~= s.drop_last());
    } else {
        lemma_conn_map_update(s.drop_last(), i, c);
        assert(t.drop_last() =~= s.drop_last().update(i, c));
        assert(t.last() == s.last());
        assert(s.last().addr != c.addr);
    }
}

/// The server's set of live connections.
pub struct ConnectionManager {
    pub connections: Vec<Connection>,
}

impl View for ConnectionManager {
    type V = Map<u32, ConnView>;

    open spec fn view(&self) -> Map<u32, ConnView> {
        conn_map(self.connections@)
    }
}

impl ConnectionManager {
    /// Addresses are unique and every queued message is well formed.
    pub open spec fn wf(self) -> bool {
        addrs_unique(self.connections@) && forall|i: int|
            0 <= i < self.connections@.len() ==> (#[trigger] self.connections@[i]).wf()
    }

    pub fn new() -> (r: ConnectionManager)
        ensures
            r.wf(),
            r@ =~= Map::<u32, ConnView>::empty(),
    {
        ConnectionManager { connections: Vec::new() }
    }

    /// Find the index of the connection with the given address.
    fn find_addr(&self, addr: u32) -> (r: Option<usize>)
        requires
            self.wf(),
        ensures
            match r {
                Some(i) => i < self.connections@.len() && self.connections@[i as int].addr == addr
                    && self@.dom().contains(addr) && self@[addr] == self.connections@[i as int]@,
                None => !self@.dom().contains(addr),
            },
    {
        let mut i: usize = 0;
        while i < self.connections.len()
            invariant
                self.wf(),
                i <= self.connections@.len(),
                forall|j: int| 0 <= j < i ==> (#[trigger] self.connections@[j]).addr != addr,
            decreases self.connections@.len() - i,
        {
            if self.connections[i].addr == addr {
                proof {
                    lemma_conn_map_index(self.connections@, i as int);
                }
                return Some(i);
            }
            i = i + 1;
        }
        proof {
            lemma_conn_map_absent(self.connections@, addr);
        }
        None
    }

    /// Open a connection at transport-level connect.  Fails if the
    /// address is already live.
    pub fn add_connection(&mut self, addr: u32) -> (ok: bool)
        requires
            old(self).wf(),
        ensures
            final(self).wf(),
            ok == !old(self)@.dom().contains(addr),
            ok ==> final(self)@ == old(self)@.insert(
                addr,
                ConnView { joining: true, reserved: None, queue: Seq::empty() },
            ),
            !ok ==> final(self)@ == old(self)@,
    {
        match self.find_addr(addr) {
            Some(_) => false,
            None => {
                let c = Connection {
                    addr,
                    state: ConnState::Joining,
                    reserved_id: None,
                    outbound: Vec::new(),
                };
                proof {
                    assert(c@ =~= ConnView { joining: true, reserved: None, queue: Seq::empty() });
                    assert forall|j: int| 0 <= j < self.connections@.len() implies (
                    #[trigger] self.connections@[j]).addr != addr by {
                        lemma_conn_map_index(self.connections@, j);
                    }
                }
                self.connections.push(c);
                proof {
                    assert(self.connections@.drop_last() =~= old(self).connections@);
                }
                true
            },
        }
    }

    /// Append one message to the queue of the connection at index `i`.
    /// Nothing of any other connection changes.
    fn enqueue_at(&mut self, i: usize, msg: NetMessage)
        requires
            old(self).wf(),
            i < old(self).connections@.len(),
            msg@.wf(),
        ensures
            final(self).wf(),
            final(self).connections@.len() == old(self).connections@.len(),
            final(self)@ == old(self)@.insert(
                old(self).connections@[i as int].addr,
                ConnView {
                    queue: old(self).connections@[i as int]@.queue.push(msg@),
                    ..old(self).connections@[i as int]@
                },
            ),
            forall|j: int|
                0 <= j < old(self).connections@.len() && j != i
                    ==> #[trigger] final(self).connections@[j] == old(self).connections@[j],
            final(self).connections@[i as int].addr == old(self).connections@[i as int].addr,
            final(self).connections@[i as int]@.queue == old(self).connections@[i as int]@.queue.push(
                msg@,
            ),
            final(self).connections@[i as int]@.joining == old(self).connections@[i as int]@.joining,
            final(self).connections@[i as int]@.reserved
                == old(self).connections@[i as int]@.reserved,
    {
        let ghost old_conns = self.connections@;
        let ghost old_conn = self.connections@[i as int];
        let n = self.connections[i].outbound.len();
        let mut q: Vec<NetMessage> = Vec::new();
        let mut t: usize = 0;
        while t < n
            invariant
                t <= n,
                i < self.connections@.len(),
                self.connections@[i as int] == old_conn,
                old_conn.wf(),
                n == old_conn.outbound@.len(),
                q@.len() == t,
                forall|j: int| 0 <= j < t ==> (#[trigger] q@[j])@ == old_conn.outbound@[j]@,
            decreases n - t,
        {
            let cl = self.connections[i].outbound[t].clone_message();
            q.push(cl);
            t = t + 1;
        }
        q.push(msg);
        let c = Connection {
            addr: self.connections[i].addr,
            state: self.connections[i].state,
            reserved_id: self.connections[i].reserved_id,
            outbound: q,
        };
        proof {
            let f = |m: NetMessage| m@;
            assert forall|j: int| 0 <= j < c.outbound@.len() implies c.outbound@.map_values(f)[j]
                == old_conn@.queue.push(msg@)[j] by {
                assert(c.outbound@.map_values(f)[j] == f(c.outbound@[j]));
                if j < n {
                    assert(old_conn@.queue[j] == f(old_conn.outbound@[j]));
                }
            }
            assert(c@.queue =~= old_conn@.queue.push(msg@));
            assert(c@ =~= ConnView { queue: old_conn@.queue.push(msg@), ..old_conn@ });
        }
        self.connections.set(i, c);
        proof {
            lemma_conn_map_update(old_conns, i as int, c);
        }
    }

    /// Append a batch of messages to the queue of the connection at
    /// index `i`, in order.  Nothing of any other connection changes.
    fn enqueue_all(&mut self, i: usize, msgs: Vec<NetMessage>)
        requires
            old(self).wf(),
            i < old(self).connections@.len(),
            forall|j: int| 0 <= j < msgs@.len() ==> (#[trigger] msgs@[j])@.wf(),
        ensures
            final(self).wf(),
            final(self)@ == old(self)@.insert(
                old(self).connections@[i as int].addr,
                ConnView {
                    queue: old(self).connections@[i as int]@.queue + msgs@.map_values(
                        |m: NetMessage| m@,
                    ),
                    ..old(self).connections@[i as int]@
                },
            ),
            final(self).connections@.len() == old(self).connections@.len(),
            forall|j: int|
                0 <= j < old(self).connections@.len() && j != i
                    ==> #[trigger] final(self).connections@[j] == old(self).connections@[j],
            final(self).connections@[i as int].addr == old(self).connections@[i as int].addr,
            final(self).connections@[i as int]@ == (ConnView {
                queue: old(self).connections@[i as int]@.queue + msgs@.map_values(
                    |m: NetMessage| m@,
                ),
                ..old(self).connections@[i as int]@
            }),
    {
        let ghost old_conns = self.connections@;
        let ghost old_conn = self.connections@[i as int];
        let ghost mvs = msgs@.map_values(|m: NetMessage| m@);
        let n = self.connections[i].outbound.len();
        let mut q: Vec<NetMessage> = Vec::new();
        let mut t: usize = 0;
        while t < n
            invariant
                t <= n,
                i < self.connections@.len(),
                self.connections@[i as int] == old_conn,
                old_conn.wf(),
                n == old_conn.outbound@.len(),
                q@.len() == t,
                forall|j: int| 0 <= j < t ==> (#[trigger] q@[j])@ == old_conn.outbound@[j]@,
            decreases n - t,
        {
            let cl = self.connections[i].outbound[t].clone_message();
            q.push(cl);
            t = t + 1;
        }
        let mut rest = msgs;
        let ghost q_pre = q@;
        q.append(&mut rest);
        let c = Connection {
            addr: self.connections[i].addr,
            state: self.connections[i].state,
            reserved_id: self.connections[i].reserved_id,
            outbound: q,
        };
        proof {
            let f = |m: NetMessage| m@;
            assert forall|j: int| 0 <= j < c.outbound@.len() implies c.outbound@.map_values(f)[j]
                == (old_conn@.queue + mvs)[j] by {
                assert(c.outbound@.map_values(f)[j] == f(c.outbound@[j]));
                if j < n {
                    assert(c.outbound@[j] == q_pre[j]);
                    assert(old_conn@.queue[j] == f(old_conn.outbound@[j]));
                } else {
                    assert(c.outbound@[j] == msgs@[j - n]);
                    assert(mvs[j - n] == f(msgs@[j - n]));
                }
            }
            assert(c@.queue =~= old_conn@.queue + mvs);
            assert(c@ =~= ConnView { queue: old_conn@.queue + mvs, ..old_conn@ });
        }
        self.connections.set(i, c);
        proof {
            lemma_conn_map_update(old_conns, i as int, c);
        }
    }

    /// Append a batch of messages to one connection's queue, in order.
    pub fn enqueue_to(&mut self, addr: u32, msgs: Vec<NetMessage>) -> (hit: bool)
        requires
            old(self).wf(),
            forall|j: int| 0 <= j < msgs@.len() ==> (#[trigger] msgs@[j])@.wf(),
        ensures
            final(self).wf(),
            hit == old(self)@.dom().contains(addr),
            hit ==> final(self)@ == old(self)@.insert(
                addr,
                ConnView {
                    queue: old(self)@[addr].queue + msgs@.map_values(|m: NetMessage| m@),
                    ..old(self)@[addr]
                },
            ),
            !hit ==> final(self)@ == old(self)@,
    {
        match self.find_addr(addr) {
            Some(i) => {
                self.enqueue_all(i, msgs);
                true
            },
            None => false,
        }
    }

    /// Enqueue a Create message for one entity on one connection: tell
    /// this client to allocate a local representation for it.
    pub fn tell_new_entity(&mut self, addr: u32, ent: u32) -> (hit: bool)
        requires
            old(self).wf(),
        ensures
            final(self).wf(),
            hit == old(self)@.dom().contains(addr),
            hit ==> final(self)@ == old(self)@.insert(
                addr,
                ConnView {
                    queue: old(self)@[addr].queue.push(MessageView::NewEnt(ent)),
                    ..old(self)@[addr]
                },
            ),
            !hit ==> final(self)@ == old(self)@,
    {
        match self.find_addr(addr) {
            Some(i) => {
                self.enqueue_at(i, NetMessage::NewEnt(ent));
                true
            },
            None => false,
        }
    }

    /// Enqueue an Upsert of one component on one connection; the target
    /// identifier embedded is the server-global id of the entity.
    pub fn tell_component(&mut self, addr: u32, ent: u32, comp: NetComponent) -> (hit: bool)
        requires
            old(self).wf(),
            comp@.wf(),
        ensures
            final(self).wf(),
            hit == old(self)@.dom().contains(addr),
            hit ==> final(self)@ == old(self)@.insert(
                addr,
                ConnView {
                    queue: old(self)@[addr].queue.push(MessageView::InsertComp(ent, comp@)),
                    ..old(self)@[addr]
                },
            ),
            !hit ==> final(self)@ == old(self)@,
    {
        match self.find_addr(addr) {
            Some(i) => {
                self.enqueue_at(i, NetMessage::InsertComp(ent, comp));
                true
            },
            None => false,
        }
    }

    /// Enqueue the same Upsert on every currently open connection.
    pub fn broadcast_component(&mut self, ent: u32, comp: &NetComponent)
        requires
            old(self).wf(),
            comp@.wf(),
        ensures
            final(self).wf(),
            final(self)@.dom() == old(self)@.dom(),
            forall|a: u32|
                old(self)@.dom().contains(a) ==> #[trigger] final(self)@[a] == (ConnView {
                    queue: old(self)@[a].queue.push(MessageView::InsertComp(ent, comp@)),
                    ..old(self)@[a]
                }),
    {
        let n = self.connections.len();
        let mut i: usize = 0;
        while i < n
            invariant
                i <= n,
                self.wf(),
                comp@.wf(),
                n == self.connections@.len(),
                self.connections@.len() == old(self).connections@.len(),
                forall|j: int|
                    0 <= j < self.connections@.len() ==> (#[trigger] self.connections@[j]).addr
                        == old(self).connections@[j].addr,
                forall|j: int|
                    i <= j < self.connections@.len() ==> #[trigger] self.connections@[j] == old(
                        self,
                    ).connections@[j],
                forall|j: int|
                    0 <= j < i ==> (#[trigger] self.connections@[j])@ == (ConnView {
                        queue: old(self).connections@[j]@.queue.push(
                            MessageView::InsertComp(ent, comp@),
                        ),
                        ..old(self).connections@[j]@
                    }),
            decreases n - i,
        {
            self.enqueue_at(i, NetMessage::InsertComp(ent, comp.clone_component()));
            i = i + 1;
        }
        proof {
            lemma_conn_map_from_pointwise(self.connections@, old(self).connections@, ent, comp@);
        }
    }

    /// The server-global id reserved for one connection's player
    /// entity, if the connection is live and established.
    pub fn reserved_of(&self, addr: u32) -> (r: Option<u32>)
        requires
            self.wf(),
        ensures
            match r {
                Some(id) => self@.dom().contains(addr) && self@[addr].reserved == Some(id),
                None => !self@.dom().contains(addr) || self@[addr].reserved is None,
            },
    {
        match self.find_addr(addr) {
            Some(i) => self.connections[i].reserved_id,
            None => None,
        }
    }

    /// Enqueue the same batch of messages, in order, on every currently
    /// open connection.
    pub fn broadcast_all(&mut self, msgs: &Vec<NetMessage>)
        requires
            old(self).wf(),
            forall|j: int| 0 <= j < msgs@.len() ==> (#[trigger] msgs@[j])@.wf(),
        ensures
            final(self).wf(),
            final(self)@.dom() == old(self)@.dom(),
            forall|a: u32|
                old(self)@.dom().contains(a) ==> #[trigger] final(self)@[a] == (ConnView {
                    queue: old(self)@[a].queue + msgs@.map_values(|m: NetMessage| m@),
                    ..old(self)@[a]
                }),
    {
        let ghost mvs = msgs@.map_values(|m: NetMessage| m@);
        let n = self.connections.len();
        let mut i: usize = 0;
        while i < n
            invariant
                i <= n,
                self.wf(),
                mvs == msgs@.map_values(|m: NetMessage| m@),
                forall|j: int| 0 <= j < msgs@.len() ==> (#[trigger] msgs@[j])@.wf(),
                n == self.connections@.len(),
                self.connections@.len() == old(self).connections@.len(),
                forall|j: int|
                    0 <= j < self.connections@.len() ==> (#[trigger] self.connections@[j]).addr
                        == old(self).connections@[j].addr,
                forall|j: int|
                    i <= j < self.connections@.len() ==> #[trigger] self.connections@[j] == old(
                        self,
                    ).connections@[j],
                forall|j: int|
                    0 <= j < i ==> (#[trigger] self.connections@[j])@ == (ConnView {
                        queue: old(self).connections@[j]@.queue + mvs,
                        ..old(self).connections@[j]@
                    }),
            decreases n - i,
        {
            let mut copy: Vec<NetMessage> = Vec::new();
            let mut t: usize = 0;
            while t < msgs.len()
                invariant
                    t <= msgs@.len(),
                    copy@.len() == t,
                    forall|j: int| 0 <= j < t ==> (#[trigger] copy@[j])@ == msgs@[j]@,
                decreases msgs@.len() - t,
            {
                copy.push(msgs[t].clone_message());
                t = t + 1;
            }
            proof {
                let f = |m: NetMessage| m@;
                assert forall|j: int| 0 <= j < copy@.len() implies copy@.map_values(f)[j]
                    == mvs[j] by {
                    assert(copy@.map_values(f)[j] == f(copy@[j]));
                    assert(mvs[j] == f(msgs@[j]));
                }
                assert(copy@.map_values(f) =~= mvs);
                assert forall|j: int| 0 <= j < copy@.len() implies (#[trigger] copy@[j])@.wf() by {
                    assert(copy@[j]@ == msgs@[j]@);
                }
            }
            self.enqueue_all(i, copy);
            i = i + 1;
        }
        proof {
            lemma_conn_map_append_pointwise(self.connections@, old(self).connections@, mvs);
        }
    }

    /// Hand the queued messages of one connection to the transport,
    /// emptying its queue.  Every other connection is untouched.
    pub fn drain_outbound(&mut self, addr: u32) -> (r: Option<Vec<NetMessage>>)
        requires
            old(self).wf(),
        ensures
            final(self).wf(),
            match r {
                Some(v) => old(self)@.dom().contains(addr) && v@.map_values(|m: NetMessage| m@)
                    == old(self)@[addr].queue && final(self)@ == old(self)@.insert(
                    addr,
                    ConnView { queue: Seq::empty(), ..old(self)@[addr] },
                ) && (forall|i: int| 0 <= i < v@.len() ==> (#[trigger] v@[i])@.wf()),
                None => !old(self)@.dom().contains(addr) && final(self)@ == old(self)@,
            },
    {
        let i = match self.find_addr(addr) {
            Some(i) => i,
            None => {
                return None;
            },
        };
        let ghost old_conns = self.connections@;
        let ghost old_conn = self.connections@[i as int];
        let n = self.connections[i].outbound.len();
        let mut q: Vec<NetMessage> = Vec::new();
        let mut t: usize = 0;
        while t < n
            invariant
                t <= n,
                i < self.connections@.len(),
                self.connections@[i as int] == old_conn,
                old_conn.wf(),
                n == old_conn.outbound@.len(),
                q@.len() == t,
                forall|j: int| 0 <= j < t ==> (#[trigger] q@[j])@ == old_conn.outbound@[j]@,
            decreases n - t,
        {
            let cl = self.connections[i].outbound[t].clone_message();
            q.push(cl);
            t = t + 1;
        }
        let c = Connection {
            addr: self.connections[i].addr,
            state: self.connections[i].state,
            reserved_id: self.connections[i].reserved_id,
            outbound: Vec::new(),
        };
        proof {
            assert(c@ =~= ConnView { queue: Seq::empty(), ..old_conn@ });
            let f = |m: NetMessage| m@;
            assert forall|j: int| 0 <= j < q@.len() implies q@.map_values(f)[j]
                == old_conn@.queue[j] by {
                assert(q@.map_values(f)[j] == f(q@[j]));
                assert(old_conn@.queue[j] == f(old_conn.outbound@[j]));
            }
            assert(q@.map_values(f) =~= old_conn@.queue);
            assert forall|j: int| 0 <= j < q@.len() implies (#[trigger] q@[j])@.wf() by {
                assert(q@[j]@ == old_conn.outbound@[j]@);
            }
        }
        self.connections.set(i, c);
        proof {
            lemma_conn_map_update(old_conns, i as int, c);
        }
        Some(q)
    }

    /// Close a connection: its record and queue are released; every other
    /// connection is untouched.
    pub fn remove_connection(&mut self, addr: u32) -> (hit: bool)
        requires
            old(self).wf(),
        ensures
            final(self).wf(),
            hit == old(self)@.dom().contains(addr),
            hit ==> final(self)@ == old(self)@.remove(addr),
            !hit ==> final(self)@ == old(self)@,
    {
        let i = match self.find_addr(addr) {
            Some(i) => i,
            None => {
                return false;
            },
        };
        let ghost old_conns = self.connections@;
        self.connections.remove(i);
        proof {
            assert(self.connections@ =~= old_conns.remove(i as int));
            lemma_conn_map_remove(old_conns, i as int);
        }
        true
    }

    /// Record a joining connection's first inbound message: the
    /// transition to `Active`, with the given server-global id reserved
    /// for its player entity.  Returns whether the connection was indeed
    /// still joining (so bootstrap must follow exactly once).
    pub fn first_inbound(&mut self, addr: u32, reserved: u32) -> (was_joining: bool)
        requires
            old(self).wf(),
        ensures
            final(self).wf(),
            was_joining == (old(self)@.dom().contains(addr) && old(self)@[addr].joining),
            was_joining ==> final(self)@ == old(self)@.insert(
                addr,
                ConnView {
                    joining: false,
                    reserved: Some(reserved),
                    queue: old(self)@[addr].queue,
                },
            ),
            !was_joining ==> final(self)@ == old(self)@,
    {
        let i = match self.find_addr(addr) {
            Some(i) => i,
            None => {
                return false;
            },
        };
        let ghost old_conns = self.connections@;
        let ghost old_conn = self.connections@[i as int];
        match self.connections[i].state {
            ConnState::Active => false,
            ConnState::Joining => {
                let n = self.connections[i].outbound.len();
                let mut q: Vec<NetMessage> = Vec::new();
                let mut t: usize = 0;
                while t < n
                    invariant
                        t <= n,
                        i < self.connections@.len(),
                        self.connections@[i as int] == old_conn,
                        old_conn.wf(),
                        n == old_conn.outbound@.len(),
                        q@.len() == t,
                        forall|j: int| 0 <= j < t ==> (#[trigger] q@[j])@ == old_conn.outbound@[j]@,
                    decreases n - t,
                {
                    let cl = self.connections[i].outbound[t].clone_message();
                    q.push(cl);
                    t = t + 1;
                }
                let c = Connection {
                    addr: self.connections[i].addr,
                    state: ConnState::Active,
                    reserved_id: Some(reserved),
                    outbound: q,
                };
                proof {
                    let f = |m: NetMessage| m@;
                    assert forall|j: int| 0 <= j < c.outbound@.len() implies c.outbound@.map_values(
                        f,
                    )[j] == old_conn@.queue[j] by {
                        assert(c.outbound@.map_values(f)[j] == f(c.outbound@[j]));
                        assert(old_conn@.queue[j] == f(old_conn.outbound@[j]));
                    }
                    assert(c@.queue =~= old_conn@.queue);
                    assert(c@ =~= ConnView {
                        joining: false,
                        reserved: Some(reserved),
                        queue: old_conn@.queue,
                    });
                }
                self.connections.set(i, c);
                proof {
                    lemma_conn_map_update(old_conns, i as int, c);
                }
                true
            },
        }
    }
}

/// When every connection's view got the same message appended, the
/// manager's map says so at every address.
proof fn lemma_conn_map_from_pointwise(
    s: Seq<Connection>,
    t: Seq<Connection>,
    ent: u32,
    c: crate::components::ComponentView,
)
    requires
        s.len() == t.len(),
        addrs_unique(t),
        forall|j: int| 0 <= j < s.len() ==> (#[trigger] s[j]).addr == t[j].addr,
        forall|j: int|
            0 <= j < s.len() ==> (#[trigger] s[j])@ == (ConnView {
                queue: t[j]@.queue.push(MessageView::InsertComp(ent, c)),
                ..t[j]@
            }),
    ensures
        conn_map(s).dom() == conn_map(t).dom(),
        forall|a: u32|
            conn_map(t).dom().contains(a) ==> #[trigger] conn_map(s)[a] == (ConnView {
                queue: conn_map(t)[a].queue.push(MessageView::InsertComp(ent, c)),
                ..conn_map(t)[a]
            }),
    decreases s.len(),
{
    if s.len() == 0 {
    } else {
        lemma_conn_map_from_pointwise(s.drop_last(), t.drop_last(), ent, c);
        assert forall|j: int| 0 <= j < s.drop_last().len() implies (#[trigger] s.drop_last()[
            j
        ]).addr == t.drop_last()[j].addr by {
            assert(s[j].addr == t[j].addr);
        }
        assert(s.last().addr == t.last().addr);
        assert(conn_map(s).dom() =~= conn_map(t).dom());
    }
}


/// When every connection's view got the same batch appended, the
/// manager's map says so at every address.
proof fn lemma_conn_map_append_pointwise(s: Seq<Connection>, t: Seq<Connection>, ms: Seq<MessageView>)
    requires
        s.len() == t.len(),
        addrs_unique(t),
        forall|j: int| 0 <= j < s.len() ==> (#[trigger] s[j]).addr == t[j].addr,
        forall|j: int|
            0 <= j < s.len() ==> (#[trigger] s[j])@ == (ConnView {
                queue: t[j]@.queue + ms,
                ..t[j]@
            }),
    ensures
        conn_map(s).dom() == conn_map(t).dom(),
        forall|a: u32|
            conn_map(t).dom().contains(a) ==> #[trigger] conn_map(s)[a] == (ConnView {
                queue: conn_map(t)[a].queue + ms,
                ..conn_map(t)[a]
            }),
    decreases s.len(),
{
    if s.len() == 0 {
    } else {
        lemma_conn_map_append_pointwise(s.drop_last(), t.drop_last(), ms);
        assert forall|j: int| 0 <= j < s.drop_last().len() implies (#[trigger] s.drop_last()[
            j
        ]).addr == t.drop_last()[j].addr by {
            assert(s[j].addr == t[j].addr);
        }
        assert(s.last().addr == t.last().addr);
        assert(conn_map(s).dom() =~= conn_map(t).dom());
    }
}

/// Removing the connection at `i` removes exactly its address from the
/// map.
proof fn lemma_conn_map_remove(s: Seq<Connection>, i: int)
    requires
        addrs_unique(s),
        0 <= i < s.len(),
    ensures
        conn_map(s.remove(i)) =~= conn_map(s).remove(s[i].addr),
    decreases s.len(),
{
    let t = s.remove(i);
    if i == s.len() - 1 {
        assert(t =~= s.drop_last());
        assert forall|j: int| 0 <= j < s.drop_last().len() implies (#[trigger] s.drop_last()[
            j
        ]).addr != s[i].addr by {
            assert(s[j].addr != s[i].addr);
        }
        lemma_conn_map_absent(s.drop_last(), s[i].addr);
    } else {
        lemma_conn_map_remove(s.drop_last(), i);
        assert(t.drop_last() =~= s.drop_last().remove(i));
        assert(t.last() == s.last());
        assert(s.last().addr != s[i].addr);
    }
}

/// Per-connection isolation: however long one connection's queue has
/// grown, telling another connection still succeeds and appends exactly
/// one message there, and the backlogged queue itself is untouched.
pub proof fn lemma_isolation_under_backlog(
    cm0: ConnectionManager,
    cm1: ConnectionManager,
    busy: u32,
    target: u32,
    ent: u32,
    c: crate::components::ComponentView,
)
    requires
        busy != target,
        cm0@.dom().contains(busy),
        cm0@.dom().contains(target),
        cm1@ == cm0@.insert(
            target,
            ConnView { queue: cm0@[target].queue.push(MessageView::InsertComp(ent, c)), ..cm0@[target] },
        ),
    ensures
        cm1@[busy] == cm0@[busy],
        cm1@[target].queue.len() == cm0@[target].queue.len() + 1,
{
}

} // verus!
