//! The client side of the protocol: consuming the server's message
//! stream.
//!
//! The abstract protocol semantics is the spec function [`client_step`]:
//! one message takes the client's whole replication state — identity
//! bindings, mirror, establishment cache, player reference — to its next
//! state.  The executable handler is proved to follow it exactly, so the
//! ordering and tolerance properties of the protocol are theorems about
//! `client_step` alone.

use crate::components::AppearanceRecord;
use crate::components::ComponentView;
use crate::components::MessageView;
use crate::components::NetComponent;
use crate::components::NetMessage;
use crate::components::SpawnPlayer;
use crate::ids::ServerToLocalIds;
use crate::mirror::Mirror;
use vstd::prelude::*;

verus! {

/// The client's reference to its own entity, once known.
pub struct Player(pub Option<u32>);

impl Player {
    pub fn new() -> (r: Player)
        ensures
            r.0 is None,
    {
        Player(None)
    }
}

/// The packet-handling system's own state: whether the connection has
/// been seen live yet, and the server id reserved for the player, cached
/// until the matching entity-creation message arrives.
pub struct HandleServerPackets {
    pub connection_established: bool,
    pub local_player_server_id: Option<u32>,
}

/// The whole client replication state, as mathematics.
#[verifier::ext_equal]
pub struct ClientView {
    pub established: bool,
    pub cached: Option<u32>,
    pub ids: Map<u32, u32>,
    pub next_handle: u32,
    pub mirror: Map<u32, Map<u8, ComponentView>>,
    pub player: Option<u32>,
    pub catalog: Option<Seq<Seq<u8>>>,
}

/// Assemble the abstract state from the executable pieces.
pub open spec fn client_view(
    h: HandleServerPackets,
    ids: ServerToLocalIds,
    mirror: Mirror,
    player: Player,
    catalog: Option<AppearanceRecord>,
) -> ClientView {
    ClientView {
        established: h.connection_established,
        cached: h.local_player_server_id,
        ids: ids@,
        next_handle: mirror.next_handle,
        mirror: mirror@,
        player: player.0,
        catalog: match catalog {
            Some(ar) => Some(ar@),
            None => None,
        },
    }
}

/// The client state's invariant: the id map is injective, every bound
/// handle is a live mirror entity, and all handles lie below the
/// allocator's next handle.
pub open spec fn cwf(s: ClientView) -> bool {
    &&& forall|k1: u32, k2: u32|
        s.ids.dom().contains(k1) && s.ids.dom().contains(k2) && k1 != k2 ==> #[trigger] s.ids[k1]
            != #[trigger] s.ids[k2]
    &&& forall|sid: u32|
        s.ids.dom().contains(sid) ==> #[trigger] s.ids[sid] < s.next_handle
            && s.mirror.dom().contains(s.ids[sid])
    &&& forall|h: u32| s.mirror.dom().contains(h) ==> h < s.next_handle
}

/// One message of the server's stream, applied to the abstract state.
///
/// Any first inbound traffic marks the connection established.  A Create
/// for an unbound id binds it to a fresh local handle (and resolves the
/// cached player id when it matches); a duplicate Create is dropped.  An
/// Upsert lands on the bound entity, overwriting the same kind, and is
/// dropped when the id is unbound — never a connection error.
/// Establishment caches the reserved player id and the appearance
/// catalog.
pub open spec fn client_step(s: ClientView, m: MessageView) -> ClientView {
    let s0 = ClientView { established: true, ..s };
    match m {
        MessageView::NewEnt(sid) => {
            if s0.ids.dom().contains(sid) {
                s0
            } else {
                let h = s0.next_handle;
                let s1 = ClientView {
                    ids: s0.ids.insert(sid, h),
                    next_handle: (h + 1) as u32,
                    mirror: s0.mirror.insert(h, Map::empty()),
                    ..s0
                };
                if s1.cached == Some(sid) {
                    ClientView { player: Some(h), cached: None, ..s1 }
                } else {
                    s1
                }
            }
        },
        MessageView::InsertComp(sid, c) => {
            if s0.ids.dom().contains(sid) {
                let h = s0.ids[sid];
                ClientView { mirror: s0.mirror.insert(h, s0.mirror[h].insert(c.kind(), c)), ..s0 }
            } else {
                s0
            }
        },
        MessageView::Establishment { local_player, names } => ClientView {
            cached: Some(local_player),
            catalog: Some(names),
            ..s0
        },
    }
}

/// What the client sends back while handling one message: its spawn
/// request, exactly once, on the first sign of a live connection.
pub open spec fn client_step_requests(s: ClientView) -> Seq<MessageView> {
    if !s.established {
        seq![MessageView::InsertComp(0, ComponentView::SpawnPlayer(SpawnPlayer))]
    } else {
        Seq::empty()
    }
}

/// A whole message sequence, applied in order.
pub open spec fn client_steps(s: ClientView, ms: Seq<MessageView>) -> ClientView
    decreases ms.len(),
{
    if ms.len() == 0 {
        s
    } else {
        client_steps(client_step(s, ms[0]), ms.drop_first())
    }
}

/// Appending one message to a replayed sequence steps the final state
/// once more.
pub proof fn lemma_client_steps_snoc(s: ClientView, ms: Seq<MessageView>, m: MessageView)
    ensures
        client_steps(s, ms.push(m)) == client_step(client_steps(s, ms), m),
    decreases ms.len(),
{
    if ms.len() == 0 {
        assert(ms.push(m).drop_first() =~= Seq::<MessageView>::empty());
        assert(ms.push(m)[0] == m);
        assert(client_steps(client_step(s, m), Seq::<MessageView>::empty()) == client_step(s, m));
    } else {
        assert(ms.push(m).drop_first() =~= ms.drop_first().push(m));
        assert(ms.push(m)[0] == ms[0]);
        lemma_client_steps_snoc(client_step(s, ms[0]), ms.drop_first(), m);
    }
}

/// One step keeps the invariant and allocates at most one handle.
pub proof fn lemma_client_step_wf(s: ClientView, m: MessageView)
    requires
        cwf(s),
        s.next_handle < u32::MAX,
    ensures
        cwf(client_step(s, m)),
        s.next_handle <= client_step(s, m).next_handle <= s.next_handle + 1,
        client_step(s, m).established,
{
    let t = client_step(s, m);
    match m {
        MessageView::NewEnt(sid) => {
            if !s.ids.dom().contains(sid) {
                assert forall|k1: u32, k2: u32|
                    t.ids.dom().contains(k1) && t.ids.dom().contains(k2) && k1 != k2 implies #[trigger] t.ids[
                    k1
                ] != #[trigger] t.ids[k2] by {
                    if k1 != sid && k2 != sid {
                        assert(s.ids[k1] != s.ids[k2]);
                    }
                }
            }
        },
        MessageView::InsertComp(_, _) => {},
        MessageView::Establishment { .. } => {},
    }
}

impl HandleServerPackets {
    pub fn new() -> (r: HandleServerPackets)
        ensures
            !r.connection_established,
            r.local_player_server_id is None,
    {
        HandleServerPackets { connection_established: false, local_player_server_id: None }
    }

    /// Apply one decoded message from the server, returning the requests
    /// to send back.  The implementation follows [`client_step`] exactly.
    pub fn handle_message(
        &mut self,
        ids: &mut ServerToLocalIds,
        mirror: &mut Mirror,
        player: &mut Player,
        catalog: &mut Option<AppearanceRecord>,
        msg: &NetMessage,
    ) -> (out: Vec<NetMessage>)
        requires
            cwf(client_view(*old(self), *old(ids), *old(mirror), *old(player), *old(catalog))),
            old(mirror).wf(),
            old(mirror).next_handle < u32::MAX,
            msg@.wf(),
        ensures
            final(mirror).wf(),
            client_view(*final(self), *final(ids), *final(mirror), *final(player), *final(catalog))
                == client_step(
                client_view(*old(self), *old(ids), *old(mirror), *old(player), *old(catalog)),
                msg@,
            ),
            out@.map_values(|x: NetMessage| x@) == client_step_requests(
                client_view(*old(self), *old(ids), *old(mirror), *old(player), *old(catalog)),
            ),
            forall|i: int| 0 <= i < out@.len() ==> (#[trigger] out@[i])@.wf(),
    {
        let ghost v0 = client_view(*old(self), *old(ids), *old(mirror), *old(player), *old(catalog));
        let mut out: Vec<NetMessage> = Vec::new();
        if !self.connection_established {
            out.push(NetMessage::InsertComp(0, NetComponent::SpawnPlayer(SpawnPlayer)));
            self.connection_established = true;
        }
        proof {
            assert(out@.map_values(|x: NetMessage| x@) =~= client_step_requests(v0));
        }
        match msg {
            NetMessage::NewEnt(sid) => {
                match ids.resolve(*sid) {
                    Some(_) => {
                        // a duplicate Create for a live id marks a protocol
                        // violation: dropped, never fatal
                        proof {
                            assert(client_view(*self, *ids, *mirror, *player, *catalog)
                                =~= client_step(v0, msg@));
                        }
                    },
                    None => {
                        let h = mirror.create_entity();
                        let ok = ids.bind(*sid, h);
                        proof {
                            assert(ok);
                        }
                        if let Some(cached) = self.local_player_server_id {
                            if cached == *sid {
                                player.0 = Some(h);
                                self.local_player_server_id = None;
                            }
                        }
                        proof {
                            assert(client_view(*self, *ids, *mirror, *player, *catalog)
                                =~= client_step(v0, msg@));
                        }
                    },
                }
            },
            NetMessage::InsertComp(sid, c) => {
                match ids.resolve(*sid) {
                    Some(h) => {
                        let hit = mirror.upsert(h, c.clone_component());
                        proof {
                            assert(hit);
                            assert(client_view(*self, *ids, *mirror, *player, *catalog)
                                =~= client_step(v0, msg@));
                        }
                    },
                    None => {
                        // an upsert outrunning its Create: dropped, never
                        // fatal
                        proof {
                            assert(client_view(*self, *ids, *mirror, *player, *catalog)
                                =~= client_step(v0, msg@));
                        }
                    },
                }
            },
            NetMessage::Establishment { local_player, appearance_record } => {
                *catalog = Some(appearance_record.clone_record());
                self.local_player_server_id = Some(*local_player);
                proof {
                    assert(client_view(*self, *ids, *mirror, *player, *catalog) =~= client_step(
                        v0,
                        msg@,
                    ));
                }
            },
        }
        out
    }

    /// Drain a batch of decoded messages, in the order received, and
    /// collect the requests to send back.
    pub fn run(
        &mut self,
        ids: &mut ServerToLocalIds,
        mirror: &mut Mirror,
        player: &mut Player,
        catalog: &mut Option<AppearanceRecord>,
        msgs: &Vec<NetMessage>,
    ) -> (out: Vec<NetMessage>)
        requires
            cwf(client_view(*old(self), *old(ids), *old(mirror), *old(player), *old(catalog))),
            old(mirror).wf(),
            old(mirror).next_handle + msgs@.len() <= u32::MAX,
            forall|i: int| 0 <= i < msgs@.len() ==> (#[trigger] msgs@[i])@.wf(),
        ensures
            final(mirror).wf(),
            cwf(
                client_view(
                    *final(self),
                    *final(ids),
                    *final(mirror),
                    *final(player),
                    *final(catalog),
                ),
            ),
            client_view(*final(self), *final(ids), *final(mirror), *final(player), *final(catalog))
                == client_steps(
                client_view(*old(self), *old(ids), *old(mirror), *old(player), *old(catalog)),
                msgs@.map_values(|m: NetMessage| m@),
            ),
            out@.map_values(|x: NetMessage| x@) == (if msgs@.len() > 0 {
                client_step_requests(
                    client_view(*old(self), *old(ids), *old(mirror), *old(player), *old(catalog)),
                )
            } else {
                Seq::empty()
            }),
            forall|i: int| 0 <= i < out@.len() ==> (#[trigger] out@[i])@.wf(),
    {
        let ghost v0 = client_view(*old(self), *old(ids), *old(mirror), *old(player), *old(catalog));
        let ghost mvs = msgs@.map_values(|m: NetMessage| m@);
        let mut out: Vec<NetMessage> = Vec::new();
        let mut i: usize = 0;
        while i < msgs.len()
            invariant
                i <= msgs@.len(),
                mvs == msgs@.map_values(|m: NetMessage| m@),
                forall|j: int| 0 <= j < msgs@.len() ==> (#[trigger] msgs@[j])@.wf(),
                cwf(client_view(*self, *ids, *mirror, *player, *catalog)),
                mirror.wf(),
                mirror.next_handle + (msgs@.len() - i) <= u32::MAX,
                client_view(*self, *ids, *mirror, *player, *catalog) == client_steps(
                    v0,
                    mvs.take(i as int),
                ),
                out@.map_values(|x: NetMessage| x@) == (if i > 0 {
                    client_step_requests(v0)
                } else {
                    Seq::<MessageView>::empty()
                }),
                forall|j: int| 0 <= j < out@.len() ==> (#[trigger] out@[j])@.wf(),
                i > 0 ==> client_view(*self, *ids, *mirror, *player, *catalog).established,
            decreases msgs@.len() - i,
        {
            let ghost pre = client_view(*self, *ids, *mirror, *player, *catalog);
            let mut reqs = self.handle_message(ids, mirror, player, catalog, &msgs[i]);
            proof {
                lemma_client_step_wf(pre, mvs[i as int]);
                assert(mvs.take(i as int).push(mvs[i as int]) =~= mvs.take(i as int + 1));
                lemma_client_steps_snoc(v0, mvs.take(i as int), mvs[i as int]);
                if i > 0 {
                    assert(client_step_requests(pre) =~= Seq::<MessageView>::empty());
                }
            }
            let ghost out_pre = out@;
            out.append(&mut reqs);
            i = i + 1;
            proof {
                assert(out@.map_values(|x: NetMessage| x@) =~= (if i > 0 {
                    client_step_requests(v0)
                } else {
                    Seq::<MessageView>::empty()
                }));
            }
        }
        proof {
            assert(mvs.take(msgs@.len() as int) =~= mvs);
        }
        out
    }
}

/// The state after dropping an early Upsert, then applying the Create
/// and the same Upsert again.
pub open spec fn late_upsert_replay(s: ClientView, sid: u32, c: ComponentView) -> ClientView {
    client_step(
        client_step(client_step(s, MessageView::InsertComp(sid, c)), MessageView::NewEnt(sid)),
        MessageView::InsertComp(sid, c),
    )
}

/// Late-Upsert tolerance: an Upsert for a server id whose Create has not
/// arrived is dropped without any state change beyond marking the
/// connection live — no error is raised — and once the Create has been
/// applied, re-sending the very same Upsert lands the component on the
/// newly bound entity.
pub proof fn lemma_late_upsert_tolerance(s: ClientView, sid: u32, c: ComponentView)
    requires
        cwf(s),
        !s.ids.dom().contains(sid),
        s.next_handle < u32::MAX,
    ensures
        client_step(s, MessageView::InsertComp(sid, c)) == (ClientView {
            established: true,
            ..s
        }),
        late_upsert_replay(s, sid, c).ids.dom().contains(sid),
        late_upsert_replay(s, sid, c).mirror.dom().contains(late_upsert_replay(s, sid, c).ids[sid]),
        late_upsert_replay(s, sid, c).mirror[late_upsert_replay(s, sid, c).ids[sid]].dom().contains(
            c.kind(),
        ),
        late_upsert_replay(s, sid, c).mirror[late_upsert_replay(s, sid, c).ids[sid]][c.kind()] == c,
{
    let s0 = client_step(s, MessageView::InsertComp(sid, c));
    assert(s0 =~= ClientView { established: true, ..s });
}

} // verus!
