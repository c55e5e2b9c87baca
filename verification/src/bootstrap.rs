//! Late-join bootstrap: a newly established connection receives the
//! entire current world.
//!
//! There is no separate "sync" message kind: the snapshot reuses the
//! ordinary Create/Upsert vocabulary — for every existing entity one
//! Create, then one Upsert per component the entity currently has.  The
//! theorems below say the snapshot is exactly that, and that replaying
//! it on a fresh client yields a mirror isomorphic to the server's
//! world.

use crate::client::client_step;
use crate::client::client_steps;
use crate::client::cwf;
use crate::client::lemma_client_step_wf;
use crate::client::lemma_client_steps_snoc;
use crate::client::ClientView;
use crate::components::ComponentView;
use crate::components::MessageView;
use crate::components::Appearance;
use crate::components::AppearanceRecord;
use crate::components::Hitbox;
use crate::components::NetComponent;
use crate::components::NetMessage;
use crate::components::PlayerAnimationController;
use crate::components::Pos;
use crate::components::Speed;
use crate::components::KIND_SPAWN_PLAYER;
use crate::geom::Vec2;
use crate::mirror::comps_map;
use crate::mirror::handles_unique;
use crate::mirror::Mirror;
use crate::mirror::MirrorEntity;
use crate::server::ConnectionManager;
use crate::server::ConnView;
use vstd::prelude::*;

verus! {

/// One Upsert per component, in storage order, all aimed at one entity.
pub open spec fn comp_msgs(id: u32, cs: Seq<ComponentView>) -> Seq<MessageView> {
    cs.map_values(|c: ComponentView| MessageView::InsertComp(id, c))
}

/// The snapshot block for one entity: its Create, then its Upserts.
pub open spec fn entity_block(e: MirrorEntity) -> Seq<MessageView> {
    seq![MessageView::NewEnt(e.handle)] + comp_msgs(e.handle, e.comp_views())
}

/// The whole world, one block per entity, in storage order.
pub open spec fn world_msgs(s: Seq<MirrorEntity>) -> Seq<MessageView>
    decreases s.len(),
{
    if s.len() == 0 {
        Seq::empty()
    } else {
        world_msgs(s.drop_last()) + entity_block(s.last())
    }
}

/// Everything the joining connection is sent: the Establishment, then
/// the world.
pub open spec fn bootstrap_msgs(
    reserved: u32,
    names: Seq<Seq<u8>>,
    ents: Seq<MirrorEntity>,
) -> Seq<MessageView> {
    seq![MessageView::Establishment { local_player: reserved, names }] + world_msgs(ents)
}

/// How many Creates of one entity id a message sequence holds.
pub open spec fn count_creates(ms: Seq<MessageView>, id: u32) -> nat
    decreases ms.len(),
{
    if ms.len() == 0 {
        0
    } else {
        count_creates(ms.drop_last(), id) + match ms.last() {
            MessageView::NewEnt(sid) => if sid == id {
                1nat
            } else {
                0nat
            },
            _ => 0nat,
        }
    }
}

/// How many Upserts aimed at one entity id a message sequence holds.
pub open spec fn count_upserts(ms: Seq<MessageView>, id: u32) -> nat
    decreases ms.len(),
{
    if ms.len() == 0 {
        0
    } else {
        count_upserts(ms.drop_last(), id) + match ms.last() {
            MessageView::InsertComp(sid, _) => if sid == id {
                1nat
            } else {
                0nat
            },
            _ => 0nat,
        }
    }
}

/// Both counts distribute over concatenation.
proof fn lemma_counts_concat(a: Seq<MessageView>, b: Seq<MessageView>, id: u32)
    ensures
        count_creates(a + b, id) == count_creates(a, id) + count_creates(b, id),
        count_upserts(a + b, id) == count_upserts(a, id) + count_upserts(b, id),
    decreases b.len(),
{
    if b.len() == 0 {
        assert(a + b =~= a);
    } else {
        lemma_counts_concat(a, b.drop_last(), id);
        assert((a + b).drop_last() =~= a + b.drop_last());
        assert((a + b).last() == b.last());
    }
}

/// An entity's own block holds one Create for it and one Upsert per
/// component; a block of a different entity holds none for it.
proof fn lemma_block_counts(e: MirrorEntity, id: u32)
    ensures
        id == e.handle ==> count_creates(entity_block(e), id) == 1 && count_upserts(
            entity_block(e),
            id,
        ) == e.comp_views().len(),
        id != e.handle ==> count_creates(entity_block(e), id) == 0 && count_upserts(
            entity_block(e),
            id,
        ) == 0,
{
    lemma_comp_msgs_counts(e.handle, e.comp_views(), id);
    let single = seq![MessageView::NewEnt(e.handle)];
    lemma_counts_concat(single, comp_msgs(e.handle, e.comp_views()), id);
    assert(single.drop_last() =~= Seq::<MessageView>::empty());
    assert(count_creates(Seq::<MessageView>::empty(), id) == 0);
    assert(count_upserts(Seq::<MessageView>::empty(), id) == 0);
    assert(entity_block(e) == single + comp_msgs(e.handle, e.comp_views()));
}

/// Counts inside a run of Upserts aimed at one entity.
proof fn lemma_comp_msgs_counts(sid: u32, cs: Seq<ComponentView>, id: u32)
    ensures
        count_creates(comp_msgs(sid, cs), id) == 0,
        id == sid ==> count_upserts(comp_msgs(sid, cs), id) == cs.len(),
        id != sid ==> count_upserts(comp_msgs(sid, cs), id) == 0,
    decreases cs.len(),
{
    if cs.len() == 0 {
    } else {
        lemma_comp_msgs_counts(sid, cs.drop_last(), id);
        assert(comp_msgs(sid, cs).drop_last() =~= comp_msgs(sid, cs.drop_last()));
    }
}

/// Bootstrap completeness, the shape half: for every entity of the
/// world, the snapshot holds exactly one Create and exactly as many
/// Upserts as the entity has components.
pub proof fn lemma_bootstrap_counts(ents: Seq<MirrorEntity>, i: int)
    requires
        handles_unique(ents),
        0 <= i < ents.len(),
    ensures
        count_creates(world_msgs(ents), ents[i].handle) == 1,
        count_upserts(world_msgs(ents), ents[i].handle) == ents[i].comp_views().len(),
    decreases ents.len(),
{
    let id = ents[i].handle;
    lemma_counts_concat(world_msgs(ents.drop_last()), entity_block(ents.last()), id);
    lemma_block_counts(ents.last(), id);
    if i == ents.len() - 1 {
        lemma_world_msgs_counts_absent(ents.drop_last(), id);
    } else {
        lemma_bootstrap_counts(ents.drop_last(), i);
        assert(ents.drop_last()[i] == ents[i]);
        assert(ents.last().handle != id);
    }
}

/// A world with no entity of a given id sends it neither Creates nor
/// Upserts.
proof fn lemma_world_msgs_counts_absent(ents: Seq<MirrorEntity>, id: u32)
    requires
        forall|j: int| 0 <= j < ents.len() ==> (#[trigger] ents[j]).handle != id,
    ensures
        count_creates(world_msgs(ents), id) == 0,
        count_upserts(world_msgs(ents), id) == 0,
    decreases ents.len(),
{
    if ents.len() == 0 {
    } else {
        lemma_world_msgs_counts_absent(ents.drop_last(), id);
        lemma_counts_concat(world_msgs(ents.drop_last()), entity_block(ents.last()), id);
        lemma_block_counts(ents.last(), id);
    }
}

/// Replaying a concatenation replays the parts in order.
pub proof fn lemma_client_steps_append(s: ClientView, a: Seq<MessageView>, b: Seq<MessageView>)
    ensures
        client_steps(s, a + b) == client_steps(client_steps(s, a), b),
    decreases b.len(),
{
    if b.len() == 0 {
        assert(a + b =~= a);
        assert(client_steps(client_steps(s, a), b) == client_steps(s, a));
    } else {
        lemma_client_steps_append(s, a, b.drop_last());
        assert(a + b =~= (a + b.drop_last()).push(b.last()));
        lemma_client_steps_snoc(s, a + b.drop_last(), b.last());
        assert(b =~= b.drop_last().push(b.last()));
        lemma_client_steps_snoc(client_steps(s, a), b.drop_last(), b.last());
    }
}

/// The kind-keyed map built by upserting a component run onto `m0`.
pub open spec fn comps_fold(m0: Map<u8, ComponentView>, cs: Seq<ComponentView>) -> Map<
    u8,
    ComponentView,
>
    decreases cs.len(),
{
    if cs.len() == 0 {
        m0
    } else {
        comps_fold(m0, cs.drop_last()).insert(cs.last().kind(), cs.last())
    }
}

/// Upserting a component run onto an empty entity builds exactly the
/// kind-keyed contents of the run.
pub proof fn lemma_comps_fold_empty(cs: Seq<ComponentView>)
    ensures
        comps_fold(Map::empty(), cs) == comps_map(cs),
    decreases cs.len(),
{
    if cs.len() == 0 {
    } else {
        lemma_comps_fold_empty(cs.drop_last());
    }
}

/// Replaying a run of Upserts aimed at a bound entity changes that
/// entity's components alone.
proof fn lemma_comp_inserts_replay(s: ClientView, sid: u32, cs: Seq<ComponentView>)
    requires
        cwf(s),
        s.ids.dom().contains(sid),
        s.established,
    ensures
        ({
            let t = client_steps(s, comp_msgs(sid, cs));
            &&& cwf(t)
            &&& t == (ClientView {
                mirror: s.mirror.insert(s.ids[sid], comps_fold(s.mirror[s.ids[sid]], cs)),
                ..s
            })
        }),
    decreases cs.len(),
{
    let h = s.ids[sid];
    if cs.len() == 0 {
        assert(client_steps(s, comp_msgs(sid, cs)) == s);
        assert(s.mirror.insert(h, comps_fold(s.mirror[h], cs)) =~= s.mirror);
        assert(client_steps(s, comp_msgs(sid, cs)) =~= (ClientView {
            mirror: s.mirror.insert(h, comps_fold(s.mirror[h], cs)),
            ..s
        }));
    } else {
        lemma_comp_inserts_replay(s, sid, cs.drop_last());
        let t0 = client_steps(s, comp_msgs(sid, cs.drop_last()));
        assert(comp_msgs(sid, cs) =~= comp_msgs(sid, cs.drop_last()).push(
            MessageView::InsertComp(sid, cs.last()),
        ));
        lemma_client_steps_snoc(s, comp_msgs(sid, cs.drop_last()), MessageView::InsertComp(sid, cs.last()));
        let t = client_step(t0, MessageView::InsertComp(sid, cs.last()));
        assert(t.mirror =~= s.mirror.insert(h, comps_fold(s.mirror[h], cs)));
        assert(t =~= (ClientView { mirror: s.mirror.insert(h, comps_fold(s.mirror[h], cs)), ..s }));
    }
}

/// Replaying one entity's block on a client that has never heard of it
/// binds it to the next fresh handle and fills that handle's entity with
/// exactly the block's components.
proof fn lemma_entity_block_replay(s: ClientView, e: MirrorEntity)
    requires
        cwf(s),
        !s.ids.dom().contains(e.handle),
        s.next_handle < u32::MAX,
    ensures
        ({
            let t = client_steps(s, entity_block(e));
            &&& cwf(t)
            &&& t.next_handle == s.next_handle + 1
            &&& t.ids == s.ids.insert(e.handle, s.next_handle)
            &&& t.mirror == s.mirror.insert(s.next_handle, e@)
            &&& t.established
            &&& t.catalog == s.catalog
        }),
{
    let h = s.next_handle;
    let create = MessageView::NewEnt(e.handle);
    let s0 = client_step(s, create);
    lemma_client_step_wf(s, create);
    assert(entity_block(e) =~= seq![create] + comp_msgs(e.handle, e.comp_views()));
    lemma_client_steps_append(s, seq![create], comp_msgs(e.handle, e.comp_views()));
    assert(client_steps(s, seq![create]) == s0) by {
        assert(seq![create].drop_first() =~= Seq::<MessageView>::empty());
        assert(seq![create][0] == create);
        assert(client_steps(s0, Seq::<MessageView>::empty()) == s0);
    }
    assert(s0.ids == s.ids.insert(e.handle, h));
    assert(s0.mirror == s.mirror.insert(h, Map::empty()));
    lemma_comp_inserts_replay(s0, e.handle, e.comp_views());
    let t = client_steps(s0, comp_msgs(e.handle, e.comp_views()));
    lemma_comps_fold_empty(e.comp_views());
    assert(s0.mirror[h] =~= Map::<u8, ComponentView>::empty());
    assert(t.mirror =~= s.mirror.insert(h, e@));
    assert(t.ids =~= s.ids.insert(e.handle, h));
}

/// Bootstrap completeness, the replay half: replaying the world
/// snapshot on a client binds every world entity to its own fresh local
/// handle, with exactly the server's components on it, and touches
/// nothing the client already had.
pub proof fn lemma_world_replay(s: ClientView, ents: Seq<MirrorEntity>)
    requires
        cwf(s),
        handles_unique(ents),
        forall|i: int| 0 <= i < ents.len() ==> !s.ids.dom().contains((#[trigger] ents[i]).handle),
        s.next_handle + ents.len() <= u32::MAX,
    ensures
        ({
            let t = client_steps(s, world_msgs(ents));
            &&& cwf(t)
            &&& t.next_handle == s.next_handle + ents.len()
            &&& t.catalog == s.catalog
            &&& forall|sid: u32|
                t.ids.dom().contains(sid) <==> s.ids.dom().contains(sid) || exists|i: int|
                    0 <= i < ents.len() && (#[trigger] ents[i]).handle == sid
            &&& forall|sid: u32|
                s.ids.dom().contains(sid) ==> #[trigger] t.ids[sid] == s.ids[sid]
            &&& forall|h: u32|
                s.mirror.dom().contains(h) ==> #[trigger] t.mirror[h] == s.mirror[h] &&
                    t.mirror.dom().contains(h)
            &&& forall|i: int|
                0 <= i < ents.len() ==> t.ids.dom().contains((#[trigger] ents[i]).handle)
                    && t.mirror.dom().contains(t.ids[ents[i].handle]) && t.mirror[t.ids[ents[i].handle]]
                    == ents[i]@
        }),
    decreases ents.len(),
{
    if ents.len() == 0 {
    } else {
        let prefix = ents.drop_last();
        let e = ents.last();
        lemma_world_replay(s, prefix);
        let t0 = client_steps(s, world_msgs(prefix));
        lemma_client_steps_append(s, world_msgs(prefix), entity_block(e));
        assert(!t0.ids.dom().contains(e.handle)) by {
            if t0.ids.dom().contains(e.handle) {
                if s.ids.dom().contains(e.handle) {
                    assert(!s.ids.dom().contains(ents[ents.len() - 1].handle));
                } else {
                    let i = choose|i: int|
                        0 <= i < prefix.len() && (#[trigger] prefix[i]).handle == e.handle;
                    assert(ents[i].handle == ents[ents.len() - 1].handle);
                }
            }
        }
        lemma_entity_block_replay(t0, e);
        let t = client_steps(t0, entity_block(e));
        let h = t0.next_handle;
        assert forall|i: int| 0 <= i < ents.len() implies t.ids.dom().contains(
            (#[trigger] ents[i]).handle,
        ) && t.mirror.dom().contains(t.ids[ents[i].handle]) && t.mirror[t.ids[ents[i].handle]]
            == ents[i]@ by {
            if i == ents.len() - 1 {
                assert(t.ids[e.handle] == h);
                assert(t.mirror[h] == e@);
            } else {
                assert(prefix[i] == ents[i]);
                assert(t0.ids.dom().contains(ents[i].handle));
                assert(ents[i].handle != e.handle);
                assert(t.ids[ents[i].handle] == t0.ids[ents[i].handle]);
                let hi = t0.ids[ents[i].handle];
                assert(t0.mirror.dom().contains(hi));
                assert(hi < t0.next_handle);
                assert(t.mirror[hi] == t0.mirror[hi]);
            }
        }
        assert forall|sid: u32| t.ids.dom().contains(sid) <==> s.ids.dom().contains(sid) || exists|
            i: int,
        |
            0 <= i < ents.len() && (#[trigger] ents[i]).handle == sid by {
            if t.ids.dom().contains(sid) {
                if sid == e.handle {
                    assert(ents[ents.len() - 1].handle == sid);
                } else {
                    if !s.ids.dom().contains(sid) {
                        let i = choose|i: int|
                            0 <= i < prefix.len() && (#[trigger] prefix[i]).handle == sid;
                        assert(ents[i].handle == sid);
                    }
                }
            } else {
                if s.ids.dom().contains(sid) {
                } else {
                    if exists|i: int| 0 <= i < ents.len() && (#[trigger] ents[i]).handle == sid {
                        let i = choose|i: int|
                            0 <= i < ents.len() && (#[trigger] ents[i]).handle == sid;
                        if i < ents.len() - 1 {
                            assert(prefix[i].handle == sid);
                        }
                    }
                }
            }
        }
    }
}


/// Bootstrap completeness, end to end: replaying the whole bootstrap
/// stream — the Establishment, then the snapshot — on a client that has
/// never heard of the world's entities leaves its catalog set and its
/// mirror isomorphic to the world: every entity bound to its own local
/// handle with exactly the server's components, and nothing the client
/// already had disturbed.
pub proof fn lemma_bootstrap_replay(
    s: ClientView,
    reserved: u32,
    names: Seq<Seq<u8>>,
    ents: Seq<MirrorEntity>,
)
    requires
        cwf(s),
        handles_unique(ents),
        forall|i: int| 0 <= i < ents.len() ==> !s.ids.dom().contains((#[trigger] ents[i]).handle),
        s.next_handle + ents.len() <= u32::MAX,
    ensures
        ({
            let t = client_steps(s, bootstrap_msgs(reserved, names, ents));
            &&& cwf(t)
            &&& t.catalog == Some(names)
            &&& forall|sid: u32|
                s.ids.dom().contains(sid) ==> #[trigger] t.ids[sid] == s.ids[sid]
            &&& forall|h: u32|
                s.mirror.dom().contains(h) ==> #[trigger] t.mirror[h] == s.mirror[h]
            &&& forall|i: int|
                0 <= i < ents.len() ==> t.ids.dom().contains((#[trigger] ents[i]).handle)
                    && t.mirror.dom().contains(t.ids[ents[i].handle]) && t.mirror[t.ids[ents[i].handle]]
                    == ents[i]@
        }),
{
    let est = MessageView::Establishment { local_player: reserved, names };
    lemma_client_steps_append(s, seq![est], world_msgs(ents));
    let s1 = client_step(s, est);
    assert(client_steps(s, seq![est]) == s1) by {
        assert(seq![est].drop_first() =~= Seq::<MessageView>::empty());
        assert(seq![est][0] == est);
        assert(client_steps(s1, Seq::<MessageView>::empty()) == s1);
    }
    lemma_world_replay(s1, ents);
}

/// Build the whole snapshot stream for one joining connection: the
/// Establishment, then one block per live entity.
pub fn build_bootstrap(world: &Mirror, catalog: &AppearanceRecord, reserved: u32) -> (r: Vec<
    NetMessage,
>)
    requires
        world.wf(),
        catalog.wf(),
    ensures
        r@.map_values(|m: NetMessage| m@) == bootstrap_msgs(reserved, catalog@, world.entities@),
        forall|i: int| 0 <= i < r@.len() ==> (#[trigger] r@[i])@.wf(),
{
    let mut out: Vec<NetMessage> = Vec::new();
    out.push(NetMessage::Establishment {
        local_player: reserved,
        appearance_record: catalog.clone_record(),
    });
    let ghost est = MessageView::Establishment { local_player: reserved, names: catalog@ };
    proof {
        assert(out@.map_values(|m0: NetMessage| m0@) =~= seq![est]);
    }
    let n = world.entities.len();
    let mut i: usize = 0;
    while i < n
        invariant
            i <= n,
            world.wf(),
            catalog.wf(),
            n == world.entities@.len(),
            est == (MessageView::Establishment { local_player: reserved, names: catalog@ }),
            out@.map_values(|m0: NetMessage| m0@) =~= seq![est] + world_msgs(world.entities@.take(i as int)),
            forall|j: int| 0 <= j < out@.len() ==> (#[trigger] out@[j])@.wf(),
        decreases n - i,
    {
        let ghost pre = out@.map_values(|m0: NetMessage| m0@);
        let e = &world.entities[i];
        let ghost ev = world.entities@[i as int];
        out.push(NetMessage::NewEnt(e.handle));
        let m = e.components.len();
        let mut j: usize = 0;
        while j < m
            invariant
                j <= m,
                i < world.entities@.len(),
                world.wf(),
                ev == world.entities@[i as int],
                e.handle == ev.handle,
                m == ev.components@.len(),
                pre == out@.map_values(|m0: NetMessage| m0@).take(pre.len() as int),
                out@.map_values(|m0: NetMessage| m0@) =~= pre + seq![MessageView::NewEnt(ev.handle)] + comp_msgs(
                    ev.handle,
                    ev.comp_views().take(j as int),
                ),
                forall|t: int| 0 <= t < out@.len() ==> (#[trigger] out@[t])@.wf(),
            decreases m - j,
        {
            let c = world.entities[i].components[j].clone_component();
            proof {
                assert(ev.wf());
                assert(ev.comp_views()[j as int].wf());
                assert(c@ == ev.comp_views()[j as int]);
            }
            let ghost cv = c@;
            let ghost prev = out@;
            out.push(NetMessage::InsertComp(e.handle, c));
            j = j + 1;
            proof {
                assert(out@ == prev.push(out@.last()));
                assert(out@.last()@ == MessageView::InsertComp(ev.handle, cv));
                assert(cv == ev.comp_views()[j as int - 1]);
            }
            proof {
                assert(comp_msgs(ev.handle, ev.comp_views().take(j as int)) =~= comp_msgs(
                    ev.handle,
                    ev.comp_views().take(j as int - 1),
                ).push(MessageView::InsertComp(ev.handle, ev.comp_views()[j as int - 1])));
                let target = pre + seq![MessageView::NewEnt(ev.handle)] + comp_msgs(
                    ev.handle,
                    ev.comp_views().take(j as int),
                );
                assert(comp_msgs(ev.handle, ev.comp_views().take(j as int - 1)).len() == j - 1);
                assert(prev.map_values(|m0: NetMessage| m0@).len() == prev.len());
                assert(prev.len() == pre.len() + 1 + (j - 1));
                assert(out@.len() == prev.len() + 1);
                assert(comp_msgs(ev.handle, ev.comp_views().take(j as int)).len() == j);
                assert(target.len() == pre.len() + 1 + j);
                assert forall|t: int| 0 <= t < out@.len() implies out@.map_values(|m0: NetMessage| m0@)[t]
                    == target[t] by {
                    assert(out@.map_values(|m0: NetMessage| m0@)[t] == (|m0: NetMessage| m0@)(out@[t]));
                    assert((|m0: NetMessage| m0@)(out@[t]) == out@[t]@);
                    if t < out@.len() - 1 {
                        assert(out@[t] == prev[t]);
                        assert(prev.map_values(|m0: NetMessage| m0@)[t] == (|m0: NetMessage| m0@)(prev[t]));
                        assert(prev.map_values(|m0: NetMessage| m0@)[t] == prev[t]@);
                        let older = pre + seq![MessageView::NewEnt(ev.handle)] + comp_msgs(
                            ev.handle,
                            ev.comp_views().take(j as int - 1),
                        );
                        assert(prev[t]@ == older[t]);
                        assert(older[t] == target[t]);
                    } else {
                        assert(out@[t] == out@.last());
                        assert(out@[t]@ == MessageView::InsertComp(ev.handle, cv));
                        assert(target[t] == comp_msgs(ev.handle, ev.comp_views().take(j as int))[
                            j as int - 1
                        ]);
                        assert(target[t] == MessageView::InsertComp(
                            ev.handle,
                            ev.comp_views()[j as int - 1],
                        ));
                    }
                }
                assert(out@.map_values(|m0: NetMessage| m0@) =~= target);
            }
        }
        i = i + 1;
        proof {
            assert(ev.comp_views().take(m as int) =~= ev.comp_views());
            assert(world.entities@.take(i as int).drop_last() =~= world.entities@.take(
                i as int - 1,
            ));
            assert(world.entities@.take(i as int).last() == ev);
            assert(world_msgs(world.entities@.take(i as int)) =~= world_msgs(
                world.entities@.take(i as int - 1),
            ) + entity_block(ev));
            assert(out@.map_values(|m0: NetMessage| m0@) =~= seq![est] + world_msgs(world.entities@.take(i as int)));
        }
    }
    proof {
        assert(world.entities@.take(n as int) =~= world.entities@);
    }
    out
}

/// The late-join snapshot system: activating a joining connection sends
/// it the Establishment and the entire current world, onto that
/// connection only.
pub struct SendWorldToNewPlayers;

impl SendWorldToNewPlayers {
    /// Enqueue the full bootstrap stream for one connection.
    pub fn run(
        &self,
        cm: &mut ConnectionManager,
        world: &Mirror,
        catalog: &AppearanceRecord,
        addr: u32,
        reserved: u32,
    ) -> (hit: bool)
        requires
            old(cm).wf(),
            world.wf(),
            catalog.wf(),
        ensures
            final(cm).wf(),
            hit == old(cm)@.dom().contains(addr),
            hit ==> final(cm)@ == old(cm)@.insert(
                addr,
                ConnView {
                    queue: old(cm)@[addr].queue + bootstrap_msgs(
                        reserved,
                        catalog@,
                        world.entities@,
                    ),
                    ..old(cm)@[addr]
                },
            ),
            !hit ==> final(cm)@ == old(cm)@,
    {
        let msgs = build_bootstrap(world, catalog, reserved);
        cm.enqueue_to(addr, msgs)
    }
}

/// The components a fresh player entity is given: a starting position,
/// its walking speed, the player appearance, a hitbox, and the player
/// animation controller.
pub open spec fn spawn_comps(app: Appearance) -> Seq<ComponentView> {
    seq![
        ComponentView::Pos(Pos { at: Vec2 { x: 1000, y: 1000 }, rot: 0 }),
        ComponentView::Speed(Speed { speed: 115 }),
        ComponentView::Appearance(app),
        ComponentView::Hitbox(Hitbox { half_extents: Vec2 { x: 500, y: 250 } }),
        ComponentView::PlayerAnimationController(PlayerAnimationController),
    ]
}

/// A player entity's components after spawning: the spawn request is
/// consumed and the player components land, overwriting same kinds.
pub open spec fn spawned_entity(m: Map<u8, ComponentView>, app: Appearance) -> Map<
    u8,
    ComponentView,
> {
    m.remove(KIND_SPAWN_PLAYER).insert(8, spawn_comps(app)[0]).insert(14, spawn_comps(app)[1])
        .insert(0, spawn_comps(app)[2]).insert(9, spawn_comps(app)[3]).insert(
        2,
        spawn_comps(app)[4],
    )
}

/// What every connection is told about one spawned player: its Create,
/// then its components.
pub open spec fn spawn_block(r: u32, app: Appearance) -> Seq<MessageView> {
    seq![MessageView::NewEnt(r)] + comp_msgs(r, spawn_comps(app))
}

/// The blocks of a run of spawns, in order.
pub open spec fn spawn_blocks(rs: Seq<u32>, app: Appearance) -> Seq<MessageView>
    decreases rs.len(),
{
    if rs.len() == 0 {
        Seq::empty()
    } else {
        spawn_blocks(rs.drop_last(), app) + spawn_block(rs.last(), app)
    }
}

/// The world after a run of spawns.
pub open spec fn spawn_world(
    w: Map<u32, Map<u8, ComponentView>>,
    rs: Seq<u32>,
    app: Appearance,
) -> Map<u32, Map<u8, ComponentView>>
    decreases rs.len(),
{
    if rs.len() == 0 {
        w
    } else {
        let prev = spawn_world(w, rs.drop_last(), app);
        prev.insert(rs.last(), spawned_entity(prev[rs.last()], app))
    }
}

/// The spawn system: every entity that asked to enter the game gets its
/// player components, and everyone is told about the new kid.
pub struct SpawnNewPlayers;

impl SpawnNewPlayers {
    /// Spawn the player entities with the given reserved server ids, in
    /// order: attach the player components to each (consuming its spawn
    /// request) and broadcast each one's Create and components to every
    /// open connection.
    pub fn run(
        &self,
        cm: &mut ConnectionManager,
        world: &mut Mirror,
        app: Appearance,
        requests: &Vec<u32>,
    )
        requires
            old(cm).wf(),
            old(world).wf(),
            forall|i: int| 0 <= i < requests@.len() ==> old(world)@.dom().contains(
                #[trigger] requests@[i],
            ),
        ensures
            final(cm).wf(),
            final(world).wf(),
            final(world)@ == spawn_world(old(world)@, requests@, app),
            final(world).next_handle == old(world).next_handle,
            final(cm)@.dom() == old(cm)@.dom(),
            forall|a: u32|
                old(cm)@.dom().contains(a) ==> #[trigger] final(cm)@[a] == (ConnView {
                    queue: old(cm)@[a].queue + spawn_blocks(requests@, app),
                    ..old(cm)@[a]
                }),
    {
        let n = requests.len();
        let mut i: usize = 0;
        while i < n
            invariant
                i <= n,
                cm.wf(),
                world.wf(),
                n == requests@.len(),
                forall|t: int| 0 <= t < requests@.len() ==> old(world)@.dom().contains(
                    #[trigger] requests@[t],
                ),
                world@.dom() == old(world)@.dom(),
                world@ == spawn_world(old(world)@, requests@.take(i as int), app),
                world.next_handle == old(world).next_handle,
                cm@.dom() == old(cm)@.dom(),
                forall|a: u32|
                    old(cm)@.dom().contains(a) ==> #[trigger] cm@[a] == (ConnView {
                        queue: old(cm)@[a].queue + spawn_blocks(requests@.take(i as int), app),
                        ..old(cm)@[a]
                    }),
            decreases n - i,
        {
            let r = requests[i];
            let ghost w_pre = world@;
            let ghost cm_pre = cm@;
            world.remove_kind(r, KIND_SPAWN_PLAYER);
            world.upsert(r, NetComponent::Pos(Pos { at: Vec2 { x: 1000, y: 1000 }, rot: 0 }));
            world.upsert(r, NetComponent::Speed(Speed { speed: 115 }));
            world.upsert(r, NetComponent::Appearance(app));
            world.upsert(
                r,
                NetComponent::Hitbox(Hitbox { half_extents: Vec2 { x: 500, y: 250 } }),
            );
            world.upsert(
                r,
                NetComponent::PlayerAnimationController(PlayerAnimationController),
            );
            proof {
                assert(world@ =~= w_pre.insert(r, spawned_entity(w_pre[r], app)));
            }
            let mut block: Vec<NetMessage> = Vec::new();
            block.push(NetMessage::NewEnt(r));
            block.push(NetMessage::InsertComp(r, NetComponent::Pos(Pos { at: Vec2 { x: 1000, y: 1000 }, rot: 0 })));
            block.push(NetMessage::InsertComp(r, NetComponent::Speed(Speed { speed: 115 })));
            block.push(NetMessage::InsertComp(r, NetComponent::Appearance(app)));
            block.push(NetMessage::InsertComp(r, NetComponent::Hitbox(Hitbox { half_extents: Vec2 { x: 500, y: 250 } })));
            block.push(NetMessage::InsertComp(r, NetComponent::PlayerAnimationController(PlayerAnimationController)));
            proof {
                assert(block@.map_values(|m: NetMessage| m@) =~= spawn_block(r, app)) by {
                    assert(comp_msgs(r, spawn_comps(app)).len() == 5);
                    assert forall|t: int| 0 <= t < 6 implies block@.map_values(
                        |m: NetMessage| m@,
                    )[t] == spawn_block(r, app)[t] by {
                        assert(block@.map_values(|m: NetMessage| m@)[t] == (|m: NetMessage| m@)(
                            block@[t],
                        ));
                        if t >= 1 {
                            assert(spawn_block(r, app)[t] == comp_msgs(r, spawn_comps(app))[t - 1]);
                        }
                    }
                }
                assert forall|t: int| 0 <= t < block@.len() implies (
                #[trigger] block@[t])@.wf() by {
                    assert(block@.map_values(|m: NetMessage| m@)[t] == (|m: NetMessage| m@)(
                        block@[t],
                    ));
                }
            }
            cm.broadcast_all(&block);
            i = i + 1;
            proof {
                assert(requests@.take(i as int).drop_last() =~= requests@.take(i as int - 1));
                assert(requests@.take(i as int).last() == r);
                assert(world@ =~= spawn_world(old(world)@, requests@.take(i as int), app));
                assert forall|a: u32| old(cm)@.dom().contains(a) implies #[trigger] cm@[a]
                    == (ConnView {
                    queue: old(cm)@[a].queue + spawn_blocks(requests@.take(i as int), app),
                    ..old(cm)@[a]
                }) by {
                    assert(cm_pre.dom().contains(a));
                    assert(cm@[a].queue =~= old(cm)@[a].queue + spawn_blocks(
                        requests@.take(i as int),
                        app,
                    ));
                }
            }
        }
        proof {
            assert(requests@.take(n as int) =~= requests@);
        }
    }
}

/// The server side of one inbound client message.
///
/// A joining connection's first message marks it Active: a fresh entity
/// is created and reserved for the client's player, the Establishment is
/// sent, and the entire current world is snapshotted onto that
/// connection — the reserved entity itself closing the stream as its
/// bare Create.  After that (and for every later message), an Upsert
/// lands on the connection's own entity — the embedded target id is
/// ignored — while Create and Establishment from a client are ignored.
pub open spec fn server_apply(
    w: Map<u32, Map<u8, ComponentView>>,
    reserved: Option<u32>,
    m: MessageView,
) -> Map<u32, Map<u8, ComponentView>> {
    match m {
        MessageView::InsertComp(_, c) => match reserved {
            Some(r) => if w.dom().contains(r) {
                w.insert(r, w[r].insert(c.kind(), c))
            } else {
                w
            },
            None => w,
        },
        _ => w,
    }
}

/// The system that consumes what clients send.
pub struct HandleClientPackets;

impl HandleClientPackets {
    /// Apply one inbound message from one client connection.
    pub fn run(
        &self,
        cm: &mut ConnectionManager,
        world: &mut Mirror,
        catalog: &AppearanceRecord,
        addr: u32,
        msg: &NetMessage,
    )
        requires
            old(cm).wf(),
            old(world).wf(),
            catalog.wf(),
            msg@.wf(),
            old(world).next_handle < u32::MAX,
        ensures
            final(cm).wf(),
            final(world).wf(),
            !old(cm)@.dom().contains(addr) ==> final(world)@ == old(world)@ && final(cm)@ == old(
                cm,
            )@,
            old(cm)@.dom().contains(addr) && old(cm)@[addr].joining ==> ({
                let reserved = old(world).next_handle;
                &&& final(world)@ == server_apply(
                    old(world)@.insert(reserved, Map::empty()),
                    Some(reserved),
                    msg@,
                )
                &&& final(world).next_handle == old(world).next_handle + 1
                &&& final(cm)@ == old(cm)@.insert(
                    addr,
                    ConnView {
                        joining: false,
                        reserved: Some(reserved),
                        queue: old(cm)@[addr].queue + bootstrap_msgs(
                            reserved,
                            catalog@,
                            old(world).entities@,
                        ) + seq![MessageView::NewEnt(reserved)],
                    },
                )
            }),
            old(cm)@.dom().contains(addr) && !old(cm)@[addr].joining ==> final(world)@
                == server_apply(old(world)@, old(cm)@[addr].reserved, msg@) && final(cm)@ == old(
                cm,
            )@ && final(world).next_handle == old(world).next_handle,
    {
        let reserved = world.next_handle;
        let was_joining = cm.first_inbound(addr, reserved);
        if was_joining {
            let ghost w0 = world@;
            let h = world.create_entity();
            proof {
                assert(h == reserved);
                assert(world.entities@.drop_last() =~= old(world).entities@);
                let e = world.entities@.last();
                assert(e.comp_views() =~= Seq::<ComponentView>::empty());
                assert(comp_msgs(e.handle, e.comp_views()) =~= Seq::<MessageView>::empty());
                assert(entity_block(e) =~= seq![MessageView::NewEnt(reserved)]);
                assert(world_msgs(world.entities@) =~= world_msgs(old(world).entities@) + seq![
                    MessageView::NewEnt(reserved),
                ]);
            }
            let snapshot = SendWorldToNewPlayers;
            let hit = snapshot.run(cm, world, catalog, addr, reserved);
            proof {
                assert(hit);
                assert(bootstrap_msgs(reserved, catalog@, world.entities@) =~= bootstrap_msgs(
                    reserved,
                    catalog@,
                    old(world).entities@,
                ) + seq![MessageView::NewEnt(reserved)]);
            }
            match msg {
                NetMessage::InsertComp(_, c) => {
                    let hit2 = world.upsert(reserved, c.clone_component());
                    proof {
                        assert(hit2);
                    }
                },
                _ => {},
            }
            proof {
                let target = ConnView {
                    joining: false,
                    reserved: Some(reserved),
                    queue: old(cm)@[addr].queue + bootstrap_msgs(
                        reserved,
                        catalog@,
                        old(world).entities@,
                    ) + seq![MessageView::NewEnt(reserved)],
                };
                assert(cm@[addr].queue =~= target.queue);
                assert(cm@[addr] =~= target);
                assert(cm@ =~= old(cm)@.insert(addr, target));
                assert(world@ =~= server_apply(
                    old(world)@.insert(reserved, Map::empty()),
                    Some(reserved),
                    msg@,
                ));
            }
        } else {
            match cm.reserved_of(addr) {
                Some(r) => {
                    match msg {
                        NetMessage::InsertComp(_, c) => {
                            if world.contains(r) {
                                world.upsert(r, c.clone_component());
                            }
                        },
                        _ => {},
                    }
                },
                None => {},
            }
        }
    }
}

} // verus!
