//! Client-side reconciliation of authoritative positions.
//!
//! Every position-bearing entity of the mirror holds both its locally
//! simulated position and the last authoritative position received.  Per
//! step, the local position is blended toward the authoritative one — a
//! low-pass filter, not a snap — unless an active, nonzero local heading
//! is driving the entity, in which case the blend is skipped so server
//! lag never fights player-controlled movement.

use crate::components::ComponentView;
use crate::components::NetComponent;
use crate::components::Pos;
use crate::components::UpdatePosition;
use crate::components::KIND_HEADING;
use crate::components::KIND_POS;
use crate::components::KIND_UPDATE_POSITION;
use crate::geom::blend2;
use crate::geom::blend2_iter;
use crate::geom::dist2;
use crate::geom::lemma_blend2_converges;
use crate::geom::lemma_blend2_progress;
use crate::mirror::Mirror;
use vstd::prelude::*;

verus! {

/// An active, nonzero local heading is currently driving this entity.
pub open spec fn heading_active(m: Map<u8, ComponentView>) -> bool {
    m.dom().contains(KIND_HEADING) && match m[KIND_HEADING] {
        ComponentView::Heading(h) => h.is_active(),
        _ => false,
    }
}

/// One reconciliation step on one entity's components: blend the local
/// position toward the last authoritative sample, unless local
/// prediction is driving.  Everything but the position is untouched.
pub open spec fn sync_comps(m: Map<u8, ComponentView>) -> Map<u8, ComponentView> {
    if m.dom().contains(KIND_POS) && m.dom().contains(KIND_UPDATE_POSITION) && !heading_active(m) {
        match (m[KIND_POS], m[KIND_UPDATE_POSITION]) {
            (ComponentView::Pos(p), ComponentView::UpdatePosition(u)) => m.insert(
                KIND_POS,
                ComponentView::Pos(Pos { at: blend2(p.at, u.at), rot: p.rot }),
            ),
            _ => m,
        }
    } else {
        m
    }
}

/// The reconciliation system: one pass blends every position-bearing
/// entity of the mirror.
pub struct SyncPositions;

impl SyncPositions {
    /// One reconciliation pass over the whole mirror.
    pub fn run(&self, mirror: &mut Mirror)
        requires
            old(mirror).wf(),
        ensures
            final(mirror).wf(),
            final(mirror)@.dom() == old(mirror)@.dom(),
            forall|h: u32|
                old(mirror)@.dom().contains(h) ==> #[trigger] final(mirror)@[h] == sync_comps(
                    old(mirror)@[h],
                ),
            final(mirror).next_handle == old(mirror).next_handle,
            final(mirror).handles() == old(mirror).handles(),
    {
        let n = mirror.entities.len();
        let mut i: usize = 0;
        while i < n
            invariant
                i <= n,
                mirror.wf(),
                n == mirror.entities@.len(),
                mirror.handles() == old(mirror).handles(),
                mirror.next_handle == old(mirror).next_handle,
                mirror@.dom() == old(mirror)@.dom(),
                forall|j: int|
                    0 <= j < i ==> #[trigger] mirror@[old(mirror).handles()[j]] == sync_comps(
                        old(mirror)@[old(mirror).handles()[j]],
                    ),
                forall|h: u32|
                    old(mirror)@.dom().contains(h) && (forall|j: int|
                        0 <= j < i ==> old(mirror).handles()[j] != h) ==> #[trigger] mirror@[h]
                        == old(mirror)@[h],
            decreases n - i,
        {
            let h = mirror.entities[i].handle;
            let ghost m0 = mirror@[h];
            proof {
                crate::mirror::lemma_ents_map_index(mirror.entities@, i as int);
                assert(mirror.handles()[i as int] == h);
                assert forall|j: int| 0 <= j < i implies old(mirror).handles()[j] != h by {
                    assert(mirror.entities@[j].handle == mirror.handles()[j]);
                }
                assert(m0 == old(mirror)@[h]);
            }
            let skip = match mirror.get_kind(h, KIND_HEADING) {
                Some(NetComponent::Heading(hd)) => hd.active(),
                _ => false,
            };
            if !skip {
                let pos_c = mirror.get_kind(h, KIND_POS);
                let upd_c = mirror.get_kind(h, KIND_UPDATE_POSITION);
                match (pos_c, upd_c) {
                    (Some(NetComponent::Pos(p)), Some(NetComponent::UpdatePosition(u))) => {
                        let blended = crate::geom::blend_vec(p.at, u.at);
                        let np = Pos { at: blended, rot: p.rot };
                        let hit = mirror.upsert(h, NetComponent::Pos(np));
                        proof {
                            assert(hit);
                            assert(mirror@[h] =~= sync_comps(m0));
                        }
                    },
                    _ => {
                        proof {
                            assert(mirror@[h] =~= sync_comps(m0));
                        }
                    },
                }
            } else {
                proof {
                    assert(mirror@[h] == sync_comps(m0));
                }
            }
            i = i + 1;
            proof {
                assert(mirror.handles().len() == mirror.entities@.len());
                assert(old(mirror).handles().len() == old(mirror).entities@.len());
                assert forall|j: int|
                    0 <= j < i implies #[trigger] mirror@[old(mirror).handles()[j]] == sync_comps(
                    old(mirror)@[old(mirror).handles()[j]],
                ) by {
                    if j < i - 1 {
                        assert(old(mirror).handles()[j] != h);
                    }
                }
            }
        }
        proof {
            assert forall|h: u32| old(mirror)@.dom().contains(h) implies #[trigger] mirror@[h]
                == sync_comps(old(mirror)@[h]) by {
                let s = old(mirror).entities@;
                assert(exists|j: int| 0 <= j < s.len() && (#[trigger] s[j]).handle == h) by {
                    if forall|j2: int| 0 <= j2 < s.len() ==> (#[trigger] s[j2]).handle != h {
                        crate::mirror::lemma_ents_map_absent(s, h);
                    }
                }
                let j = choose|j: int| 0 <= j < s.len() && (#[trigger] s[j]).handle == h;
                assert(old(mirror).handles()[j] == h);
            }
        }
    }
}

/// The entity's components after `n` reconciliation steps.
pub open spec fn sync_iter(m: Map<u8, ComponentView>, n: nat) -> Map<u8, ComponentView>
    decreases n,
{
    if n == 0 {
        m
    } else {
        sync_comps(sync_iter(m, (n - 1) as nat))
    }
}

/// Heading override: with an active nonzero heading, the blend step
/// leaves the entity — its local position in particular — entirely
/// unchanged, whatever the authoritative value says.
pub proof fn lemma_heading_override(m: Map<u8, ComponentView>)
    requires
        heading_active(m),
    ensures
        sync_comps(m) == m,
{
}

/// With no active heading, repeated blend steps keep the position
/// closing on the authoritative sample and reach it after at most its
/// taxicab distance in steps: the approach is monotone and converges
/// within a bounded number of steps for a bounded initial offset.
pub proof fn lemma_reconciliation_convergence(m: Map<u8, ComponentView>, p: Pos, u: UpdatePosition, n: nat)
    requires
        !heading_active(m),
        m.dom().contains(KIND_POS),
        m[KIND_POS] == ComponentView::Pos(p),
        m.dom().contains(KIND_UPDATE_POSITION),
        m[KIND_UPDATE_POSITION] == ComponentView::UpdatePosition(u),
    ensures
        sync_iter(m, n).dom().contains(KIND_POS),
        sync_iter(m, n)[KIND_POS] == ComponentView::Pos(
            Pos { at: blend2_iter(p.at, u.at, n), rot: p.rot },
        ),
        dist2(blend2_iter(p.at, u.at, n), u.at) <= dist2(p.at, u.at),
        n >= dist2(p.at, u.at) ==> blend2_iter(p.at, u.at, n) == u.at,
    decreases n,
{
    if n == 0 {
    } else {
        lemma_reconciliation_convergence(m, p, u, (n - 1) as nat);
        let prev = sync_iter(m, (n - 1) as nat);
        lemma_sync_frame(m, (n - 1) as nat);
        assert(prev.dom().contains(KIND_UPDATE_POSITION) && prev[KIND_UPDATE_POSITION] == m[KIND_UPDATE_POSITION]);
        assert(!heading_active(prev));
        lemma_blend2_progress(blend2_iter(p.at, u.at, (n - 1) as nat), u.at);
    }
    if n >= dist2(p.at, u.at) {
        lemma_blend2_converges(p.at, u.at, n);
    }
}

/// Reconciliation never touches anything but the position: the heading
/// and the authoritative sample are the same after any number of steps.
pub proof fn lemma_sync_frame(m: Map<u8, ComponentView>, n: nat)
    ensures
        forall|k: u8|
            k != KIND_POS ==> (#[trigger] sync_iter(m, n).dom().contains(k) == m.dom().contains(k)
                && (m.dom().contains(k) ==> sync_iter(m, n)[k] == m[k])),
        heading_active(sync_iter(m, n)) == heading_active(m),
    decreases n,
{
    if n == 0 {
    } else {
        lemma_sync_frame(m, (n - 1) as nat);
    }
}

} // verus!
