//! Client-side inventory handling.
//!
//! The inventory UI lives outside this core; what stands here is its
//! replication logic: turning item-drop events into drop requests for
//! the server, and depositioning entities that become pure inventory
//! items — their position and appearance leave the mirror.

use crate::components::ComponentView;
use crate::components::DropRequest;
use crate::components::SlotIndex;
use crate::components::KIND_APPEARANCE;
use crate::components::KIND_DEPOSITION;
use crate::components::KIND_POS;
use crate::mirror::Mirror;
use vstd::prelude::*;

verus! {

/// An entry is listed for the item entity id.
pub open spec fn has_slot(entries: Seq<(u32, SlotIndex)>, id: u32) -> bool {
    exists|i: int| 0 <= i < entries.len() && (#[trigger] entries[i]).0 == id
}

/// The inventory system's replication half: it remembers which slot each
/// item entity sits in, and turns the UI's drop events into requests.
pub struct UpdateInventory {
    pub ents_to_slot: Vec<(u32, SlotIndex)>,
}

impl UpdateInventory {
    pub fn new() -> (r: UpdateInventory)
        ensures
            r.ents_to_slot@.len() == 0,
    {
        UpdateInventory { ents_to_slot: Vec::new() }
    }

    /// Remember which slot an item entity sits in.
    pub fn record_slot(&mut self, id: u32, slot: SlotIndex)
        ensures
            final(self).ents_to_slot@ == old(self).ents_to_slot@.push((id, slot)),
    {
        self.ents_to_slot.push((id, slot));
    }

    /// Turn one drop event into the request to send: the slot recorded
    /// first for that item entity.
    pub fn drop_request(&self, id: u32) -> (r: DropRequest)
        requires
            has_slot(self.ents_to_slot@, id),
        ensures
            exists|i: int|
                0 <= i < self.ents_to_slot@.len() && (#[trigger] self.ents_to_slot@[i]).0 == id
                    && self.ents_to_slot@[i].1 == r.item_index && forall|j: int|
                    0 <= j < i ==> (#[trigger] self.ents_to_slot@[j]).0 != id,
    {
        let mut i: usize = 0;
        while i < self.ents_to_slot.len()
            invariant
                i <= self.ents_to_slot@.len(),
                has_slot(self.ents_to_slot@, id),
                forall|j: int| 0 <= j < i ==> (#[trigger] self.ents_to_slot@[j]).0 != id,
            decreases self.ents_to_slot@.len() - i,
        {
            let (ent, slot) = self.ents_to_slot[i];
            if ent == id {
                return DropRequest { item_index: slot };
            }
            i = i + 1;
        }
        proof {
            assert(false);
        }
        DropRequest { item_index: SlotIndex::Reserved(0) }
    }
}

/// Depositioning one entity's components: an entity marked for
/// deposition loses its position and appearance — it can no longer
/// exist physically — and the marker itself is consumed.
pub open spec fn depose_comps(m: Map<u8, ComponentView>) -> Map<u8, ComponentView> {
    if m.dom().contains(KIND_DEPOSITION) {
        m.remove(KIND_POS).remove(KIND_APPEARANCE).remove(KIND_DEPOSITION)
    } else {
        m
    }
}

/// The deposition system: one pass removes the physical presence of
/// every entity marked for deposition.
pub struct DepositionItems;

impl DepositionItems {
    pub fn run(&self, mirror: &mut Mirror)
        requires
            old(mirror).wf(),
        ensures
            final(mirror).wf(),
            final(mirror)@.dom() == old(mirror)@.dom(),
            forall|h: u32|
                old(mirror)@.dom().contains(h) ==> #[trigger] final(mirror)@[h] == depose_comps(
                    old(mirror)@[h],
                ),
            final(mirror).next_handle == old(mirror).next_handle,
            final(mirror).handles() == old(mirror).handles(),
    {
        let n = mirror.entities.len();
        let mut i: usize = 0;
        while i < n
            invariant
                i <= n,
                mirror.wf(),
                n == mirror.entities@.len(),
                mirror.handles() == old(mirror).handles(),
                mirror.next_handle == old(mirror).next_handle,
                mirror@.dom() == old(mirror)@.dom(),
                forall|j: int|
                    0 <= j < i ==> #[trigger] mirror@[old(mirror).handles()[j]] == depose_comps(
                        old(mirror)@[old(mirror).handles()[j]],
                    ),
                forall|h: u32|
                    old(mirror)@.dom().contains(h) && (forall|j: int|
                        0 <= j < i ==> old(mirror).handles()[j] != h) ==> #[trigger] mirror@[h]
                        == old(mirror)@[h],
            decreases n - i,
        {
            let h = mirror.entities[i].handle;
            let ghost m0 = mirror@[h];
            proof {
                crate::mirror::lemma_ents_map_index(mirror.entities@, i as int);
                assert(mirror.handles()[i as int] == h);
                assert forall|j: int| 0 <= j < i implies old(mirror).handles()[j] != h by {
                    assert(mirror.entities@[j].handle == mirror.handles()[j]);
                }
                assert(m0 == old(mirror)@[h]);
            }
            match mirror.get_kind(h, KIND_DEPOSITION) {
                Some(_) => {
                    let hit1 = mirror.remove_kind(h, KIND_POS);
                    let hit2 = mirror.remove_kind(h, KIND_APPEARANCE);
                    let hit3 = mirror.remove_kind(h, KIND_DEPOSITION);
                    proof {
                        assert(hit1 && hit2 && hit3);
                        assert(mirror@[h] =~= depose_comps(m0));
                    }
                },
                None => {
                    proof {
                        assert(mirror@[h] == depose_comps(m0));
                    }
                },
            }
            i = i + 1;
            proof {
                assert(mirror.handles().len() == mirror.entities@.len());
                assert(old(mirror).handles().len() == old(mirror).entities@.len());
                assert forall|j: int|
                    0 <= j < i implies #[trigger] mirror@[old(mirror).handles()[j]] == depose_comps(
                    old(mirror)@[old(mirror).handles()[j]],
                ) by {
                    if j < i - 1 {
                        assert(old(mirror).handles()[j] != h);
                    }
                }
            }
        }
        proof {
            assert forall|h: u32| old(mirror)@.dom().contains(h) implies #[trigger] mirror@[h]
                == depose_comps(old(mirror)@[h]) by {
                let s = old(mirror).entities@;
                assert(exists|j: int| 0 <= j < s.len() && (#[trigger] s[j]).handle == h) by {
                    if forall|j2: int| 0 <= j2 < s.len() ==> (#[trigger] s[j2]).handle != h {
                        crate::mirror::lemma_ents_map_absent(s, h);
                    }
                }
                let j = choose|j: int| 0 <= j < s.len() && (#[trigger] s[j]).handle == h;
                assert(old(mirror).handles()[j] == h);
            }
        }
    }
}

} // verus!
