//! What the renderer consumes: the per-tick read-only picture of the
//! mirror.
//!
//! Rendering itself — canvas, sprites, cameras — is outside this core;
//! this module only assembles the (entity, position, appearance) tuples
//! the presentation layer reads.

use crate::client::Player;
use crate::components::ComponentView;
use crate::components::KIND_POS;
use crate::geom::Vec2;
use crate::mirror::Mirror;
use crate::mirror::MirrorEntity;
use vstd::prelude::*;

verus! {

/// One drawable entity: its local handle, where it stands, and which way
/// it faces.
#[derive(Clone, Copy, PartialEq, Eq, Structural, Debug)]
pub struct RenderEntry {
    pub ent: u32,
    pub at: Vec2,
    pub rot: i64,
}

/// The entry an entity contributes, if it has a position.
pub open spec fn spec_entry_of(e: MirrorEntity) -> Option<RenderEntry> {
    if e@.dom().contains(KIND_POS) {
        match e@[KIND_POS] {
            ComponentView::Pos(p) => Some(RenderEntry { ent: e.handle, at: p.at, rot: p.rot }),
            _ => None,
        }
    } else {
        None
    }
}

/// The drawable entities of a mirror, in storage order.
pub open spec fn spec_render_entries(s: Seq<MirrorEntity>) -> Seq<RenderEntry>
    decreases s.len(),
{
    if s.len() == 0 {
        Seq::empty()
    } else {
        let rest = spec_render_entries(s.drop_last());
        match spec_entry_of(s.last()) {
            Some(entry) => rest.push(entry),
            None => rest,
        }
    }
}

/// The render system's data pass: collect every position-bearing entity
/// of the mirror for the presentation layer, read-only.
pub struct Render;

impl Render {
    /// Every drawable entity, in storage order.
    pub fn run(&self, mirror: &Mirror) -> (r: Vec<RenderEntry>)
        requires
            mirror.wf(),
        ensures
            r@ == spec_render_entries(mirror.entities@),
    {
        let n = mirror.entities.len();
        let mut out: Vec<RenderEntry> = Vec::new();
        let mut i: usize = 0;
        while i < n
            invariant
                i <= n,
                mirror.wf(),
                n == mirror.entities@.len(),
                out@ =~= spec_render_entries(mirror.entities@.take(i as int)),
            decreases n - i,
        {
            let h = mirror.entities[i].handle;
            proof {
                crate::mirror::lemma_ents_map_index(mirror.entities@, i as int);
            }
            match mirror.get_kind(h, KIND_POS) {
                Some(crate::components::NetComponent::Pos(p)) => {
                    out.push(RenderEntry { ent: h, at: p.at, rot: p.rot });
                },
                _ => {},
            }
            i = i + 1;
            proof {
                assert(mirror.entities@.take(i as int).drop_last() =~= mirror.entities@.take(
                    i as int - 1,
                ));
                assert(mirror.entities@.take(i as int).last() == mirror.entities@[i as int - 1]);
                assert(out@ =~= spec_render_entries(mirror.entities@.take(i as int)));
            }
        }
        proof {
            assert(mirror.entities@.take(n as int) =~= mirror.entities@);
        }
        out
    }

    /// Where the player stands, for the camera: the player entity's
    /// position, or the origin while there is none.
    pub fn player_pos(&self, mirror: &Mirror, player: &Player) -> (r: Vec2)
        requires
            mirror.wf(),
        ensures
            match player.0 {
                Some(h) => match mirror.spec_pos_of(h) {
                    Some(at) => r == at,
                    None => r == (Vec2 { x: 0, y: 0 }),
                },
                None => r == (Vec2 { x: 0, y: 0 }),
            },
    {
        match player.0 {
            Some(h) => {
                match mirror.get_kind(h, KIND_POS) {
                    Some(crate::components::NetComponent::Pos(p)) => p.at,
                    _ => Vec2 { x: 0, y: 0 },
                }
            },
            None => Vec2 { x: 0, y: 0 },
        }
    }
}

} // verus!
