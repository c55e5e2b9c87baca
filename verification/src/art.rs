//! Appearances and animation bookkeeping.
//!
//! The appearance catalog maps names to indices once, at establishment;
//! every entity then carries only its index.  Animation state advances
//! one frame per tick and wraps at the end of its spritesheet row.

use crate::components::Animate;
use crate::components::Appearance;
use crate::components::AppearanceRecord;
use vstd::prelude::*;

verus! {

/// Compare two byte strings.
pub fn bytes_eq(a: &[u8], b: &[u8]) -> (r: bool)
    ensures
        r == (a@ == b@),
{
    if a.len() != b.len() {
        proof {
            assert(a@.len() != b@.len());
        }
        return false;
    }
    let mut i: usize = 0;
    while i < a.len()
        invariant
            i <= a@.len(),
            a@.len() == b@.len(),
            forall|j: int| 0 <= j < i ==> a@[j] == b@[j],
        decreases a@.len() - i,
    {
        if a[i] != b[i] {
            return false;
        }
        i = i + 1;
    }
    proof {
        assert(a@ =~= b@);
    }
    true
}

/// The name is present somewhere in the catalog.
pub open spec fn has_name(names: Seq<Seq<u8>>, name: Seq<u8>) -> bool {
    exists|i: int| 0 <= i < names.len() && names[i] == name
}

impl AppearanceRecord {
    /// Make an Appearance out of a catalog name: the index of the first
    /// entry carrying it.  Fails exactly when no entry does.
    pub fn try_appearance_of(&self, appearance: &[u8]) -> (r: Result<Appearance, ()>)
        requires
            self.wf(),
        ensures
            match r {
                Ok(a) => has_name(self@, appearance@) && a.index < self@.len() && self@[
                    a.index as int
                ] == appearance@ && forall|j: int| 0 <= j < a.index ==> self@[j] != appearance@,
                Err(_) => !has_name(self@, appearance@),
            },
    {
        let mut i: usize = 0;
        while i < self.names.len()
            invariant
                self.wf(),
                i <= self.names@.len(),
                forall|j: int| 0 <= j < i ==> self@[j] != appearance@,
            decreases self.names@.len() - i,
        {
            if bytes_eq(self.names[i].as_slice(), appearance) {
                proof {
                    assert(self@[i as int] == self.names@[i as int]@);
                }
                return Ok(Appearance { index: i as u32 });
            }
            proof {
                assert(self@[i as int] == self.names@[i as int]@);
            }
            i = i + 1;
        }
        Err(())
    }

    /// Like `try_appearance_of`, for callers that know the name is
    /// loaded.
    pub fn appearance_of(&self, appearance: &[u8]) -> (r: Appearance)
        requires
            self.wf(),
            has_name(self@, appearance@),
        ensures
            r.index < self@.len(),
            self@[r.index as int] == appearance@,
    {
        match self.try_appearance_of(appearance) {
            Ok(a) => a,
            Err(_) => {
                proof {
                    assert(false);
                }
                Appearance { index: 0 }
            },
        }
    }
}

/// An animation is stored on one row of a spritesheet.
#[derive(Clone, Copy, PartialEq, Eq, Structural, Debug)]
pub struct AnimationData {
    pub total_frames: u32,
    /// How many ticks to spend on one frame.
    pub frame_duration: u32,
}

/// A spritesheet stores several animations in rows; each column is one
/// frame, and every frame has the same height and width.
#[derive(Clone, PartialEq, Eq, Debug)]
pub struct SpritesheetData {
    pub rows: Vec<AnimationData>,
    pub frame_width: u32,
    pub frame_height: u32,
}

/// The frame counter after one tick: one step forward, wrapping to zero
/// at the end of the row.
pub open spec fn spec_advance_frame(current: u32, row: AnimationData) -> u32 {
    if current + 1 >= row.total_frames * row.frame_duration {
        0
    } else {
        (current + 1) as u32
    }
}

/// The per-tick animation system, one entity at a time: advance the
/// frame counter and wrap it at the end of the row.
pub struct UpdateAnimations;

impl UpdateAnimations {
    /// Advance one entity's animation state by one tick.
    pub fn run(&self, animate: &mut Animate, row: &AnimationData)
        requires
            row.total_frames * row.frame_duration <= u32::MAX,
        ensures
            final(animate).current_frame == spec_advance_frame(old(animate).current_frame, *row),
            final(animate).row == old(animate).row,
    {
        proof {
            assert(row.total_frames * row.frame_duration <= u32::MAX) by (nonlinear_arith)
                requires row.total_frames * row.frame_duration <= u32::MAX;
        }
        let limit = row.total_frames * row.frame_duration;
        if animate.current_frame >= u32::MAX || animate.current_frame + 1 >= limit {
            animate.current_frame = 0;
        } else {
            animate.current_frame = animate.current_frame + 1;
        }
    }
}

} // verus!
