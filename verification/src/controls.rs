//! Client-side movement input and item pickup.
//!
//! The key state is folded into a movement heading; a change of heading
//! is both sent to the server and recorded locally for prediction.  The
//! heading then drives the local movement integration that the
//! reconciliation blend defers to.

use crate::components::Heading;
use crate::components::PickupRequest;
use crate::components::Pos;
use crate::components::Speed;
use crate::geom::clamp_coord;
use crate::geom::clamped_add;
use crate::geom::Vec2;
use crate::geom::MAX_COORD;
use crate::geom::UNIT;
use vstd::prelude::*;

verus! {

/// How close an item must be for a pickup to reach it, as a squared
/// distance in sub-units.
pub const MAX_INTERACTION_DISTANCE_SQUARED: i64 = 4_000_000;

/// The heading the held movement keys add up to, one world unit per
/// pressed key along each key's diagonal.
pub open spec fn spec_move_vec(w: bool, s: bool, a: bool, d: bool) -> Vec2 {
    let xs = (if s { 1int } else { 0int }) + (if d { 1int } else { 0int }) - (if w {
        1int
    } else {
        0int
    }) - (if a { 1int } else { 0int });
    let ys = (if w { 1int } else { 0int }) + (if d { 1int } else { 0int }) - (if s {
        1int
    } else {
        0int
    }) - (if a { 1int } else { 0int });
    Vec2 { x: (xs * UNIT as int) as i64, y: (ys * UNIT as int) as i64 }
}

/// The movement-control system: folds the held keys into a heading and
/// reports a change of heading so it can be sent to the server and used
/// for local prediction.
pub struct MovementControl {
    pub current_heading: Vec2,
}

impl MovementControl {
    pub fn new() -> (r: MovementControl)
        ensures
            r.current_heading == (Vec2 { x: 0, y: 0 }),
    {
        MovementControl { current_heading: Vec2 { x: 0, y: 0 } }
    }

    /// Fold the four movement keys into a heading.  When it differs from
    /// the recorded one, record it and hand it back for sending;
    /// otherwise nothing changes and nothing is sent.
    pub fn run(&mut self, w: bool, s: bool, a: bool, d: bool) -> (r: Option<Heading>)
        ensures
            match r {
                Some(h) => h.dir == spec_move_vec(w, s, a, d) && old(self).current_heading
                    != spec_move_vec(w, s, a, d) && final(self).current_heading == h.dir,
                None => old(self).current_heading == spec_move_vec(w, s, a, d) && *final(self)
                    == *old(self),
            },
    {
        let mut x: i64 = 0;
        let mut y: i64 = 0;
        if w {
            x = x - UNIT;
            y = y + UNIT;
        }
        if s {
            x = x + UNIT;
            y = y - UNIT;
        }
        if a {
            x = x - UNIT;
            y = y - UNIT;
        }
        if d {
            x = x + UNIT;
            y = y + UNIT;
        }
        let mv = Vec2 { x, y };
        proof {
            assert(mv == spec_move_vec(w, s, a, d));
        }
        if mv.x != self.current_heading.x || mv.y != self.current_heading.y {
            self.current_heading = mv;
            Some(Heading { dir: mv })
        } else {
            None
        }
    }
}

/// One axis' movement step: the heading component scaled by speed and
/// tick granularity, rounded toward zero.
pub open spec fn spec_step(dir: int, speed: int, granularity: int) -> int {
    if dir >= 0 {
        dir * speed * granularity / (UNIT as int)
    } else {
        -((-dir) * speed * granularity / (UNIT as int))
    }
}

/// One axis of the local movement integration.
pub open spec fn spec_move_coord(c: int, dir: int, speed: int, granularity: int) -> int {
    clamp_coord(c + spec_step(dir, speed, granularity))
}

/// The local movement integration: entities advance along their active
/// heading by their speed, scaled by the tick's granularity, saturating
/// at the world's bounds.  An idle heading moves nothing.
pub struct MoveHeadings;

impl MoveHeadings {
    pub fn run(&self, pos: &mut Pos, heading: &Heading, speed: &Speed, granularity: i64)
        requires
            old(pos).at.wf(),
            -2 * UNIT <= heading.dir.x <= 2 * UNIT,
            -2 * UNIT <= heading.dir.y <= 2 * UNIT,
            0 <= speed.speed <= UNIT,
            1 <= granularity <= 60,
        ensures
            heading.is_active() ==> final(pos).at.x == spec_move_coord(
                old(pos).at.x as int,
                heading.dir.x as int,
                speed.speed as int,
                granularity as int,
            ) && final(pos).at.y == spec_move_coord(
                old(pos).at.y as int,
                heading.dir.y as int,
                speed.speed as int,
                granularity as int,
            ),
            !heading.is_active() ==> *final(pos) == *old(pos),
            final(pos).at.wf(),
            final(pos).rot == old(pos).rot,
    {
        if heading.active() {
            let sx = step_of(heading.dir.x, speed.speed, granularity);
            let sy = step_of(heading.dir.y, speed.speed, granularity);
            pos.at.x = clamped_add(pos.at.x, sx);
            pos.at.y = clamped_add(pos.at.y, sy);
        }
    }
}

/// One axis' step, with its bound.
fn step_of(dir: i64, speed: i64, granularity: i64) -> (r: i64)
    requires
        -2 * UNIT <= dir <= 2 * UNIT,
        0 <= speed <= UNIT,
        1 <= granularity <= 60,
    ensures
        r == spec_step(dir as int, speed as int, granularity as int),
        -MAX_COORD <= r <= MAX_COORD,
{
    let mag = if dir >= 0 {
        dir
    } else {
        -dir
    };
    proof {
        assert(0 <= mag * speed <= 2 * UNIT * UNIT) by (nonlinear_arith)
            requires
                0 <= mag <= 2 * UNIT,
                0 <= speed <= UNIT,
        ;
        assert(0 <= mag * speed * granularity <= 2 * UNIT * UNIT * 60) by (nonlinear_arith)
            requires
                0 <= mag * speed <= 2 * UNIT * UNIT,
                1 <= granularity <= 60,
        ;
        vstd::arithmetic::div_mod::lemma_div_is_ordered(
            mag * speed * granularity,
            2 * (UNIT as int) * (UNIT as int) * 60,
            UNIT as int,
        );
        vstd::arithmetic::div_mod::lemma_div_pos_is_pos(mag * speed * granularity, UNIT as int);
    }
    let scaled = mag * speed * granularity / UNIT;
    if dir >= 0 {
        scaled
    } else {
        -scaled
    }
}

/// The squared distance between two points, widened so it is defined for
/// all world coordinates.
pub open spec fn spec_dist_sq(a: Vec2, b: Vec2) -> int {
    (a.x - b.x) * (a.x - b.x) + (a.y - b.y) * (a.y - b.y)
}

/// Squared distance, for bounded coordinates.
fn dist_sq(a: Vec2, b: Vec2) -> (r: i64)
    requires
        a.wf(),
        b.wf(),
    ensures
        r == spec_dist_sq(a, b),
        r >= 0,
{
    let dx = a.x - b.x;
    let dy = a.y - b.y;
    proof {
        assert(0 <= dx * dx <= 4 * MAX_COORD * MAX_COORD) by (nonlinear_arith)
            requires -2 * MAX_COORD <= dx <= 2 * MAX_COORD;
        assert(0 <= dy * dy <= 4 * MAX_COORD * MAX_COORD) by (nonlinear_arith)
            requires -2 * MAX_COORD <= dy <= 2 * MAX_COORD;
    }
    dx * dx + dy * dy
}

/// The pickup system's decision: which item, if any, a pickup press
/// reaches.
pub struct PickupItems;

impl PickupItems {
    /// Pick the closest item within reach of the player: the first item
    /// at minimal squared distance, and only if that distance is under
    /// the interaction bound.  Items placed outside the world's bounds
    /// are not reachable.  The request carries the item's server id.
    pub fn run(&self, player_at: Vec2, items: &Vec<(u32, Vec2)>) -> (r: Option<PickupRequest>)
        requires
            player_at.wf(),
        ensures
            match r {
                Some(req) => exists|i: int|
                    0 <= i < items@.len() && (#[trigger] items@[i]).0 == req.id && items@[i].1.wf()
                        && spec_dist_sq(items@[i].1, player_at)
                        < MAX_INTERACTION_DISTANCE_SQUARED && forall|j: int|
                        0 <= j < items@.len() && (#[trigger] items@[j]).1.wf() ==> spec_dist_sq(
                            items@[j].1,
                            player_at,
                        ) >= spec_dist_sq(items@[i].1, player_at),
                None => forall|j: int|
                    0 <= j < items@.len() && (#[trigger] items@[j]).1.wf() ==> spec_dist_sq(
                        items@[j].1,
                        player_at,
                    ) >= MAX_INTERACTION_DISTANCE_SQUARED,
            },
    {
        let mut best: Option<(u32, i64)> = None;
        let ghost mut best_i: int = 0;
        let mut i: usize = 0;
        while i < items.len()
            invariant
                i <= items@.len(),
                player_at.wf(),
                match best {
                    Some(b) => 0 <= best_i < i && items@[best_i].0 == b.0 && items@[best_i].1.wf()
                        && b.1 == spec_dist_sq(items@[best_i].1, player_at) && b.1
                        < MAX_INTERACTION_DISTANCE_SQUARED && forall|j: int|
                        0 <= j < i && (#[trigger] items@[j]).1.wf() ==> spec_dist_sq(
                            items@[j].1,
                            player_at,
                        ) >= b.1,
                    None => forall|j: int|
                        0 <= j < i && (#[trigger] items@[j]).1.wf() ==> spec_dist_sq(
                            items@[j].1,
                            player_at,
                        ) >= MAX_INTERACTION_DISTANCE_SQUARED,
                },
            decreases items@.len() - i,
        {
            let (id, at) = items[i];
            let in_world = -MAX_COORD <= at.x && at.x <= MAX_COORD && -MAX_COORD <= at.y && at.y
                <= MAX_COORD;
            if in_world {
                let d = dist_sq(at, player_at);
                let better = match best {
                    Some(b) => d < b.1,
                    None => d < MAX_INTERACTION_DISTANCE_SQUARED,
                };
                if better {
                    best = Some((id, d));
                    proof {
                        best_i = i as int;
                    }
                }
            }
            i = i + 1;
        }
        match best {
            Some(b) => Some(PickupRequest { id: b.0 }),
            None => None,
        }
    }
}

} // verus!
