//! Fixed-point planar geometry.
//!
//! World coordinates are carried as signed fixed-point integers with
//! [`UNIT`] sub-units per world unit, so that every position computation —
//! in particular the reconciliation blend — is exact integer arithmetic.

use vstd::prelude::*;

verus! {

/// Sub-units per world unit of distance.
pub const UNIT: i64 = 1000;

/// Largest coordinate magnitude the world admits, in sub-units.
pub const MAX_COORD: i64 = 1_000_000_000;

/// Numerator of the reconciliation blend fraction.
pub const BLEND_NUM: i64 = 3;

/// Denominator of the reconciliation blend fraction.
pub const BLEND_DEN: i64 = 100;

/// A coordinate lies within the world's bounds.
pub open spec fn coord_ok(c: int) -> bool {
    -MAX_COORD <= c <= MAX_COORD
}

/// A planar vector in fixed-point sub-units.
#[derive(Clone, Copy, PartialEq, Eq, Structural, Debug)]
pub struct Vec2 {
    pub x: i64,
    pub y: i64,
}

impl Vec2 {
    /// Both components lie within the world's bounds.
    pub open spec fn wf(self) -> bool {
        coord_ok(self.x as int) && coord_ok(self.y as int)
    }

    pub fn new(x: i64, y: i64) -> (r: Vec2)
        ensures
            r.x == x,
            r.y == y,
    {
        Vec2 { x, y }
    }

    pub fn zero() -> (r: Vec2)
        ensures
            r.x == 0,
            r.y == 0,
    {
        Vec2 { x: 0, y: 0 }
    }

    pub fn is_zero(&self) -> (r: bool)
        ensures
            r == (self.x == 0 && self.y == 0),
    {
        self.x == 0 && self.y == 0
    }
}

/// Absolute difference between two coordinates.
pub open spec fn dist1(l: int, a: int) -> int {
    if a >= l {
        a - l
    } else {
        l - a
    }
}

/// Taxicab distance between two vectors.
pub open spec fn dist2(l: Vec2, a: Vec2) -> int {
    dist1(l.x as int, a.x as int) + dist1(l.y as int, a.y as int)
}

/// One reconciliation step on a single axis: move the local coordinate `l`
/// toward the authoritative one `a` by `BLEND_NUM / BLEND_DEN` of the gap,
/// and by at least one sub-unit whenever any gap remains.
pub open spec fn blend1(l: int, a: int) -> int {
    if a == l {
        l
    } else if a > l {
        let s = (a - l) * (BLEND_NUM as int) / (BLEND_DEN as int);
        if s == 0 {
            l + 1
        } else {
            l + s
        }
    } else {
        let s = (l - a) * (BLEND_NUM as int) / (BLEND_DEN as int);
        if s == 0 {
            l - 1
        } else {
            l - s
        }
    }
}

/// The coordinate after `n` blend steps toward `a`.
pub open spec fn blend1_iter(l: int, a: int, n: nat) -> int
    decreases n,
{
    if n == 0 {
        l
    } else {
        blend1(blend1_iter(l, a, (n - 1) as nat), a)
    }
}

/// For a non-negative gap the proportional step never overshoots it.
proof fn lemma_scaled_step_le(d: int)
    requires
        d >= 0,
    ensures
        0 <= d * (BLEND_NUM as int) / (BLEND_DEN as int) <= d,
{
    assert(d * (BLEND_NUM as int) <= d * (BLEND_DEN as int)) by (nonlinear_arith)
        requires d >= 0;
    assert(d * (BLEND_NUM as int) >= 0) by (nonlinear_arith)
        requires d >= 0;
    vstd::arithmetic::div_mod::lemma_div_is_ordered(d * (BLEND_NUM as int), d * (BLEND_DEN as int), BLEND_DEN as int);
    vstd::arithmetic::div_mod::lemma_div_by_multiple(d, BLEND_DEN as int);
    vstd::arithmetic::div_mod::lemma_div_pos_is_pos(d * (BLEND_NUM as int), BLEND_DEN as int);
}

/// One blend step stays on the closed segment between `l` and `a`, and while
/// a gap remains it strictly shrinks the gap.
pub proof fn lemma_blend1_progress(l: int, a: int)
    ensures
        l <= a ==> l <= blend1(l, a) <= a,
        a <= l ==> a <= blend1(l, a) <= l,
        dist1(blend1(l, a), a) <= dist1(l, a),
        l != a ==> dist1(blend1(l, a), a) < dist1(l, a),
{
    if a > l {
        lemma_scaled_step_le(a - l);
    } else if a < l {
        lemma_scaled_step_le(l - a);
    }
}

/// Repeated blending reaches the authoritative coordinate after at most
/// `dist1(l, a)` steps.
pub proof fn lemma_blend1_converges(l: int, a: int, n: nat)
    requires
        n >= dist1(l, a),
    ensures
        blend1_iter(l, a, n) == a,
    decreases n,
{
    if n == 0 {
    } else {
        let prev = blend1_iter(l, a, (n - 1) as nat);
        if (n - 1) as nat >= dist1(l, a) {
            lemma_blend1_converges(l, a, (n - 1) as nat);
        } else {
            lemma_blend1_iter_progress(l, a, (n - 1) as nat);
            lemma_blend1_progress(prev, a);
        }
    }
}

/// After `n` steps the remaining gap is at most `dist1(l, a) - n` (and never
/// negative): the approach is monotone, shrinking by at least one sub-unit
/// per step until it closes.
pub proof fn lemma_blend1_iter_progress(l: int, a: int, n: nat)
    ensures
        dist1(blend1_iter(l, a, n), a) <= dist1(l, a),
        dist1(blend1_iter(l, a, n), a) + n <= dist1(l, a) || blend1_iter(l, a, n) == a,
    decreases n,
{
    if n == 0 {
    } else {
        let prev = blend1_iter(l, a, (n - 1) as nat);
        lemma_blend1_iter_progress(l, a, (n - 1) as nat);
        lemma_blend1_progress(prev, a);
    }
}

/// Executable single-axis blend step.  The arithmetic is widened so the
/// step is defined for every pair of coordinates.
pub fn blend_coord(l: i64, a: i64) -> (r: i64)
    ensures
        r == blend1(l as int, a as int),
{
    proof {
        lemma_blend1_progress(l as int, a as int);
    }
    if a == l {
        l
    } else if a > l {
        let s = ((a as i128) - (l as i128)) * (BLEND_NUM as i128) / (BLEND_DEN as i128);
        if s == 0 {
            l + 1
        } else {
            (l as i128 + s) as i64
        }
    } else {
        let s = ((l as i128) - (a as i128)) * (BLEND_NUM as i128) / (BLEND_DEN as i128);
        if s == 0 {
            l - 1
        } else {
            (l as i128 - s) as i64
        }
    }
}

/// Both axes of one blend step.
pub open spec fn blend2(l: Vec2, a: Vec2) -> Vec2 {
    Vec2 { x: blend1(l.x as int, a.x as int) as i64, y: blend1(l.y as int, a.y as int) as i64 }
}

/// Executable planar blend step.
pub fn blend_vec(l: Vec2, a: Vec2) -> (r: Vec2)
    ensures
        r == blend2(l, a),
        dist2(r, a) <= dist2(l, a),
        l != a ==> dist2(r, a) < dist2(l, a),
{
    proof {
        lemma_blend1_progress(l.x as int, a.x as int);
        lemma_blend1_progress(l.y as int, a.y as int);
    }
    Vec2 { x: blend_coord(l.x, a.x), y: blend_coord(l.y, a.y) }
}

/// Clamp a coordinate into the world's bounds.
pub open spec fn clamp_coord(c: int) -> int {
    if c < -MAX_COORD {
        -MAX_COORD as int
    } else if c > MAX_COORD {
        MAX_COORD as int
    } else {
        c
    }
}

/// Add a bounded step to a coordinate, saturating at the world's bounds.
pub fn clamped_add(c: i64, step: i64) -> (r: i64)
    requires
        coord_ok(c as int),
        -MAX_COORD <= step <= MAX_COORD,
    ensures
        r == clamp_coord(c as int + step as int),
        coord_ok(r as int),
{
    let s = c + step;
    if s < -MAX_COORD {
        -MAX_COORD
    } else if s > MAX_COORD {
        MAX_COORD
    } else {
        s
    }
}

/// The vector after `n` planar blend steps toward `a`.
pub open spec fn blend2_iter(l: Vec2, a: Vec2, n: nat) -> Vec2
    decreases n,
{
    if n == 0 {
        l
    } else {
        blend2(blend2_iter(l, a, (n - 1) as nat), a)
    }
}

/// Each axis of the iterated planar blend is the iterated single-axis
/// blend.
pub proof fn lemma_blend2_iter_axes(l: Vec2, a: Vec2, n: nat)
    ensures
        blend2_iter(l, a, n).x as int == blend1_iter(l.x as int, a.x as int, n),
        blend2_iter(l, a, n).y as int == blend1_iter(l.y as int, a.y as int, n),
    decreases n,
{
    if n == 0 {
    } else {
        let prev = blend2_iter(l, a, (n - 1) as nat);
        lemma_blend2_iter_axes(l, a, (n - 1) as nat);
        lemma_blend1_progress(prev.x as int, a.x as int);
        lemma_blend1_progress(prev.y as int, a.y as int);
    }
}

/// Repeated planar blending converges: the local vector reaches the
/// authoritative one after at most its taxicab distance in steps.
pub proof fn lemma_blend2_converges(l: Vec2, a: Vec2, n: nat)
    requires
        n >= dist2(l, a),
    ensures
        blend2_iter(l, a, n) == a,
{
    lemma_blend2_iter_axes(l, a, n);
    lemma_blend1_converges(l.x as int, a.x as int, n);
    lemma_blend1_converges(l.y as int, a.y as int, n);
}

/// Each planar blend step is monotone in taxicab distance, strictly so
/// while any gap remains.
pub proof fn lemma_blend2_progress(l: Vec2, a: Vec2)
    ensures
        dist2(blend2(l, a), a) <= dist2(l, a),
        l != a ==> dist2(blend2(l, a), a) < dist2(l, a),
{
    lemma_blend1_progress(l.x as int, a.x as int);
    lemma_blend1_progress(l.y as int, a.y as int);
}

} // verus!
