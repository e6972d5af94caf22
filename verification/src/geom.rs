//! Plane geometry over fixed-point scalars.

use vstd::prelude::*;
use crate::fx::{in_fx, isqrt, lemma_mul_bound, lemma_sqrt_floor_le, sqrt_floor};

verus! {

/// A point or displacement of the arena plane, in fixed-point coordinates.
#[derive(Clone, Copy, Debug, PartialEq, Eq, Structural)]
pub struct Vec2 {
    pub x: i64,
    pub y: i64,
}

impl Vec2 {
    /// Both coordinates lie in the stored fixed-point range.
    pub open spec fn wf(self) -> bool {
        in_fx(self.x as int) && in_fx(self.y as int)
    }

    pub fn new(x: i64, y: i64) -> (r: Vec2)
        ensures
            r.x == x,
            r.y == y,
    {
        Vec2 { x, y }
    }
}

/// Squared Euclidean distance between two points, exactly.
pub open spec fn dist_sq_s(a: Vec2, b: Vec2) -> int {
    (b.x - a.x) * (b.x - a.x) + (b.y - a.y) * (b.y - a.y)
}

/// Euclidean distance between two points, rounded down to fixed point.
pub open spec fn dist_s(a: Vec2, b: Vec2) -> int {
    sqrt_floor(dist_sq_s(a, b) as nat) as int
}

/// Squared Euclidean distance; exact, no rounding.
pub fn dist_sq(a: Vec2, b: Vec2) -> (r: u128)
    requires
        a.wf(),
        b.wf(),
    ensures
        r as int == dist_sq_s(a, b),
        r <= 32_000_000_000_000_000_000,
{
    let dx: i64 = b.x - a.x;
    let dy: i64 = b.y - a.y;
    proof {
        lemma_mul_bound(dx as int, dx as int, 4_000_000_000, 4_000_000_000);
        lemma_mul_bound(dy as int, dy as int, 4_000_000_000, 4_000_000_000);
        assert(dx as int * dx as int >= 0) by (nonlinear_arith);
        assert(dy as int * dy as int >= 0) by (nonlinear_arith);
    }
    let sx: i128 = (dx as i128) * (dx as i128);
    let sy: i128 = (dy as i128) * (dy as i128);
    (sx + sy) as u128
}

/// Euclidean distance, rounded down.
pub fn dist_fx(a: Vec2, b: Vec2) -> (r: i64)
    requires
        a.wf(),
        b.wf(),
    ensures
        r == dist_s(a, b),
        0 <= r <= 6_000_000_000,
{
    let sq: u128 = dist_sq(a, b);
    let s: u64 = isqrt(sq);
    proof {
        if s > 6_000_000_000 {
            assert(6_000_000_000i64 * 6_000_000_000i64 <= (s as int) * (s as int))
                by (nonlinear_arith)
                requires 6_000_000_000 <= s as int;
        }
    }
    s as i64
}

/// The distance dominates each coordinate gap: two points cannot be farther
/// apart on one axis than they are in the plane.
pub proof fn lemma_dist_dominates_axis(a: Vec2, b: Vec2)
    requires
        a.wf(),
        b.wf(),
    ensures
        -dist_s(a, b) <= b.x - a.x <= dist_s(a, b),
        -dist_s(a, b) <= b.y - a.y <= dist_s(a, b),
{
    let dx = b.x - a.x;
    let dy = b.y - a.y;
    let ax: int = if dx >= 0 { dx } else { -dx };
    let ay: int = if dy >= 0 { dy } else { -dy };
    assert(ax * ax == dx * dx && dx * dx >= 0) by (nonlinear_arith)
        requires ax == dx || ax == -dx;
    assert(ay * ay == dy * dy && dy * dy >= 0) by (nonlinear_arith)
        requires ay == dy || ay == -dy;
    lemma_sqrt_floor_le(dist_sq_s(a, b) as nat, ax as nat);
    lemma_sqrt_floor_le(dist_sq_s(a, b) as nat, ay as nat);
}

} // verus!
