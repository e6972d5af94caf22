//! Pairwise circle-circle collision resolution: detection, the
//! area-transfer/retirement rule, positional de-penetration and the
//! impulse-based elastic response.

use vstd::prelude::*;
use crate::fx::{
    fx_add, fx_add_s, fx_clamp, fx_clamp_exec, fx_frac, fx_frac_s, fx_mul, fx_mul_s,
    fx_mul_wide, fx_sqrt, fx_sqrt_s, fx_sub, fx_sub_s, div_trunc, lemma_mul_bound,
    lemma_sqrt_floor_le, tdiv, FX_MAX,
};
use crate::geom::{dist_s, dist_sq, dist_sq_s, dist_fx, lemma_dist_dominates_axis, Vec2};
use crate::particle::{bucket_of, Particle, BUCKET_COUNT, RADIUS_MIN};
use vstd::arithmetic::div_mod::{
    lemma_div_is_ordered, lemma_div_multiples_vanish, lemma_div_pos_is_pos,
};

verus! {

/// Whether two active particles overlap resolvably: strictly closer than the
/// sum of their radii, but not exactly concentric (which would leave no
/// collision normal to resolve along).
pub open spec fn colliding_s(a: Particle, b: Particle) -> bool {
    &&& a.active
    &&& b.active
    &&& dist_sq_s(a.position, b.position) != 0
    &&& dist_sq_s(a.position, b.position) < (a.radius + b.radius) * (a.radius + b.radius)
}

/// The area (squared radius, in fixed point) transferred between two
/// colliding particles: the square of half the smaller of the two buckets'
/// active counts.
pub open spec fn transfer_amount_s(counts: Seq<u64>, ka: int, kb: int) -> int {
    let ca = counts[ka] as int;
    let cb = counts[kb] as int;
    let cmin = if ca <= cb {
        ca
    } else {
        cb
    };
    fx_mul_s(fx_clamp(cmin * 500), fx_clamp(cmin * 500))
}

/// The two fixed-point areas after the transfer: the larger-radius particle
/// gains, the smaller loses; on a radius tie the second particle gains.
pub open spec fn new_areas_s(a: Particle, b: Particle, t: int) -> (int, int) {
    let area_a = fx_mul_s(a.radius as int, a.radius as int);
    let area_b = fx_mul_s(b.radius as int, b.radius as int);
    if a.radius > b.radius {
        (fx_add_s(area_a, t), fx_sub_s(area_b, t))
    } else {
        (fx_sub_s(area_a, t), fx_add_s(area_b, t))
    }
}

/// Radius recovered from a fixed-point area; a non-positive area (the
/// transfer drained the particle) leaves a zero radius, which retires it.
pub open spec fn radius_from_area_s(area: int) -> int {
    if area <= 0 {
        0
    } else {
        fx_sqrt_s(area)
    }
}

/// What resolving the unordered pair `(a, b)` returns: the two updated
/// particles and whether a collision was recorded. Mirrors, stage by stage:
/// detection, the tenfold-disparity retirement, the area transfer with the
/// minimum-radius retirement, symmetric positional separation along the unit
/// normal, and the restitution-`4/5` impulse (skipped when the pair already
/// separates).
pub open spec fn resolve_pair_s(a: Particle, b: Particle, counts: Seq<u64>) -> (
    Particle,
    Particle,
    bool,
) {
    if !colliding_s(a, b) {
        (a, b, false)
    } else if a.radius >= b.radius * 10 {
        (a, retired_s(b), true)
    } else if b.radius >= a.radius * 10 {
        (retired_s(a), b, true)
    } else {
        let t = transfer_amount_s(counts, bucket_of(a.hue as int), bucket_of(b.hue as int));
        let (area_a, area_b) = new_areas_s(a, b, t);
        let ra = radius_from_area_s(area_a);
        let rb = radius_from_area_s(area_b);
        let dist = dist_s(a.position, b.position);
        let nx = tdiv((b.position.x - a.position.x) * 1000, dist);
        let ny = tdiv((b.position.y - a.position.y) * 1000, dist);
        let half = tdiv(ra + rb - dist, 2);
        let sx = fx_mul_s(half, nx);
        let sy = fx_mul_s(half, ny);
        let pos_a = Vec2 {
            x: fx_sub_s(a.position.x as int, sx) as i64,
            y: fx_sub_s(a.position.y as int, sy) as i64,
        };
        let pos_b = Vec2 {
            x: fx_add_s(b.position.x as int, sx) as i64,
            y: fx_add_s(b.position.y as int, sy) as i64,
        };
        let vn = fx_add_s(
            fx_mul_s(b.velocity.x - a.velocity.x, nx),
            fx_mul_s(b.velocity.y - a.velocity.y, ny),
        );
        let (vel_a, vel_b) = if vn > 0 {
            (a.velocity, b.velocity)
        } else {
            let j = fx_frac_s(-vn, 9, 10);
            let jx = fx_mul_s(j, nx);
            let jy = fx_mul_s(j, ny);
            (
                Vec2 {
                    x: fx_sub_s(a.velocity.x as int, jx) as i64,
                    y: fx_sub_s(a.velocity.y as int, jy) as i64,
                },
                Vec2 {
                    x: fx_add_s(b.velocity.x as int, jx) as i64,
                    y: fx_add_s(b.velocity.y as int, jy) as i64,
                },
            )
        };
        (
            Particle {
                position: pos_a,
                velocity: vel_a,
                radius: ra as i64,
                hue: a.hue,
                active: ra >= RADIUS_MIN,
            },
            Particle {
                position: pos_b,
                velocity: vel_b,
                radius: rb as i64,
                hue: b.hue,
                active: rb >= RADIUS_MIN,
            },
            true,
        )
    }
}

/// The square of a non-negative fixed-point scalar lands in `[0, FX_MAX]`.
pub proof fn lemma_fx_square_bounds(r: int)
    requires
        0 <= r,
    ensures
        0 <= fx_mul_s(r, r) <= FX_MAX,
{
    assert(r * r >= 0) by (nonlinear_arith);
    lemma_div_pos_is_pos(r * r, 1000);
}

/// The transferred area is itself a fixed-point area: non-negative and
/// within range.
pub proof fn lemma_transfer_amount_bounds(counts: Seq<u64>, ka: int, kb: int)
    requires
        0 <= ka < counts.len(),
        0 <= kb < counts.len(),
    ensures
        0 <= transfer_amount_s(counts, ka, kb) <= FX_MAX,
{
    let ca = counts[ka] as int;
    let cb = counts[kb] as int;
    let cmin = if ca <= cb {
        ca
    } else {
        cb
    };
    lemma_fx_square_bounds(fx_clamp(cmin * 500));
}

/// Area conservation: the non-retirement transfer branch moves area from one
/// particle of the pair to the other without creating or destroying any, as
/// long as the gaining side does not saturate the fixed-point range. The
/// post-collision radii of `resolve_pair_s` are exactly the floor square
/// roots of the two conserved areas.
pub proof fn lemma_area_transfer_conserves(a: Particle, b: Particle, t: int)
    requires
        a.wf(),
        b.wf(),
        0 <= t <= FX_MAX,
        (if a.radius > b.radius {
            fx_mul_s(a.radius as int, a.radius as int)
        } else {
            fx_mul_s(b.radius as int, b.radius as int)
        }) + t <= FX_MAX,
    ensures
        new_areas_s(a, b, t).0 + new_areas_s(a, b, t).1 == fx_mul_s(
            a.radius as int,
            a.radius as int,
        ) + fx_mul_s(b.radius as int, b.radius as int),
{
    lemma_fx_square_bounds(a.radius as int);
    lemma_fx_square_bounds(b.radius as int);
}

/// A radius recovered from an in-range area is small: at most 1500 arena
/// units in fixed point.
pub proof fn lemma_radius_range(area: int)
    requires
        area <= FX_MAX,
    ensures
        0 <= radius_from_area_s(area) <= 1_500_000,
{
    if area > 0 {
        let s = crate::fx::sqrt_floor((area * 1000) as nat);
        crate::fx::lemma_sqrt_floor_bounds((area * 1000) as nat);
        if s > 1_500_000 {
            assert(1_500_000 * 1_500_000 <= (s as int) * (s as int)) by (nonlinear_arith)
                requires 1_500_000 <= s as int;
        }
    }
}

/// No undersized survivor: a pair that goes through the area transfer comes
/// out retired exactly when its recomputed radius falls below the minimum
/// (a radius the transfer would drive non-positive counts as zero, so it is
/// retired too), and no radius is ever left negative.
pub proof fn lemma_no_undersized_survivor(a: Particle, b: Particle, counts: Seq<u64>)
    requires
        a.wf(),
        b.wf(),
        counts.len() == BUCKET_COUNT,
        colliding_s(a, b),
        a.radius < b.radius * 10,
        b.radius < a.radius * 10,
    ensures
        ({
            let (na, nb, hit) = resolve_pair_s(a, b, counts);
            &&& hit
            &&& na.active <==> na.radius >= RADIUS_MIN
            &&& nb.active <==> nb.radius >= RADIUS_MIN
            &&& na.radius >= 0
            &&& nb.radius >= 0
        }),
{
    let t = transfer_amount_s(counts, bucket_of(a.hue as int), bucket_of(b.hue as int));
    let (area_a, area_b) = new_areas_s(a, b, t);
    lemma_radius_range(area_a);
    lemma_radius_range(area_b);
    lemma_transfer_amount_bounds(counts, bucket_of(a.hue as int), bucket_of(b.hue as int));
    lemma_fx_square_bounds(a.radius as int);
    lemma_fx_square_bounds(b.radius as int);
}

/// No persistent deep penetration, in general: an overlapping pair that
/// goes through the area transfer ends the resolution pass at least
/// touching, up to one part in five hundred of the penetration it had to
/// correct and a few fixed-point steps (the rounding of the unit normal and
/// of the halved penetration).
pub proof fn lemma_pair_separation(a: Particle, b: Particle, counts: Seq<u64>)
    requires
        a.wf(),
        b.wf(),
        counts.len() == BUCKET_COUNT,
        colliding_s(a, b),
        a.radius < b.radius * 10,
        b.radius < a.radius * 10,
        -1_000_000_000 <= a.position.x <= 1_000_000_000,
        -1_000_000_000 <= a.position.y <= 1_000_000_000,
        -1_000_000_000 <= b.position.x <= 1_000_000_000,
        -1_000_000_000 <= b.position.y <= 1_000_000_000,
        a.radius + b.radius <= 1_000_000_000,
    ensures
        ({
            let (na, nb, hit) = resolve_pair_s(a, b, counts);
            let d0 = dist_s(a.position, b.position);
            let gap = if na.radius + nb.radius >= d0 {
                na.radius + nb.radius - d0
            } else {
                d0 - (na.radius + nb.radius)
            };
            dist_s(na.position, nb.position) >= na.radius + nb.radius - tdiv(gap, 500) - 6
        }),
{
    let dx = b.position.x - a.position.x;
    let dy = b.position.y - a.position.y;
    let d2 = dist_sq_s(a.position, b.position);
    let dist = dist_s(a.position, b.position);
    assert(dx * dx >= 0 && dy * dy >= 0) by (nonlinear_arith);
    crate::fx::lemma_sqrt_floor_bounds(d2 as nat);
    lemma_sqrt_floor_le(d2 as nat, 1);
    assert(dist >= 1);
    lemma_dist_dominates_axis(a.position, b.position);
    let adx: int = if dx >= 0 { dx } else { -dx };
    let ady: int = if dy >= 0 { dy } else { -dy };
    assert(0 <= adx <= dist && 0 <= ady <= dist);

    // The particles overlap, so the distance is under the radius sum.
    let rsum = a.radius + b.radius;
    assert(dist < rsum) by (nonlinear_arith)
        requires
            (dist as int) * (dist as int) <= d2,
            d2 < rsum * rsum,
            dist >= 0,
            rsum > 0,
    ;
    assert(dist <= 999_999_999);

    // Post-transfer radii.
    let t = transfer_amount_s(counts, bucket_of(a.hue as int), bucket_of(b.hue as int));
    lemma_transfer_amount_bounds(counts, bucket_of(a.hue as int), bucket_of(b.hue as int));
    let (area_a, area_b) = new_areas_s(a, b, t);
    let ra = radius_from_area_s(area_a);
    let rb = radius_from_area_s(area_b);
    lemma_fx_square_bounds(a.radius as int);
    lemma_fx_square_bounds(b.radius as int);
    lemma_radius_range(area_a);
    lemma_radius_range(area_b);

    // The truncated unit normal.
    let nx = tdiv(dx * 1000, dist);
    let ny = tdiv(dy * 1000, dist);
    lemma_tdiv_magnitude(dx * 1000, dist, 1000);
    lemma_tdiv_magnitude(dy * 1000, dist, 1000);
    crate::fx::lemma_tdiv_mul_range(dx * 1000, dist);
    crate::fx::lemma_tdiv_mul_range(dy * 1000, dist);

    // The halved penetration.
    let pen = ra + rb - dist;
    let pen_mag: int = if pen >= 0 { pen } else { -pen };
    assert(pen_mag <= 1_000_000_000);
    let half = tdiv(pen, 2);
    lemma_tdiv_magnitude(pen, 2, 500_000_000);
    crate::fx::lemma_tdiv_mul_range(pen, 2);

    // The positional shift, unclamped.
    lemma_mul_bound(half, nx, 500_000_000, 1000);
    lemma_mul_bound(half, ny, 500_000_000, 1000);
    lemma_tdiv_magnitude(half * nx, 1000, 500_000_000);
    lemma_tdiv_magnitude(half * ny, 1000, 500_000_000);
    let sx = fx_mul_s(half, nx);
    let sy = fx_mul_s(half, ny);
    assert(sx == tdiv(half * nx, 1000) && sy == tdiv(half * ny, 1000));
    crate::fx::lemma_tdiv_mul_range(half * nx, 1000);
    crate::fx::lemma_tdiv_mul_range(half * ny, 1000);

    // The resolved positions, unclamped.
    let nax = fx_sub_s(a.position.x as int, sx);
    let nay = fx_sub_s(a.position.y as int, sy);
    let nbx = fx_add_s(b.position.x as int, sx);
    let nby = fx_add_s(b.position.y as int, sy);
    assert(nax == a.position.x - sx && nay == a.position.y - sy);
    assert(nbx == b.position.x + sx && nby == b.position.y + sy);
    let ndx = nbx - nax;
    let ndy = nby - nay;
    assert(ndx == dx + 2 * sx && ndy == dy + 2 * sy);

    // The tolerance.
    let eps = tdiv(pen_mag, 500) + 6;
    crate::fx::lemma_tdiv_mul_range(pen_mag, 500);
    assert(1000 * eps >= 2 * pen_mag + 5002);
    let tt = ra + rb - eps;

    let (na, nb, hit) = resolve_pair_s(a, b, counts);
    assert(na.radius == ra && nb.radius == rb);
    assert(na.position.x == nax && na.position.y == nay);
    assert(nb.position.x == nbx && nb.position.y == nby);
    assert(dist_sq_s(na.position, nb.position) == ndx * ndx + ndy * ndy);
    assert(ndx * ndx + ndy * ndy >= 0) by (nonlinear_arith);

    if tt < 0 {
        // The claimed bound is negative; any distance meets it.
        assert(dist_s(na.position, nb.position) >= 0);
        return;
    }

    // Lower and upper bounds, per axis, of the normal-alignment products.
    assert((dist * nx) * dx >= 1000 * (dx * dx) - (dist - 1) * adx) by (nonlinear_arith)
        requires
            1000 * dx - (dist - 1) <= dist * nx <= 1000 * dx + (dist - 1),
            adx == dx || adx == -dx,
            0 <= adx,
            dist >= 1,
    ;
    assert((dist * ny) * dy >= 1000 * (dy * dy) - (dist - 1) * ady) by (nonlinear_arith)
        requires
            1000 * dy - (dist - 1) <= dist * ny <= 1000 * dy + (dist - 1),
            ady == dy || ady == -dy,
            0 <= ady,
            dist >= 1,
    ;
    assert((dist * nx) * dx <= 1000 * (dx * dx) + (dist - 1) * adx) by (nonlinear_arith)
        requires
            1000 * dx - (dist - 1) <= dist * nx <= 1000 * dx + (dist - 1),
            adx == dx || adx == -dx,
            0 <= adx,
            dist >= 1,
    ;
    assert((dist * ny) * dy <= 1000 * (dy * dy) + (dist - 1) * ady) by (nonlinear_arith)
        requires
            1000 * dy - (dist - 1) <= dist * ny <= 1000 * dy + (dist - 1),
            ady == dy || ady == -dy,
            0 <= ady,
            dist >= 1,
    ;
    let distq = (dist * nx) * dx + (dist * ny) * dy;
    assert((dist - 1) * adx + (dist - 1) * ady <= 2 * (dist * dist)) by (nonlinear_arith)
        requires
            0 <= adx <= dist,
            0 <= ady <= dist,
            dist >= 1,
    ;
    assert(distq >= 1000 * d2 - 2 * (dist * dist));
    assert(distq <= 1000 * d2 + 2 * (dist * dist));

    // Lower bound of the shift-alignment products.
    assert((1000 * sx) * dx >= (half * nx) * dx - 999 * adx) by (nonlinear_arith)
        requires
            half * nx - 999 <= 1000 * sx <= half * nx + 999,
            adx == dx || adx == -dx,
            0 <= adx,
    ;
    assert((1000 * sy) * dy >= (half * ny) * dy - 999 * ady) by (nonlinear_arith)
        requires
            half * ny - 999 <= 1000 * sy <= half * ny + 999,
            ady == dy || ady == -dy,
            0 <= ady,
    ;
    let ss = sx * dx + sy * dy;
    assert(1000 * ss == (1000 * sx) * dx + (1000 * sy) * dy) by (nonlinear_arith)
        requires ss == sx * dx + sy * dy;
    let hh = (half * nx) * dx + (half * ny) * dy;
    assert(1000 * ss >= hh - 999 * (adx + ady));
    assert(999 * (adx + ady) <= 1998 * dist);
    assert(1000 * ss >= hh - 1998 * dist);
    assert(dist * ((half * nx) * dx) == half * ((dist * nx) * dx)) by (nonlinear_arith);
    assert(dist * ((half * ny) * dy) == half * ((dist * ny) * dy)) by (nonlinear_arith);
    assert(dist * hh == dist * ((half * nx) * dx) + dist * ((half * ny) * dy))
        by (nonlinear_arith)
        requires hh == (half * nx) * dx + (half * ny) * dy;
    assert(half * distq == half * ((dist * nx) * dx) + half * ((dist * ny) * dy))
        by (nonlinear_arith)
        requires distq == (dist * nx) * dx + (dist * ny) * dy;
    assert(dist * hh == half * distq);
    assert(dist * (1000 * ss) >= dist * (hh - 1998 * dist)) by (nonlinear_arith)
        requires
            1000 * ss >= hh - 1998 * dist,
            dist >= 1,
    ;
    assert(dist * (1000 * ss) >= half * distq - 1998 * (dist * dist)) by (nonlinear_arith)
        requires
            dist * (1000 * ss) >= dist * (hh - 1998 * dist),
            dist * hh == half * distq,
    ;

    // The projection of the resolved gap onto the old one.
    let pp = d2 + 2 * ss;
    assert(1000 * (dist * pp) == 1000 * (dist * d2) + 2 * (dist * (1000 * ss)))
        by (nonlinear_arith)
        requires pp == d2 + 2 * ss;

    if pen >= 0 {
        assert(half >= 0);
        assert(half * distq >= half * (1000 * d2 - 2 * (dist * dist))) by (nonlinear_arith)
            requires
                half >= 0,
                distq >= 1000 * d2 - 2 * (dist * dist),
        ;
        assert(half * (1000 * d2 - 2 * (dist * dist)) == 1000 * (half * d2) - 2 * (half * (dist
            * dist))) by (nonlinear_arith);
        assert(2 * (half * d2) >= (pen - 1) * d2) by (nonlinear_arith)
            requires
                2 * half >= pen - 1,
                d2 >= 0,
        ;
        assert(2 * (half * (dist * dist)) <= pen * (dist * dist)) by (nonlinear_arith)
            requires
                2 * half <= pen,
                dist * dist >= 0,
        ;
        assert(1000 * (dist * pp) >= 1000 * (dist * d2) + 1000 * ((pen - 1) * d2) - 2 * (pen
            * (dist * dist)) - 3996 * (dist * dist)) by (nonlinear_arith)
            requires
                1000 * (dist * pp) == 1000 * (dist * d2) + 2 * (dist * (1000 * ss)),
                dist * (1000 * ss) >= half * distq - 1998 * (dist * dist),
                half * distq >= 1000 * (half * d2) - 2 * (half * (dist * dist)),
                2 * (half * d2) >= (pen - 1) * d2,
                2 * (half * (dist * dist)) <= pen * (dist * dist),
        ;
        assert((1000 * eps) * d2 >= (2 * pen + 5002) * d2) by (nonlinear_arith)
            requires
                1000 * eps >= 2 * pen + 5002,
                d2 >= 0,
        ;
        assert((2 * pen + 5002) * d2 >= 2 * (pen * (dist * dist)) + 1000 * d2 + 3996 * (dist
            * dist)) by (nonlinear_arith)
            requires
                d2 >= dist * dist,
                pen >= 0,
                d2 >= 0,
        ;
        assert(1000 * (dist * pp) >= 1000 * ((dist + pen - eps) * d2)) by (nonlinear_arith)
            requires
                1000 * (dist * pp) >= 1000 * (dist * d2) + 1000 * ((pen - 1) * d2) - 2 * (pen
                    * (dist * dist)) - 3996 * (dist * dist),
                (1000 * eps) * d2 >= 2 * (pen * (dist * dist)) + 1000 * d2 + 3996 * (dist
                    * dist),
        ;
    } else {
        assert(half <= 0);
        assert(half * distq >= half * (1000 * d2 + 2 * (dist * dist))) by (nonlinear_arith)
            requires
                half <= 0,
                distq <= 1000 * d2 + 2 * (dist * dist),
        ;
        assert(half * (1000 * d2 + 2 * (dist * dist)) == 1000 * (half * d2) + 2 * (half * (dist
            * dist))) by (nonlinear_arith);
        assert(2 * (half * d2) >= pen * d2) by (nonlinear_arith)
            requires
                2 * half >= pen,
                d2 >= 0,
        ;
        assert(2 * (half * (dist * dist)) >= pen * (dist * dist)) by (nonlinear_arith)
            requires
                2 * half >= pen,
                dist * dist >= 0,
        ;
        assert(1000 * (dist * pp) >= 1000 * (dist * d2) + 1000 * (pen * d2) + 2 * (pen * (dist
            * dist)) - 3996 * (dist * dist)) by (nonlinear_arith)
            requires
                1000 * (dist * pp) == 1000 * (dist * d2) + 2 * (dist * (1000 * ss)),
                dist * (1000 * ss) >= half * distq - 1998 * (dist * dist),
                half * distq >= 1000 * (half * d2) + 2 * (half * (dist * dist)),
                2 * (half * d2) >= pen * d2,
                2 * (half * (dist * dist)) >= pen * (dist * dist),
        ;
        assert((1000 * eps) * d2 >= (2 * pen_mag + 5002) * d2) by (nonlinear_arith)
            requires
                1000 * eps >= 2 * pen_mag + 5002,
                d2 >= 0,
        ;
        assert((2 * pen_mag + 5002) * d2 >= -(2 * (pen * (dist * dist))) + 3996 * (dist * dist))
            by (nonlinear_arith)
            requires
                d2 >= dist * dist,
                pen_mag == -pen,
                pen <= 0,
                d2 >= 0,
        ;
        assert(1000 * (dist * pp) >= 1000 * ((dist + pen - eps) * d2)) by (nonlinear_arith)
            requires
                1000 * (dist * pp) >= 1000 * (dist * d2) + 1000 * (pen * d2) + 2 * (pen * (dist
                    * dist)) - 3996 * (dist * dist),
                (1000 * eps) * d2 >= -(2 * (pen * (dist * dist))) + 3996 * (dist * dist),
        ;
    }
    assert(dist * pp >= (dist + pen - eps) * d2) by (nonlinear_arith)
        requires
            1000 * (dist * pp) >= 1000 * ((dist + pen - eps) * d2),
    ;
    assert(tt == dist + pen - eps);

    // From the projection bound to the new distance.
    assert(tt * d2 >= 0) by (nonlinear_arith)
        requires
            tt >= 0,
            d2 >= 0,
    ;
    assert(dist * pp >= tt * d2) by (nonlinear_arith)
        requires
            dist * pp >= (dist + pen - eps) * d2,
            tt == dist + pen - eps,
    ;
    assert(pp >= 0) by (nonlinear_arith)
        requires
            dist * pp >= tt * d2,
            tt * d2 >= 0,
            dist >= 1,
    ;
    assert(ndx * dx + ndy * dy == pp) by (nonlinear_arith)
        requires
            ndx == dx + 2 * sx,
            ndy == dy + 2 * sy,
            ss == sx * dx + sy * dy,
            d2 == dx * dx + dy * dy,
            pp == d2 + 2 * ss,
    ;
    // Cauchy-Schwarz in the plane, through the two-dimensional Lagrange
    // identity: the cross term accounts for the whole gap.
    let p1 = ndx * dx;
    let p2 = ndy * dy;
    let q1 = ndx * dy;
    let q2 = ndy * dx;
    let cross = q1 - q2;
    assert(p1 * p1 == (ndx * ndx) * (dx * dx)) by (nonlinear_arith)
        requires p1 == ndx * dx;
    assert(p2 * p2 == (ndy * ndy) * (dy * dy)) by (nonlinear_arith)
        requires p2 == ndy * dy;
    assert(q1 * q1 == (ndx * ndx) * (dy * dy)) by (nonlinear_arith)
        requires q1 == ndx * dy;
    assert(q2 * q2 == (ndy * ndy) * (dx * dx)) by (nonlinear_arith)
        requires q2 == ndy * dx;
    assert(p1 * p2 == q1 * q2) by (nonlinear_arith)
        requires
            p1 == ndx * dx,
            p2 == ndy * dy,
            q1 == ndx * dy,
            q2 == ndy * dx,
    ;
    assert((p1 + p2) * (p1 + p2) + (q1 - q2) * (q1 - q2) == p1 * p1 + p2 * p2 + q1 * q1 + q2
        * q2 + 2 * (p1 * p2) - 2 * (q1 * q2)) by (nonlinear_arith);
    assert((ndx * ndx) * (dx * dx) + (ndx * ndx) * (dy * dy) + (ndy * ndy) * (dx * dx) + (ndy
        * ndy) * (dy * dy) == (ndx * ndx + ndy * ndy) * (dx * dx + dy * dy)) by (nonlinear_arith);
    assert(pp == p1 + p2);
    assert(pp * pp + cross * cross == (ndx * ndx + ndy * ndy) * d2) by (nonlinear_arith)
        requires
            pp == p1 + p2,
            cross == q1 - q2,
            (p1 + p2) * (p1 + p2) + (q1 - q2) * (q1 - q2) == p1 * p1 + p2 * p2 + q1 * q1 + q2
                * q2 + 2 * (p1 * p2) - 2 * (q1 * q2),
            p1 * p1 == (ndx * ndx) * (dx * dx),
            p2 * p2 == (ndy * ndy) * (dy * dy),
            q1 * q1 == (ndx * ndx) * (dy * dy),
            q2 * q2 == (ndy * ndy) * (dx * dx),
            p1 * p2 == q1 * q2,
            (ndx * ndx) * (dx * dx) + (ndx * ndx) * (dy * dy) + (ndy * ndy) * (dx * dx) + (ndy
                * ndy) * (dy * dy) == (ndx * ndx + ndy * ndy) * (dx * dx + dy * dy),
            d2 == dx * dx + dy * dy,
    ;
    assert(cross * cross >= 0) by (nonlinear_arith);
    assert(pp * pp <= (ndx * ndx + ndy * ndy) * d2);
    assert((dist * pp) * (dist * pp) >= (tt * d2) * (tt * d2)) by (nonlinear_arith)
        requires
            dist * pp >= tt * d2,
            tt * d2 >= 0,
    ;
    assert(ndx * ndx + ndy * ndy >= tt * tt) by (nonlinear_arith)
        requires
            pp * pp <= (ndx * ndx + ndy * ndy) * d2,
            (dist * pp) * (dist * pp) >= (tt * d2) * (tt * d2),
            d2 >= dist * dist,
            dist >= 1,
            d2 >= 1,
            tt >= 0,
            pp >= 0,
    ;
    lemma_sqrt_floor_le((ndx * ndx + ndy * ndy) as nat, tt as nat);
    assert(dist_s(na.position, nb.position) >= tt);
}

/// No persistent deep penetration, shown along an exact collision normal:
/// an overlapping, horizontally aligned pair that goes through the area
/// transfer ends the resolution pass at least touching, to within one
/// fixed-point step of the sum of its post-transfer radii.
pub proof fn lemma_aligned_pair_separates(a: Particle, b: Particle, counts: Seq<u64>)
    requires
        a.wf(),
        b.wf(),
        counts.len() == BUCKET_COUNT,
        a.position.y == b.position.y,
        a.position.x < b.position.x,
        colliding_s(a, b),
        a.radius < b.radius * 10,
        b.radius < a.radius * 10,
        -1_000_000_000 <= a.position.x,
        b.position.x <= 1_000_000_000,
    ensures
        ({
            let (na, nb, hit) = resolve_pair_s(a, b, counts);
            &&& na.position.y == nb.position.y
            &&& nb.position.x - na.position.x >= na.radius + nb.radius - 1
        }),
{
    let dx = b.position.x - a.position.x;
    let d2 = dist_sq_s(a.position, b.position);
    assert(d2 == dx * dx);
    assert(dx * dx < (dx + 1) * (dx + 1)) by (nonlinear_arith)
        requires dx > 0;
    assert(dx * dx >= 0) by (nonlinear_arith);
    crate::fx::lemma_sqrt_floor_unique(d2 as nat, dx as nat);
    let dist = dist_s(a.position, b.position);
    assert(dist == dx);

    // The unit normal is exact: (1000, 0).
    lemma_div_multiples_vanish(1000, dx);
    assert(dx * 1000 == dx * 1000) by (nonlinear_arith);
    let nx = tdiv(dx * 1000, dist);
    assert(dx * 1000 == dist * 1000);
    assert(nx == 1000);
    lemma_div_of0_int(dist);
    let ny = tdiv(0, dist);
    assert(ny == 0);

    let t = transfer_amount_s(counts, bucket_of(a.hue as int), bucket_of(b.hue as int));
    lemma_transfer_amount_bounds(counts, bucket_of(a.hue as int), bucket_of(b.hue as int));
    let (area_a, area_b) = new_areas_s(a, b, t);
    let ra = radius_from_area_s(area_a);
    let rb = radius_from_area_s(area_b);
    lemma_fx_square_bounds(a.radius as int);
    lemma_fx_square_bounds(b.radius as int);
    lemma_radius_range(area_a);
    lemma_radius_range(area_b);

    // The halved penetration loses at most one fixed-point step, and the
    // multiplication by the exact unit normal none.
    let pen = ra + rb - dist;
    let half = tdiv(pen, 2);
    assert(2 * half >= pen - 1) by {
        if pen >= 0 {
            vstd::arithmetic::div_mod::lemma_fundamental_div_mod(pen, 2);
        } else {
            vstd::arithmetic::div_mod::lemma_fundamental_div_mod(-pen, 2);
        }
    }
    assert(-1_000_000_000 - 1 <= half <= 1_500_000) by {
        if pen >= 0 {
            lemma_tdiv_magnitude(pen, 2, 1_500_000);
        } else {
            lemma_tdiv_magnitude(pen, 2, 1_000_000_001);
        }
    }
    let sx = fx_mul_s(half, nx);
    assert(sx == half) by {
        if half >= 0 {
            lemma_div_multiples_vanish(half, 1000);
            assert(half * 1000 == 1000 * half) by (nonlinear_arith);
        } else {
            lemma_div_multiples_vanish(-half, 1000);
            assert((-half) * 1000 == 1000 * (-half)) by (nonlinear_arith);
            assert(half * 1000 == -((-half) * 1000)) by (nonlinear_arith);
        }
    }
    let sy = fx_mul_s(half, ny);
    assert(sy == 0) by {
        lemma_div_of0_int(1000);
        assert(half * 0 == 0) by (nonlinear_arith);
    }

    // Neither shifted coordinate saturates.
    let nax = fx_sub_s(a.position.x as int, sx);
    let nbx = fx_add_s(b.position.x as int, sx);
    assert(nax == a.position.x - half);
    assert(nbx == b.position.x + half);
    assert(nbx - nax == dx + 2 * half);
}

/// Zero divided by a positive number is zero.
proof fn lemma_div_of0_int(d: int)
    requires
        0 < d,
    ensures
        tdiv(0, d) == 0,
{
    lemma_div_multiples_vanish(0, d);
    assert(d * 0 == 0) by (nonlinear_arith);
}

/// The same particle with its active flag cleared.
pub open spec fn retired_s(p: Particle) -> Particle {
    Particle {
        position: p.position,
        velocity: p.velocity,
        radius: p.radius,
        hue: p.hue,
        active: false,
    }
}

/// A truncating quotient is bounded by `c` whenever the dividend is bounded
/// by `c` times the divisor.
proof fn lemma_tdiv_magnitude(x: int, d: int, c: int)
    requires
        d >= 1,
        0 <= c,
        -(c * d) <= x <= c * d,
    ensures
        -c <= tdiv(x, d) <= c,
{
    lemma_div_multiples_vanish(c, d);
    if x >= 0 {
        lemma_div_is_ordered(x, c * d, d);
        lemma_div_pos_is_pos(x, d);
    } else {
        lemma_div_is_ordered(-x, c * d, d);
        lemma_div_pos_is_pos(-x, d);
    }
}

/// Resolve the unordered pair `(a, b)` against the given per-bucket active
/// counts. Returns the updated pair and whether a collision was recorded.
/// Neither hue changes; a particle left active keeps a positive radius.
pub fn resolve_pair(a: Particle, b: Particle, counts: &Vec<u64>) -> (r: (Particle, Particle, bool))
    requires
        a.wf(),
        b.wf(),
        counts.len() == BUCKET_COUNT,
    ensures
        r == resolve_pair_s(a, b, counts@),
        r.0.wf(),
        r.1.wf(),
        r.0.hue == a.hue,
        r.1.hue == b.hue,
        r.0.active ==> r.0.radius > 0,
        r.1.active ==> r.1.radius > 0,
{
    if !a.active || !b.active {
        return (a, b, false);
    }
    let d2: u128 = dist_sq(a.position, b.position);
    let sum: i64 = a.radius + b.radius;
    proof {
        lemma_mul_bound(sum as int, sum as int, 4_000_000_000, 4_000_000_000);
        assert(sum as int * sum as int >= 0) by (nonlinear_arith);
    }
    let sum_sq: u128 = (sum as u128) * (sum as u128);
    if d2 == 0 || d2 >= sum_sq {
        return (a, b, false);
    }
    if a.radius >= b.radius * 10 {
        let rb = Particle { active: false, ..b };
        return (a, rb, true);
    }
    if b.radius >= a.radius * 10 {
        let ra = Particle { active: false, ..a };
        return (ra, b, true);
    }

    // Area transfer, scaled by the rarer of the two buckets.
    let ca: u64 = counts[a.bucket()];
    let cb: u64 = counts[b.bucket()];
    let cmin: u64 = if ca <= cb {
        ca
    } else {
        cb
    };
    let scale: i64 = if cmin > 4_000_000 {
        FX_MAX
    } else {
        fx_clamp_exec((cmin as i64) * 500)
    };
    proof {
        assert(scale == fx_clamp(cmin as int * 500));
    }
    let t: i64 = fx_mul(scale, scale);
    let area_a: i64 = fx_mul(a.radius, a.radius);
    let area_b: i64 = fx_mul(b.radius, b.radius);
    let (new_area_a, new_area_b): (i64, i64) = if a.radius > b.radius {
        (fx_add(area_a, t), fx_sub(area_b, t))
    } else {
        (fx_sub(area_a, t), fx_add(area_b, t))
    };
    let ra: i64 = if new_area_a <= 0 {
        0
    } else {
        fx_sqrt(new_area_a)
    };
    let rb: i64 = if new_area_b <= 0 {
        0
    } else {
        fx_sqrt(new_area_b)
    };
    let a_active: bool = ra >= RADIUS_MIN;
    let b_active: bool = rb >= RADIUS_MIN;

    // Unit collision normal, in fixed point.
    let dist: i64 = dist_fx(a.position, b.position);
    proof {
        lemma_sqrt_floor_le(dist_sq_s(a.position, b.position) as nat, 1);
        lemma_dist_dominates_axis(a.position, b.position);
        lemma_mul_bound(
            (b.position.x - a.position.x) as int,
            1000,
            dist as int,
            1000,
        );
        lemma_mul_bound(
            (b.position.y - a.position.y) as int,
            1000,
            dist as int,
            1000,
        );
    }
    let dx1000: i64 = (b.position.x - a.position.x) * 1000;
    let dy1000: i64 = (b.position.y - a.position.y) * 1000;
    let nx: i64 = div_trunc(dx1000, dist);
    let ny: i64 = div_trunc(dy1000, dist);
    proof {
        lemma_tdiv_magnitude(dx1000 as int, dist as int, 1000);
        lemma_tdiv_magnitude(dy1000 as int, dist as int, 1000);
    }

    // Symmetric positional separation.
    let pen: i64 = ra + rb - dist;
    let half: i64 = div_trunc(pen, 2);
    let sx: i64 = fx_mul_wide(half, nx);
    let sy: i64 = fx_mul_wide(half, ny);
    let pos_a = Vec2 { x: fx_sub(a.position.x, sx), y: fx_sub(a.position.y, sy) };
    let pos_b = Vec2 { x: fx_add(b.position.x, sx), y: fx_add(b.position.y, sy) };

    // Impulse along the normal, skipped when the pair already separates.
    let dvx: i64 = b.velocity.x - a.velocity.x;
    let dvy: i64 = b.velocity.y - a.velocity.y;
    let vn: i64 = fx_add(fx_mul_wide(dvx, nx), fx_mul_wide(dvy, ny));
    let (vel_a, vel_b): (Vec2, Vec2) = if vn > 0 {
        (a.velocity, b.velocity)
    } else {
        let j: i64 = fx_frac(-vn, 9, 10);
        let jx: i64 = fx_mul(j, nx);
        let jy: i64 = fx_mul(j, ny);
        (
            Vec2 { x: fx_sub(a.velocity.x, jx), y: fx_sub(a.velocity.y, jy) },
            Vec2 { x: fx_add(b.velocity.x, jx), y: fx_add(b.velocity.y, jy) },
        )
    };
    let out_a = Particle {
        position: pos_a,
        velocity: vel_a,
        radius: ra,
        hue: a.hue,
        active: a_active,
    };
    let out_b = Particle {
        position: pos_b,
        velocity: vel_b,
        radius: rb,
        hue: b.hue,
        active: b_active,
    };
    (out_a, out_b, true)
}

} // verus!

