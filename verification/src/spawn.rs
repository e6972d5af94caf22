//! Spawn policy: hue selection for new particles (least-collided bucket,
//! uniformly random among ties; a time-derived hue for the very first manual
//! spawn) and launch velocities for drag-released and auto-fired particles.

use vstd::prelude::*;
use crate::fx::{fx_clamp, tdiv};
use crate::geom::{dist_sq_s, dist_sq, Vec2};
use crate::particle::{bucket_of, Particle, BUCKET_COUNT};
use crate::stats::{is_min_at, ColorStatsTracker};
use vstd::arithmetic::div_mod::lemma_div_multiples_vanish;

verus! {

/// Factor turning a displacement into a launch velocity, for both
/// drag-released and auto-fired particles.
pub const LAUNCH_SPEED_FACTOR: i64 = 5;

/// Launch velocity used when an auto-fire target coincides with the launch
/// point: straight up, 500 units per second.
pub const DEFAULT_LAUNCH_VY: i64 = -500_000;

/// Velocity of a particle launched from `from` toward `to`: the displacement
/// scaled by `LAUNCH_SPEED_FACTOR` on each axis.
pub open spec fn launch_velocity_s(from: Vec2, to: Vec2) -> Vec2 {
    Vec2 {
        x: fx_clamp(LAUNCH_SPEED_FACTOR * (to.x - from.x)) as i64,
        y: fx_clamp(LAUNCH_SPEED_FACTOR * (to.y - from.y)) as i64,
    }
}

/// Velocity of an auto-fired particle: toward the target, proportional to
/// its distance; straight up when the target coincides with the origin.
pub open spec fn auto_velocity_s(origin: Vec2, target: Vec2) -> Vec2 {
    if target.x == origin.x && target.y == origin.y {
        Vec2 { x: 0, y: DEFAULT_LAUNCH_VY }
    } else {
        launch_velocity_s(origin, target)
    }
}

/// Velocity of a drag-released particle.
pub fn drag_velocity(start: Vec2, end: Vec2) -> (v: Vec2)
    requires
        start.wf(),
        end.wf(),
    ensures
        v == launch_velocity_s(start, end),
        v.wf(),
{
    let dx: i64 = end.x - start.x;
    let dy: i64 = end.y - start.y;
    Vec2 { x: crate::fx::fx_clamp_exec(LAUNCH_SPEED_FACTOR * dx), y: crate::fx::fx_clamp_exec(LAUNCH_SPEED_FACTOR * dy) }
}

/// Velocity of an auto-fired particle launched from `origin` at `target`.
pub fn auto_velocity(origin: Vec2, target: Vec2) -> (v: Vec2)
    requires
        origin.wf(),
        target.wf(),
    ensures
        v == auto_velocity_s(origin, target),
        v.wf(),
{
    if target.x == origin.x && target.y == origin.y {
        Vec2 { x: 0, y: DEFAULT_LAUNCH_VY }
    } else {
        drag_velocity(origin, target)
    }
}

/// Hue of the very first manual spawn, derived from the current time:
/// a tenth of the elapsed time, wrapped into one hue turn.
pub open spec fn time_hue_s(now: int) -> int {
    tdiv(now, 10) % 1000
}

/// Hue of the very first manual spawn.
pub fn time_hue(now: i64) -> (h: i64)
    requires
        0 <= now,
    ensures
        h == time_hue_s(now as int),
        0 <= h < 1000,
{
    (((now as u64) / 10) % 1000) as i64
}

/// Hue at the lower edge of bucket `k`.
pub fn hue_of_bucket(k: usize) -> (h: i64)
    requires
        k < BUCKET_COUNT,
    ensures
        h == k * 100,
        0 <= h < 1000,
        bucket_of(h as int) == k,
{
    proof {
        lemma_div_multiples_vanish(k as int, 100);
    }
    (k as i64) * 100
}

/// Relies on `macroquad::rand::gen_range` over `usize`: the result is a
/// pseudo-random number in `[low, high)`; with `low == 0` it is a valid
/// index below `n`.
#[verifier::external_body]
pub(crate) fn random_below(n: usize) -> (r: usize)
    requires
        1 <= n,
    ensures
        r < n,
{
    macroquad::rand::gen_range(0usize, n)
}

/// Hue for a spawned particle when at least one spawn already happened:
/// a uniformly random choice among the buckets with the fewest collisions.
/// Whatever the choice, the returned hue is a bucket edge whose bucket no
/// other bucket undercuts.
pub fn pick_spawn_hue(tracker: &ColorStatsTracker) -> (h: i64)
    requires
        tracker.wf(),
    ensures
        0 <= h < 1000,
        h % 100 == 0,
        is_min_at(tracker.collision_count_by_bucket@, bucket_of(h as int)),
{
    let mins: Vec<usize> = tracker.min_buckets();
    let i: usize = random_below(mins.len());
    let k: usize = mins[i];
    let h: i64 = hue_of_bucket(k);
    proof {
        assert(h as int == k * 100);
        assert((k * 100) % 100 == 0) by (nonlinear_arith);
    }
    h
}

/// Index of the active particle farthest from `origin` (first such index on
/// a tie), or `None` when no particle is active.
pub fn farthest_from(particles: &Vec<Particle>, origin: Vec2) -> (r: Option<usize>)
    requires
        origin.wf(),
        forall|i: int| 0 <= i < particles@.len() ==> (#[trigger] particles@[i]).wf(),
    ensures
        r is None ==> forall|i: int|
            0 <= i < particles@.len() ==> !(#[trigger] particles@[i]).active,
        r matches Some(i) ==> {
            &&& i < particles@.len()
            &&& particles@[i as int].active
            &&& forall|j: int|
                0 <= j < particles@.len() && (#[trigger] particles@[j]).active ==> dist_sq_s(
                    origin,
                    particles@[j].position,
                ) <= dist_sq_s(origin, particles@[i as int].position)
            &&& forall|j: int|
                0 <= j < i && (#[trigger] particles@[j]).active ==> dist_sq_s(
                    origin,
                    particles@[j].position,
                ) < dist_sq_s(origin, particles@[i as int].position)
        },
{
    let n: usize = particles.len();
    let mut best: Option<usize> = None;
    let mut best_d2: u128 = 0;
    let mut i: usize = 0;
    while i < n
        invariant
            n == particles@.len(),
            i <= n,
            origin.wf(),
            forall|j: int| 0 <= j < particles@.len() ==> (#[trigger] particles@[j]).wf(),
            best is None ==> forall|j: int|
                0 <= j < i ==> !(#[trigger] particles@[j]).active,
            best matches Some(w) ==> {
                &&& (w as int) < i
                &&& particles@[w as int].active
                &&& best_d2 as int == dist_sq_s(origin, particles@[w as int].position)
                &&& forall|j: int|
                    0 <= j < i && (#[trigger] particles@[j]).active ==> dist_sq_s(
                        origin,
                        particles@[j].position,
                    ) <= best_d2 as int
                &&& forall|j: int|
                    0 <= j < w && (#[trigger] particles@[j]).active ==> dist_sq_s(
                        origin,
                        particles@[j].position,
                    ) < best_d2 as int
            },
        decreases n - i,
    {
        let p: Particle = particles[i];
        if p.active {
            let d2: u128 = dist_sq(origin, p.position);
            match best {
                Option::None => {
                    best = Option::Some(i);
                    best_d2 = d2;
                },
                Option::Some(_) => {
                    if d2 > best_d2 {
                        best = Option::Some(i);
                        best_d2 = d2;
                    }
                },
            }
        }
        i = i + 1;
    }
    best
}

} // verus!
