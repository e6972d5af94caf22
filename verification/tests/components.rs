//! Component-level tests: fixed-point arithmetic, particle update, pairwise
//! collision resolution, and the statistics tracker.

use ball_arena::collide::resolve_pair;
use ball_arena::fx::{div_trunc, fx_add, fx_frac, fx_mul, fx_sqrt, isqrt, FX_MAX};
use ball_arena::geom::Vec2;
use ball_arena::particle::Particle;
use ball_arena::spawn::{drag_velocity, hue_of_bucket, time_hue};
use ball_arena::stats::{min_buckets_of, ColorStatsTracker};

fn particle(x: i64, y: i64, vx: i64, vy: i64, radius: i64, hue: i64) -> Particle {
    Particle {
        position: Vec2 { x, y },
        velocity: Vec2 { x: vx, y: vy },
        radius,
        hue,
        active: true,
    }
}

#[test]
fn fx_add_saturates() {
    assert_eq!(fx_add(FX_MAX, FX_MAX), FX_MAX);
    assert_eq!(fx_add(-FX_MAX, -FX_MAX), -FX_MAX);
    assert_eq!(fx_add(1500, -700), 800);
}

#[test]
fn fx_mul_scales_by_thousandths() {
    // 3.0 * 0.5 == 1.5
    assert_eq!(fx_mul(3000, 500), 1500);
    // 20.0 * 20.0 == 400.0
    assert_eq!(fx_mul(20_000, 20_000), 400_000);
}

#[test]
fn div_trunc_rounds_toward_zero() {
    assert_eq!(div_trunc(7, 2), 3);
    assert_eq!(div_trunc(-7, 2), -3);
    assert_eq!(div_trunc(-1, 1000), 0);
}

#[test]
fn fx_sqrt_exact_squares() {
    assert_eq!(isqrt(0), 0);
    assert_eq!(isqrt(2), 1);
    assert_eq!(isqrt(400_000_000), 20_000);
    // sqrt(400.0) == 20.0
    assert_eq!(fx_sqrt(400_000), 20_000);
}

#[test]
fn wall_bounce_with_restitution_and_friction() {
    // A particle one unit deep past the left wall margin, moving left at 100
    // units per second, for a hundredth of a second.
    let mut p = particle(19_000, 300_000, -100_000, 0, 20_000, 0);
    p.update(10, 800_000, 600_000);
    // Clamped to the wall: x == radius.
    assert_eq!(p.position.x, 20_000);
    assert_eq!(p.position.y, 300_000);
    // Reflected and scaled by 4/5, then by the 99/100 friction.
    assert_eq!(p.velocity.x, 79_200);
    assert_eq!(p.velocity.y, 0);
    assert!(p.active);
}

#[test]
fn update_ignores_inactive() {
    let mut p = particle(19_000, 300_000, -100_000, 0, 20_000, 0);
    p.active = false;
    let before = p;
    p.update(10, 800_000, 600_000);
    assert_eq!(p, before);
}

#[test]
fn free_flight_integrates_velocity() {
    let mut p = particle(100_000, 100_000, 50_000, 0, 20_000, 950);
    p.update(1000, 800_000, 600_000);
    assert_eq!(p.position.x, 150_000);
    assert_eq!(p.position.y, 100_000);
    assert_eq!(p.velocity.x, 49_500);
    assert_eq!(p.bucket(), 9);
}

#[test]
fn head_on_pair_separates_and_recoils() {
    // Two radius-20 particles at (0,0) and (30,0), closing at 50 each.
    let a = particle(0, 0, 50_000, 0, 20_000, 0);
    let b = particle(30_000, 0, -50_000, 0, 20_000, 150);
    let counts: Vec<u64> = vec![0; 10];
    let (na, nb, hit) = resolve_pair(a, b, &counts);
    assert!(hit);
    // Radii untouched: the transfer scale is zero when a bucket is empty.
    assert_eq!(na.radius, 20_000);
    assert_eq!(nb.radius, 20_000);
    // Separated by at least the sum of the radii (40 units).
    assert_eq!(na.position, Vec2 { x: -5_000, y: 0 });
    assert_eq!(nb.position, Vec2 { x: 35_000, y: 0 });
    assert!(nb.position.x - na.position.x >= 40_000);
    // Moving apart along the collision normal after the impulse.
    assert_eq!(na.velocity, Vec2 { x: -40_000, y: 0 });
    assert_eq!(nb.velocity, Vec2 { x: 40_000, y: 0 });
    assert!((nb.velocity.x - na.velocity.x) > 0);
}

#[test]
fn touching_pair_does_not_collide() {
    // Exactly at the sum of the radii: not overlapping.
    let a = particle(0, 0, 0, 0, 20_000, 0);
    let b = particle(40_000, 0, 0, 0, 20_000, 0);
    let counts: Vec<u64> = vec![0; 10];
    let (na, nb, hit) = resolve_pair(a, b, &counts);
    assert!(!hit);
    assert_eq!(na, a);
    assert_eq!(nb, b);
}

#[test]
fn concentric_pair_is_skipped() {
    // Identical centers: degenerate, no collision normal, no effect.
    let a = particle(5_000, 5_000, 10, 0, 20_000, 0);
    let b = particle(5_000, 5_000, -10, 0, 30_000, 500);
    let counts: Vec<u64> = vec![3; 10];
    let (na, nb, hit) = resolve_pair(a, b, &counts);
    assert!(!hit);
    assert_eq!(na, a);
    assert_eq!(nb, b);
}

#[test]
fn inactive_pair_is_skipped() {
    let a = particle(0, 0, 0, 0, 20_000, 0);
    let mut b = particle(10_000, 0, 0, 0, 20_000, 0);
    b.active = false;
    let counts: Vec<u64> = vec![0; 10];
    let (na, nb, hit) = resolve_pair(a, b, &counts);
    assert!(!hit);
    assert_eq!(na, a);
    assert_eq!(nb, b);
}

#[test]
fn tenfold_disparity_retires_the_smaller() {
    let big = particle(0, 0, 0, 0, 250_000, 0);
    let small = particle(100_000, 0, 0, 0, 20_000, 300);
    let counts: Vec<u64> = vec![1; 10];
    let (na, nb, hit) = resolve_pair(big, small, &counts);
    assert!(hit);
    // The big one is untouched; resolution stops before any transfer.
    assert_eq!(na, big);
    assert!(!nb.active);
    assert_eq!(nb.radius, small.radius);
    assert_eq!(nb.position, small.position);
}

#[test]
fn area_transfer_conserves_area_and_retires_below_minimum() {
    // Radii 5.2 and 6.0 overlapping; both hues in bucket zero, ten active
    // particles there, so the transfer is (0.5 * 10)^2 == 25 area units.
    let a = particle(0, 0, 0, 0, 5_200, 0);
    let b = particle(10_000, 0, 0, 0, 6_000, 50);
    let mut counts: Vec<u64> = vec![0; 10];
    counts[0] = 10;
    let (na, nb, hit) = resolve_pair(a, b, &counts);
    assert!(hit);
    // The smaller-radius particle loses the area and falls below the
    // 5.0 minimum: retired, never left non-positive.
    assert!(!na.active);
    assert_eq!(na.radius, 1_428);
    assert!(na.radius > 0);
    assert!(nb.active);
    assert_eq!(nb.radius, 7_810);
    // Area conservation within truncation tolerance: the squares of the
    // radii sum to what they summed to before.
    let before = a.radius * a.radius + b.radius * b.radius;
    let after = na.radius * na.radius + nb.radius * nb.radius;
    assert!((before - after).abs() <= 2 * (na.radius + nb.radius) + 2);
    // No persistent deep penetration: the pair ends at least touching.
    let gap = nb.position.x - na.position.x;
    assert!(gap >= na.radius + nb.radius);
}

#[test]
fn record_collision_increments_both_buckets() {
    let mut t = ColorStatsTracker::new();
    t.record_collision(3, 3);
    assert_eq!(t.collision_count_by_bucket[3], 2);
    t.record_collision(3, 5);
    assert_eq!(t.collision_count_by_bucket[3], 3);
    assert_eq!(t.collision_count_by_bucket[5], 1);
    assert_eq!(t.collision_count_by_bucket[0], 0);
}

#[test]
fn min_buckets_returns_all_tied_minima() {
    let counts: Vec<u64> = vec![3, 1, 1, 5, 2, 1, 3, 0, 0, 2];
    assert_eq!(min_buckets_of(&counts), vec![7, 8]);
    let flat: Vec<u64> = vec![4; 10];
    assert_eq!(min_buckets_of(&flat), vec![0, 1, 2, 3, 4, 5, 6, 7, 8, 9]);
}

#[test]
fn drag_release_velocity_is_five_times_the_drag() {
    let v = drag_velocity(Vec2 { x: 10_000, y: 10_000 }, Vec2 { x: 20_000, y: 10_000 });
    assert_eq!(v, Vec2 { x: 50_000, y: 0 });
}

#[test]
fn first_spawn_hue_comes_from_the_clock() {
    assert_eq!(time_hue(0), 0);
    // 12.345 seconds: a tenth is 1.2345, wrapped into [0, 1) leaves 0.234.
    assert_eq!(time_hue(12_345), 234);
    assert_eq!(hue_of_bucket(7), 700);
}

#[test]
fn spawn_hue_lands_in_a_least_collided_bucket() {
    // Every bucket but one has collisions; the pick must land in the single
    // minimum whatever the random draw.
    let mut t = ColorStatsTracker::new();
    for k in 0..10 {
        if k != 1 {
            t.record_collision(k, k);
        }
    }
    for _ in 0..20 {
        assert_eq!(ball_arena::spawn::pick_spawn_hue(&t), 100);
    }
}
