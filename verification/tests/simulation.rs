//! Simulation-level tests: the initial grid, event handling, spawning,
//! auto-fire, purging and determinism under a seeded random source.

use ball_arena::geom::Vec2;
use ball_arena::particle::Particle;
use ball_arena::sim::{InputEvent, Simulation, Snapshot};
use ball_arena::stats::ColorStatsTracker;

const W: i64 = 800_000;
const H: i64 = 600_000;

fn particle(x: i64, y: i64, vx: i64, vy: i64, radius: i64, hue: i64) -> Particle {
    Particle {
        position: Vec2 { x, y },
        velocity: Vec2 { x: vx, y: vy },
        radius,
        hue,
        active: true,
    }
}

fn bare_sim(particles: Vec<Particle>, last: Option<usize>) -> Simulation {
    Simulation {
        particles,
        tracker: ColorStatsTracker::new(),
        auto_fire_enabled: false,
        auto_fire_timer: 0,
        drag_active: false,
        drag_start: Vec2 { x: 0, y: 0 },
        first_spawn_done: false,
        last_launched: last,
        last_launched_position: Vec2 { x: 0, y: 0 },
    }
}

#[test]
fn initial_grid_is_staggered_with_spread_hues() {
    let sim = Simulation::new(W, H);
    assert_eq!(sim.particles.len(), 50);
    // First particle carries the kick.
    assert_eq!(sim.particles[0].position, Vec2 { x: 100_000, y: 100_000 });
    assert_eq!(sim.particles[0].velocity, Vec2 { x: 200_000, y: 0 });
    // Second column of the first row.
    assert_eq!(sim.particles[1].position, Vec2 { x: 150_000, y: 100_000 });
    assert_eq!(sim.particles[1].velocity, Vec2 { x: 0, y: 0 });
    // Odd rows are staggered by half a spacing.
    assert_eq!(sim.particles[10].position, Vec2 { x: 125_000, y: 150_000 });
    // Hues spread evenly over [0, 1).
    assert_eq!(sim.particles[49].hue, 980);
    for p in &sim.particles {
        assert!(p.active && p.radius == 20_000 && p.hue < 1000);
    }
    assert_eq!(sim.last_launched, Some(0));
    assert!(sim.auto_fire_enabled);
}

#[test]
fn toggle_flips_the_flag_and_resets_the_timer() {
    let mut sim = Simulation::new(W, H);
    sim.auto_fire_timer = 1_500;
    sim.toggle_auto_fire();
    assert!(!sim.auto_fire_enabled);
    assert_eq!(sim.auto_fire_timer, 0);
    sim.toggle_auto_fire();
    assert!(sim.auto_fire_enabled);
}

#[test]
fn drag_release_spawns_at_the_start_with_scaled_velocity() {
    let mut sim = Simulation::new(W, H);
    sim.toggle_auto_fire();
    let events = vec![
        InputEvent::PointerDown { pos: Vec2 { x: 10_000, y: 10_000 } },
        InputEvent::PointerUp { pos: Vec2 { x: 20_000, y: 10_000 } },
    ];
    let snap: Snapshot = sim.step(0, W, H, &events, 0);
    assert_eq!(snap.particles.len(), 51);
    let p = snap.particles.last().unwrap();
    assert_eq!(p.position, Vec2 { x: 10_000, y: 10_000 });
    assert_eq!(p.velocity, Vec2 { x: 50_000, y: 0 });
    assert_eq!(p.radius, 20_000);
    // First manual spawn at time zero: the time-derived hue is zero.
    assert_eq!(p.hue, 0);
    assert!(p.active);
    assert!(sim.first_spawn_done);
    assert_eq!(sim.last_launched, Some(50));
}

#[test]
fn pointer_up_without_a_drag_spawns_nothing() {
    let mut sim = Simulation::new(W, H);
    sim.toggle_auto_fire();
    let events = vec![InputEvent::PointerUp { pos: Vec2 { x: 20_000, y: 10_000 } }];
    let snap = sim.step(0, W, H, &events, 0);
    assert_eq!(snap.particles.len(), 50);
}

#[test]
fn key_toggle_event_disables_auto_fire() {
    let mut sim = Simulation::new(W, H);
    let events = vec![InputEvent::KeyToggle];
    // Two full seconds: with auto-fire toggled off by the event, no spawn.
    let snap = sim.step(2_000, W, H, &events, 0);
    assert!(!sim.auto_fire_enabled);
    assert_eq!(snap.particles.len(), 50);
}

#[test]
fn forced_auto_fire_launches_at_the_farthest_particle() {
    let mut sim = Simulation::new(W, H);
    let events = vec![InputEvent::AutoFireElapsed];
    let snap = sim.step(0, W, H, &events, 0);
    assert_eq!(snap.particles.len(), 51);
    let p = snap.particles.last().unwrap();
    // The tracked first particle is the launch origin.
    assert_eq!(p.position, Vec2 { x: 100_000, y: 100_000 });
    // The farthest grid particle sits at the staggered end of the fourth
    // row; the launch velocity is five times the displacement toward it.
    assert_eq!(p.velocity, Vec2 { x: 2_375_000, y: 750_000 });
    // Whatever the random draw, the hue is a least-collided bucket edge.
    assert!(p.hue % 100 == 0 && p.hue < 1000);
    assert_eq!(sim.last_launched, Some(50));
    assert_eq!(sim.auto_fire_timer, 0);
}

#[test]
fn auto_fire_timer_accrues_and_fires_on_the_interval() {
    let mut sim = Simulation::new(W, H);
    let no_events: Vec<InputEvent> = vec![];
    sim.step(1_000, W, H, &no_events, 0);
    assert_eq!(sim.auto_fire_timer, 1_000);
    assert_eq!(sim.particles.len(), 50);
    sim.step(1_000, W, H, &no_events, 0);
    // The interval elapsed: one particle launched, timer reset.
    assert_eq!(sim.auto_fire_timer, 0);
    assert_eq!(sim.particles.len(), 51);
}

#[test]
fn retired_particles_are_purged_and_tracking_dropped() {
    // A tenfold-bigger particle overlaps the tracked small one: the small
    // one is retired during the pass and purged at the end of the tick.
    let big = particle(250_000, 250_000, 0, 0, 250_000, 0);
    let small = particle(250_000, 150_000, 0, 0, 20_000, 50);
    let mut sim = bare_sim(vec![big, small], Some(1));
    let no_events: Vec<InputEvent> = vec![];
    let snap = sim.step(0, W, H, &no_events, 0);
    assert_eq!(snap.particles.len(), 1);
    assert_eq!(snap.particles[0].radius, 250_000);
    assert!(snap.particles[0].active);
    assert_eq!(sim.last_launched, None);
    // Both hues fell in bucket zero: one collision, two increments.
    assert_eq!(snap.collision_count_by_bucket[0], 2);
    assert_eq!(snap.collision_count_by_bucket[1], 0);
    // The recount ran before the pass, while both were active.
    assert_eq!(snap.active_count_by_bucket[0], 2);
}

#[test]
fn purge_remaps_the_tracked_particle_index() {
    // A retired particle ahead of the tracked one: purging compacts the
    // collection and the tracked index follows its particle.
    let mut dead = particle(50_000, 50_000, 0, 0, 20_000, 0);
    dead.active = false;
    let alive = particle(400_000, 400_000, 0, 0, 20_000, 250);
    let mut sim = bare_sim(vec![dead, alive], Some(1));
    let no_events: Vec<InputEvent> = vec![];
    let snap = sim.step(0, W, H, &no_events, 0);
    assert_eq!(snap.particles.len(), 1);
    assert_eq!(snap.particles[0].position, Vec2 { x: 400_000, y: 400_000 });
    assert_eq!(sim.last_launched, Some(0));
}

#[test]
fn collision_counts_never_decrease_across_ticks() {
    let mut sim = Simulation::new(W, H);
    sim.toggle_auto_fire();
    let no_events: Vec<InputEvent> = vec![];
    let mut previous: Vec<u64> = vec![0; 10];
    for _ in 0..40 {
        let snap = sim.step(100, W, H, &no_events, 0);
        for k in 0..10 {
            assert!(snap.collision_count_by_bucket[k] >= previous[k]);
        }
        previous = snap.collision_count_by_bucket;
    }
    // The kicked grid sets off collisions: something was recorded.
    let total: u64 = previous.iter().sum();
    assert!(total > 0);
}

#[test]
fn active_particles_keep_positive_radii_across_ticks() {
    let mut sim = Simulation::new(W, H);
    let no_events: Vec<InputEvent> = vec![];
    for _ in 0..60 {
        let snap = sim.step(50, W, H, &no_events, 0);
        for p in &snap.particles {
            assert!(p.active);
            assert!(p.radius > 0);
        }
    }
}

#[test]
fn seeded_runs_are_identical() {
    let no_events: Vec<InputEvent> = vec![];
    let mut runs: Vec<Vec<Snapshot>> = Vec::new();
    for _ in 0..2 {
        macroquad::rand::srand(123_456_789);
        let mut sim = Simulation::new(W, H);
        let mut snaps: Vec<Snapshot> = Vec::new();
        for tick in 0..10 {
            let events = if tick == 4 {
                vec![
                    InputEvent::PointerDown { pos: Vec2 { x: 50_000, y: 50_000 } },
                    InputEvent::PointerUp { pos: Vec2 { x: 90_000, y: 70_000 } },
                ]
            } else {
                no_events.clone()
            };
            // Two-second ticks: every tick fires the auto-launcher, which
            // draws from the seeded random source.
            snaps.push(sim.step(2_000, W, H, &events, 7_000));
        }
        runs.push(snaps);
    }
    for (s1, s2) in runs[0].iter().zip(runs[1].iter()) {
        assert_eq!(s1.particles, s2.particles);
        assert_eq!(s1.active_count_by_bucket, s2.active_count_by_bucket);
        assert_eq!(s1.collision_count_by_bucket, s2.collision_count_by_bucket);
    }
}
