//! The simulation orchestrator: owns the particle collection and the
//! statistics tracker, advances one tick (integrate, recount, resolve all
//! pairs, handle events and auto-fire, purge retired particles) and returns
//! a read-only snapshot.

use vstd::prelude::*;
use crate::collide::resolve_pair;
use crate::fx::{fx_add, fx_sub, tdiv, div_trunc, FX_MAX};
use crate::geom::Vec2;
use crate::particle::{bucket_of, Particle, BUCKET_COUNT};
use crate::spawn::{
    auto_velocity, drag_velocity, farthest_from, launch_velocity_s, pick_spawn_hue,
    time_hue, time_hue_s,
};
use crate::stats::{bucket_tally, is_min_at, ColorStatsTracker};

verus! {

/// Seconds between two autonomous launches, in fixed point.
pub const AUTO_FIRE_INTERVAL: i64 = 2000;

/// Radius of every spawned particle (the initial grid uses it too).
pub const SPAWN_RADIUS: i64 = 20_000;

/// Horizontal velocity handed to the first grid particle to set off the
/// chain reaction.
pub const FIRST_KICK_VX: i64 = 200_000;

/// Rows of the initial grid.
pub const GRID_ROWS: usize = 5;

/// Columns of the initial grid.
pub const GRID_COLS: usize = 10;

/// An abstract input event handed to the engine by the shell, once per tick,
/// in order.
#[derive(Clone, Copy, Debug, PartialEq, Eq, Structural)]
pub enum InputEvent {
    /// The pointer was pressed: a drag starts here.
    PointerDown { pos: Vec2 },
    /// The pointer was released: a pending drag spawns a particle.
    PointerUp { pos: Vec2 },
    /// The auto-fire toggle key was pressed.
    KeyToggle,
    /// The shell asks for an immediate auto-fire opportunity.
    AutoFireElapsed,
}

/// Coordinates carried by an event lie in the fixed-point range.
pub open spec fn event_wf(e: InputEvent) -> bool {
    match e {
        InputEvent::PointerDown { pos } => pos.wf(),
        InputEvent::PointerUp { pos } => pos.wf(),
        InputEvent::KeyToggle => true,
        InputEvent::AutoFireElapsed => true,
    }
}

/// Read-only view of one tick's outcome, for drawing and display.
pub struct Snapshot {
    pub particles: Vec<Particle>,
    pub active_count_by_bucket: Vec<u64>,
    pub collision_count_by_bucket: Vec<u64>,
}

/// The subsequence of still-active particles, in order.
pub open spec fn active_filter(s: Seq<Particle>) -> Seq<Particle>
    decreases s.len(),
{
    if s.len() == 0 {
        Seq::empty()
    } else {
        let rest = active_filter(s.drop_last());
        if s.last().active {
            rest.push(s.last())
        } else {
            rest
        }
    }
}

/// Splitting a particle list splits its active subsequence.
pub proof fn lemma_active_filter_add(s: Seq<Particle>, t: Seq<Particle>)
    ensures
        active_filter(s + t) == active_filter(s) + active_filter(t),
    decreases t.len(),
{
    if t.len() == 0 {
        assert(s + t =~= s);
        assert(active_filter(s) + t =~= active_filter(s));
    } else {
        lemma_active_filter_add(s, t.drop_last());
        assert((s + t).drop_last() =~= s + t.drop_last());
        assert((s + t).last() == t.last());
        if t.last().active {
            assert(active_filter(s) + active_filter(t) =~= (active_filter(s) + active_filter(
                t.drop_last(),
            )).push(t.last()));
        }
    }
}

/// Every particle after one tick's integration and wall handling, at once.
pub open spec fn integrate_all_s(s: Seq<Particle>, dt: int, w: int, h: int) -> Seq<Particle> {
    Seq::new(s.len(), |i: int| crate::particle::particle_step_s(s[i], dt, w, h))
}

/// The per-bucket active counts the recount derives from a particle list.
pub open spec fn counts_of_s(s: Seq<Particle>) -> Seq<u64> {
    Seq::new(BUCKET_COUNT as nat, |k: int| bucket_tally(s, k) as u64)
}

/// The single-pass pair resolution, from the unordered pair `(a, b)` on:
/// resolve the pair, record its collision, and continue with the next pair
/// in ascending index order. The active counts stay those of the recount.
pub open spec fn resolve_pass_from_s(
    s: Seq<Particle>,
    counts: Seq<u64>,
    coll: Seq<u64>,
    a: int,
    b: int,
) -> (Seq<Particle>, Seq<u64>)
    decreases s.len() - a, s.len() + 1 - b,
{
    if a < 0 || b <= a || a + 1 >= s.len() {
        (s, coll)
    } else if b >= s.len() {
        resolve_pass_from_s(s, counts, coll, a + 1, a + 2)
    } else {
        let (na, nb, hit) = crate::collide::resolve_pair_s(s[a], s[b], counts);
        let s2 = s.update(a, na).update(b, nb);
        let coll2 = if hit {
            crate::stats::record_s(coll, bucket_of(na.hue as int), bucket_of(nb.hue as int))
        } else {
            coll
        };
        resolve_pass_from_s(s2, counts, coll2, a, b + 1)
    }
}

/// What one tick does to the physics before any event is looked at:
/// integrate and bounce every particle, recount the buckets, then resolve
/// every unordered pair once, ascending. Everything here is a function of
/// the previous state and the tick's inputs alone.
pub open spec fn physics_s(s: Seq<Particle>, coll: Seq<u64>, dt: int, w: int, h: int) -> (
    Seq<Particle>,
    Seq<u64>,
) {
    let moved = integrate_all_s(s, dt, w, h);
    resolve_pass_from_s(moved, counts_of_s(moved), coll, 0, 1)
}

/// The particle the initial grid places at slot `idx`: five staggered rows
/// of ten, hues spread evenly over `[0, 1)`, the first particle kicked
/// horizontally.
pub open spec fn grid_particle_s(idx: int) -> Particle {
    let row = idx / (GRID_COLS as int);
    let col = idx % (GRID_COLS as int);
    Particle {
        position: Vec2 {
            x: (100_000 + col * 50_000 + (row % 2) * 25_000) as i64,
            y: (100_000 + row * 50_000) as i64,
        },
        velocity: Vec2 {
            x: if idx == 0 {
                FIRST_KICK_VX as int
            } else {
                0
            } as i64,
            y: 0,
        },
        radius: SPAWN_RADIUS,
        hue: (idx * 20) as i64,
        active: true,
    }
}

pub struct Simulation {
    pub particles: Vec<Particle>,
    pub tracker: ColorStatsTracker,
    pub auto_fire_enabled: bool,
    pub auto_fire_timer: i64,
    /// A drag is pending: the pointer went down and was not yet released.
    pub drag_active: bool,
    pub drag_start: Vec2,
    /// Whether a manual spawn already happened; the first one draws its hue
    /// from the clock instead of the statistics.
    pub first_spawn_done: bool,
    /// Index of the most recently launched particle, while it lives.
    pub last_launched: Option<usize>,
    /// Last known position of the most recently launched particle; origin of
    /// auto-fire launches.
    pub last_launched_position: Vec2,
}

impl Simulation {
    pub open spec fn wf(self) -> bool {
        &&& self.tracker.wf()
        &&& forall|i: int| 0 <= i < self.particles@.len() ==> (#[trigger] self.particles@[i]).wf()
        &&& match self.last_launched {
            Some(i) => (i as int) < self.particles@.len(),
            None => true,
        }
        &&& self.last_launched_position.wf()
        &&& self.drag_start.wf()
        &&& 0 <= self.auto_fire_timer <= FX_MAX
    }

    /// A fresh simulation: the staggered starting grid, zeroed statistics,
    /// auto-fire enabled, launch origin at the bottom centre of the arena.
    pub fn new(w: i64, h: i64) -> (sim: Simulation)
        requires
            0 < w <= FX_MAX,
            0 < h <= FX_MAX,
        ensures
            sim.wf(),
            sim.particles@.len() == GRID_ROWS * GRID_COLS,
            forall|i: int|
                0 <= i < sim.particles@.len() ==> #[trigger] sim.particles@[i]
                    == grid_particle_s(i),
            forall|k: int|
                0 <= k < BUCKET_COUNT ==> sim.tracker.collision_count_by_bucket@[k] == 0,
            sim.auto_fire_enabled,
            sim.auto_fire_timer == 0,
            !sim.drag_active,
            !sim.first_spawn_done,
            sim.last_launched == Some(0usize),
            sim.last_launched_position == (Vec2 {
                x: tdiv(w as int, 2) as i64,
                y: crate::fx::fx_sub_s(h as int, 100_000) as i64,
            }),
    {
        let mut particles: Vec<Particle> = Vec::new();
        let total: usize = GRID_ROWS * GRID_COLS;
        let mut idx: usize = 0;
        while idx < total
            invariant
                total == GRID_ROWS * GRID_COLS,
                idx <= total,
                particles@.len() == idx,
                forall|i: int|
                    0 <= i < idx ==> #[trigger] particles@[i] == grid_particle_s(i),
            decreases total - idx,
        {
            let row: usize = idx / GRID_COLS;
            let col: usize = idx % GRID_COLS;
            let x: i64 = 100_000 + (col as i64) * 50_000 + ((row % 2) as i64) * 25_000;
            let y: i64 = 100_000 + (row as i64) * 50_000;
            let hue: i64 = (idx as i64) * 20;
            let vx: i64 = if idx == 0 {
                FIRST_KICK_VX
            } else {
                0
            };
            let p = Particle {
                position: Vec2 { x, y },
                velocity: Vec2 { x: vx, y: 0 },
                radius: SPAWN_RADIUS,
                hue,
                active: true,
            };
            particles.push(p);
            idx = idx + 1;
        }
        let launch_origin = Vec2 { x: div_trunc(w, 2), y: fx_sub(h, 100_000) };
        Simulation {
            particles,
            tracker: ColorStatsTracker::new(),
            auto_fire_enabled: true,
            auto_fire_timer: 0,
            drag_active: false,
            drag_start: Vec2 { x: 0, y: 0 },
            first_spawn_done: false,
            last_launched: Some(0),
            last_launched_position: launch_origin,
        }
    }

    /// Flip the auto-fire flag and restart its timer.
    pub fn toggle_auto_fire(&mut self)
        requires
            old(self).wf(),
        ensures
            final(self).wf(),
            final(self).auto_fire_enabled == !old(self).auto_fire_enabled,
            final(self).auto_fire_timer == 0,
            final(self).particles == old(self).particles,
            final(self).tracker == old(self).tracker,
            final(self).drag_active == old(self).drag_active,
            final(self).drag_start == old(self).drag_start,
            final(self).first_spawn_done == old(self).first_spawn_done,
            final(self).last_launched == old(self).last_launched,
            final(self).last_launched_position == old(self).last_launched_position,
    {
        self.auto_fire_enabled = !self.auto_fire_enabled;
        self.auto_fire_timer = 0;
    }

    /// Append a drag-released particle: it appears at the drag start with
    /// velocity proportional to the drag, hue from the clock on the first
    /// manual spawn and from the least-collided buckets afterwards.
    fn spawn_from_drag(&mut self, start: Vec2, end: Vec2, now: i64)
        requires
            old(self).wf(),
            start.wf(),
            end.wf(),
            0 <= now <= FX_MAX,
        ensures
            final(self).wf(),
            final(self).particles@ == old(self).particles@.push(final(self).particles@.last()),
            ({
                let p = final(self).particles@.last();
                &&& p.position == start
                &&& p.velocity == launch_velocity_s(start, end)
                &&& p.radius == SPAWN_RADIUS
                &&& p.active
                &&& 0 <= p.hue < 1000
                &&& !old(self).first_spawn_done ==> p.hue == time_hue_s(now as int)
                &&& old(self).first_spawn_done ==> p.hue % 100 == 0 && is_min_at(
                    old(self).tracker.collision_count_by_bucket@,
                    bucket_of(p.hue as int),
                )
            }),
            final(self).tracker == old(self).tracker,
            final(self).first_spawn_done,
            final(self).last_launched == Some((old(self).particles@.len()) as usize),
            final(self).last_launched_position == start,
            final(self).auto_fire_enabled == old(self).auto_fire_enabled,
            final(self).auto_fire_timer == old(self).auto_fire_timer,
    {
        let hue: i64 = if !self.first_spawn_done {
            time_hue(now)
        } else {
            pick_spawn_hue(&self.tracker)
        };
        self.first_spawn_done = true;
        let vel: Vec2 = drag_velocity(start, end);
        let p = Particle {
            position: start,
            velocity: vel,
            radius: SPAWN_RADIUS,
            hue,
            active: true,
        };
        let new_idx: usize = self.particles.len();
        self.particles.push(p);
        self.last_launched = Some(new_idx);
        self.last_launched_position = start;
    }

    /// Remove every retired particle, keeping order, and remap the
    /// last-launched index to the particle's new slot (dropping it if the
    /// particle itself was retired).
    fn purge(&mut self)
        requires
            old(self).wf(),
        ensures
            final(self).wf(),
            final(self).particles@ == active_filter(old(self).particles@),
            forall|i: int|
                0 <= i < final(self).particles@.len()
                    ==> (#[trigger] final(self).particles@[i]).active,
            final(self).tracker == old(self).tracker,
            final(self).auto_fire_enabled == old(self).auto_fire_enabled,
            final(self).auto_fire_timer == old(self).auto_fire_timer,
            final(self).drag_active == old(self).drag_active,
            final(self).drag_start == old(self).drag_start,
            final(self).first_spawn_done == old(self).first_spawn_done,
            final(self).last_launched_position == old(self).last_launched_position,
            match old(self).last_launched {
                Some(j) => if old(self).particles@[j as int].active {
                    final(self).last_launched matches Some(m) && (m as int)
                        < final(self).particles@.len()
                        && final(self).particles@[m as int] == old(self).particles@[j as int]
                } else {
                    final(self).last_launched is None
                },
                None => final(self).last_launched is None,
            },
    {
        let n: usize = self.particles.len();
        let mut kept: Vec<Particle> = Vec::new();
        let mut new_last: Option<usize> = None;
        let mut i: usize = 0;
        while i < n
            invariant
                n == self.particles@.len(),
                i <= n,
                forall|j: int|
                    0 <= j < self.particles@.len() ==> (#[trigger] self.particles@[j]).wf(),
                kept@ == active_filter(self.particles@.take(i as int)),
                forall|j: int| 0 <= j < kept@.len() ==> (#[trigger] kept@[j]).active,
                forall|j: int| 0 <= j < kept@.len() ==> (#[trigger] kept@[j]).wf(),
                match old(self).last_launched {
                    Some(j) => if j < i && self.particles@[j as int].active {
                        new_last matches Some(m) && (m as int) < kept@.len()
                            && kept@[m as int] == self.particles@[j as int]
                    } else {
                        new_last is None
                    },
                    None => new_last is None,
                },
                self.particles == old(self).particles,
                self.last_launched == old(self).last_launched,
            decreases n - i,
        {
            let p: Particle = self.particles[i];
            proof {
                assert(self.particles@.take(i as int + 1).drop_last() =~= self.particles@.take(
                    i as int,
                ));
                assert(self.particles@.take(i as int + 1).last() == self.particles@[i as int]);
            }
            if p.active {
                let is_tracked: bool = match self.last_launched {
                    Some(j) => j == i,
                    None => false,
                };
                if is_tracked {
                    new_last = Some(kept.len());
                }
                kept.push(p);
            }
            i = i + 1;
        }
        proof {
            assert(self.particles@.take(n as int) =~= self.particles@);
        }
        self.particles = kept;
        self.last_launched = new_last;
    }

    /// Advance one tick: integrate and bounce every particle, rebuild the
    /// active counts, resolve every unordered pair in ascending index order,
    /// process the tick's events, run the auto-fire timer, purge retired
    /// particles, and return a snapshot.
    ///
    /// Whatever the events and the random draws, every particle left in the
    /// collection is active with a positive radius, and no collision counter
    /// ever decreases.
    pub fn step(
        &mut self,
        dt: i64,
        arena_w: i64,
        arena_h: i64,
        events: &Vec<InputEvent>,
        now: i64,
    ) -> (snap: Snapshot)
        requires
            old(self).wf(),
            0 <= dt <= FX_MAX,
            0 < arena_w <= FX_MAX,
            0 < arena_h <= FX_MAX,
            0 <= now <= FX_MAX,
            forall|e: int| 0 <= e < events@.len() ==> event_wf(#[trigger] events@[e]),
        ensures
            final(self).wf(),
            forall|k: int|
                0 <= k < BUCKET_COUNT ==> old(self).tracker.collision_count_by_bucket@[k]
                    <= final(self).tracker.collision_count_by_bucket@[k],
            forall|i: int|
                0 <= i < final(self).particles@.len()
                    ==> (#[trigger] final(self).particles@[i]).active
                        && final(self).particles@[i].radius > 0,
            snap.particles@ == final(self).particles@,
            snap.active_count_by_bucket@ == final(self).tracker.active_count_by_bucket@,
            snap.collision_count_by_bucket@ == final(self).tracker.collision_count_by_bucket@,
            ({
                let (phys_parts, phys_coll) = physics_s(
                    old(self).particles@,
                    old(self).tracker.collision_count_by_bucket@,
                    dt as int,
                    arena_w as int,
                    arena_h as int,
                );
                &&& final(self).tracker.collision_count_by_bucket@ == phys_coll
                &&& final(self).tracker.active_count_by_bucket@ == counts_of_s(
                    integrate_all_s(
                        old(self).particles@,
                        dt as int,
                        arena_w as int,
                        arena_h as int,
                    ),
                )
                &&& exists|spawned: Seq<Particle>|
                    final(self).particles@ == active_filter(phys_parts) + active_filter(spawned)
                        && spawned.len() <= events@.len() + 1
            }),
    {
        let ghost coll0 = self.tracker.collision_count_by_bucket@;

        // Integration and wall handling, per particle.
        let n: usize = self.particles.len();
        let mut i: usize = 0;
        while i < n
            invariant
                n == self.particles@.len(),
                i <= n,
                0 <= dt <= FX_MAX,
                0 < arena_w <= FX_MAX,
                0 < arena_h <= FX_MAX,
                forall|j: int|
                    0 <= j < self.particles@.len() ==> (#[trigger] self.particles@[j]).wf(),
                forall|j: int|
                    0 <= j < i ==> #[trigger] self.particles@[j] == crate::particle::particle_step_s(
                        old(self).particles@[j],
                        dt as int,
                        arena_w as int,
                        arena_h as int,
                    ),
                forall|j: int| i <= j < n ==> #[trigger] self.particles@[j] == old(self).particles@[j],
                self.tracker == old(self).tracker,
                self.tracker.wf(),
                coll0 == self.tracker.collision_count_by_bucket@,
                self.last_launched == old(self).last_launched,
                self.last_launched_position == old(self).last_launched_position,
                self.drag_active == old(self).drag_active,
                self.drag_start == old(self).drag_start,
                self.first_spawn_done == old(self).first_spawn_done,
                self.auto_fire_enabled == old(self).auto_fire_enabled,
                self.auto_fire_timer == old(self).auto_fire_timer,
            decreases n - i,
        {
            let mut p: Particle = self.particles[i];
            p.update(dt, arena_w, arena_h);
            self.particles[i] = p;
            i = i + 1;
        }

        let ghost moved = self.particles@;
        proof {
            assert(moved =~= integrate_all_s(
                old(self).particles@,
                dt as int,
                arena_w as int,
                arena_h as int,
            ));
        }

        // Fresh active counts for this tick's collision pass.
        self.tracker.recount(&self.particles);
        let ghost counts_mid = self.tracker.active_count_by_bucket@;
        proof {
            assert forall|k: int| 0 <= k < BUCKET_COUNT implies counts_mid[k] == counts_of_s(
                moved,
            )[k] by {
                crate::stats::lemma_tally_le_len(moved, k);
            }
            assert(counts_mid =~= counts_of_s(moved));
        }
        let ghost pass_result = resolve_pass_from_s(moved, counts_mid, coll0, 0, 1);

        // All unordered pairs, ascending, one pass.
        let m: usize = self.particles.len();
        let mut a: usize = 0;
        while a < m
            invariant
                m == self.particles@.len(),
                a <= m,
                forall|j: int|
                    0 <= j < self.particles@.len() ==> (#[trigger] self.particles@[j]).wf(),
                self.tracker.wf(),
                self.tracker.active_count_by_bucket@ == counts_mid,
                resolve_pass_from_s(
                    self.particles@,
                    counts_mid,
                    self.tracker.collision_count_by_bucket@,
                    a as int,
                    a as int + 1,
                ) == pass_result,
                forall|k: int|
                    0 <= k < BUCKET_COUNT ==> coll0[k]
                        <= #[trigger] self.tracker.collision_count_by_bucket@[k],
                self.last_launched == old(self).last_launched,
                self.last_launched_position == old(self).last_launched_position,
                self.drag_active == old(self).drag_active,
                self.drag_start == old(self).drag_start,
                self.first_spawn_done == old(self).first_spawn_done,
                self.auto_fire_enabled == old(self).auto_fire_enabled,
                self.auto_fire_timer == old(self).auto_fire_timer,
            decreases m - a,
        {
            let mut b: usize = a + 1;
            while b < m
                invariant
                    m == self.particles@.len(),
                    a < m,
                    a < b <= m,
                    forall|j: int|
                        0 <= j < self.particles@.len() ==> (#[trigger] self.particles@[j]).wf(),
                    self.tracker.wf(),
                    self.tracker.active_count_by_bucket@ == counts_mid,
                    resolve_pass_from_s(
                        self.particles@,
                        counts_mid,
                        self.tracker.collision_count_by_bucket@,
                        a as int,
                        b as int,
                    ) == pass_result,
                    forall|k: int|
                        0 <= k < BUCKET_COUNT ==> coll0[k]
                            <= #[trigger] self.tracker.collision_count_by_bucket@[k],
                    self.last_launched == old(self).last_launched,
                    self.last_launched_position == old(self).last_launched_position,
                    self.drag_active == old(self).drag_active,
                    self.drag_start == old(self).drag_start,
                    self.first_spawn_done == old(self).first_spawn_done,
                    self.auto_fire_enabled == old(self).auto_fire_enabled,
                    self.auto_fire_timer == old(self).auto_fire_timer,
                decreases m - b,
            {
                let ghost parts_pre = self.particles@;
                let ghost coll_pre = self.tracker.collision_count_by_bucket@;
                let pa: Particle = self.particles[a];
                let pb: Particle = self.particles[b];
                let (na, nb, hit): (Particle, Particle, bool) = resolve_pair(
                    pa,
                    pb,
                    &self.tracker.active_count_by_bucket,
                );
                self.particles[a] = na;
                self.particles[b] = nb;
                if hit {
                    let ka: usize = na.bucket();
                    let kb: usize = nb.bucket();
                    self.tracker.record_collision(ka, kb);
                }
                proof {
                    assert(self.particles@ =~= parts_pre.update(a as int, na).update(b as int, nb));
                    assert(resolve_pass_from_s(
                        self.particles@,
                        counts_mid,
                        self.tracker.collision_count_by_bucket@,
                        a as int,
                        b as int + 1,
                    ) == resolve_pass_from_s(parts_pre, counts_mid, coll_pre, a as int, b as int));
                }
                b = b + 1;
            }
            proof {
                if a as int + 1 >= m as int {
                    assert(resolve_pass_from_s(
                        self.particles@,
                        counts_mid,
                        self.tracker.collision_count_by_bucket@,
                        a as int,
                        m as int,
                    ) == (self.particles@, self.tracker.collision_count_by_bucket@));
                    assert(resolve_pass_from_s(
                        self.particles@,
                        counts_mid,
                        self.tracker.collision_count_by_bucket@,
                        a as int + 1,
                        a as int + 2,
                    ) == (self.particles@, self.tracker.collision_count_by_bucket@));
                }
            }
            a = a + 1;
        }
        proof {
            assert(resolve_pass_from_s(
                self.particles@,
                counts_mid,
                self.tracker.collision_count_by_bucket@,
                m as int,
                m as int + 1,
            ) == (self.particles@, self.tracker.collision_count_by_bucket@));
        }
        let ghost pass_parts = self.particles@;
        proof {
            assert(pass_parts == pass_result.0);
            assert(self.tracker.collision_count_by_bucket@ == pass_result.1);
        }

        // The tracked particle may have moved; refresh the launch origin.
        match self.last_launched {
            Some(t) => {
                if self.particles[t].active {
                    self.last_launched_position = self.particles[t].position;
                }
            },
            None => {},
        }

        // This tick's input events, in order.
        let ghost mut spawned: Seq<Particle> = Seq::empty();
        proof {
            assert(self.particles@ =~= pass_parts + spawned);
        }
        let ne: usize = events.len();
        let mut e: usize = 0;
        while e < ne
            invariant
                ne == events@.len(),
                e <= ne,
                0 <= now <= FX_MAX,
                forall|j: int| 0 <= j < events@.len() ==> event_wf(#[trigger] events@[j]),
                self.wf(),
                self.particles@ == pass_parts + spawned,
                spawned.len() <= e,
                self.tracker.active_count_by_bucket@ == counts_mid,
                self.tracker.collision_count_by_bucket@ == pass_result.1,
                forall|k: int|
                    0 <= k < BUCKET_COUNT ==> coll0[k]
                        <= #[trigger] self.tracker.collision_count_by_bucket@[k],
            decreases ne - e,
        {
            let ev: InputEvent = events[e];
            match ev {
                InputEvent::PointerDown { pos } => {
                    self.drag_active = true;
                    self.drag_start = pos;
                },
                InputEvent::PointerUp { pos } => {
                    if self.drag_active {
                        self.drag_active = false;
                        let start: Vec2 = self.drag_start;
                        self.spawn_from_drag(start, pos, now);
                        proof {
                            spawned = spawned.push(self.particles@.last());
                            assert(self.particles@ =~= pass_parts + spawned);
                        }
                    }
                },
                InputEvent::KeyToggle => {
                    self.toggle_auto_fire();
                },
                InputEvent::AutoFireElapsed => {
                    if self.auto_fire_enabled {
                        self.auto_fire_timer = AUTO_FIRE_INTERVAL;
                    }
                },
            }
            e = e + 1;
        }

        // Auto-fire: accrue the timer while enabled; on expiry, launch at
        // the farthest active particle from the last launch point.
        if self.auto_fire_enabled {
            self.auto_fire_timer = fx_add(self.auto_fire_timer, dt);
            if self.auto_fire_timer >= AUTO_FIRE_INTERVAL {
                self.auto_fire_timer = 0;
                match farthest_from(&self.particles, self.last_launched_position) {
                    Some(ti) => {
                        let target: Particle = self.particles[ti];
                        let hue: i64 = pick_spawn_hue(&self.tracker);
                        let vel: Vec2 = auto_velocity(self.last_launched_position, target.position);
                        let origin: Vec2 = self.last_launched_position;
                        let p = Particle {
                            position: origin,
                            velocity: vel,
                            radius: SPAWN_RADIUS,
                            hue,
                            active: true,
                        };
                        let new_idx: usize = self.particles.len();
                        self.particles.push(p);
                        self.last_launched = Some(new_idx);
                        proof {
                            spawned = spawned.push(p);
                            assert(self.particles@ =~= pass_parts + spawned);
                        }
                    },
                    None => {},
                }
            }
        }

        // Retired particles leave the collection.
        self.purge();
        proof {
            lemma_active_filter_add(pass_parts, spawned);
            assert(self.particles@ == active_filter(pass_result.0) + active_filter(spawned)
                && spawned.len() <= events@.len() + 1);
            assert(moved == integrate_all_s(
                old(self).particles@,
                dt as int,
                arena_w as int,
                arena_h as int,
            ));
            assert(counts_mid == counts_of_s(moved));
        }

        Snapshot {
            particles: copy_particles(&self.particles),
            active_count_by_bucket: copy_counts(&self.tracker.active_count_by_bucket),
            collision_count_by_bucket: copy_counts(&self.tracker.collision_count_by_bucket),
        }
    }
}

/// An element-wise copy of a particle list.
fn copy_particles(v: &Vec<Particle>) -> (r: Vec<Particle>)
    ensures
        r@ == v@,
{
    let mut r: Vec<Particle> = Vec::new();
    let mut i: usize = 0;
    while i < v.len()
        invariant
            i <= v@.len(),
            r@ == v@.take(i as int),
        decreases v@.len() - i,
    {
        r.push(v[i]);
        proof {
            assert(v@.take(i as int + 1) =~= v@.take(i as int).push(v@[i as int]));
        }
        i = i + 1;
    }
    proof {
        assert(v@.take(v@.len() as int) =~= v@);
    }
    r
}

/// An element-wise copy of a counter list.
fn copy_counts(v: &Vec<u64>) -> (r: Vec<u64>)
    ensures
        r@ == v@,
{
    let mut r: Vec<u64> = Vec::new();
    let mut i: usize = 0;
    while i < v.len()
        invariant
            i <= v@.len(),
            r@ == v@.take(i as int),
        decreases v@.len() - i,
    {
        r.push(v[i]);
        proof {
            assert(v@.take(i as int + 1) =~= v@.take(i as int).push(v@[i as int]));
        }
        i = i + 1;
    }
    proof {
        assert(v@.take(v@.len() as int) =~= v@);
    }
    r
}

} // verus!
