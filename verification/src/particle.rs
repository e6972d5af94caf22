//! A circular particle: position, velocity, radius, hue and an active flag,
//! with its per-tick update (velocity integration, wall reflection with
//! restitution, friction decay).

use vstd::prelude::*;
use crate::fx::{
    fx_add, fx_add_s, fx_frac, fx_frac_s, fx_mul, fx_mul_s, in_fx, FX_MAX,
};
use crate::geom::Vec2;

verus! {

/// Number of discrete hue buckets used for statistics and spawn fairness.
pub const BUCKET_COUNT: usize = 10;

/// Width of one hue bucket in fixed-point hue units (hue spans `[0, 1000)`).
pub const BUCKET_WIDTH: i64 = 100;

/// Radius below which a particle produced by a collision is retired.
pub const RADIUS_MIN: i64 = 5000;

#[derive(Clone, Copy, Debug, PartialEq, Eq, Structural)]
pub struct Particle {
    pub position: Vec2,
    pub velocity: Vec2,
    pub radius: i64,
    /// Hue in fixed point: `[0, 1000)` stands for the real interval `[0, 1)`.
    pub hue: i64,
    /// A retired particle is excluded from updates, collisions and drawing,
    /// and is purged from the collection at the end of the tick.
    pub active: bool,
}

/// Bucket a hue falls in: ten equal slices of `[0, 1000)`.
pub open spec fn bucket_of(hue: int) -> int {
    hue / (BUCKET_WIDTH as int)
}

impl Particle {
    /// Structural invariant: coordinates in the fixed-point range, hue inside
    /// `[0, 1000)`, and a positive radius as long as the particle is active.
    pub open spec fn wf(self) -> bool {
        &&& self.position.wf()
        &&& self.velocity.wf()
        &&& 0 <= self.radius <= FX_MAX
        &&& 0 <= self.hue < 1000
        &&& self.active ==> self.radius > 0
    }

    /// A fresh, active particle at rest.
    pub fn new(x: i64, y: i64, radius: i64, hue: i64) -> (p: Particle)
        requires
            in_fx(x as int),
            in_fx(y as int),
            0 < radius <= FX_MAX,
            0 <= hue < 1000,
        ensures
            p == (Particle {
                position: Vec2 { x, y },
                velocity: Vec2 { x: 0, y: 0 },
                radius,
                hue,
                active: true,
            }),
            p.wf(),
    {
        Particle {
            position: Vec2 { x, y },
            velocity: Vec2 { x: 0, y: 0 },
            radius,
            hue,
            active: true,
        }
    }

    /// Bucket index of this particle's hue.
    pub fn bucket(&self) -> (k: usize)
        requires
            self.wf(),
        ensures
            k == bucket_of(self.hue as int),
            k < BUCKET_COUNT,
    {
        ((self.hue as u64) / (BUCKET_WIDTH as u64)) as usize
    }

    /// Advance this particle by `dt`, reflecting off the walls of a
    /// `w` by `h` arena and applying friction; inactive particles are
    /// untouched.
    pub fn update(&mut self, dt: i64, w: i64, h: i64)
        requires
            old(self).wf(),
            0 <= dt <= FX_MAX,
            0 < w <= FX_MAX,
            0 < h <= FX_MAX,
        ensures
            *final(self) == particle_step_s(*old(self), dt as int, w as int, h as int),
            final(self).wf(),
    {
        if !self.active {
            return;
        }
        let px: i64 = fx_add(self.position.x, fx_mul(self.velocity.x, dt));
        let py: i64 = fx_add(self.position.y, fx_mul(self.velocity.y, dt));

        let mut vx: i64 = self.velocity.x;
        let mut vy: i64 = self.velocity.y;
        let mut cx: i64 = px;
        let mut cy: i64 = py;

        if px - self.radius < 0 {
            cx = self.radius;
            vx = fx_frac(-vx, 4, 5);
        } else if px + self.radius > w {
            cx = w - self.radius;
            vx = fx_frac(-vx, 4, 5);
        }
        if py - self.radius < 0 {
            cy = self.radius;
            vy = fx_frac(-vy, 4, 5);
        } else if py + self.radius > h {
            cy = h - self.radius;
            vy = fx_frac(-vy, 4, 5);
        }

        self.position = Vec2 { x: cx, y: cy };
        self.velocity = Vec2 { x: fx_frac(vx, 99, 100), y: fx_frac(vy, 99, 100) };
    }
}

/// Position on one axis after integration, before wall handling.
pub open spec fn axis_integrate_s(p: int, v: int, dt: int) -> int {
    fx_add_s(p, fx_mul_s(v, dt))
}

/// Position on one axis after wall handling: the particle's leading edge is
/// clamped back inside `[0, ext]`; the lower wall takes precedence.
pub open spec fn axis_clamp_pos_s(p: int, r: int, ext: int) -> int {
    if p - r < 0 {
        r
    } else if p + r > ext {
        ext - r
    } else {
        p
    }
}

/// Velocity component on one axis after wall handling: reflected and scaled
/// by the restitution `4/5` when a wall was crossed.
pub open spec fn axis_bounce_vel_s(p: int, r: int, ext: int, v: int) -> int {
    if p - r < 0 || p + r > ext {
        fx_frac_s(-v, 4, 5)
    } else {
        v
    }
}

/// Velocity component after the per-tick friction decay `99/100`.
pub open spec fn axis_friction_s(v: int) -> int {
    fx_frac_s(v, 99, 100)
}

/// The whole per-tick particle update: integrate, clamp and reflect on each
/// axis independently, then apply friction once.
pub open spec fn particle_step_s(p: Particle, dt: int, w: int, h: int) -> Particle {
    if !p.active {
        p
    } else {
        let px = axis_integrate_s(p.position.x as int, p.velocity.x as int, dt);
        let py = axis_integrate_s(p.position.y as int, p.velocity.y as int, dt);
        Particle {
            position: Vec2 {
                x: axis_clamp_pos_s(px, p.radius as int, w) as i64,
                y: axis_clamp_pos_s(py, p.radius as int, h) as i64,
            },
            velocity: Vec2 {
                x: axis_friction_s(axis_bounce_vel_s(px, p.radius as int, w, p.velocity.x as int)) as i64,
                y: axis_friction_s(axis_bounce_vel_s(py, p.radius as int, h, p.velocity.y as int)) as i64,
            },
            radius: p.radius,
            hue: p.hue,
            active: p.active,
        }
    }
}

} // verus!
