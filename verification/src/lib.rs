//! A bounded two-dimensional arena of circular particles that move under
//! velocity integration, bounce off walls, and exchange momentum and area
//! through pairwise collisions, with per-hue-bucket statistics feeding a
//! spawn policy for newly launched particles.
//!
//! All simulation arithmetic is saturating fixed-point with three fractional
//! decimal digits (see [`fx`]), which keeps every step deterministic and lets
//! each operation carry an exact contract.

pub mod fx;
pub mod geom;
pub mod particle;
pub mod stats;
pub mod collide;
pub mod spawn;
pub mod sim;
