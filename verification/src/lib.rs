//! A 2D Verlet-integration particle simulation on fixed-point coordinates.
//!
//! Equal-radius circular particles live inside a circular arena. Each
//! sub-step integrates every particle (position-based Verlet), confines it
//! to the arena, and then resolves pairwise overlaps by symmetric positional
//! correction. All coordinates are integers (fixed-point units), so every
//! update is exact arithmetic with proved overflow bounds.

use vstd::prelude::*;

pub mod hex;
pub mod intsqrt;
pub mod laws;
pub mod particle;
pub mod state;
pub mod vecmath;
pub mod world;

verus! {

/// Largest sub-step delta (in time ticks) a step accepts.
pub const DT_LIMIT: i64 = 64;

/// Largest gravity component magnitude (units per tick squared).
pub const GRAVITY_LIMIT: i64 = 65536;

/// Largest accumulated-acceleration component magnitude a particle may carry
/// into an integration.
pub const ACCEL_LIMIT: i64 = 1048576;

/// Largest arena radius and largest arena-center component magnitude.
pub const ARENA_LIMIT: i64 = 1048576;

/// Largest particle radius.
pub const RADIUS_LIMIT: i64 = 1024;

/// Largest particle count a simulation step accepts.
pub const LEN_LIMIT: usize = 65536;

/// Position-component bound that holds for every particle between steps.
pub const POS_LIMIT: i64 = 8796093022208;

/// Position-component bound accepted by the boundary constraint.
pub const CONFINE_LIMIT: i64 = 1125899906842624;

/// Position-component bound that holds right after confinement: the arena
/// center plus the arena radius.
pub const SETTLED_LIMIT: i64 = ARENA_LIMIT + ARENA_LIMIT;

/// Largest displacement one integration adds beyond the implicit velocity:
/// the acceleration bound times the squared delta bound.
pub const KICK_LIMIT: i64 = (ACCEL_LIMIT + GRAVITY_LIMIT) * DT_LIMIT * DT_LIMIT;

/// Position-component bound right after one integration of in-bounds state.
pub const INTEGRATE_LIMIT: i64 = 3 * POS_LIMIT + KICK_LIMIT;

} // verus!
