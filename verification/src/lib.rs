//! A fixed-point 2D particle simulation: equal-mass discs that drift under
//! velocity integration, bounce off the walls of a rectangle, resolve pairwise
//! overlaps as elastic collisions, and can be grabbed and thrown by a pointer.
//!
//! All coordinates, velocities and times are integers in a fixed-point
//! representation: one world unit is `SCALE` steps, speeds are in steps per
//! second, and time deltas are in `SCALE`-ths of a second.

use vstd::prelude::*;

pub mod collide;
pub mod num;
pub mod particle;
pub mod pick;
pub mod rng;
pub mod spawn;
pub mod vec2;
pub mod world;

verus! {

/// Fixed-point scale: the number of integer steps per world unit.
pub const SCALE: i64 = 1000;

/// Smallest speed given to a freshly seeded particle, in steps per second.
pub const SPEED_MIN: i64 = 40 * SCALE;

/// Largest speed given to a freshly seeded particle, in steps per second.
pub const SPEED_MAX: i64 = 120 * SCALE;

/// Cap on the speed a thrown particle inherits from the pointer.
pub const THROW_CAP: i64 = 900 * SCALE;

/// How far from a particle centre the pointer may be and still pick it up.
pub const PICK_RADIUS: i64 = 18 * SCALE;

/// The disc radius the frame driver is expected to use.
pub const POINT_RADIUS: i64 = 4 * SCALE;

/// Population size used when the caller does not choose one.
pub const DEFAULT_COUNT: usize = 200;

/// Largest disc radius the simulation accepts.
pub const RADIUS_LIMIT: i64 = 0x100000;

/// Largest viewport extent the simulation accepts.
pub const EXTENT_LIMIT: i64 = 0x80000000;

/// Particles with a coordinate or velocity component beyond this are left out
/// of collision resolution for the frame, so that the pass stays total.
pub const COORD_GUARD: i64 = 0x100000000;

/// Every coordinate and velocity component of a well-formed world stays
/// within this bound across steps.
pub const STATE_LIMIT: i64 = 0x10000000000;

/// Largest time delta for one step, in `SCALE`-ths of a second.
pub const DT_LIMIT: i64 = 0x400000;

} // verus!
