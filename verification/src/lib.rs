//! Animates articulated, worm-like creatures on a 2D canvas.
//!
//! A creature is a chain of joints that follows a roaming head under a
//! distance-constrained relaxation rule; each frame the relaxed chain is
//! turned into a closed outline or a triangulated mesh for rendering.
//!
//! All geometry is carried in integer coordinates ("units"); a caller maps
//! units to pixels at whatever resolution it likes. Scaled directions are
//! computed with an exact integer square root, so every contract below is
//! stated over plain integer arithmetic.
use vstd::prelude::*;

pub mod mesh;
pub mod point;
pub mod worm;

verus! {

/// Largest magnitude a stored coordinate (joint position, roam target,
/// viewport extent) may have.
pub const COORD_MAX: i64 = 268435456;

/// Largest magnitude the vector operations accept for an operand
/// coordinate; differences and sums of stored coordinates stay below it.
pub const OP_MAX: i64 = 1073741824;

/// Largest control or body radius a joint may carry.
pub const RADIUS_MAX: i64 = 1048576;

/// Radius of the disc around the head from which roam targets are drawn.
pub const ROAM_RADIUS: i64 = 20000;

/// Distance the head advances toward its target each frame.
pub const SPEED: i64 = 5;

/// Fixed-point unit for the rotation table: a cosine or sine value `v`
/// stands for the real number `v / FIX_ONE`.
pub const FIX_ONE: i64 = 65536;

} // verus!
