//! A deterministic, fixed-step physics world of spheres.
//!
//! All quantities are integers in fixed point, so that every step is exact
//! and two worlds fed the same calls end in bit-identical states:
//! - lengths (positions, radii) are in nano-units, 10^-9 of a world unit;
//! - time is in milliseconds;
//! - velocity is in nano-units per millisecond (10^6 of them make one world
//!   unit per second);
//! - acceleration is in nano-units per square millisecond (gravity of
//!   9.81 world units per square second is 9810 of them).
use vstd::prelude::*;

pub mod body;
pub mod collision;
pub mod integration;
pub mod laws;
pub mod world;

pub use body::{Body, Mass, PhysicsError, Vec3};
pub use world::PhysicsWorld;

verus! {

/// Sum of two 32-bit integers; the sum must fit.
pub fn add(a: i32, b: i32) -> (r: i32)
    requires
        i32::MIN <= a + b <= i32::MAX,
    ensures
        r == a + b,
{
    a + b
}

} // verus!
