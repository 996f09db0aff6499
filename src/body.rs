//! The data of one simulated sphere.
use vstd::prelude::*;

verus! {

/// A point or a vector in world space, one integer per axis.
#[derive(Clone, Copy, Debug, PartialEq, Eq, Structural)]
pub struct Vec3 {
    pub x: i64,
    pub y: i64,
    pub z: i64,
}

impl Vec3 {
    pub fn new(x: i64, y: i64, z: i64) -> (r: Vec3)
        ensures
            r == (Vec3 { x, y, z }),
    {
        Vec3 { x, y, z }
    }

    pub fn zero() -> (r: Vec3)
        ensures
            r == (Vec3 { x: 0, y: 0, z: 0 }),
    {
        Vec3 { x: 0, y: 0, z: 0 }
    }
}

/// The mass of a body: a positive amount, or infinite for a static body.
#[derive(Clone, Copy, Debug, PartialEq, Eq, Structural)]
pub enum Mass {
    Finite(u64),
    Static,
}

impl Mass {
    /// A finite mass must be positive.
    pub open spec fn valid(self) -> bool {
        match self {
            Mass::Finite(m) => m > 0,
            Mass::Static => true,
        }
    }

    pub fn is_static(&self) -> (r: bool)
        ensures
            r == (*self is Static),
    {
        match self {
            Mass::Finite(_) => false,
            Mass::Static => true,
        }
    }
}

/// A snapshot of one simulated sphere.
#[derive(Clone, Copy, Debug, PartialEq, Eq, Structural)]
pub struct Body {
    pub id: usize,
    pub position: Vec3,
    pub velocity: Vec3,
    pub radius: i64,
    pub mass: Mass,
    pub active: bool,
}

impl Body {
    /// Radius positive and mass positive or static.
    pub open spec fn valid(self) -> bool {
        self.radius > 0 && self.mass.valid()
    }

    /// Moved by integration: active and not static.
    pub open spec fn movable(self) -> bool {
        self.active && !(self.mass is Static)
    }
}

/// Why a call on a world failed.
#[derive(Clone, Copy, Debug, PartialEq, Eq, Structural)]
pub enum PhysicsError {
    /// No live body has the given id.
    NotFound,
    /// The time step is negative.
    InvalidTimeStep,
    /// The configured maximum body count is reached, or the store is full.
    CapacityExceeded,
    /// A position or velocity would leave the range of a 64-bit integer.
    OutOfRange,
}

} // verus!
