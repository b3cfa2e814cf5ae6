//! Fixed-point scalars, vectors and grid coordinates.
//!
//! One world unit is `MILLI` coordinate steps. Positions are kept within
//! `POS_LIMIT`, shape extents and offsets within `SIZE_LIMIT`, and per-tick
//! velocities within `VEL_LIMIT`; these bounds make every geometric
//! computation in the crate provably free of overflow.

use vstd::prelude::*;

verus! {

/// Coordinate steps per world unit.
pub const MILLI: i64 = 1000;

/// Largest magnitude a position coordinate may take.
pub const POS_LIMIT: i64 = 0x10000000;

/// Largest magnitude a shape extent, radius or offset coordinate may take.
pub const SIZE_LIMIT: i64 = 0x100000;

/// Largest magnitude a per-tick velocity coordinate may take.
pub const VEL_LIMIT: i64 = 0x100000;

/// A three-component fixed-point vector.
#[derive(Debug, Clone, Copy, PartialEq, Eq, Structural)]
pub struct Vec3 {
    pub x: i64,
    pub y: i64,
    pub z: i64,
}

/// Whether every coordinate of `v` has magnitude at most `limit`.
pub open spec fn vec_within(v: Vec3, limit: i64) -> bool {
    -limit <= v.x <= limit && -limit <= v.y <= limit && -limit <= v.z <= limit
}

impl Vec3 {
    /// The vector with the given coordinates.
    pub fn new(x: i64, y: i64, z: i64) -> (r: Vec3)
        ensures
            r == (Vec3 { x, y, z }),
    {
        Vec3 { x, y, z }
    }

    /// The zero vector.
    pub fn zero() -> (r: Vec3)
        ensures
            r == (Vec3 { x: 0, y: 0, z: 0 }),
    {
        Vec3 { x: 0, y: 0, z: 0 }
    }

    /// Componentwise sum; the caller keeps the coordinates in range.
    pub fn add(&self, other: &Vec3) -> (r: Vec3)
        requires
            vec_within(*self, POS_LIMIT),
            vec_within(*other, POS_LIMIT),
        ensures
            r == (Vec3 {
                x: (self.x + other.x) as i64,
                y: (self.y + other.y) as i64,
                z: (self.z + other.z) as i64,
            }),
    {
        Vec3 { x: self.x + other.x, y: self.y + other.y, z: self.z + other.z }
    }
}

/// Clamps `v` into `[-limit, limit]`.
pub open spec fn spec_clamp(v: int, limit: int) -> int {
    if v < -limit {
        -limit
    } else if v > limit {
        limit
    } else {
        v
    }
}

/// Clamps a scalar into `[-limit, limit]`.
pub fn clamp_i64(v: i64, limit: i64) -> (r: i64)
    requires
        0 <= limit,
    ensures
        r == spec_clamp(v as int, limit as int),
{
    if v < -limit {
        -limit
    } else if v > limit {
        limit
    } else {
        v
    }
}

/// A tile coordinate on a ship's grid.
#[derive(Debug, Clone, Copy, PartialEq, Eq, Structural)]
pub struct GridPos {
    pub x: i16,
    pub y: i16,
}

impl GridPos {
    /// The grid coordinate `(x, y)`.
    pub fn new(x: i16, y: i16) -> (r: GridPos)
        ensures
            r == (GridPos { x, y }),
    {
        GridPos { x, y }
    }
}

} // verus!
