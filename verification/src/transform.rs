//! Spatial state of entities: pose, scale and linear velocity.

use crate::math::{vec_within, Vec3, MILLI, POS_LIMIT, SIZE_LIMIT, VEL_LIMIT};
use vstd::prelude::*;

verus! {

/// A rotation about the z axis, stored as the facing direction in the
/// xy plane (fixed point, not necessarily normalized). The identity
/// rotation faces `(MILLI, 0)`.
#[derive(Debug, Clone, Copy, PartialEq, Eq, Structural)]
pub struct RotZ {
    pub x: i64,
    pub y: i64,
}

impl RotZ {
    /// The identity rotation.
    pub fn identity() -> (r: RotZ)
        ensures
            r == (RotZ { x: MILLI as i64, y: 0i64 }),
    {
        RotZ { x: MILLI, y: 0 }
    }
}

/// An entity's position, rotation and scale within space.
///
/// Scale is fixed point (`MILLI` is scale one); a scale of exactly zero on
/// every axis is the established "logically invisible" convention.
#[derive(Debug, Clone, Copy, PartialEq, Eq, Structural)]
pub struct Transform {
    pub position: Vec3,
    pub rotation: RotZ,
    pub scale: Vec3,
}

impl Transform {
    /// Position in range and scale non-negative and bounded.
    pub open spec fn wf(self) -> bool {
        &&& vec_within(self.position, POS_LIMIT)
        &&& 0 <= self.scale.x <= SIZE_LIMIT
        &&& 0 <= self.scale.y <= SIZE_LIMIT
        &&& 0 <= self.scale.z <= SIZE_LIMIT
    }

    /// A transform at the given position, unrotated, at scale one.
    pub fn from_position(x: i64, y: i64, z: i64) -> (r: Transform)
        requires
            -POS_LIMIT <= x <= POS_LIMIT,
            -POS_LIMIT <= y <= POS_LIMIT,
            -POS_LIMIT <= z <= POS_LIMIT,
        ensures
            r.position == (Vec3 { x, y, z }),
            r.rotation == (RotZ { x: MILLI as i64, y: 0i64 }),
            r.scale == (Vec3 { x: MILLI as i64, y: MILLI as i64, z: MILLI as i64 }),
            r.wf(),
    {
        Transform {
            position: Vec3 { x, y, z },
            rotation: RotZ { x: MILLI, y: 0 },
            scale: Vec3 { x: MILLI, y: MILLI, z: MILLI },
        }
    }

    /// Points the transform along the direction `(x, y)` in the xy plane.
    pub fn set_rotation_z(&mut self, x: i64, y: i64)
        ensures
            *final(self) == (Transform { rotation: RotZ { x, y }, ..*old(self) }),
    {
        self.rotation = RotZ { x, y };
    }
}

/// Linear velocity, in coordinate steps per fixed tick; integrated into the
/// transform by the physics system once per tick.
#[derive(Debug, Clone, Copy, PartialEq, Eq, Structural)]
pub struct RigidBody {
    pub velocity: Vec3,
}

impl RigidBody {
    /// Velocity within the per-tick limit.
    pub open spec fn wf(self) -> bool {
        vec_within(self.velocity, VEL_LIMIT)
    }
}

} // verus!
