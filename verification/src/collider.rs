//! The collider component: an entity's collision shape, its collision
//! group, and the groups it is tested against.

use crate::geom::Hitbox;
use vstd::prelude::*;

verus! {

/// Internal-only group for raycast registrations; it never matches another
/// group's whitelist, so persistent registrations cannot collide with each
/// other.
pub const GROUP_RAYCAST: u32 = 0;

/// Collision group of asteroids.
pub const GROUP_ASTEROID: u32 = 1;

/// Collision group of ship blocks and gadgets.
pub const GROUP_SHIP: u32 = 2;

/// Collision group of mining missiles.
pub const GROUP_MISSLE: u32 = 3;

/// Shape, collision group and whitelist of one entity.
///
/// Whether the entity is registered in the persistent raycast world is
/// recorded per entity in the world context's handle table: the handle
/// being present is the single source of truth for "already added, update
/// in place" against "first time, insert", and removal cleanup drops the
/// handle exactly once.
pub struct Collider {
    pub hitbox: Hitbox,
    pub group: u32,
    pub whitelist: Vec<u32>,
}

impl Collider {
    /// A collider not yet registered in the raycast world.
    pub fn new(hitbox: Hitbox, group: u32, whitelist: Vec<u32>) -> (r: Collider)
        ensures
            r.hitbox == hitbox,
            r.group == group,
            r.whitelist@ == whitelist@,
    {
        Collider { hitbox, group, whitelist }
    }
}

/// Two colliders are tested against each other only when each one's group
/// stands in the other's whitelist; an entity whose group is missing from
/// its own whitelist therefore never meets its own group.
pub open spec fn groups_interact(g1: u32, wl1: Seq<u32>, g2: u32, wl2: Seq<u32>) -> bool {
    wl1.contains(g2) && wl2.contains(g1)
}

/// Whether `g` stands in the whitelist `v`.
pub fn contains_group(v: &Vec<u32>, g: u32) -> (r: bool)
    ensures
        r == v@.contains(g),
{
    let n = v.len();
    let mut i: usize = 0;
    while i < n
        invariant
            n == v@.len(),
            i <= n,
            forall|j: int| 0 <= j < i ==> v@[j] != g,
        decreases n - i,
    {
        if v[i] == g {
            assert(v@[i as int] == g);
            return true;
        }
        i = i + 1;
    }
    false
}

} // verus!
