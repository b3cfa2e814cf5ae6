//! The deferred-creation command buffer.
//!
//! Systems cannot insert components while storages are being iterated, so
//! they allocate the entity immediately — it is live at once — and record
//! the components in a bundle here; the maintenance pass materializes every
//! bundle into the storages before the next tick observes them.

use crate::block::{Laser, Miner};
use crate::collider::Collider;
use crate::entity::Entity;
use crate::objects::{Asteroid, Health, MiningMissle};
use crate::render::Model;
use crate::ship::{BlockEntity, GadgetEntity};
use crate::transform::{RigidBody, Transform};
use vstd::prelude::*;

verus! {

/// The components one deferred creation attaches to its entity.
pub struct SpawnBundle {
    pub model: Option<Model>,
    pub transform: Option<Transform>,
    pub body: Option<RigidBody>,
    pub collider: Option<Collider>,
    pub block: Option<BlockEntity>,
    pub gadget: Option<GadgetEntity>,
    pub asteroid: Option<Asteroid>,
    pub health: Option<Health>,
    pub missile: Option<MiningMissle>,
    pub miner: Option<Miner>,
    pub laser: Option<Laser>,
}

impl SpawnBundle {
    /// A bundle with no components.
    pub fn empty() -> (r: SpawnBundle)
        ensures
            r.model is None,
            r.transform is None,
            r.body is None,
            r.collider is None,
            r.block is None,
            r.gadget is None,
            r.asteroid is None,
            r.health is None,
            r.missile is None,
            r.miner is None,
            r.laser is None,
    {
        SpawnBundle {
            model: None,
            transform: None,
            body: None,
            collider: None,
            block: None,
            gadget: None,
            asteroid: None,
            health: None,
            missile: None,
            miner: None,
            laser: None,
        }
    }
}

/// A bundle whose spatial data respects the world's bounds: its transform
/// and velocity are in range and its collider's hitbox is bounded.
pub open spec fn bundle_wf(b: SpawnBundle) -> bool {
    &&& match b.model {
        Option::Some(m) => m.model_id is None,
        Option::None => true,
    }
    &&& match b.transform {
        Option::Some(t) => t.wf(),
        Option::None => true,
    }
    &&& match b.body {
        Option::Some(rb) => rb.wf(),
        Option::None => true,
    }
    &&& match b.collider {
        Option::Some(c) => c.hitbox.wf(),
        Option::None => true,
    }
}

/// The per-tick buffer of deferred creations, applied at maintenance.
pub struct PendingSpawns {
    records: Vec<(Entity, SpawnBundle)>,
}

impl View for PendingSpawns {
    type V = Seq<(Entity, SpawnBundle)>;

    closed spec fn view(&self) -> Seq<(Entity, SpawnBundle)> {
        self.records@
    }
}

impl PendingSpawns {
    /// An empty buffer.
    pub fn new() -> (r: PendingSpawns)
        ensures
            r@ =~= Seq::<(Entity, SpawnBundle)>::empty(),
    {
        PendingSpawns { records: Vec::new() }
    }

    /// How many creations are pending.
    pub fn len(&self) -> (r: usize)
        ensures
            r == self@.len(),
    {
        self.records.len()
    }

    /// The pending record at position `i`.
    pub fn at(&self, i: usize) -> (r: &(Entity, SpawnBundle))
        requires
            i < self@.len(),
        ensures
            *r == self@[i as int],
    {
        &self.records[i]
    }

    /// Records a deferred creation for `e`.
    pub fn push(&mut self, e: Entity, bundle: SpawnBundle)
        ensures
            final(self)@ =~= old(self)@.push((e, bundle)),
    {
        self.records.push((e, bundle));
    }

    /// Empties the buffer after its records were materialized.
    pub fn clear(&mut self)
        ensures
            final(self)@ =~= Seq::<(Entity, SpawnBundle)>::empty(),
    {
        self.records.clear();
    }
}

} // verus!
