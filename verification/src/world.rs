//! The assembled simulation: every storage and singleton resource in one
//! context, and the fixed tick that drives them in order — input, gameplay
//! systems, the hard barrier, physics, raycast refresh, model sync, and
//! maintenance last.

use crate::block::{laser_system, miner_system, Blocks, Laser, Miner};
use crate::collider::Collider;
use crate::entity::{Entity, EntityStore};
use crate::floor::Floors;
use crate::gameplay::{asteroid_field_update, AsteroidField};
use crate::geom::RAY_LIMIT;
use crate::input::{input_update, InputAction, InputState};
use crate::item::Inventory;
use crate::math::{vec_within, GridPos, Vec3};
use crate::objects::{
    asteroid_mined, asteroid_shrink, missile_update, no_more_health, spec_mined_rewards,
    Asteroid, Health, MiningMissle,
};
use crate::physics::{bodies_ok, colliders_ok, run_physics, transforms_ok};
use crate::rcworld::{RaycastHandle, RaycastWorld};
use crate::removal::ToBeRemoved;
use crate::render::{
    HitboxMeshes, InstanceId, Line, MeshId, Model, ObjectMeshes, RenderInstances,
};
use crate::ship::{
    execute_build_actions, build_initial_ship, action_in_start_box, action_ok, BlockEntity,
    BuildAction, GadgetEntity, Ship, Tile, TileMap,
};
use crate::spawn::{bundle_wf, PendingSpawns};
use crate::storage::EntityMap;
use crate::sync::{
    cleanup_models, cleanup_raycast_registrations, handles_ok, models_ok,
    refresh_raycast_world, sync_models,
};
use crate::transform::{RigidBody, Transform};
use vstd::prelude::*;

verus! {

/// The whole simulation: the entity store, every component table, and the
/// singleton resources, with the per-tick schedule as methods.
pub struct ECS {
    pub store: EntityStore,
    pub removal: ToBeRemoved,
    pub pending: PendingSpawns,
    pub transforms: EntityMap<Transform>,
    pub bodies: EntityMap<RigidBody>,
    pub colliders: EntityMap<Collider>,
    pub models: EntityMap<Model>,
    pub block_entities: EntityMap<BlockEntity>,
    pub gadget_entities: EntityMap<GadgetEntity>,
    pub ships: EntityMap<Ship>,
    pub asteroids: EntityMap<Asteroid>,
    pub healths: EntityMap<Health>,
    pub missiles: EntityMap<MiningMissle>,
    pub miners: EntityMap<Miner>,
    pub lasers: EntityMap<Laser>,
    pub lines: EntityMap<Line>,
    pub raycast_handles: EntityMap<RaycastHandle>,
    pub rcworld: RaycastWorld,
    pub instances: RenderInstances,
    pub inventory: Inventory,
    pub blocks: Blocks,
    pub floors: Floors,
    pub hitbox_meshes: HitboxMeshes,
    pub object_meshes: ObjectMeshes,
    pub input: InputState,
    pub field: AsteroidField,
}

impl ECS {
    /// Everything the tick relies on: consistent tables, bounded spatial
    /// data, consistent raycast and render side structures, and a pending
    /// buffer of well-formed bundles for distinct entities.
    pub open spec fn wf(self) -> bool {
        &&& self.store.wf()
        &&& self.removal.wf()
        &&& self.transforms.wf()
        &&& self.bodies.wf()
        &&& self.colliders.wf()
        &&& self.models.wf()
        &&& self.block_entities.wf()
        &&& self.gadget_entities.wf()
        &&& self.ships.wf()
        &&& self.asteroids.wf()
        &&& self.healths.wf()
        &&& self.missiles.wf()
        &&& self.miners.wf()
        &&& self.lasers.wf()
        &&& self.lines.wf()
        &&& self.raycast_handles.wf()
        &&& transforms_ok(self.transforms@)
        &&& bodies_ok(self.bodies@)
        &&& colliders_ok(self.colliders@)
        &&& (forall|e: Entity| #[trigger]
            self.ships@.dom().contains(e) ==> self.ships@[e].wf())
        &&& self.blocks.wf()
        &&& self.rcworld.wf()
        &&& self.instances.wf()
        &&& handles_ok(self.raycast_handles@, self.rcworld@)
        &&& models_ok(self.models@, self.instances@)
        &&& self.field.wf()
        &&& (forall|j: int|
            0 <= j < self.pending@.len() ==> bundle_wf((#[trigger] self.pending@[j]).1))
        &&& (forall|j1: int, j2: int|
            0 <= j1 < j2 < self.pending@.len() ==> (#[trigger] self.pending@[j1]).0 != (
            #[trigger] self.pending@[j2]).0)
        &&& (forall|j: int|
            0 <= j < self.pending@.len() ==> self.store.spec_is_live(
                (#[trigger] self.pending@[j]).0,
            ))
    }

    /// Everything `flush` itself relies on: `wf` without the liveness of
    /// the pending entities, which maintenance has already revoked for the
    /// removed ones by the time it flushes.
    pub open spec fn flush_pre(self) -> bool {
        &&& self.store.wf()
        &&& self.removal.wf()
        &&& self.transforms.wf()
        &&& self.bodies.wf()
        &&& self.colliders.wf()
        &&& self.models.wf()
        &&& self.block_entities.wf()
        &&& self.gadget_entities.wf()
        &&& self.ships.wf()
        &&& self.asteroids.wf()
        &&& self.healths.wf()
        &&& self.missiles.wf()
        &&& self.miners.wf()
        &&& self.lasers.wf()
        &&& self.lines.wf()
        &&& self.raycast_handles.wf()
        &&& transforms_ok(self.transforms@)
        &&& bodies_ok(self.bodies@)
        &&& colliders_ok(self.colliders@)
        &&& (forall|e: Entity| #[trigger]
            self.ships@.dom().contains(e) ==> self.ships@[e].wf())
        &&& self.blocks.wf()
        &&& self.rcworld.wf()
        &&& self.instances.wf()
        &&& handles_ok(self.raycast_handles@, self.rcworld@)
        &&& models_ok(self.models@, self.instances@)
        &&& self.field.wf()
        &&& (forall|j: int|
            0 <= j < self.pending@.len() ==> bundle_wf((#[trigger] self.pending@[j]).1))
        &&& (forall|j1: int, j2: int|
            0 <= j1 < j2 < self.pending@.len() ==> (#[trigger] self.pending@[j1]).0 != (
            #[trigger] self.pending@[j2]).0)
    }

    /// Materializes every pending creation whose entity is still live:
    /// each bundle's components are inserted into their storages, and the
    /// buffer is emptied. A live pending block back-reference is in its
    /// table afterwards.
    #[verifier::rlimit(100)]
    #[verifier::spinoff_prover]
    #[verifier::loop_isolation(false)]
    pub fn flush(&mut self)
        requires
            old(self).flush_pre(),
        ensures
            final(self).wf(),
            final(self).pending@.len() == 0,
            final(self).store == old(self).store,
            final(self).removal == old(self).removal,
            final(self).ships == old(self).ships,
            final(self).inventory == old(self).inventory,
            final(self).rcworld == old(self).rcworld,
            final(self).instances == old(self).instances,
            final(self).raycast_handles == old(self).raycast_handles,
            final(self).lines == old(self).lines,
            final(self).blocks == old(self).blocks,
            final(self).floors == old(self).floors,
            final(self).hitbox_meshes == old(self).hitbox_meshes,
            final(self).object_meshes == old(self).object_meshes,
            final(self).input == old(self).input,
            final(self).field == old(self).field,
            forall|e: Entity|
                !old(self).store.spec_is_live(e) ==> final(self).transforms@.dom().contains(e)
                    == old(self).transforms@.dom().contains(e) && final(self).models@.dom().contains(e) == old(self).models@.dom().contains(e)
                    && final(self).block_entities@.dom().contains(e) == old(self).block_entities@.dom().contains(e)
                    && final(self).gadget_entities@.dom().contains(e) == old(self).gadget_entities@.dom().contains(e)
                    && final(self).colliders@.dom().contains(e) == old(self).colliders@.dom().contains(e),
            forall|j: int|
                0 <= j < old(self).pending@.len() && old(self).store.spec_is_live(
                    (#[trigger] old(self).pending@[j]).0,
                ) && old(self).pending@[j].1.block is Some ==> final(self).block_entities@.dom().contains(old(self).pending@[j].0) && final(self).block_entities@[old(self).pending@[j].0] == old(self).pending@[j].1.block->Some_0,
            forall|j: int|
                0 <= j < old(self).pending@.len() && old(self).store.spec_is_live(
                    (#[trigger] old(self).pending@[j]).0,
                ) && old(self).pending@[j].1.gadget is Some ==> final(self).gadget_entities@.dom().contains(old(self).pending@[j].0) && final(self).gadget_entities@[old(self).pending@[j].0] == old(self).pending@[j].1.gadget->Some_0,
    {
        let n = self.pending.len();
        let mut i: usize = 0;
        while i < n
            invariant
                self.store == old(self).store,
                self.removal == old(self).removal,
                self.ships == old(self).ships,
                self.inventory == old(self).inventory,
                self.rcworld == old(self).rcworld,
                self.instances == old(self).instances,
                self.raycast_handles == old(self).raycast_handles,
                self.pending == old(self).pending,
                self.blocks == old(self).blocks,
                self.field == old(self).field,
                self.lines == old(self).lines,
                self.floors == old(self).floors,
                self.hitbox_meshes == old(self).hitbox_meshes,
                self.object_meshes == old(self).object_meshes,
                self.input == old(self).input,
                forall|e: Entity|
                    !old(self).store.spec_is_live(e) ==> self.transforms@.dom().contains(e)
                        == old(self).transforms@.dom().contains(e) && self.models@.dom().contains(e) == old(self).models@.dom().contains(e)
                        && self.block_entities@.dom().contains(e) == old(self).block_entities@.dom().contains(e)
                        && self.gadget_entities@.dom().contains(e) == old(self).gadget_entities@.dom().contains(e)
                        && self.colliders@.dom().contains(e) == old(self).colliders@.dom().contains(e),
                self.transforms.wf(),
                self.bodies.wf(),
                self.colliders.wf(),
                self.models.wf(),
                self.block_entities.wf(),
                self.gadget_entities.wf(),
                self.asteroids.wf(),
                self.healths.wf(),
                self.missiles.wf(),
                self.miners.wf(),
                self.lasers.wf(),
                self.lines.wf(),
                transforms_ok(self.transforms@),
                bodies_ok(self.bodies@),
                colliders_ok(self.colliders@),
                models_ok(self.models@, self.instances@),
                i <= n,
                n == self.pending@.len(),
                forall|j: int|
                    0 <= j < i && old(self).store.spec_is_live(
                        (#[trigger] self.pending@[j]).0,
                    ) && self.pending@[j].1.block is Some
                        ==> self.block_entities@.dom().contains(self.pending@[j].0)
                        && self.block_entities@[self.pending@[j].0]
                        == self.pending@[j].1.block->Some_0,
                forall|j: int|
                    0 <= j < i && old(self).store.spec_is_live(
                        (#[trigger] self.pending@[j]).0,
                    ) && self.pending@[j].1.gadget is Some
                        ==> self.gadget_entities@.dom().contains(self.pending@[j].0)
                        && self.gadget_entities@[self.pending@[j].0]
                        == self.pending@[j].1.gadget->Some_0,
            decreases n - i,
        {
            let e = self.pending.at(i).0;
            if self.store.is_alive(e) {
                let ghost pre_bents = self.block_entities@;
                let ghost pre_gads = self.gadget_entities@;
                match &self.pending.at(i).1.model {
                    Some(m) => {
                        self.models.insert(e, Model { mesh_id: m.mesh_id, model_id: m.model_id });
                    }
                    None => {}
                }
                match &self.pending.at(i).1.transform {
                    Some(t) => {
                        self.transforms.insert(e, *t);
                    }
                    None => {}
                }
                match &self.pending.at(i).1.body {
                    Some(b) => {
                        self.bodies.insert(e, *b);
                    }
                    None => {}
                }
                match &self.pending.at(i).1.collider {
                    Some(_) => {
                        let c = match &self.pending.at(i).1.collider {
                            Some(c) => Collider {
                                hitbox: c.hitbox,
                                group: c.group,
                                whitelist: clone_whitelist(&c.whitelist),
                            },
                            None => vstd::pervasive::unreached(),
                        };
                        self.colliders.insert(e, c);
                    }
                    None => {}
                }
                match &self.pending.at(i).1.block {
                    Some(b) => {
                        self.block_entities.insert(e, *b);
                    }
                    None => {}
                }
                match &self.pending.at(i).1.gadget {
                    Some(g) => {
                        self.gadget_entities.insert(e, *g);
                    }
                    None => {}
                }
                match &self.pending.at(i).1.asteroid {
                    Some(a) => {
                        self.asteroids.insert(e, Asteroid(a.0));
                    }
                    None => {}
                }
                match &self.pending.at(i).1.health {
                    Some(h) => {
                        self.healths.insert(e, *h);
                    }
                    None => {}
                }
                match &self.pending.at(i).1.missile {
                    Some(m) => {
                        self.missiles.insert(e, MiningMissle { target: m.target });
                    }
                    None => {}
                }
                match &self.pending.at(i).1.miner {
                    Some(m) => {
                        self.miners.insert(e, Miner { shoot_time: m.shoot_time });
                    }
                    None => {}
                }
                match &self.pending.at(i).1.laser {
                    Some(_) => {
                        self.lasers.insert(e, Laser);
                    }
                    None => {}
                }
                proof {
                    assert forall|j: int|
                        0 <= j < i && old(self).store.spec_is_live(
                            (#[trigger] self.pending@[j]).0,
                        ) && self.pending@[j].1.block is Some implies self.block_entities@.dom().contains(
                        self.pending@[j].0,
                    ) && self.block_entities@[self.pending@[j].0]
                        == self.pending@[j].1.block->Some_0 by {
                        assert(self.pending@[j].0 != e);
                        assert(self.block_entities@[self.pending@[j].0] == pre_bents[self.pending@[j].0]);
                    };
                    assert forall|j: int|
                        0 <= j < i && old(self).store.spec_is_live(
                            (#[trigger] self.pending@[j]).0,
                        ) && self.pending@[j].1.gadget is Some implies self.gadget_entities@.dom().contains(
                        self.pending@[j].0,
                    ) && self.gadget_entities@[self.pending@[j].0]
                        == self.pending@[j].1.gadget->Some_0 by {
                        assert(self.pending@[j].0 != e);
                        assert(self.gadget_entities@[self.pending@[j].0] == pre_gads[self.pending@[j].0]);
                    };
                }
            }
            i = i + 1;
        }
        self.pending.clear();
    }

    /// Destroys every queued entity, tears its components and side
    /// structures down exactly once, empties the queue, and materializes
    /// the tick's deferred creations — in that order, once per tick.
    #[verifier::rlimit(100)]
    #[verifier::spinoff_prover]
    #[verifier::loop_isolation(false)]
    pub fn maintain(&mut self)
        requires
            old(self).wf(),
        ensures
            final(self).wf(),
            final(self).removal@.len() == 0,
            final(self).pending@.len() == 0,
            forall|e: Entity|
                old(self).removal@.contains(e) ==> !final(self).store.spec_is_live(e),
            forall|e: Entity|
                old(self).store.spec_is_live(e) && !old(self).removal@.contains(e)
                    ==> #[trigger] final(self).store.spec_is_live(e),
            final(self).blocks == old(self).blocks,
            final(self).floors == old(self).floors,
            final(self).hitbox_meshes == old(self).hitbox_meshes,
            final(self).object_meshes == old(self).object_meshes,
            final(self).input == old(self).input,
            final(self).field == old(self).field,
            forall|it: crate::item::GameItem| #[trigger]
                final(self).inventory.spec_amount(it) == spec_mined_rewards(
                    old(self).removal@,
                    old(self).asteroids@,
                    old(self).healths@,
                    old(self).inventory,
                    old(self).removal@.len() as int,
                ).spec_amount(it),
            forall|e: Entity|
                old(self).removal@.contains(e) ==> !final(self).raycast_handles@.dom().contains(
                    e,
                ) && !final(self).transforms@.dom().contains(e) && !final(self).models@.dom().contains(e) && !final(self).block_entities@.dom().contains(e)
                    && !final(self).gadget_entities@.dom().contains(e) && !final(self).colliders@.dom().contains(e),
            forall|e: Entity|
                old(self).raycast_handles@.dom().contains(e) && old(self).removal@.contains(e)
                    ==> final(self).rcworld@[old(self).raycast_handles@[e].slot as int] is None,
            forall|j: int|
                0 <= j < old(self).pending@.len() && !old(self).removal@.contains(
                    (#[trigger] old(self).pending@[j]).0,
                ) && old(self).pending@[j].1.block is Some ==> final(self).block_entities@.dom().contains(old(self).pending@[j].0) && final(self).block_entities@[old(self).pending@[j].0] == old(self).pending@[j].1.block->Some_0,
            forall|j: int|
                0 <= j < old(self).pending@.len() && !old(self).removal@.contains(
                    (#[trigger] old(self).pending@[j]).0,
                ) && old(self).pending@[j].1.gadget is Some ==> final(self).gadget_entities@.dom().contains(old(self).pending@[j].0) && final(self).gadget_entities@[old(self).pending@[j].0] == old(self).pending@[j].1.gadget->Some_0,
    {
        asteroid_mined(&self.removal, &mut self.inventory, &self.asteroids, &self.healths);
        cleanup_models(&self.removal, &mut self.models, &mut self.instances);
        cleanup_raycast_registrations(
            &self.removal,
            &mut self.rcworld,
            &mut self.raycast_handles,
        );
        let n = self.removal.len();
        let mut k: usize = 0;
        while k < n
            invariant
                self.store.wf(),
                self.transforms.wf(),
                self.bodies.wf(),
                self.colliders.wf(),
                self.models.wf(),
                self.block_entities.wf(),
                self.gadget_entities.wf(),
                self.ships.wf(),
                self.asteroids.wf(),
                self.healths.wf(),
                self.missiles.wf(),
                self.miners.wf(),
                self.lasers.wf(),
                self.lines.wf(),
                transforms_ok(self.transforms@),
                bodies_ok(self.bodies@),
                colliders_ok(self.colliders@),
                forall|e: Entity| #[trigger]
                    self.ships@.dom().contains(e) ==> self.ships@[e].wf(),
                models_ok(self.models@, self.instances@),
                k <= n,
                n == self.removal@.len(),
                self.removal == old(self).removal,
                self.raycast_handles.wf(),
                self.rcworld.wf(),
                self.instances.wf(),
                handles_ok(self.raycast_handles@, self.rcworld@),
                self.blocks == old(self).blocks,
                self.field == old(self).field,
                self.floors == old(self).floors,
                self.hitbox_meshes == old(self).hitbox_meshes,
                self.object_meshes == old(self).object_meshes,
                self.input == old(self).input,
                self.pending == old(self).pending,
                self.lines.wf(),
                forall|j: int|
                    0 <= j < k ==> !self.store.spec_is_live(#[trigger] self.removal@[j]),
                forall|x: Entity|
                    old(self).store.spec_is_live(x) && !self.removal@.contains(x)
                        ==> #[trigger] self.store.spec_is_live(x),
                forall|it: crate::item::GameItem| #[trigger]
                    self.inventory.spec_amount(it) == spec_mined_rewards(
                        old(self).removal@,
                        old(self).asteroids@,
                        old(self).healths@,
                        old(self).inventory,
                        old(self).removal@.len() as int,
                    ).spec_amount(it),
                forall|e: Entity| #[trigger]
                    self.raycast_handles@.dom().contains(e) == (old(self).raycast_handles@.dom().contains(e) && !self.removal@.contains(e)),
                forall|e: Entity|
                    old(self).raycast_handles@.dom().contains(e) && self.removal@.contains(e)
                        ==> self.rcworld@[old(self).raycast_handles@[e].slot as int] is None,
                forall|j: int|
                    0 <= j < k ==> !self.transforms@.dom().contains(
                        #[trigger] self.removal@[j],
                    ) && !self.models@.dom().contains(self.removal@[j])
                        && !self.block_entities@.dom().contains(self.removal@[j])
                        && !self.gadget_entities@.dom().contains(self.removal@[j])
                        && !self.colliders@.dom().contains(self.removal@[j])
                        && !self.bodies@.dom().contains(self.removal@[j])
                        && !self.asteroids@.dom().contains(self.removal@[j])
                        && !self.healths@.dom().contains(self.removal@[j])
                        && !self.missiles@.dom().contains(self.removal@[j])
                        && !self.miners@.dom().contains(self.removal@[j])
                        && !self.lasers@.dom().contains(self.removal@[j]),
            decreases n - k,
        {
            let e = self.removal.at(k);
            self.store.destroy(e);
            self.transforms.remove(e);
            self.bodies.remove(e);
            self.colliders.remove(e);
            self.models.remove(e);
            self.block_entities.remove(e);
            self.gadget_entities.remove(e);
            self.ships.remove(e);
            self.asteroids.remove(e);
            self.healths.remove(e);
            self.missiles.remove(e);
            self.miners.remove(e);
            self.lasers.remove(e);
            self.lines.remove(e);
            k = k + 1;
        }
        proof {
            assert forall|e: Entity|
                old(self).removal@.contains(e) implies !self.store.spec_is_live(e) && !self.transforms@.dom().contains(e) && !self.models@.dom().contains(e)
                && !self.block_entities@.dom().contains(e)
                && !self.gadget_entities@.dom().contains(e) && !self.colliders@.dom().contains(
                e,
            ) && !self.bodies@.dom().contains(e) && !self.asteroids@.dom().contains(e)
                && !self.healths@.dom().contains(e) && !self.missiles@.dom().contains(e)
                && !self.miners@.dom().contains(e) && !self.lasers@.dom().contains(e) by {
                let j = choose|j: int|
                    0 <= j < self.removal@.len() && #[trigger] self.removal@[j] == e;
            };
        }
        self.removal.clear();
        self.flush();
    }

    /// Applies a batch of build actions against the ship entity's tile
    /// grid, through the transactional protocol. A batch naming a missing
    /// ship, or holding any inadmissible action, changes nothing.
    #[verifier::rlimit(60)]
    #[verifier::spinoff_prover]
    pub fn build(&mut self, ship_entity: Entity, actions: &Vec<BuildAction>, ignore_price: bool)
        requires
            old(self).wf(),
        ensures
            final(self).wf(),
            forall|e: Entity|
                old(self).store.spec_is_live(e) ==> #[trigger] final(self).store.spec_is_live(e),
            !old(self).ships@.dom().contains(ship_entity) ==> *final(self) == *old(self),
            final(self).blocks == old(self).blocks,
            final(self).floors == old(self).floors,
            final(self).hitbox_meshes == old(self).hitbox_meshes,
            final(self).object_meshes == old(self).object_meshes,
            final(self).input == old(self).input,
            final(self).field == old(self).field,
            final(self).removal == old(self).removal,
            ignore_price ==> final(self).inventory == old(self).inventory,
            final(self).ships@.dom() =~= old(self).ships@.dom(),
            forall|e: Entity|
                #[trigger] old(self).ships@.dom().contains(e) && e != ship_entity ==> final(self).ships@[e] == old(self).ships@[e],
            old(self).ships@.dom().contains(ship_entity) ==> {
                let oship = old(self).ships@[ship_entity];
                let nship = final(self).ships@[ship_entity];
                &&& nship.heat == oship.heat
                &&& nship.tiles@.dom() =~= oship.tiles@.dom()
                &&& old(self).pending@.is_prefix_of(final(self).pending@)
            },
            old(self).ships@.dom().contains(ship_entity) && !crate::ship::spec_batch_ok(
                old(self).blocks,
                old(self).ships@[ship_entity].tiles@.dom(),
                actions@,
            ) ==> final(self).ships@[ship_entity] == old(self).ships@[ship_entity] && final(self).store == old(self).store && final(self).pending@ == old(self).pending@ && final(self).inventory == old(self).inventory,
            old(self).ships@.dom().contains(ship_entity) && crate::ship::spec_batch_ok(
                old(self).blocks,
                old(self).ships@[ship_entity].tiles@.dom(),
                actions@,
            ) && ignore_price ==> final(self).inventory == old(self).inventory,
            old(self).ships@.dom().contains(ship_entity) && crate::ship::spec_batch_ok(
                old(self).blocks,
                old(self).ships@[ship_entity].tiles@.dom(),
                actions@,
            ) && (forall|k: int|
                0 <= k < actions@.len() ==> !crate::ship::is_gadget_action(
                    old(self).blocks,
                    #[trigger] actions@[k],
                )) && (forall|k: int, l: int|
                0 <= k < l < actions@.len() ==> crate::ship::action_coord(#[trigger] actions@[k])
                    != crate::ship::action_coord(#[trigger] actions@[l])) ==> final(self).inventory == old(self).inventory && forall|k: int|
                0 <= k < actions@.len() ==> crate::ship::built_ok(
                    final(self).ships@[ship_entity].tiles@,
                    final(self).pending@,
                    old(self).blocks,
                    ship_entity,
                    #[trigger] actions@[k],
                ),
            old(self).ships@.dom().contains(ship_entity) && crate::ship::spec_batch_ok(
                old(self).blocks,
                old(self).ships@[ship_entity].tiles@.dom(),
                actions@,
            ) && !ignore_price && actions@.len() >= 1 && crate::ship::is_gadget_action(
                old(self).blocks,
                actions@[0],
            ) && crate::ship::gadget_base(
                old(self).blocks,
                old(self).ships@[ship_entity].tiles@,
                old(self).block_entities@,
                crate::ship::action_coord(actions@[0]),
            ) is Some && !crate::ship::costs_affordable(
                old(self).inventory,
                old(self).blocks.spec_block(actions@[0]->BuildBlock_1).cost@,
            ) ==> final(self).ships@[ship_entity] == old(self).ships@[ship_entity] && final(self).store == old(self).store && final(self).pending@ == old(self).pending@ && final(self).inventory == old(self).inventory,
            old(self).ships@.dom().contains(ship_entity) && crate::ship::spec_batch_ok(
                old(self).blocks,
                old(self).ships@[ship_entity].tiles@.dom(),
                actions@,
            ) && actions@.len() == 1 && crate::ship::is_gadget_action(
                old(self).blocks,
                actions@[0],
            ) && crate::ship::gadget_base(
                old(self).blocks,
                old(self).ships@[ship_entity].tiles@,
                old(self).block_entities@,
                crate::ship::action_coord(actions@[0]),
            ) is Some && (ignore_price || crate::ship::costs_affordable(
                old(self).inventory,
                old(self).blocks.spec_block(actions@[0]->BuildBlock_1).cost@,
            )) ==> exists|e: Entity|
                {
                    let pos = actions@[0]->BuildBlock_0;
                    let id = actions@[0]->BuildBlock_1;
                    let base = crate::ship::gadget_base(
                        old(self).blocks,
                        old(self).ships@[ship_entity].tiles@,
                        old(self).block_entities@,
                        pos,
                    )->Some_0;
                    &&& !old(self).store.spec_is_live(e)
                    &&& #[trigger] final(self).store.spec_is_live(e)
                    &&& final(self).pending@ =~= old(self).pending@.push(
                        (e, final(self).pending@.last().1),
                    )
                    &&& crate::ship::bundle_matches_gadget(
                        final(self).pending@.last().1,
                        old(self).blocks,
                        ship_entity,
                        pos,
                        id,
                        old(self).blocks.spec_block(base).height as int,
                    )
                    &&& final(self).ships@[ship_entity].tiles@ =~= old(self).ships@[ship_entity].tiles@.insert(
                        pos,
                        Tile { gadget: Some(e), ..old(self).ships@[ship_entity].tiles@[pos] },
                    )
                    &&& (!ignore_price ==> forall|it: crate::item::GameItem|
                        final(self).inventory.spec_amount(it) as int == old(self).inventory.spec_amount(it) - crate::ship::spec_cost_total(
                            old(self).blocks.spec_block(id).cost@,
                            it,
                        ))
                },
    {
        let mut ship = match self.ships.take(ship_entity) {
            Some(s) => s,
            None => {
                return;
            }
        };
        let n = actions.len();
        let mut k: usize = 0;
        let mut all_ok = true;
        while k < n
            invariant
                k <= n,
                n == actions@.len(),
                ship.wf(),
                self.blocks.wf(),
                self.store == old(self).store,
                self.pending == old(self).pending,
                self.inventory == old(self).inventory,
                self.blocks == old(self).blocks,
                self.block_entities == old(self).block_entities,
                ship == old(self).ships@[ship_entity],
                old(self).ships@.dom().contains(ship_entity),
                all_ok == (forall|j: int|
                    0 <= j < k ==> action_ok(
                        self.blocks,
                        ship.tiles@.dom(),
                        #[trigger] actions@[j],
                    )),
            decreases n - k,
        {
            let ok: bool = match &actions[k] {
                BuildAction::BuildBlock(pos, id) => {
                    if *id < self.blocks.len() {
                        let b = self.blocks.get_block(*id);
                        b.size.x == 1 && b.size.y == 1 && (b.is_gadget || ship.tiles.contains(
                            *pos,
                        ))
                    } else {
                        false
                    }
                }
                BuildAction::BuildFloor(pos, _) => ship.tiles.contains(*pos),
                _ => false,
            };
            all_ok = all_ok && ok;
            k = k + 1;
        }
        proof {
            assert(all_ok == crate::ship::spec_batch_ok(
                old(self).blocks,
                old(self).ships@[ship_entity].tiles@.dom(),
                actions@,
            ));
        }
        if all_ok {
            let ghost pre_p = self.pending@;
            let ghost pre_store = self.store;
            execute_build_actions(
                &mut self.store,
                &mut self.pending,
                &mut ship,
                ship_entity,
                &self.block_entities,
                &mut self.inventory,
                &self.blocks,
                actions,
                ignore_price,
            );
            proof {
                lemma_pending_extend(pre_p, self.pending@, pre_store, self.store);
            }
        }
        let ghost final_ship = ship;
        self.ships.insert(ship_entity, ship);
        proof {
            assert(self.ships@ =~= old(self).ships@.insert(ship_entity, final_ship));
            if !all_ok {
                assert(self.ships@ =~= old(self).ships@);
            }
            let oship = old(self).ships@[ship_entity];
            if all_ok && actions@.len() == 1 && crate::ship::is_gadget_action(
                old(self).blocks,
                actions@[0],
            ) && crate::ship::gadget_base(
                old(self).blocks,
                oship.tiles@,
                old(self).block_entities@,
                crate::ship::action_coord(actions@[0]),
            ) is Some && (ignore_price || crate::ship::costs_affordable(
                old(self).inventory,
                old(self).blocks.spec_block(actions@[0]->BuildBlock_1).cost@,
            )) {
                let pos = actions@[0]->BuildBlock_0;
                let id = actions@[0]->BuildBlock_1;
                let base = crate::ship::gadget_base(
                    old(self).blocks,
                    oship.tiles@,
                    old(self).block_entities@,
                    pos,
                )->Some_0;
                let e = choose|e: Entity|
                    {
                        &&& !old(self).store.spec_is_live(e)
                        &&& #[trigger] self.store.spec_is_live(e)
                        &&& self.pending@ =~= old(self).pending@.push(
                            (e, self.pending@.last().1),
                        )
                        &&& crate::ship::bundle_matches_gadget(
                            self.pending@.last().1,
                            old(self).blocks,
                            ship_entity,
                            pos,
                            id,
                            old(self).blocks.spec_block(base).height as int,
                        )
                        &&& final_ship.tiles@ =~= oship.tiles@.insert(
                            pos,
                            Tile { gadget: Some(e), ..oship.tiles@[pos] },
                        )
                        &&& (!ignore_price ==> forall|it: crate::item::GameItem|
                            self.inventory.spec_amount(it) as int == old(self).inventory.spec_amount(it) - crate::ship::spec_cost_total(
                                old(self).blocks.spec_block(id).cost@,
                                it,
                            ))
                    };
                assert(self.store.spec_is_live(e));
                assert(self.ships@[ship_entity] == final_ship);
                assert(self.ships@[ship_entity].tiles@ =~= oship.tiles@.insert(
                    pos,
                    Tile { gadget: Some(e), ..oship.tiles@[pos] },
                ));
            }
        }
    }

    /// Creates the starting ship: a walled grid of tiles, built in two
    /// batches with a maintenance flush between them so the gadget batch
    /// sees the walls.
    #[verifier::loop_isolation(false)]
    pub fn create_ship(&mut self) -> (ship: Entity)
        requires
            old(self).wf(),
            old(self).blocks.spec_valid(old(self).blocks.wall),
            old(self).blocks.spec_valid(old(self).blocks.engine),
            old(self).blocks.spec_valid(old(self).blocks.cube),
            old(self).blocks.spec_valid(old(self).blocks.laser),
            old(self).blocks.spec_block(old(self).blocks.wall).size == (crate::block::GridSize {
                x: 1,
                y: 1,
            }),
            old(self).blocks.spec_block(old(self).blocks.engine).size == (crate::block::GridSize {
                x: 1,
                y: 1,
            }),
            old(self).blocks.spec_block(old(self).blocks.cube).size == (crate::block::GridSize {
                x: 1,
                y: 1,
            }),
            old(self).blocks.spec_block(old(self).blocks.laser).size == (crate::block::GridSize {
                x: 1,
                y: 1,
            }),
        ensures
            final(self).wf(),
            final(self).store.spec_is_live(ship),
            !old(self).store.spec_is_live(ship),
            final(self).ships@.dom() =~= old(self).ships@.dom().insert(ship),
            final(self).ships@[ship].heat == 0,
            forall|p: GridPos| #[trigger]
                final(self).ships@[ship].tiles@.dom().contains(p) == (-32 <= p.x < 32 && -32
                    <= p.y < 32),
            forall|e: Entity|
                old(self).store.spec_is_live(e) ==> #[trigger] final(self).store.spec_is_live(e),
            final(self).blocks == old(self).blocks,
            final(self).floors == old(self).floors,
            final(self).hitbox_meshes == old(self).hitbox_meshes,
            final(self).object_meshes == old(self).object_meshes,
            final(self).input == old(self).input,
            final(self).field == old(self).field,
            final(self).inventory == old(self).inventory,
            final(self).removal == old(self).removal,
    {
        let mut tiles = TileMap::new();
        let mut x: i16 = -32;
        while x < 32
            invariant
                -32 <= x <= 32,
                tiles.wf(),
                forall|p: GridPos| #[trigger]
                    tiles@.dom().contains(p) == (-32 <= p.x < x && -32 <= p.y < 32),
            decreases 32 - x,
        {
            let mut y: i16 = -32;
            while y < 32
                invariant
                    -32 <= x < 32,
                    -32 <= y <= 32,
                    tiles.wf(),
                    forall|p: GridPos| #[trigger]
                        tiles@.dom().contains(p) == ((-32 <= p.x < x && -32 <= p.y < 32) || (
                        p.x == x && -32 <= p.y < y)),
                decreases 32 - y,
            {
                tiles.insert(GridPos { x, y }, Tile::empty());
                y = y + 1;
            }
            x = x + 1;
        }
        let ship = self.store.create();
        self.ships.insert(ship, Ship { heat: 0, tiles });
        let ghost dom0 = self.ships@[ship].tiles@.dom();
        let batches = build_initial_ship(&self.blocks, &self.floors);
        self.build(ship, &batches.0, true);
        self.flush();
        self.build(ship, &batches.1, true);
        proof {
            assert(self.ships@[ship].tiles@.dom() =~= dom0);
            assert(self.ships@.dom() =~= old(self).ships@.dom().insert(ship));
        }
        ship
    }

    /// Builds the starting world from the renderer-assigned mesh ids: the
    /// catalogs, the starting ship and the asteroid field controller.
    pub fn new(
        wall_mesh: MeshId,
        engine_mesh: MeshId,
        cube_mesh: MeshId,
        miner_mesh: MeshId,
        laser_mesh: MeshId,
        metal_floor_mesh: MeshId,
        unit_cube_mesh: MeshId,
        unit_sphere_mesh: MeshId,
        asteroid_iron_mesh: MeshId,
        asteroid_copper_mesh: MeshId,
        mining_missle_mesh: MeshId,
    ) -> (r: ECS)
        ensures
            r.wf(),
            r.blocks.wf(),
            r.blocks.spec_len() == 5,
            r.blocks.spec_block(r.blocks.wall).mesh_id == wall_mesh,
            r.blocks.spec_block(r.blocks.engine).mesh_id == engine_mesh,
            r.blocks.spec_block(r.blocks.cube).mesh_id == cube_mesh,
            r.blocks.spec_block(r.blocks.miner).mesh_id == miner_mesh,
            r.blocks.spec_block(r.blocks.laser).mesh_id == laser_mesh,
            !r.blocks.spec_block(r.blocks.wall).is_gadget,
            r.blocks.spec_block(r.blocks.laser).is_gadget,
            r.floors.metal == crate::floor::Floor(metal_floor_mesh),
            r.hitbox_meshes.unit_cube == unit_cube_mesh,
            r.hitbox_meshes.unit_sphere == unit_sphere_mesh,
            r.object_meshes.asteroid_iron == asteroid_iron_mesh,
            r.object_meshes.asteroid_copper == asteroid_copper_mesh,
            r.object_meshes.mining_missle == mining_missle_mesh,
            forall|item: crate::item::GameItem| r.inventory.spec_amount(item) == 0u32,
            r.input.action == InputAction::Idle,
            r.input.target is None,
            r.field.tick == 0,
            r.field.spawn_time == crate::gameplay::ASTEROID_SPAWN_TIME,
            r.field.x_range == crate::gameplay::ASTEROID_X_RANGE,
            r.field.asteroids@.len() == 0,
            r.removal@.len() == 0,
            exists|ship: Entity|
                {
                    &&& r.ships@.dom() =~= Set::<Entity>::empty().insert(ship)
                    &&& #[trigger] r.store.spec_is_live(ship)
                    &&& r.ships@[ship].heat == 0
                    &&& forall|p: GridPos| #[trigger]
                        r.ships@[ship].tiles@.dom().contains(p) == (-32 <= p.x < 32 && -32 <= p.y
                            < 32)
                },
    {
        let blocks = crate::block::load_blocks(
            wall_mesh,
            engine_mesh,
            cube_mesh,
            miner_mesh,
            laser_mesh,
        );
        let floors = crate::floor::load_floors(metal_floor_mesh);
        let mut ecs = ECS {
            store: EntityStore::new(),
            removal: ToBeRemoved::new(),
            pending: PendingSpawns::new(),
            transforms: EntityMap::new(),
            bodies: EntityMap::new(),
            colliders: EntityMap::new(),
            models: EntityMap::new(),
            block_entities: EntityMap::new(),
            gadget_entities: EntityMap::new(),
            ships: EntityMap::new(),
            asteroids: EntityMap::new(),
            healths: EntityMap::new(),
            missiles: EntityMap::new(),
            miners: EntityMap::new(),
            lasers: EntityMap::new(),
            lines: EntityMap::new(),
            raycast_handles: EntityMap::new(),
            rcworld: RaycastWorld::new(),
            instances: RenderInstances::new(),
            inventory: Inventory::new(),
            blocks,
            floors,
            hitbox_meshes: HitboxMeshes::new(unit_cube_mesh, unit_sphere_mesh),
            object_meshes: ObjectMeshes::new(
                asteroid_iron_mesh,
                asteroid_copper_mesh,
                mining_missle_mesh,
            ),
            input: InputState::new(),
            field: AsteroidField::new(),
        };
        let ship = ecs.create_ship();
        proof {
            assert(ecs.ships@.dom() =~= Set::<Entity>::empty().insert(ship));
            assert(ecs.store.spec_is_live(ship));
        }
        ecs
    }

    /// A build click: when the pointer rests on one of the ship's blocks
    /// while a block is selected for building, the selected block is built
    /// on that block's root tile, paying its cost; any other click changes
    /// nothing.
    pub fn on_click(&mut self)
        requires
            old(self).wf(),
        ensures
            final(self).wf(),
            forall|e: Entity|
                old(self).store.spec_is_live(e) ==> #[trigger] final(self).store.spec_is_live(e),
            !(old(self).input.action matches InputAction::Build(_) && old(self).input.target is Some && old(self).block_entities@.dom().contains(
                old(self).input.target->Some_0,
            )) ==> *final(self) == *old(self),
            old(self).input.action matches InputAction::Build(_) && old(self).input.target is Some && old(self).block_entities@.dom().contains(
                old(self).input.target->Some_0,
            ) ==> {
                let id = old(self).input.action->Build_0;
                let bent = old(self).block_entities@[old(self).input.target->Some_0];
                let act = BuildAction::BuildBlock(bent.root, id);
                &&& (!old(self).ships@.dom().contains(bent.ship) ==> *final(self) == *old(self))
                &&& (old(self).ships@.dom().contains(bent.ship) && crate::ship::spec_batch_ok(
                    old(self).blocks,
                    old(self).ships@[bent.ship].tiles@.dom(),
                    seq![act],
                ) && !old(self).blocks.spec_block(id).is_gadget ==> final(self).inventory == old(self).inventory && crate::ship::built_ok(
                    final(self).ships@[bent.ship].tiles@,
                    final(self).pending@,
                    old(self).blocks,
                    bent.ship,
                    act,
                ))
                &&& (old(self).ships@.dom().contains(bent.ship) && crate::ship::spec_batch_ok(
                    old(self).blocks,
                    old(self).ships@[bent.ship].tiles@.dom(),
                    seq![act],
                ) && old(self).blocks.spec_block(id).is_gadget && crate::ship::gadget_base(
                    old(self).blocks,
                    old(self).ships@[bent.ship].tiles@,
                    old(self).block_entities@,
                    bent.root,
                ) is Some && crate::ship::costs_affordable(
                    old(self).inventory,
                    old(self).blocks.spec_block(id).cost@,
                ) ==> exists|e: Entity|
                    {
                        &&& !old(self).store.spec_is_live(e)
                        &&& #[trigger] final(self).store.spec_is_live(e)
                        &&& final(self).ships@[bent.ship].tiles@ =~= old(self).ships@[bent.ship].tiles@.insert(
                            bent.root,
                            Tile {
                                gadget: Some(e),
                                ..old(self).ships@[bent.ship].tiles@[bent.root]
                            },
                        )
                        &&& (forall|it: crate::item::GameItem|
                            final(self).inventory.spec_amount(it) as int == old(self).inventory.spec_amount(it) - crate::ship::spec_cost_total(
                                old(self).blocks.spec_block(id).cost@,
                                it,
                            ))
                    })
            },
    {
        let target_block: Option<BlockEntity> = match (self.input.action, self.input.target) {
            (InputAction::Build(_), Some(t)) => {
                match self.block_entities.get(t) {
                    Some(b) => Some(*b),
                    None => None,
                }
            }
            _ => None,
        };
        match (self.input.action, target_block) {
            (InputAction::Build(block_id), Some(bent)) => {
                let mut actions: Vec<BuildAction> = Vec::new();
                actions.push(BuildAction::BuildBlock(bent.root, block_id));
                proof {
                    assert(actions@ =~= seq![BuildAction::BuildBlock(bent.root, block_id)]);
                }
                self.build(bent.ship, &actions, false);
            }
            _ => {}
        }
    }

    /// Runs one fixed tick: input, gameplay systems, the barrier, physics,
    /// the raycast refresh, model sync, and maintenance, in that order.
    pub fn update(&mut self, action: InputAction, pointer_near: Vec3, pointer_far: Vec3)
        requires
            old(self).wf(),
            vec_within(pointer_near, RAY_LIMIT),
            vec_within(pointer_far, RAY_LIMIT),
        ensures
            final(self).wf(),
            final(self).removal@.len() == 0,
            final(self).pending@.len() == 0,
            final(self).input.action == action,
            final(self).blocks == old(self).blocks,
            final(self).floors == old(self).floors,
            final(self).hitbox_meshes == old(self).hitbox_meshes,
            final(self).object_meshes == old(self).object_meshes,
            final(self).field.spawn_time == old(self).field.spawn_time,
            final(self).field.x_range == old(self).field.x_range,
            final(self).field.tick == (if old(self).field.tick > 0 {
                (old(self).field.tick - 1) as u16
            } else {
                old(self).field.spawn_time
            }),
    {
        self.input.action = action;
        input_update(&mut self.input, &self.rcworld, pointer_near, pointer_far);
        let ghost p1 = self.pending@;
        let ghost s1 = self.store;
        miner_system(
            &mut self.store,
            &mut self.pending,
            &self.input,
            &self.object_meshes,
            &mut self.miners,
            &mut self.transforms,
        );
        proof {
            lemma_pending_extend(p1, self.pending@, s1, self.store);
        }
        laser_system(
            &self.rcworld,
            &self.input,
            &self.lasers,
            &mut self.lines,
            &mut self.healths,
            &mut self.transforms,
        );
        missile_update(
            &self.store,
            &mut self.removal,
            &self.missiles,
            &self.transforms,
            &mut self.bodies,
        );
        no_more_health(&self.store, &mut self.removal, &self.healths);
        asteroid_shrink(&mut self.transforms, &self.asteroids, &self.healths);
        let ghost p2 = self.pending@;
        let ghost s2 = self.store;
        asteroid_field_update(
            &mut self.store,
            &mut self.pending,
            &mut self.removal,
            &self.transforms,
            &mut self.field,
            &self.object_meshes,
        );
        proof {
            lemma_pending_extend(p2, self.pending@, s2, self.store);
        }
        run_physics(
            &mut self.removal,
            &mut self.transforms,
            &self.colliders,
            &self.bodies,
            &self.block_entities,
            &self.asteroids,
            &self.missiles,
            &mut self.ships,
        );
        refresh_raycast_world(
            &mut self.rcworld,
            &self.transforms,
            &self.colliders,
            &mut self.raycast_handles,
        );
        sync_models(&self.transforms, &mut self.models, &mut self.instances);
        self.maintain();
    }

}


/// Extending the pending buffer with fresh live entities keeps every
/// record well formed, live and distinct.
proof fn lemma_pending_extend(
    old_p: Seq<(Entity, crate::spawn::SpawnBundle)>,
    new_p: Seq<(Entity, crate::spawn::SpawnBundle)>,
    old_store: EntityStore,
    new_store: EntityStore,
)
    requires
        old_p.is_prefix_of(new_p),
        forall|j: int| 0 <= j < old_p.len() ==> bundle_wf((#[trigger] old_p[j]).1),
        forall|j1: int, j2: int|
            0 <= j1 < j2 < old_p.len() ==> (#[trigger] old_p[j1]).0 != (#[trigger] old_p[j2]).0,
        forall|j: int|
            0 <= j < old_p.len() ==> old_store.spec_is_live((#[trigger] old_p[j]).0),
        forall|j: int|
            old_p.len() <= j < new_p.len() ==> bundle_wf((#[trigger] new_p[j]).1)
                && new_store.spec_is_live(new_p[j].0) && !old_store.spec_is_live(new_p[j].0),
        forall|j1: int, j2: int|
            old_p.len() <= j1 < j2 < new_p.len() ==> (#[trigger] new_p[j1]).0 != (
            #[trigger] new_p[j2]).0,
        forall|e: Entity| old_store.spec_is_live(e) ==> #[trigger] new_store.spec_is_live(e),
    ensures
        forall|j: int|
            0 <= j < new_p.len() ==> bundle_wf((#[trigger] new_p[j]).1)
                && new_store.spec_is_live(new_p[j].0),
        forall|j1: int, j2: int|
            0 <= j1 < j2 < new_p.len() ==> (#[trigger] new_p[j1]).0 != (#[trigger] new_p[j2]).0,
{
    assert forall|j: int|
        0 <= j < new_p.len() implies bundle_wf((#[trigger] new_p[j]).1)
        && new_store.spec_is_live(new_p[j].0) by {
        if j < old_p.len() {
            assert(new_p.subrange(0, old_p.len() as int)[j] == new_p[j]);
            assert(new_p[j] == old_p[j]);
        }
    };
    assert forall|j1: int, j2: int|
        0 <= j1 < j2 < new_p.len() implies (#[trigger] new_p[j1]).0 != (
    #[trigger] new_p[j2]).0 by {
        if j1 < old_p.len() {
            assert(new_p.subrange(0, old_p.len() as int)[j1] == new_p[j1]);
            assert(new_p[j1] == old_p[j1]);
        }
        if j2 < old_p.len() {
            assert(new_p.subrange(0, old_p.len() as int)[j2] == new_p[j2]);
            assert(new_p[j2] == old_p[j2]);
        }
        if j1 < old_p.len() && j2 >= old_p.len() {
            assert(old_store.spec_is_live(new_p[j1].0));
            assert(!old_store.spec_is_live(new_p[j2].0));
        }
    };
}

/// Copies a collision whitelist for the materialized collider.
fn clone_whitelist(v: &Vec<u32>) -> (r: Vec<u32>)
    ensures
        r@ == v@,
{
    let mut r: Vec<u32> = Vec::new();
    let n = v.len();
    let mut i: usize = 0;
    while i < n
        invariant
            i <= n,
            n == v@.len(),
            r@ =~= v@.take(i as int),
        decreases n - i,
    {
        r.push(v[i]);
        proof {
            assert(r@ =~= v@.take(i as int + 1));
        }
        i = i + 1;
    }
    proof {
        assert(v@.take(n as int) =~= v@);
    }
    r
}

} // verus!
