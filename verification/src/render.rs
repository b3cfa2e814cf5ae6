//! The render-facing side of the simulation: mesh identifiers, per-entity
//! model instances and their poses.
//!
//! The renderer itself is an external collaborator; the simulation only
//! keeps the instance table it drives. An instance records which mesh is
//! drawn and at which pose; the caller turns poses into matrices.

use crate::geom::{lemma_mul_le, ColliderShape, Hitbox};
use crate::math::{Vec3, MILLI, SIZE_LIMIT};
use crate::slotmap::SlotMap;
use crate::transform::Transform;
use vstd::prelude::*;

verus! {

/// Identifies a mesh registered with the renderer.
#[derive(Debug, Clone, Copy, PartialEq, Eq, Structural)]
pub struct MeshId(pub usize);

/// Identifies one drawn instance of a mesh.
#[derive(Debug, Clone, Copy, PartialEq, Eq, Structural)]
pub struct InstanceId {
    pub slot: usize,
}

/// One drawn instance: a mesh at a pose.
#[derive(Debug, Clone, Copy, PartialEq, Eq, Structural)]
pub struct RenderInstance {
    pub mesh: MeshId,
    pub pose: Transform,
}

/// The visual-model component: which mesh an entity is drawn with, and the
/// instance showing it once one has been allocated.
pub struct Model {
    pub mesh_id: MeshId,
    pub model_id: Option<InstanceId>,
}

impl Model {
    /// A model that has not been instantiated yet.
    pub fn new(mesh_id: MeshId) -> (r: Model)
        ensures
            r.mesh_id == mesh_id,
            r.model_id is None,
    {
        Model { mesh_id, model_id: None }
    }
}

/// The table of drawn instances, keyed by stable instance ids.
pub struct RenderInstances {
    map: SlotMap<RenderInstance>,
}

impl View for RenderInstances {
    type V = Seq<Option<RenderInstance>>;

    closed spec fn view(&self) -> Seq<Option<RenderInstance>> {
        self.map@
    }
}

impl RenderInstances {
    /// Internal slot bookkeeping is consistent.
    pub closed spec fn wf(self) -> bool {
        self.map.wf()
    }

    /// An empty instance table.
    pub fn new() -> (r: RenderInstances)
        ensures
            r.wf(),
            r@ =~= Seq::<Option<RenderInstance>>::empty(),
    {
        RenderInstances { map: SlotMap::new() }
    }

    /// Whether `id` names an occupied instance slot.
    pub open spec fn spec_valid(self, id: InstanceId) -> bool {
        id.slot < self@.len() && self@[id.slot as int] is Some
    }

    /// Draws a new instance of `mesh` at `pose`.
    pub fn new_model(&mut self, mesh: MeshId, pose: Transform) -> (id: InstanceId)
        requires
            old(self).wf(),
        ensures
            final(self).wf(),
            final(self).spec_valid(id),
            final(self)@[id.slot as int] == Some(RenderInstance { mesh, pose }),
            id.slot < old(self)@.len() ==> old(self)@[id.slot as int] is None && final(self)@ =~= old(
                self,
            )@.update(id.slot as int, Some(RenderInstance { mesh, pose })),
            id.slot >= old(self)@.len() ==> id.slot == old(self)@.len() && final(self)@ =~= old(
                self,
            )@.push(Some(RenderInstance { mesh, pose })),
    {
        let slot = self.map.insert(RenderInstance { mesh, pose });
        InstanceId { slot }
    }

    /// Repositions the existing instance `id`.
    pub fn update_model(&mut self, mesh: MeshId, id: InstanceId, pose: Transform)
        requires
            old(self).wf(),
            old(self).spec_valid(id),
        ensures
            final(self).wf(),
            final(self)@ =~= old(self)@.update(
                id.slot as int,
                Some(RenderInstance { mesh, pose }),
            ),
    {
        self.map.set(id.slot, RenderInstance { mesh, pose });
    }

    /// Removes the existing instance `id`; its slot may be reused later.
    pub fn remove_model(&mut self, id: InstanceId)
        requires
            old(self).wf(),
            old(self).spec_valid(id),
        ensures
            final(self).wf(),
            final(self)@ =~= old(self)@.update(id.slot as int, None),
    {
        self.map.vacate(id.slot);
    }

    /// The instance in slot `id`, if occupied.
    pub fn get(&self, id: InstanceId) -> (r: Option<&RenderInstance>)
        ensures
            match r {
                Some(v) => self.spec_valid(id) && self@[id.slot as int] == Some(*v),
                None => !self.spec_valid(id),
            },
    {
        self.map.get(id.slot)
    }
}

/// A drawn beam between two points, with a color; published by the laser
/// system while its shot is connecting and removed when it is not.
#[derive(Debug, Clone, Copy, PartialEq, Eq, Structural)]
pub struct Line {
    pub pt: Vec3,
    pub pt2: Vec3,
    pub color: Vec3,
}

/// Outline meshes used to visualize hitboxes.
pub struct HitboxMeshes {
    pub unit_cube: MeshId,
    pub unit_sphere: MeshId,
}

impl HitboxMeshes {
    /// Wraps the renderer-assigned ids of the two outline meshes.
    pub fn new(unit_cube: MeshId, unit_sphere: MeshId) -> (r: HitboxMeshes)
        ensures
            r.unit_cube == unit_cube,
            r.unit_sphere == unit_sphere,
    {
        HitboxMeshes { unit_cube, unit_sphere }
    }
}

impl Hitbox {
    /// Which outline mesh visualizes this hitbox.
    pub open spec fn spec_hitbox_mesh(self, meshes: HitboxMeshes) -> MeshId {
        match self.shape {
            ColliderShape::Cuboid(_) => meshes.unit_cube,
            ColliderShape::Sphere(_) => meshes.unit_sphere,
        }
    }

    /// Picks the outline mesh matching this hitbox's shape.
    pub fn to_hitbox_mesh(&self, meshes: &HitboxMeshes) -> (r: MeshId)
        ensures
            r == self.spec_hitbox_mesh(*meshes),
    {
        match self.shape {
            ColliderShape::Cuboid(_) => meshes.unit_cube,
            ColliderShape::Sphere(_) => meshes.unit_sphere,
        }
    }

    /// The outline pose: the owning transform shifted by the hitbox offset,
    /// scaled by the shape's extents and the transform's own scale. The
    /// y and z scale factors trade places, as the renderer expects.
    pub fn to_hitbox_model(&self, transform: &Transform) -> (r: Transform)
        requires
            self.wf(),
            transform.wf(),
        ensures
            r.position == (Vec3 {
                x: (transform.position.x + self.offset.x) as i64,
                y: (transform.position.y + self.offset.y) as i64,
                z: (transform.position.z + self.offset.z) as i64,
            }),
            r.rotation == transform.rotation,
            ({
                let base = match self.shape {
                    ColliderShape::Cuboid(size) => size,
                    ColliderShape::Sphere(radius) => Vec3 { x: radius, y: radius, z: radius },
                };
                r.scale == (Vec3 {
                    x: (base.x * transform.scale.x / (MILLI as int)) as i64,
                    y: (base.y * transform.scale.z / (MILLI as int)) as i64,
                    z: (base.z * transform.scale.y / (MILLI as int)) as i64,
                })
            }),
    {
        let base = match self.shape {
            ColliderShape::Cuboid(size) => size,
            ColliderShape::Sphere(radius) => Vec3 { x: radius, y: radius, z: radius },
        };
        proof {
            lemma_mul_le(base.x as int, transform.scale.x as int, 0x100000, 0x100000);
            lemma_mul_le(base.y as int, transform.scale.z as int, 0x100000, 0x100000);
            lemma_mul_le(base.z as int, transform.scale.y as int, 0x100000, 0x100000);
        }
        let sx: i64 = base.x * transform.scale.x / MILLI;
        let sy: i64 = base.y * transform.scale.z / MILLI;
        let sz: i64 = base.z * transform.scale.y / MILLI;
        Transform {
            position: Vec3 {
                x: transform.position.x + self.offset.x,
                y: transform.position.y + self.offset.y,
                z: transform.position.z + self.offset.z,
            },
            rotation: transform.rotation,
            scale: Vec3 { x: sx, y: sy, z: sz },
        }
    }
}

/// Meshes of the free-floating simulation objects.
pub struct ObjectMeshes {
    pub asteroid_iron: MeshId,
    pub asteroid_copper: MeshId,
    pub mining_missle: MeshId,
}

impl ObjectMeshes {
    /// Wraps the renderer-assigned ids of the object meshes.
    pub fn new(asteroid_iron: MeshId, asteroid_copper: MeshId, mining_missle: MeshId) -> (r:
        ObjectMeshes)
        ensures
            r.asteroid_iron == asteroid_iron,
            r.asteroid_copper == asteroid_copper,
            r.mining_missle == mining_missle,
    {
        ObjectMeshes { asteroid_iron, asteroid_copper, mining_missle }
    }

    /// The asteroid mesh for an item kind.
    pub open spec fn spec_asteroid_mesh(self, item: crate::item::GameItem) -> MeshId {
        match item {
            crate::item::GameItem::Iron => self.asteroid_iron,
            crate::item::GameItem::Copper => self.asteroid_copper,
        }
    }

    /// Picks the asteroid mesh for an item kind.
    pub fn asteroid_mesh(&self, item: crate::item::GameItem) -> (r: MeshId)
        ensures
            r == self.spec_asteroid_mesh(item),
    {
        match item {
            crate::item::GameItem::Iron => self.asteroid_iron,
            crate::item::GameItem::Copper => self.asteroid_copper,
        }
    }
}

} // verus!
