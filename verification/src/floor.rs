//! The floor catalog: flat tiles drawn inside a ship's walls.

use crate::render::MeshId;
use vstd::prelude::*;

verus! {

/// A floor kind, identified by the mesh it is drawn with.
#[derive(Debug, Clone, Copy, PartialEq, Eq, Structural)]
pub struct Floor(pub MeshId);

impl Floor {
    /// The mesh this floor is drawn with.
    pub fn mesh_id(&self) -> (r: MeshId)
        ensures
            r == self.0,
    {
        self.0
    }
}

/// The immutable floor catalog, loaded once at startup.
pub struct Floors {
    pub metal: Floor,
}

/// Builds the floor catalog from the renderer-assigned mesh id.
pub fn load_floors(metal_mesh: MeshId) -> (r: Floors)
    ensures
        r.metal == Floor(metal_mesh),
{
    Floors { metal: Floor(metal_mesh) }
}

} // verus!
