//! Entity simulation for a small 3D building game: a component world with
//! generational entities, deferred removal, a per-tick contact world, a
//! persistent raycast world, and a tile-based ship building protocol.
//!
//! All geometry is fixed point: one world unit is `MILLI` (1000) coordinate
//! steps, so positions, velocities and shape sizes are plain integers and
//! every contract is exact.

pub mod block;
pub mod collider;
pub mod entity;
pub mod geom;
pub mod input;
pub mod rcworld;
pub mod render;
pub mod slotmap;
pub mod item;
pub mod math;
pub mod floor;
pub mod gameplay;
pub mod objects;
pub mod physics;
pub mod removal;
pub mod ship;
pub mod spawn;
pub mod storage;
pub mod sync;
pub mod transform;
pub mod world;

pub use item::{GameItem, Inventory, ItemStack};
