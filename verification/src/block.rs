//! The block catalog: the immutable descriptions of placeable blocks, and
//! the cooldown component of miner blocks plus the tag of laser blocks.

use crate::entity::{Entity, EntityStore};
use crate::geom::{isqrt, sqrt_floor, within_ray_range, ColliderShape, Hitbox, RAY_LIMIT};
use crate::input::{InputAction, InputState};
use crate::item::ItemStack;
use crate::math::{spec_clamp, vec_within, Vec3, MILLI, POS_LIMIT, SIZE_LIMIT};
use crate::objects::{build_mining_missle, scaled_div, scaled_div_exec, Health};
use crate::rcworld::{spec_raycast, RaycastWorld, Reg};
use crate::render::{Line, MeshId, ObjectMeshes};
use crate::spawn::PendingSpawns;
use crate::storage::EntityMap;
use crate::transform::{RotZ, Transform};
use vstd::prelude::*;

verus! {

/// Index of a block description in the catalog.
pub type BlockId = usize;

/// Which extra component a block attaches to its entity when built.
#[derive(Debug, Clone, Copy, PartialEq, Eq, Structural)]
pub enum SetupKind {
    Miner,
    Laser,
}

/// A block's grid footprint.
#[derive(Debug, Clone, Copy, PartialEq, Eq, Structural)]
pub struct GridSize {
    pub x: u16,
    pub y: u16,
}

/// One immutable block description.
pub struct Block {
    pub id: BlockId,
    pub kind_name: &'static str,
    pub mesh_id: MeshId,
    /// Grid footprint; only single-cell blocks can be built.
    pub size: GridSize,
    /// Height of the block above the deck.
    pub height: i64,
    pub hitbox: Hitbox,
    pub setup: Option<SetupKind>,
    pub is_gadget: bool,
    pub cost: Vec<ItemStack>,
}

impl Block {
    /// Geometry is bounded and cost entries name distinct items, so a cost
    /// list found affordable can be deducted entry by entry.
    pub open spec fn wf(self) -> bool {
        &&& self.hitbox.wf()
        &&& 0 <= self.height <= SIZE_LIMIT
        &&& forall|i: int, j: int|
            0 <= i < j < self.cost@.len() ==> (#[trigger] self.cost@[i]).item != (
            #[trigger] self.cost@[j]).item
    }
}

/// The immutable block catalog, loaded once at startup; block ids index it.
pub struct Blocks {
    pub blocks: Vec<Block>,
    pub wall: BlockId,
    pub engine: BlockId,
    pub cube: BlockId,
    pub miner: BlockId,
    pub laser: BlockId,
}

impl Blocks {
    /// Every entry is well formed and carries its own index as id.
    pub open spec fn wf(self) -> bool {
        forall|i: int|
            0 <= i < self.blocks@.len() ==> (#[trigger] self.blocks@[i]).wf() && self.blocks@[i].id
                == i
    }

    /// Whether `id` names a catalog entry.
    pub open spec fn spec_valid(self, id: BlockId) -> bool {
        id < self.blocks@.len()
    }

    /// The catalog entry named `id`.
    pub open spec fn spec_block(self, id: BlockId) -> Block {
        self.blocks@[id as int]
    }

    /// Looks a block up by id; ids come from this catalog, so they are
    /// valid by construction.
    pub fn get_block(&self, id: BlockId) -> (r: &Block)
        requires
            self.spec_valid(id),
        ensures
            *r == self.spec_block(id),
    {
        &self.blocks[id]
    }

    /// How many blocks the catalog holds.
    pub fn len(&self) -> (r: usize)
        ensures
            r == self.spec_len(),
    {
        self.blocks.len()
    }

    /// The number of catalog entries.
    pub open spec fn spec_len(self) -> nat {
        self.blocks@.len()
    }
}

/// Appends a block description and returns its id. The default hitbox is a
/// cuboid of the block's footprint and height, centered halfway up.
pub fn create_block(
    blocks: &mut Vec<Block>,
    mesh_id: MeshId,
    size_x: u16,
    size_y: u16,
    height: i64,
    hitbox: Option<Hitbox>,
    kind_name: &'static str,
    setup: Option<SetupKind>,
    is_gadget: bool,
    cost: Vec<ItemStack>,
) -> (id: BlockId)
    requires
        0 <= height <= SIZE_LIMIT,
        size_x as int * 1000 <= SIZE_LIMIT,
        size_y as int * 1000 <= SIZE_LIMIT,
        match hitbox {
            Some(hb) => hb.wf(),
            None => true,
        },
        forall|i: int, j: int|
            0 <= i < j < cost@.len() ==> (#[trigger] cost@[i]).item != (#[trigger] cost@[j]).item,
    ensures
        id == old(blocks)@.len(),
        final(blocks)@.len() == old(blocks)@.len() + 1,
        forall|i: int| 0 <= i < old(blocks)@.len() ==> final(blocks)@[i] == old(blocks)@[i],
        ({
            let b = final(blocks)@[id as int];
            &&& b.id == id
            &&& b.mesh_id == mesh_id
            &&& b.size == (GridSize { x: size_x, y: size_y })
            &&& b.height == height
            &&& b.setup == setup
            &&& b.is_gadget == is_gadget
            &&& b.cost@ == cost@
            &&& b.wf()
            &&& b.hitbox == match hitbox {
                Some(hb) => hb,
                None => Hitbox {
                    shape: ColliderShape::Cuboid(
                        Vec3 {
                            x: (size_x * 1000) as i64,
                            y: (size_y * 1000) as i64,
                            z: height,
                        },
                    ),
                    offset: Vec3 { x: 0, y: 0, z: (height as int / 2) as i64 },
                },
            }
        }),
{
    let id = blocks.len();
    let hb = match hitbox {
        Some(hb) => hb,
        None => Hitbox {
            shape: ColliderShape::Cuboid(
                Vec3 { x: size_x as i64 * 1000, y: size_y as i64 * 1000, z: height },
            ),
            offset: Vec3 { x: 0, y: 0, z: height / 2 },
        },
    };
    let block = Block {
        id,
        mesh_id,
        kind_name,
        setup,
        is_gadget,
        hitbox: hb,
        size: GridSize { x: size_x, y: size_y },
        height,
        cost,
    };
    blocks.push(block);
    id
}

/// Builds the standard block catalog from the renderer-assigned mesh ids.
pub fn load_blocks(
    wall_mesh: MeshId,
    engine_mesh: MeshId,
    cube_mesh: MeshId,
    miner_mesh: MeshId,
    laser_mesh: MeshId,
) -> (r: Blocks)
    ensures
        r.wf(),
        r.spec_valid(r.wall),
        r.spec_valid(r.engine),
        r.spec_valid(r.cube),
        r.spec_valid(r.miner),
        r.spec_valid(r.laser),
        !r.spec_block(r.wall).is_gadget,
        !r.spec_block(r.engine).is_gadget,
        !r.spec_block(r.cube).is_gadget,
        !r.spec_block(r.miner).is_gadget,
        r.spec_block(r.laser).is_gadget,
        r.spec_block(r.wall).size == (GridSize { x: 1, y: 1 }),
        r.spec_block(r.engine).size == (GridSize { x: 1, y: 1 }),
        r.spec_block(r.cube).size == (GridSize { x: 1, y: 1 }),
        r.spec_block(r.miner).size == (GridSize { x: 1, y: 1 }),
        r.spec_block(r.laser).size == (GridSize { x: 1, y: 1 }),
        r.spec_block(r.wall).height == 3000,
        r.spec_block(r.miner).setup == Some(SetupKind::Miner),
        r.spec_block(r.laser).setup == Some(SetupKind::Laser),
        r.spec_block(r.wall).cost@.len() == 0,
        r.spec_block(r.engine).cost@.len() == 0,
        r.spec_block(r.cube).cost@.len() == 0,
        r.spec_block(r.miner).cost@.len() == 0,
        r.spec_block(r.laser).cost@.len() == 0,
        r.spec_block(r.wall).mesh_id == wall_mesh,
        r.spec_block(r.engine).mesh_id == engine_mesh,
        r.spec_block(r.cube).mesh_id == cube_mesh,
        r.spec_block(r.miner).mesh_id == miner_mesh,
        r.spec_block(r.laser).mesh_id == laser_mesh,
        r.spec_block(r.engine).height == 1000,
        r.spec_block(r.cube).height == 1000,
        r.spec_block(r.miner).height == 1000,
        r.spec_block(r.laser).height == 200,
        r.spec_block(r.laser).hitbox == (Hitbox {
            shape: ColliderShape::Cuboid(Vec3 { x: 600, y: 600, z: 525 }),
            offset: Vec3 { x: 0, y: 0, z: 262 },
        }),
        r.spec_block(r.miner).setup == Some(SetupKind::Miner),
        r.spec_len() == 5,
        r.wall == 0,
        r.engine == 1,
        r.cube == 2,
        r.miner == 3,
        r.laser == 4,
{
    let mut blocks: Vec<Block> = Vec::new();
    let wall = create_block(
        &mut blocks,
        wall_mesh,
        1,
        1,
        3000,
        None,
        "wall",
        None,
        false,
        Vec::new(),
    );
    let engine = create_block(
        &mut blocks,
        engine_mesh,
        1,
        1,
        1000,
        None,
        "engine",
        None,
        false,
        Vec::new(),
    );
    let cube = create_block(
        &mut blocks,
        cube_mesh,
        1,
        1,
        1000,
        None,
        "Box",
        None,
        false,
        Vec::new(),
    );
    let miner = create_block(
        &mut blocks,
        miner_mesh,
        1,
        1,
        1000,
        None,
        "Miner",
        Some(SetupKind::Miner),
        false,
        Vec::new(),
    );
    let laser = create_block(
        &mut blocks,
        laser_mesh,
        1,
        1,
        200,
        Some(
            Hitbox::new(
                ColliderShape::Cuboid(Vec3 { x: 600, y: 600, z: 525 }),
                Vec3 { x: 0, y: 0, z: 262 },
            ),
        ),
        "Laser",
        Some(SetupKind::Laser),
        true,
        Vec::new(),
    );
    Blocks { blocks, wall, engine, cube, miner, laser }
}

/// Wraps a finished block list into a catalog with the given named ids;
/// lets tests and tools assemble custom catalogs through `create_block`.
pub fn blocks_from_list(
    blocks: Vec<Block>,
    wall: BlockId,
    engine: BlockId,
    cube: BlockId,
    miner: BlockId,
    laser: BlockId,
) -> (r: Blocks)
    requires
        forall|i: int|
            0 <= i < blocks@.len() ==> (#[trigger] blocks@[i]).wf() && blocks@[i].id == i,
        wall < blocks@.len(),
        engine < blocks@.len(),
        cube < blocks@.len(),
        miner < blocks@.len(),
        laser < blocks@.len(),
    ensures
        r.wf(),
        r.spec_len() == blocks@.len(),
        forall|id: BlockId| id < blocks@.len() ==> r.spec_valid(id) && r.spec_block(id) == blocks@[id as int],
        r.wall == wall,
        r.engine == engine,
        r.cube == cube,
        r.miner == miner,
        r.laser == laser,
{
    Blocks { blocks, wall, engine, cube, miner, laser }
}

/// The cooldown component of a miner block's entity.
pub struct Miner {
    pub shoot_time: u16,
}

/// Ticks a miner must wait between missile launches.
pub const MINER_TOTAL_TIME: u16 = 120;

impl Miner {
    /// A miner that has just started waiting.
    pub fn new() -> (r: Miner)
        ensures
            r.shoot_time == 0,
    {
        Miner { shoot_time: 0 }
    }
}


/// How many of the first `k` miner entries fire this tick: those with a
/// transform whose cooldown has run out, when the input orders mining at
/// a live pointer target.
pub open spec fn spec_firing_count(
    entries: Seq<(Entity, Miner)>,
    placed: Set<Entity>,
    firing: bool,
    k: int,
) -> int
    decreases k,
{
    if k <= 0 {
        0
    } else {
        spec_firing_count(entries, placed, firing, k - 1) + (
        if firing && placed.contains(entries[k - 1].0) && entries[k - 1].1.shoot_time
            > MINER_TOTAL_TIME {
            1int
        } else {
            0int
        })
    }
}

/// Points every miner against the flight of incoming asteroids and, when
/// its cooldown has run out and a mining target is under the pointer,
/// launches a mining missile just above the miner and restarts the
/// cooldown; otherwise the cooldown keeps counting.
#[verifier::spinoff_prover]
#[verifier::loop_isolation(false)]
pub fn miner_system(
    store: &mut EntityStore,
    pending: &mut PendingSpawns,
    input: &InputState,
    meshes: &ObjectMeshes,
    miners: &mut EntityMap<Miner>,
    transforms: &mut EntityMap<Transform>,
)
    requires
        old(store).wf(),
        old(miners).wf(),
        old(transforms).wf(),
        crate::physics::transforms_ok(old(transforms)@),
    ensures
        final(store).wf(),
        final(miners).wf(),
        final(transforms).wf(),
        crate::physics::transforms_ok(final(transforms)@),
        final(transforms)@.dom() =~= old(transforms)@.dom(),
        final(miners)@.dom() =~= old(miners)@.dom(),
        forall|e: Entity|
            old(store).spec_is_live(e) ==> #[trigger] final(store).spec_is_live(e),
        old(pending)@.is_prefix_of(final(pending)@),
        forall|j: int|
            old(pending)@.len() <= j < final(pending)@.len() ==> crate::spawn::bundle_wf(
                (#[trigger] final(pending)@[j]).1,
            ) && final(store).spec_is_live(final(pending)@[j].0) && !old(store).spec_is_live(
                final(pending)@[j].0,
            ) && final(pending)@[j].1.missile is Some && input.target is Some
                && final(pending)@[j].1.missile->Some_0.target == input.target->Some_0,
        forall|j1: int, j2: int|
            old(pending)@.len() <= j1 < j2 < final(pending)@.len() ==> (
            #[trigger] final(pending)@[j1]).0 != (#[trigger] final(pending)@[j2]).0,
        final(pending)@.len() == old(pending)@.len() + spec_firing_count(
            old(miners).entry_seq(),
            old(transforms)@.dom(),
            input.action == InputAction::Mining && input.target is Some,
            old(miners).entry_seq().len() as int,
        ),
        forall|e: Entity| #[trigger]
            final(transforms)@.dom().contains(e) ==> final(transforms)@[e] == (
            if old(miners)@.dom().contains(e) {
                Transform { rotation: RotZ { x: (-(MILLI as int)) as i64, y: 0 }, ..old(transforms)@[e] }
            } else {
                old(transforms)@[e]
            }),
        forall|e: Entity| #[trigger]
            final(miners)@.dom().contains(e) ==> final(miners)@[e].shoot_time == (
            if old(transforms)@.dom().contains(e) {
                if old(miners)@[e].shoot_time > MINER_TOTAL_TIME {
                    if input.action == InputAction::Mining && input.target is Some {
                        0u16
                    } else {
                        old(miners)@[e].shoot_time
                    }
                } else {
                    (old(miners)@[e].shoot_time + 1) as u16
                }
            } else {
                old(miners)@[e].shoot_time
            }),
{
    let n = miners.len();
    let mut i: usize = 0;
    while i < n
        invariant
            store.wf(),
            miners.wf(),
            transforms.wf(),
            crate::physics::transforms_ok(transforms@),
            i <= n,
            n == miners.entry_seq().len(),
            miners.entry_seq().len() == old(miners).entry_seq().len(),
            forall|j: int|
                0 <= j < n ==> (#[trigger] miners.entry_seq()[j]).0 == old(
                    miners,
                ).entry_seq()[j].0,
            miners@.dom() =~= old(miners)@.dom(),
            transforms@.dom() =~= old(transforms)@.dom(),
            forall|e: Entity|
                old(store).spec_is_live(e) ==> #[trigger] store.spec_is_live(e),
            old(pending)@.is_prefix_of(pending@),
            forall|j: int|
                old(pending)@.len() <= j < pending@.len() ==> crate::spawn::bundle_wf(
                    (#[trigger] pending@[j]).1,
                ) && store.spec_is_live(pending@[j].0) && !old(store).spec_is_live(
                    pending@[j].0,
                ) && pending@[j].1.missile is Some && input.target is Some
                    && pending@[j].1.missile->Some_0.target == input.target->Some_0,
            forall|j1: int, j2: int|
                old(pending)@.len() <= j1 < j2 < pending@.len() ==> (
                #[trigger] pending@[j1]).0 != (#[trigger] pending@[j2]).0,
            pending@.len() == old(pending)@.len() + spec_firing_count(
                old(miners).entry_seq(),
                old(transforms)@.dom(),
                input.action == InputAction::Mining && input.target is Some,
                i as int,
            ),
            forall|e: Entity| #[trigger]
                transforms@.dom().contains(e) ==> transforms@[e] == (
                if old(miners)@.dom().contains(e) && (exists|j: int|
                    0 <= j < i && (#[trigger] old(miners).entry_seq()[j]).0 == e) {
                    Transform {
                        rotation: RotZ { x: (-(MILLI as int)) as i64, y: 0 },
                        ..old(transforms)@[e]
                    }
                } else {
                    old(transforms)@[e]
                }),
            forall|j: int|
                0 <= j < n ==> (#[trigger] miners.entry_seq()[j]).1.shoot_time == (
                if j < i {
                    if old(transforms)@.dom().contains(miners.entry_seq()[j].0) {
                        if old(miners).entry_seq()[j].1.shoot_time > MINER_TOTAL_TIME {
                            if input.action == InputAction::Mining && input.target is Some {
                                0u16
                            } else {
                                old(miners).entry_seq()[j].1.shoot_time
                            }
                        } else {
                            (old(miners).entry_seq()[j].1.shoot_time + 1) as u16
                        }
                    } else {
                        old(miners).entry_seq()[j].1.shoot_time
                    }
                } else {
                    old(miners).entry_seq()[j].1.shoot_time
                }),
        decreases n - i,
    {
        let entry = miners.at(i);
        let e = entry.0;
        let shoot_time = entry.1.shoot_time;
        proof {
            miners.lemma_entry_keys_distinct();
            old(miners).lemma_entry_keys_distinct();
            old(miners).lemma_entry_in_view(i as int);
        }
        let ghost pre_transforms = transforms@;
        let ghost pre_miners = *miners;
        proof {
            if exists|j: int| 0 <= j < i && (#[trigger] old(miners).entry_seq()[j]).0 == e {
                let j = choose|j: int|
                    0 <= j < i && (#[trigger] old(miners).entry_seq()[j]).0 == e;
                assert(false);
            }
        }
        match transforms.get(e) {
            Some(t) => {
                proof {
                    assert(*t == old(transforms)@[e]);
                }
                let nt = Transform { rotation: RotZ { x: -MILLI, y: 0 }, ..*t };
                transforms.insert(e, nt);
                proof {
                    assert(transforms@[e] == Transform {
                        rotation: RotZ { x: (-(MILLI as int)) as i64, y: 0 },
                        ..old(transforms)@[e]
                    });
                }
                if shoot_time > MINER_TOTAL_TIME {
                    let fire: Option<Entity> = match (input.action, input.target) {
                        (InputAction::Mining, Some(tgt)) => Some(tgt),
                        _ => None,
                    };
                    match fire {
                        Some(tgt) => {
                            let spawn_z: i64 = crate::math::clamp_i64(
                                nt.position.z + 500,
                                POS_LIMIT,
                            );
                            let _missile = build_mining_missle(
                                meshes,
                                store,
                                pending,
                                tgt,
                                Vec3 { x: nt.position.x, y: nt.position.y, z: spawn_z },
                            );
                            miners.set_at(i, Miner { shoot_time: 0 });
                        }
                        None => {}
                    }
                } else {
                    miners.set_at(i, Miner { shoot_time: shoot_time + 1 });
                }
            }
            None => {}
        }
        proof {
            assert forall|e2: Entity| #[trigger]
                transforms@.dom().contains(e2) implies transforms@[e2] == (
            if old(miners)@.dom().contains(e2) && (exists|j: int|
                0 <= j < i + 1 && (#[trigger] old(miners).entry_seq()[j]).0 == e2) {
                Transform { rotation: RotZ { x: (-(MILLI as int)) as i64, y: 0 }, ..old(transforms)@[e2] }
            } else {
                old(transforms)@[e2]
            }) by {
                if e2 == e {
                    assert(old(miners).entry_seq()[i as int].0 == e);
                    assert(old(miners)@.dom().contains(e));
                } else {
                    assert(transforms@[e2] == pre_transforms[e2]);
                    if exists|j: int|
                        0 <= j < i + 1 && (#[trigger] old(miners).entry_seq()[j]).0 == e2 {
                        let j = choose|j: int|
                            0 <= j < i + 1 && (#[trigger] old(miners).entry_seq()[j]).0 == e2;
                        assert(j < i);
                    }
                }
            };
            assert forall|j: int|
                0 <= j < n implies (#[trigger] miners.entry_seq()[j]).1.shoot_time == (
            if j < i + 1 {
                if old(transforms)@.dom().contains(miners.entry_seq()[j].0) {
                    if old(miners).entry_seq()[j].1.shoot_time > MINER_TOTAL_TIME {
                        if input.action == InputAction::Mining && input.target is Some {
                            0u16
                        } else {
                            old(miners).entry_seq()[j].1.shoot_time
                        }
                    } else {
                        (old(miners).entry_seq()[j].1.shoot_time + 1) as u16
                    }
                } else {
                    old(miners).entry_seq()[j].1.shoot_time
                }
            } else {
                old(miners).entry_seq()[j].1.shoot_time
            }) by {
                if j != i {
                    assert(miners.entry_seq()[j] == pre_miners.entry_seq()[j]);
                }
            };
        }
        i = i + 1;
    }
    proof {
        assert forall|e: Entity| #[trigger]
            transforms@.dom().contains(e) implies transforms@[e] == (
        if old(miners)@.dom().contains(e) {
            Transform { rotation: RotZ { x: (-(MILLI as int)) as i64, y: 0 }, ..old(transforms)@[e] }
        } else {
            old(transforms)@[e]
        }) by {
            if old(miners)@.dom().contains(e) {
                old(miners).lemma_view_has_entry(e);
                let j = choose|j: int|
                    0 <= j < old(miners).entry_seq().len() && (#[trigger] old(
                        miners,
                    ).entry_seq()[j]).0 == e;
            }
            if exists|j: int| 0 <= j < n && (#[trigger] old(miners).entry_seq()[j]).0 == e {
                let j = choose|j: int|
                    0 <= j < n && (#[trigger] old(miners).entry_seq()[j]).0 == e;
                old(miners).lemma_entry_in_view(j);
            }
        };
        assert forall|e: Entity| #[trigger]
            miners@.dom().contains(e) implies miners@[e].shoot_time == (
        if old(transforms)@.dom().contains(e) {
            if old(miners)@[e].shoot_time > MINER_TOTAL_TIME {
                if input.action == InputAction::Mining && input.target is Some {
                    0u16
                } else {
                    old(miners)@[e].shoot_time
                }
            } else {
                (old(miners)@[e].shoot_time + 1) as u16
            }
        } else {
            old(miners)@[e].shoot_time
        }) by {
            miners.lemma_view_has_entry(e);
            let j = choose|j: int|
                0 <= j < miners.entry_seq().len() && (#[trigger] miners.entry_seq()[j]).0 == e;
            miners.lemma_entry_in_view(j);
            old(miners).lemma_entry_in_view(j);
        };
    }
}

/// Tag component of a laser block's entity.
pub struct Laser;


/// Where a laser's beam leaves the block: a little above the block's deck,
/// nudged toward the target in the xy plane.
pub open spec fn spec_laser_aim(epos: Vec3, tpos: Vec3) -> Vec3 {
    let sz = spec_clamp(epos.z + 400, POS_LIMIT as int) as i64;
    let dx = epos.x - tpos.x;
    let dy = epos.y - tpos.y;
    let len = sqrt_floor(dx * dx + dy * dy);
    if len > 0 {
        Vec3 {
            x: (epos.x - scaled_div(dx, 350, len)) as i64,
            y: (epos.y - scaled_div(dy, 350, len)) as i64,
            z: sz,
        }
    } else {
        Vec3 { x: epos.x, y: epos.y, z: sz }
    }
}

/// Whether laser entity `e` connects this tick: the input orders a laser
/// shot at a placed target, the beam segment stays in ray range, and an
/// unrestricted raycast from the beam's start sees exactly the designated
/// target — not merely something. Yields the beam start, the target and
/// its position.
pub open spec fn spec_laser_hit(
    regs: Seq<Option<Reg>>,
    trs: Map<Entity, Transform>,
    action: InputAction,
    target: Option<Entity>,
    e: Entity,
) -> Option<(Vec3, Entity, Vec3)> {
    match (action, target) {
        (InputAction::Laser, Option::Some(t)) => {
            if trs.dom().contains(t) && trs.dom().contains(e) {
                let start = spec_laser_aim(trs[e].position, trs[t].position);
                let tpos = trs[t].position;
                if vec_within(start, RAY_LIMIT) && vec_within(tpos, RAY_LIMIT) && spec_raycast(
                    regs,
                    Seq::empty(),
                    start,
                    tpos,
                ) == Some(t) {
                    Some((start, t, tpos))
                } else {
                    None
                }
            } else {
                None
            }
        }
        _ => None,
    }
}

/// What one laser does: a connecting laser publishes its beam line, turns
/// toward the target and deals one point of damage; a blocked or idle one
/// removes any stale beam line.
pub open spec fn spec_laser_step(
    regs: Seq<Option<Reg>>,
    action: InputAction,
    target: Option<Entity>,
    st: (Map<Entity, Line>, Map<Entity, Health>, Map<Entity, Transform>),
    e: Entity,
) -> (Map<Entity, Line>, Map<Entity, Health>, Map<Entity, Transform>) {
    let (lines, hps, trs) = st;
    match spec_laser_hit(regs, trs, action, target, e) {
        Option::Some(hit) => {
            let start = hit.0;
            let t = hit.1;
            let tpos = hit.2;
            let lines2 = lines.insert(
                e,
                Line { pt: start, pt2: tpos, color: Vec3 { x: 1000, y: 0, z: 0 } },
            );
            let hps2 = if hps.dom().contains(t) {
                hps.insert(
                    t,
                    Health(
                        if 1 <= hps[t].0 {
                            (hps[t].0 - 1) as u32
                        } else {
                            0u32
                        },
                    ),
                )
            } else {
                hps
            };
            let trs2 = trs.insert(
                e,
                Transform {
                    rotation: RotZ {
                        x: (trs[e].position.x - tpos.x) as i64,
                        y: (trs[e].position.y - tpos.y) as i64,
                    },
                    ..trs[e]
                },
            );
            (lines2, hps2, trs2)
        }
        Option::None => (lines.remove(e), hps, trs),
    }
}

/// The state after the first `k` lasers, first entry first.
pub open spec fn spec_laser_fold(
    entries: Seq<(Entity, Laser)>,
    regs: Seq<Option<Reg>>,
    action: InputAction,
    target: Option<Entity>,
    st0: (Map<Entity, Line>, Map<Entity, Health>, Map<Entity, Transform>),
    k: int,
) -> (Map<Entity, Line>, Map<Entity, Health>, Map<Entity, Transform>)
    decreases k,
{
    if k <= 0 {
        st0
    } else {
        spec_laser_step(
            regs,
            action,
            target,
            spec_laser_fold(entries, regs, action, target, st0, k - 1),
            entries[k - 1].0,
        )
    }
}

/// Runs every laser block for one tick: beams, aim and damage follow
/// `spec_laser_fold` exactly, entry by entry.
#[verifier::rlimit(60)]
#[verifier::spinoff_prover]
#[verifier::loop_isolation(false)]
pub fn laser_system(
    rcw: &RaycastWorld,
    input: &InputState,
    lasers: &EntityMap<Laser>,
    lines: &mut EntityMap<Line>,
    healths: &mut EntityMap<Health>,
    transforms: &mut EntityMap<Transform>,
)
    requires
        rcw.wf(),
        lasers.wf(),
        old(lines).wf(),
        old(healths).wf(),
        old(transforms).wf(),
        crate::physics::transforms_ok(old(transforms)@),
    ensures
        final(lines).wf(),
        final(healths).wf(),
        final(transforms).wf(),
        crate::physics::transforms_ok(final(transforms)@),
        ({
            let st = spec_laser_fold(
                lasers.entry_seq(),
                rcw@,
                input.action,
                input.target,
                (old(lines)@, old(healths)@, old(transforms)@),
                lasers.entry_seq().len() as int,
            );
            final(lines)@ =~= st.0 && final(healths)@ =~= st.1 && final(transforms)@ =~= st.2
        }),
{
    let n = lasers.len();
    let mut k: usize = 0;
    while k < n
        invariant
            lines.wf(),
            healths.wf(),
            transforms.wf(),
            crate::physics::transforms_ok(transforms@),
            k <= n,
            ({
                let st = spec_laser_fold(
                    lasers.entry_seq(),
                    rcw@,
                    input.action,
                    input.target,
                    (old(lines)@, old(healths)@, old(transforms)@),
                    k as int,
                );
                lines@ =~= st.0 && healths@ =~= st.1 && transforms@ =~= st.2
            }),
        decreases n - k,
    {
        let e = lasers.at(k).0;
        let ghost pre_lines = lines@;
        let ghost pre_hps = healths@;
        let ghost pre_trs = transforms@;
        let hit: Option<(Vec3, Entity, Vec3)> = match (input.action, input.target) {
            (InputAction::Laser, Some(t)) => {
                match (transforms.get(t), transforms.get(e)) {
                    (Some(tt), Some(te)) => {
                        let tpos = tt.position;
                        let epos = te.position;
                        let sz: i64 = crate::math::clamp_i64(epos.z + 400, POS_LIMIT);
                        let dx: i64 = epos.x - tpos.x;
                        let dy: i64 = epos.y - tpos.y;
                        proof {
                            crate::geom::lemma_mul_le(dx as int, dx as int, 0x20000000, 0x20000000);
                            crate::geom::lemma_mul_le(dy as int, dy as int, 0x20000000, 0x20000000);
                            assert(dx as i128 * dx as i128 + dy as i128 * dy as i128 >= 0)
                                by (nonlinear_arith)
                                requires
                                    true,
                            ;
                        }
                        let n2: u128 = (dx as i128 * dx as i128 + dy as i128 * dy as i128) as u128;
                        let len_u: u128 = isqrt(n2);
                        proof {
                            assert(len_u as int <= 0x40000000) by (nonlinear_arith)
                                requires
                                    (len_u as int) * (len_u as int) <= n2 as int,
                                    n2 as int <= 0x800000000000000,
                                    len_u as int >= 0,
                            ;
                            crate::geom::lemma_sqrt_floor_exists(n2 as int);
                            crate::geom::lemma_sqrt_floor_unique(
                                n2 as int,
                                len_u as int,
                                sqrt_floor(n2 as int),
                            );
                            assert((dx as int) * (dx as int) >= 0 && (dy as int) * (dy as int)
                                >= 0) by (nonlinear_arith)
                                requires
                                    true,
                            ;
                            assert((dx as int) * (dx as int) <= ((len_u as int) + 1) * ((
                            len_u as int) + 1) - 1);
                            assert((dy as int) * (dy as int) <= ((len_u as int) + 1) * ((
                            len_u as int) + 1) - 1);
                        }
                        let len: i64 = len_u as i64;
                        let start: Vec3 = if len > 0 {
                            proof {
                                assert((if dx as int >= 0 { dx as int } else { -(dx as int) })
                                    * 350 <= 350 * (len as int)) by (nonlinear_arith)
                                    requires
                                        (dx as int) * (dx as int) <= ((len as int) + 1) * ((
                                        len as int) + 1) - 1,
                                        len as int > 0,
                                ;
                                assert((if dy as int >= 0 { dy as int } else { -(dy as int) })
                                    * 350 <= 350 * (len as int)) by (nonlinear_arith)
                                    requires
                                        (dy as int) * (dy as int) <= ((len as int) + 1) * ((
                                        len as int) + 1) - 1,
                                        len as int > 0,
                                ;
                                crate::objects::lemma_scaled_div_le(
                                    dx as int,
                                    350,
                                    len as int,
                                    350,
                                );
                                crate::objects::lemma_scaled_div_le(
                                    dy as int,
                                    350,
                                    len as int,
                                    350,
                                );
                            }
                            let offx: i64 = scaled_div_exec(dx, 350, len as i128);
                            let offy: i64 = scaled_div_exec(dy, 350, len as i128);
                            Vec3 { x: epos.x - offx, y: epos.y - offy, z: sz }
                        } else {
                            Vec3 { x: epos.x, y: epos.y, z: sz }
                        };
                        if within_ray_range(start) && within_ray_range(tpos) {
                            let empty_wl: Vec<u32> = Vec::new();
                            let cast = rcw.raycast(&empty_wl, start, tpos);
                            proof {
                                assert(empty_wl@ =~= Seq::<u32>::empty());
                            }
                            let connected: bool = match cast {
                                Some(h) => h == t,
                                None => false,
                            };
                            if connected {
                                Some((start, t, tpos))
                            } else {
                                None
                            }
                        } else {
                            None
                        }
                    }
                    _ => None,
                }
            }
            _ => None,
        };
        proof {
            assert(hit == spec_laser_hit(rcw@, transforms@, input.action, input.target, e));
        }
        match hit {
            Some(h3) => {
                let start = h3.0;
                let t = h3.1;
                let tpos = h3.2;
                lines.insert(
                    e,
                    Line { pt: start, pt2: tpos, color: Vec3 { x: 1000, y: 0, z: 0 } },
                );
                match healths.get(t) {
                    Some(hp) => {
                        let h0 = hp.0;
                        let nh: u32 = if 1 <= h0 {
                            h0 - 1
                        } else {
                            0
                        };
                        healths.insert(t, Health(nh));
                    }
                    None => {}
                }
                let te = match transforms.get(e) {
                    Some(te) => *te,
                    None => vstd::pervasive::unreached(),
                };
                let dx2: i64 = te.position.x - tpos.x;
                let dy2: i64 = te.position.y - tpos.y;
                transforms.insert(
                    e,
                    Transform { rotation: RotZ { x: dx2, y: dy2 }, ..te },
                );
            }
            None => {
                lines.remove(e);
            }
        }
        proof {
            let st_pre = (pre_lines, pre_hps, pre_trs);
            let st_post = spec_laser_step(rcw@, input.action, input.target, st_pre, e);
            assert(lines@ =~= st_post.0);
            assert(healths@ =~= st_post.1);
            assert(transforms@ =~= st_post.2);
        }
        k = k + 1;
    }
}

} // verus!
