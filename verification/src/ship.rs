//! Ships: the sparse tile grid, the block/gadget back-references, and the
//! transactional build-action protocol.
//!
//! Build actions place blocks, gadgets and floors on a ship's grid. New
//! entities go through the deferred-creation buffer: the tile slot holds
//! the handle at once, the components appear at the next maintenance
//! flush. Gadget builds charge the shared inventory unless told not to; an
//! unaffordable gadget abandons the rest of the batch.

use crate::block::{Blocks, BlockId, SetupKind, Miner, Laser};
use crate::collider::{Collider, GROUP_ASTEROID, GROUP_SHIP};
use crate::entity::{Entity, EntityStore};
use crate::floor::Floor;
use crate::item::{Inventory, ItemStack, GameItem};
use crate::math::{GridPos, Vec3, MILLI};
use crate::render::Model;
use crate::spawn::{PendingSpawns, SpawnBundle};
use crate::storage::EntityMap;
use crate::transform::Transform;
use vstd::prelude::*;

verus! {

/// One grid cell of a ship: optional block, gadget and floor entities.
#[derive(Debug, Clone, Copy, PartialEq, Eq, Structural)]
pub struct Tile {
    pub block: Option<Entity>,
    pub gadget: Option<Entity>,
    pub floor: Option<Entity>,
}

impl Tile {
    /// An empty tile.
    pub fn empty() -> (r: Tile)
        ensures
            r == (Tile { block: None, gadget: None, floor: None }),
    {
        Tile { block: None, gadget: None, floor: None }
    }
}

/// The sparse grid of a ship's tiles; its view is the map from coordinate
/// to tile.
pub struct TileMap {
    entries: Vec<(GridPos, Tile)>,
    gmap: Ghost<Map<GridPos, Tile>>,
}

impl View for TileMap {
    type V = Map<GridPos, Tile>;

    closed spec fn view(&self) -> Map<GridPos, Tile> {
        self.gmap@
    }
}

impl TileMap {
    /// Keys are unique and the entry list carries exactly the view.
    pub closed spec fn wf(self) -> bool {
        &&& forall|i: int, j: int|
            0 <= i < j < self.entries@.len()
                ==> (#[trigger] self.entries@[i]).0 != (#[trigger] self.entries@[j]).0
        &&& forall|i: int|
            0 <= i < self.entries@.len() ==> self.gmap@.dom().contains(
                (#[trigger] self.entries@[i]).0,
            ) && self.gmap@[self.entries@[i].0] == self.entries@[i].1
        &&& forall|p: GridPos| #[trigger]
            self.gmap@.dom().contains(p) ==> exists|i: int|
                0 <= i < self.entries@.len() && (#[trigger] self.entries@[i]).0 == p
    }

    /// An empty grid.
    pub fn new() -> (r: TileMap)
        ensures
            r.wf(),
            r@ =~= Map::<GridPos, Tile>::empty(),
    {
        TileMap { entries: Vec::new(), gmap: Ghost(Map::empty()) }
    }

    /// The position of `p`'s entry, if any.
    fn index_of(&self, p: GridPos) -> (r: Option<usize>)
        requires
            self.wf(),
        ensures
            match r {
                Some(i) => i < self.entries@.len() && self.entries@[i as int].0 == p
                    && self@.dom().contains(p) && self@[p] == self.entries@[i as int].1,
                None => !self@.dom().contains(p),
            },
    {
        let n = self.entries.len();
        let mut i: usize = 0;
        while i < n
            invariant
                self.wf(),
                n == self.entries@.len(),
                i <= n,
                forall|j: int| 0 <= j < i ==> (#[trigger] self.entries@[j]).0 != p,
            decreases n - i,
        {
            if self.entries[i].0 == p {
                return Some(i);
            }
            i = i + 1;
        }
        None
    }

    /// Whether the grid has a tile at `p`.
    pub fn contains(&self, p: GridPos) -> (r: bool)
        requires
            self.wf(),
        ensures
            r == self@.dom().contains(p),
    {
        self.index_of(p).is_some()
    }

    /// The tile at `p`, if the coordinate lies on the grid.
    pub fn get(&self, p: GridPos) -> (r: Option<Tile>)
        requires
            self.wf(),
        ensures
            match r {
                Some(t) => self@.dom().contains(p) && t == self@[p],
                None => !self@.dom().contains(p),
            },
    {
        match self.index_of(p) {
            Some(i) => Some(self.entries[i].1),
            None => None,
        }
    }

    /// Places or replaces the tile at `p`.
    pub fn insert(&mut self, p: GridPos, t: Tile)
        requires
            old(self).wf(),
        ensures
            final(self).wf(),
            final(self)@ =~= old(self)@.insert(p, t),
    {
        match self.index_of(p) {
            Some(i) => {
                self.entries.set(i, (p, t));
                proof {
                    self.gmap@ = self.gmap@.insert(p, t);
                    let prev = *old(self);
                    let ii = i as int;
                    assert forall|j: int|
                        0 <= j < self.entries@.len() implies self.gmap@.dom().contains(
                        (#[trigger] self.entries@[j]).0,
                    ) && self.gmap@[self.entries@[j].0] == self.entries@[j].1 by {
                        if j != ii {
                            assert(self.entries@[j] == prev.entries@[j]);
                            assert(prev.entries@[j].0 != p);
                        }
                    };
                    assert forall|x: GridPos| #[trigger]
                        self.gmap@.dom().contains(x) implies exists|k: int|
                        0 <= k < self.entries@.len() && (#[trigger] self.entries@[k]).0 == x by {
                        if x == p {
                            assert(self.entries@[ii].0 == x);
                        } else {
                            let k = choose|k: int|
                                0 <= k < prev.entries@.len() && (#[trigger] prev.entries@[k]).0
                                    == x;
                            assert(self.entries@[k].0 == x);
                        }
                    };
                }
            }
            None => {
                self.entries.push((p, t));
                proof {
                    self.gmap@ = self.gmap@.insert(p, t);
                    let prev = *old(self);
                    let m = self.entries@.len() - 1;
                    assert forall|j: int|
                        0 <= j < self.entries@.len() implies self.gmap@.dom().contains(
                        (#[trigger] self.entries@[j]).0,
                    ) && self.gmap@[self.entries@[j].0] == self.entries@[j].1 by {
                        if j != m {
                            assert(self.entries@[j] == prev.entries@[j]);
                            assert(prev.gmap@.dom().contains(prev.entries@[j].0));
                            assert(prev.entries@[j].0 != p);
                        }
                    };
                    assert forall|x: GridPos| #[trigger]
                        self.gmap@.dom().contains(x) implies exists|k: int|
                        0 <= k < self.entries@.len() && (#[trigger] self.entries@[k]).0 == x by {
                        if x == p {
                            assert(self.entries@[m].0 == x);
                        } else {
                            let k = choose|k: int|
                                0 <= k < prev.entries@.len() && (#[trigger] prev.entries@[k]).0
                                    == x;
                            assert(self.entries@[k].0 == x);
                        }
                    };
                }
            }
        }
    }
}

/// Heat a ship may accumulate before the game is lost.
pub const MAX_HEAT: u32 = 100;

/// Heat one block-versus-asteroid contact adds to the owning ship.
pub const CONTACT_HEAT: u32 = 20;

/// The ship component: accumulated heat and the tile grid.
pub struct Ship {
    pub heat: u32,
    pub tiles: TileMap,
}

impl Ship {
    /// The grid bookkeeping is consistent.
    pub open spec fn wf(self) -> bool {
        self.tiles.wf()
    }
}

/// Back-reference of a block entity to its ship, block kind and root tile.
#[derive(Debug, Clone, Copy, PartialEq, Eq, Structural)]
pub struct BlockEntity {
    pub ship: Entity,
    pub block_id: BlockId,
    pub root: GridPos,
}

/// Back-reference of a gadget entity to its ship and block kind.
#[derive(Debug, Clone, Copy, PartialEq, Eq, Structural)]
pub struct GadgetEntity {
    pub ship: Entity,
    pub block_id: BlockId,
}

/// A declarative request to change one tile of a ship.
pub enum BuildAction {
    BuildBlock(GridPos, BlockId),
    RemoveBlock(GridPos),
    BuildFloor(GridPos, Floor),
    RemoveFloor(GridPos),
}

/// What one build action may ask, against a catalog and a grid domain.
/// Remove actions are not implemented and placing outside the grid is a
/// caller error, so both are excluded here.
pub open spec fn action_ok(blocks: Blocks, dom: Set<GridPos>, a: BuildAction) -> bool {
    match a {
        BuildAction::BuildBlock(pos, id) => {
            &&& blocks.spec_valid(id)
            &&& blocks.spec_block(id).size.x == 1
            &&& blocks.spec_block(id).size.y == 1
            &&& (!blocks.spec_block(id).is_gadget ==> dom.contains(pos))
        }
        BuildAction::BuildFloor(pos, _) => dom.contains(pos),
        BuildAction::RemoveBlock(_) => false,
        BuildAction::RemoveFloor(_) => false,
    }
}

/// The entity inside an optional slot.
pub open spec fn slot_entity(o: Option<Entity>) -> Entity {
    match o {
        Option::Some(e) => e,
        Option::None => arbitrary(),
    }
}

/// The block kind occupying the base slot of `pos`, resolved through the
/// block entity's back-reference; `None` when the tile is missing, empty,
/// or its occupant has no block component.
pub open spec fn gadget_base(
    blocks: Blocks,
    tiles: Map<GridPos, Tile>,
    bents: Map<Entity, BlockEntity>,
    pos: GridPos,
) -> Option<BlockId> {
    if tiles.dom().contains(pos) {
        match tiles[pos].block {
            Option::Some(base_ent) => {
                if bents.dom().contains(base_ent) && blocks.spec_valid(bents[base_ent].block_id) {
                    Option::Some(bents[base_ent].block_id)
                } else {
                    Option::None
                }
            }
            Option::None => Option::None,
        }
    } else {
        Option::None
    }
}

/// Every block back-reference names a valid catalog entry.
pub open spec fn bents_ok(bents: Map<Entity, BlockEntity>, blocks: Blocks) -> bool {
    forall|e: Entity| #[trigger]
        bents.dom().contains(e) ==> blocks.spec_valid(bents[e].block_id)
}

/// Whether every cost entry is affordable from `inv`.
pub open spec fn costs_affordable(inv: Inventory, costs: Seq<ItemStack>) -> bool {
    forall|k: int|
        0 <= k < costs.len() ==> inv.spec_amount((#[trigger] costs[k]).item) >= costs[k].amount
}

/// The total amount of `item` in a cost list.
pub open spec fn spec_cost_total(costs: Seq<ItemStack>, item: GameItem) -> int
    decreases costs.len(),
{
    if costs.len() == 0 {
        0
    } else {
        (if costs.last().item == item {
            costs.last().amount as int
        } else {
            0
        }) + spec_cost_total(costs.drop_last(), item)
    }
}

/// A list whose entries never name `item` charges nothing for it.
proof fn lemma_cost_total_absent(costs: Seq<ItemStack>, item: GameItem)
    requires
        forall|k: int| 0 <= k < costs.len() ==> (#[trigger] costs[k]).item != item,
    ensures
        spec_cost_total(costs, item) == 0,
    decreases costs.len(),
{
    if costs.len() > 0 {
        lemma_cost_total_absent(costs.drop_last(), item);
    }
}

/// With distinct items, the total for a listed item is its single entry.
proof fn lemma_cost_total_distinct(costs: Seq<ItemStack>, k: int)
    requires
        0 <= k < costs.len(),
        forall|i: int, j: int|
            0 <= i < j < costs.len() ==> (#[trigger] costs[i]).item != (#[trigger] costs[j]).item,
    ensures
        spec_cost_total(costs, costs[k].item) == costs[k].amount,
    decreases costs.len(),
{
    let last = costs.len() - 1;
    if k == last {
        lemma_cost_total_absent(costs.drop_last(), costs[k].item);
    } else {
        lemma_cost_total_distinct(costs.drop_last(), k);
    }
}

/// Checks every cost entry against the current stock.
fn all_affordable(inv: &Inventory, costs: &Vec<ItemStack>) -> (r: bool)
    ensures
        r == costs_affordable(*inv, costs@),
{
    let n = costs.len();
    let mut i: usize = 0;
    while i < n
        invariant
            n == costs@.len(),
            i <= n,
            forall|k: int|
                0 <= k < i ==> inv.spec_amount((#[trigger] costs@[k]).item) >= costs@[k].amount,
        decreases n - i,
    {
        if !inv.has_enough_items(&costs[i]) {
            return false;
        }
        i = i + 1;
    }
    true
}

/// Deducts every entry of an affordable, distinct-item cost list.
fn deduct_costs(inv: &mut Inventory, costs: &Vec<ItemStack>)
    requires
        costs_affordable(*old(inv), costs@),
        forall|i: int, j: int|
            0 <= i < j < costs@.len() ==> (#[trigger] costs@[i]).item != (#[trigger] costs@[j]).item,
    ensures
        forall|it: GameItem|
            final(inv).spec_amount(it) as int == old(inv).spec_amount(it) - spec_cost_total(
                costs@,
                it,
            ),
{
    let n = costs.len();
    let mut i: usize = 0;
    while i < n
        invariant
            n == costs@.len(),
            i <= n,
            costs_affordable(*old(inv), costs@),
            forall|a: int, b: int|
                0 <= a < b < costs@.len() ==> (#[trigger] costs@[a]).item != (
                #[trigger] costs@[b]).item,
            forall|it: GameItem|
                inv.spec_amount(it) as int == old(inv).spec_amount(it) - spec_cost_total(
                    costs@.take(i as int),
                    it,
                ),
        decreases n - i,
    {
        let stack = costs[i];
        proof {
            lemma_cost_total_absent(costs@.take(i as int), stack.item);
            assert(costs@.take(i as int + 1).drop_last() =~= costs@.take(i as int));
            assert(costs@.take(i as int + 1).last() == costs@[i as int]);
        }
        inv.remove(stack.item, stack.amount);
        proof {
            assert forall|it: GameItem|
                inv.spec_amount(it) as int == old(inv).spec_amount(it) - spec_cost_total(
                    costs@.take(i as int + 1),
                    it,
                ) by {
                assert(spec_cost_total(costs@.take(i as int + 1), it) == (if costs@[i as int].item
                    == it {
                    costs@[i as int].amount as int
                } else {
                    0
                }) + spec_cost_total(costs@.take(i as int), it));
                if it != stack.item {
                } else {
                }
            };
        }
        i = i + 1;
    }
    proof {
        assert(costs@.take(n as int) =~= costs@);
    }
}

/// Whether a bundle is exactly a built block: back-reference, mesh, pose
/// at the tile with the deck at zero, and a ship-group collider whitelisted
/// against asteroids, plus the block's setup component.
pub open spec fn bundle_matches_block(
    b: SpawnBundle,
    blocks: Blocks,
    ship_entity: Entity,
    pos: GridPos,
    id: BlockId,
) -> bool {
    let blk = blocks.spec_block(id);
    &&& b.block == Some(BlockEntity { ship: ship_entity, block_id: id, root: pos })
    &&& b.gadget is None
    &&& match b.model {
        Option::Some(m) => m.mesh_id == blk.mesh_id && m.model_id is None,
        Option::None => false,
    }
    &&& match b.transform {
        Option::Some(t) => t.position == (Vec3 {
            x: (pos.x * MILLI) as i64,
            y: (pos.y * MILLI) as i64,
            z: 0,
        }),
        Option::None => false,
    }
    &&& match b.collider {
        Option::Some(c) => {
            &&& c.hitbox == blk.hitbox
            &&& c.group == GROUP_SHIP
            &&& c.whitelist@ =~= seq![GROUP_ASTEROID]
        }
        Option::None => false,
    }
    &&& bundle_matches_setup(b, blk.setup)
    &&& b.body is None
    &&& b.asteroid is None
    &&& b.health is None
    &&& b.missile is None
}

/// Whether a bundle is exactly a built gadget: back-reference, mesh, pose
/// on top of the base block, collider, and the setup component.
pub open spec fn bundle_matches_gadget(
    b: SpawnBundle,
    blocks: Blocks,
    ship_entity: Entity,
    pos: GridPos,
    id: BlockId,
    base_height: int,
) -> bool {
    let blk = blocks.spec_block(id);
    &&& b.gadget == Some(GadgetEntity { ship: ship_entity, block_id: id })
    &&& b.block is None
    &&& match b.model {
        Option::Some(m) => m.mesh_id == blk.mesh_id && m.model_id is None,
        Option::None => false,
    }
    &&& match b.transform {
        Option::Some(t) => t.position == (Vec3 {
            x: (pos.x * MILLI) as i64,
            y: (pos.y * MILLI) as i64,
            z: base_height as i64,
        }),
        Option::None => false,
    }
    &&& match b.collider {
        Option::Some(c) => {
            &&& c.hitbox == blk.hitbox
            &&& c.group == GROUP_SHIP
            &&& c.whitelist@ =~= seq![GROUP_ASTEROID]
        }
        Option::None => false,
    }
    &&& bundle_matches_setup(b, blk.setup)
    &&& b.body is None
    &&& b.asteroid is None
    &&& b.health is None
    &&& b.missile is None
}

/// Whether a bundle is exactly a built floor: its mesh at the tile, no
/// collider and no back-references.
pub open spec fn bundle_matches_floor(b: SpawnBundle, floor: Floor, pos: GridPos) -> bool {
    &&& match b.model {
        Option::Some(m) => m.mesh_id == floor.0 && m.model_id is None,
        Option::None => false,
    }
    &&& match b.transform {
        Option::Some(t) => t.position == (Vec3 {
            x: (pos.x * MILLI) as i64,
            y: (pos.y * MILLI) as i64,
            z: 0,
        }),
        Option::None => false,
    }
    &&& b.collider is None
    &&& b.block is None
    &&& b.gadget is None
    &&& b.body is None
    &&& b.asteroid is None
    &&& b.health is None
    &&& b.missile is None
    &&& b.miner is None
    &&& b.laser is None
}

/// Whether the bundle carries exactly the setup component of the block.
pub open spec fn bundle_matches_setup(b: SpawnBundle, setup: Option<SetupKind>) -> bool {
    match setup {
        Option::Some(SetupKind::Miner) => match b.miner {
            Option::Some(m) => m.shoot_time == 0 && b.laser is None,
            Option::None => false,
        },
        Option::Some(SetupKind::Laser) => b.laser is Some && b.miner is None,
        Option::None => b.miner is None && b.laser is None,
    }
}

/// What one build action did.
pub enum BuildResult {
    /// An entity was created and its tile slot set.
    Built(Entity),
    /// A gadget build found no base block; nothing changed.
    Skipped,
    /// A gadget build was unaffordable; nothing changed and the rest of
    /// the batch is to be dropped.
    Abandoned,
}

/// Applies one build action against one ship.
pub fn apply_build_action(
    store: &mut EntityStore,
    pending: &mut PendingSpawns,
    ship: &mut Ship,
    ship_entity: Entity,
    block_entities: &EntityMap<BlockEntity>,
    inventory: &mut Inventory,
    blocks: &Blocks,
    action: &BuildAction,
    ignore_price: bool,
) -> (r: BuildResult)
    requires
        old(store).wf(),
        old(ship).wf(),
        block_entities.wf(),
        blocks.wf(),
        action_ok(*blocks, old(ship).tiles@.dom(), *action),
    ensures
        final(store).wf(),
        final(ship).wf(),
        final(ship).heat == old(ship).heat,
        final(ship).tiles@.dom() =~= old(ship).tiles@.dom(),
        forall|e: Entity|
            old(store).spec_is_live(e) ==> #[trigger] final(store).spec_is_live(e),
        old(pending)@.is_prefix_of(final(pending)@),
        forall|j: int|
            old(pending)@.len() <= j < final(pending)@.len() ==> crate::spawn::bundle_wf(
                (#[trigger] final(pending)@[j]).1,
            ) && final(store).spec_is_live(final(pending)@[j].0) && !old(store).spec_is_live(
                final(pending)@[j].0,
            ),
        match r {
            BuildResult::Skipped => {
                &&& *final(store) == *old(store)
                &&& *final(pending) == *old(pending)
                &&& *final(ship) == *old(ship)
                &&& *final(inventory) == *old(inventory)
                &&& *action matches BuildAction::BuildBlock(pos, id) && blocks.spec_block(
                    id,
                ).is_gadget && gadget_base(*blocks, old(ship).tiles@, block_entities@, pos) is None
            }
            BuildResult::Abandoned => {
                &&& *final(store) == *old(store)
                &&& *final(pending) == *old(pending)
                &&& *final(ship) == *old(ship)
                &&& *final(inventory) == *old(inventory)
                &&& !ignore_price
                &&& *action matches BuildAction::BuildBlock(pos, id) && blocks.spec_block(
                    id,
                ).is_gadget && gadget_base(*blocks, old(ship).tiles@, block_entities@, pos) is Some
                    && !costs_affordable(*old(inventory), blocks.spec_block(id).cost@)
            }
            BuildResult::Built(e) => {
                &&& !old(store).spec_is_live(e)
                &&& final(store).spec_is_live(e)
                &&& forall|x: Entity|
                    #[trigger] final(store).spec_is_live(x) == (old(store).spec_is_live(x) || x
                        == e)
                &&& match *action {
                    BuildAction::BuildBlock(pos, id) => {
                        if blocks.spec_block(id).is_gadget {
                            &&& gadget_base(*blocks, old(ship).tiles@, block_entities@, pos) is Some
                            &&& bundle_matches_gadget(
                                final(pending)@.last().1,
                                *blocks,
                                ship_entity,
                                pos,
                                id,
                                blocks.spec_block(
                                    gadget_base(
                                        *blocks,
                                        old(ship).tiles@,
                                        block_entities@,
                                        pos,
                                    )->Some_0,
                                ).height as int,
                            )
                            &&& final(ship).tiles@ =~= old(ship).tiles@.insert(
                                pos,
                                Tile { gadget: Some(e), ..old(ship).tiles@[pos] },
                            )
                            &&& if ignore_price {
                                *final(inventory) == *old(inventory)
                            } else {
                                &&& costs_affordable(
                                    *old(inventory),
                                    blocks.spec_block(id).cost@,
                                )
                                &&& forall|it: GameItem|
                                    final(inventory).spec_amount(it) as int == old(
                                        inventory,
                                    ).spec_amount(it) - spec_cost_total(
                                        blocks.spec_block(id).cost@,
                                        it,
                                    )
                            }
                        } else {
                            &&& bundle_matches_block(
                                final(pending)@.last().1,
                                *blocks,
                                ship_entity,
                                pos,
                                id,
                            )
                            &&& final(ship).tiles@ =~= old(ship).tiles@.insert(
                                pos,
                                Tile { block: Some(e), ..old(ship).tiles@[pos] },
                            )
                            &&& *final(inventory) == *old(inventory)
                        }
                    }
                    BuildAction::BuildFloor(pos, floor) => {
                        &&& bundle_matches_floor(final(pending)@.last().1, floor, pos)
                        &&& final(ship).tiles@ =~= old(ship).tiles@.insert(
                            pos,
                            Tile { floor: Some(e), ..old(ship).tiles@[pos] },
                        )
                        &&& *final(inventory) == *old(inventory)
                    }
                    _ => false,
                }
                &&& final(pending)@ =~= old(pending)@.push(
                    (e, final(pending)@.last().1),
                )
            }
        },
{
    match action {
        BuildAction::BuildBlock(pos, block_id) => {
            let block = blocks.get_block(*block_id);
            if block.is_gadget {
                // A gadget needs a base block under it; without one the
                // action is quietly skipped.
                let base_id: Option<BlockId> = match ship.tiles.get(*pos) {
                    Some(tile) => match tile.block {
                        Some(base_ent) => match block_entities.get(base_ent) {
                            Some(bent) => {
                                if bent.block_id < blocks.len() {
                                    Some(bent.block_id)
                                } else {
                                    None
                                }
                            }
                            None => None,
                        },
                        None => None,
                    },
                    None => None,
                };
                let base_id = match base_id {
                    Some(b) => b,
                    None => {
                        return BuildResult::Skipped;
                    }
                };
                let base = blocks.get_block(base_id);
                if !ignore_price {
                    if !all_affordable(inventory, &block.cost) {
                        return BuildResult::Abandoned;
                    }
                    deduct_costs(inventory, &block.cost);
                }
                let e = store.create();
                let mut bundle = SpawnBundle::empty();
                bundle.model = Some(Model::new(block.mesh_id));
                bundle.transform = Some(
                    Transform::from_position(
                        pos.x as i64 * MILLI,
                        pos.y as i64 * MILLI,
                        base.height,
                    ),
                );
                bundle.gadget = Some(GadgetEntity { ship: ship_entity, block_id: *block_id });
                let mut wl: Vec<u32> = Vec::new();
                wl.push(GROUP_ASTEROID);
                bundle.collider = Some(Collider::new(block.hitbox, GROUP_SHIP, wl));
                match block.setup {
                    Some(SetupKind::Miner) => {
                        bundle.miner = Some(Miner::new());
                    }
                    Some(SetupKind::Laser) => {
                        bundle.laser = Some(Laser);
                    }
                    None => {}
                }
                pending.push(e, bundle);
                let tile = match ship.tiles.get(*pos) {
                    Some(t) => t,
                    None => vstd::pervasive::unreached(),
                };
                ship.tiles.insert(*pos, Tile { gadget: Some(e), ..tile });
                BuildResult::Built(e)
            } else {
                let e = store.create();
                let mut bundle = SpawnBundle::empty();
                bundle.model = Some(Model::new(block.mesh_id));
                bundle.block = Some(
                    BlockEntity { ship: ship_entity, block_id: *block_id, root: *pos },
                );
                bundle.transform = Some(
                    Transform::from_position(pos.x as i64 * MILLI, pos.y as i64 * MILLI, 0),
                );
                let mut wl: Vec<u32> = Vec::new();
                wl.push(GROUP_ASTEROID);
                bundle.collider = Some(Collider::new(block.hitbox, GROUP_SHIP, wl));
                match block.setup {
                    Some(SetupKind::Miner) => {
                        bundle.miner = Some(Miner::new());
                    }
                    Some(SetupKind::Laser) => {
                        bundle.laser = Some(Laser);
                    }
                    None => {}
                }
                pending.push(e, bundle);
                let tile = match ship.tiles.get(*pos) {
                    Some(t) => t,
                    None => vstd::pervasive::unreached(),
                };
                ship.tiles.insert(*pos, Tile { block: Some(e), ..tile });
                BuildResult::Built(e)
            }
        }
        BuildAction::BuildFloor(pos, floor) => {
            let e = store.create();
            let mut bundle = SpawnBundle::empty();
            bundle.model = Some(Model::new(floor.mesh_id()));
            bundle.transform = Some(
                Transform::from_position(pos.x as i64 * MILLI, pos.y as i64 * MILLI, 0),
            );
            pending.push(e, bundle);
            let tile = match ship.tiles.get(*pos) {
                Some(t) => t,
                None => vstd::pervasive::unreached(),
            };
            ship.tiles.insert(*pos, Tile { floor: Some(e), ..tile });
            BuildResult::Built(e)
        }
        BuildAction::RemoveBlock(_) => vstd::pervasive::unreached(),
        BuildAction::RemoveFloor(_) => vstd::pervasive::unreached(),
    }
}

/// Whether `a` is a gadget build against this catalog.
pub open spec fn is_gadget_action(blocks: Blocks, a: BuildAction) -> bool {
    a matches BuildAction::BuildBlock(_, id) && blocks.spec_block(id).is_gadget
}

/// The coordinate a build action refers to.
pub open spec fn action_coord(a: BuildAction) -> GridPos {
    match a {
        BuildAction::BuildBlock(pos, _) => pos,
        BuildAction::RemoveBlock(pos) => pos,
        BuildAction::BuildFloor(pos, _) => pos,
        BuildAction::RemoveFloor(pos) => pos,
    }
}

/// Whether the outcome of one non-gadget action stands in the final state:
/// the referenced tile slot holds an entity whose pending bundle carries
/// exactly the requested block or floor.
pub open spec fn built_ok(
    tiles: Map<GridPos, Tile>,
    pend: Seq<(Entity, SpawnBundle)>,
    blocks: Blocks,
    ship_entity: Entity,
    a: BuildAction,
) -> bool {
    match a {
        BuildAction::BuildBlock(pos, id) => exists|j: int|
            0 <= j < pend.len() && tiles.dom().contains(pos) && tiles[pos].block == Some(
                (#[trigger] pend[j]).0,
            ) && bundle_matches_block(pend[j].1, blocks, ship_entity, pos, id),
        BuildAction::BuildFloor(pos, floor) => exists|j: int|
            0 <= j < pend.len() && tiles.dom().contains(pos) && tiles[pos].floor == Some(
                (#[trigger] pend[j]).0,
            ) && bundle_matches_floor(pend[j].1, floor, pos),
        _ => true,
    }
}


/// Tile occupancy: when a block build's outcome stands in the tile map —
/// as `execute_build_actions` leaves it for non-gadget batches on distinct
/// coordinates — and the maintenance flush has materialized the pending
/// records of live entities, the referenced tile's block slot holds a live
/// entity whose back-reference names exactly the requested block and tile.
pub proof fn lemma_tile_occupancy(
    tiles: Map<GridPos, Tile>,
    pend: Seq<(Entity, crate::spawn::SpawnBundle)>,
    blocks: Blocks,
    ship_entity: Entity,
    pos: GridPos,
    id: BlockId,
    store: EntityStore,
    bents: Map<Entity, BlockEntity>,
)
    requires
        built_ok(tiles, pend, blocks, ship_entity, BuildAction::BuildBlock(pos, id)),
        forall|j: int|
            0 <= j < pend.len() ==> store.spec_is_live((#[trigger] pend[j]).0),
        forall|j: int|
            0 <= j < pend.len() && store.spec_is_live((#[trigger] pend[j]).0)
                && pend[j].1.block is Some ==> bents.dom().contains(pend[j].0)
                && bents[pend[j].0] == pend[j].1.block->Some_0,
    ensures
        tiles.dom().contains(pos),
        tiles[pos].block is Some,
        store.spec_is_live(slot_entity(tiles[pos].block)),
        bents.dom().contains(slot_entity(tiles[pos].block)),
        bents[slot_entity(tiles[pos].block)].block_id == id,
        bents[slot_entity(tiles[pos].block)].root == pos,
        bents[slot_entity(tiles[pos].block)].ship == ship_entity,
{
    let j = choose|j: int|
        0 <= j < pend.len() && tiles.dom().contains(pos) && tiles[pos].block == Some(
            (#[trigger] pend[j]).0,
        ) && bundle_matches_block(pend[j].1, blocks, ship_entity, pos, id);
    assert(pend[j].1.block == Some(BlockEntity { ship: ship_entity, block_id: id, root: pos }));
}

/// Applies an ordered batch of build actions against one ship.
///
/// Gadget builds without a base block are skipped; an unaffordable gadget
/// abandons the whole remaining batch. A batch of gadget actions that all
/// lack their base block changes nothing at all, and a batch of non-gadget
/// actions on distinct coordinates leaves every referenced slot filled
/// with its requested block or floor and the inventory untouched.
#[verifier::loop_isolation(false)]
pub fn execute_build_actions(
    store: &mut EntityStore,
    pending: &mut PendingSpawns,
    ship: &mut Ship,
    ship_entity: Entity,
    block_entities: &EntityMap<BlockEntity>,
    inventory: &mut Inventory,
    blocks: &Blocks,
    actions: &Vec<BuildAction>,
    ignore_price: bool,
)
    requires
        old(store).wf(),
        old(ship).wf(),
        block_entities.wf(),
        blocks.wf(),
        forall|k: int|
            0 <= k < actions@.len() ==> action_ok(
                *blocks,
                old(ship).tiles@.dom(),
                #[trigger] actions@[k],
            ),
    ensures
        final(store).wf(),
        final(ship).wf(),
        final(ship).heat == old(ship).heat,
        final(ship).tiles@.dom() =~= old(ship).tiles@.dom(),
        forall|e: Entity|
            old(store).spec_is_live(e) ==> #[trigger] final(store).spec_is_live(e),
        old(pending)@.is_prefix_of(final(pending)@),
        forall|j: int|
            old(pending)@.len() <= j < final(pending)@.len() ==> crate::spawn::bundle_wf(
                (#[trigger] final(pending)@[j]).1,
            ) && final(store).spec_is_live(final(pending)@[j].0) && !old(store).spec_is_live(
                final(pending)@[j].0,
            ),
        forall|j1: int, j2: int|
            old(pending)@.len() <= j1 < j2 < final(pending)@.len() ==> (
            #[trigger] final(pending)@[j1]).0 != (#[trigger] final(pending)@[j2]).0,
        (forall|k: int|
            0 <= k < actions@.len() ==> is_gadget_action(*blocks, #[trigger] actions@[k])
                && gadget_base(
                *blocks,
                old(ship).tiles@,
                block_entities@,
                action_coord(actions@[k]),
            ) is None) ==> *final(store) == *old(store) && final(pending)@ == old(pending)@
            && *final(ship) == *old(ship) && *final(inventory) == *old(inventory),
        ((forall|k: int|
            0 <= k < actions@.len() ==> !is_gadget_action(*blocks, #[trigger] actions@[k]))
            && (forall|k: int, l: int|
            0 <= k < l < actions@.len() ==> action_coord(#[trigger] actions@[k]) != action_coord(
                #[trigger] actions@[l],
            ))) ==> (*final(inventory) == *old(inventory) && forall|k: int|
            0 <= k < actions@.len() ==> built_ok(
                final(ship).tiles@,
                final(pending)@,
                *blocks,
                ship_entity,
                #[trigger] actions@[k],
            )),
        (!ignore_price && actions@.len() >= 1 && is_gadget_action(*blocks, actions@[0])
            && gadget_base(
            *blocks,
            old(ship).tiles@,
            block_entities@,
            action_coord(actions@[0]),
        ) is Some && !costs_affordable(
            *old(inventory),
            blocks.spec_block(actions@[0]->BuildBlock_1).cost@,
        )) ==> *final(store) == *old(store) && final(pending)@ == old(pending)@ && *final(ship)
            == *old(ship) && *final(inventory) == *old(inventory),
        ignore_price ==> *final(inventory) == *old(inventory),
        (actions@.len() == 1 && is_gadget_action(*blocks, actions@[0]) && gadget_base(
            *blocks,
            old(ship).tiles@,
            block_entities@,
            action_coord(actions@[0]),
        ) is Some && (ignore_price || costs_affordable(
            *old(inventory),
            blocks.spec_block(actions@[0]->BuildBlock_1).cost@,
        ))) ==> exists|e: Entity|
            {
                let pos = actions@[0]->BuildBlock_0;
                let id = actions@[0]->BuildBlock_1;
                let base = gadget_base(
                    *blocks,
                    old(ship).tiles@,
                    block_entities@,
                    pos,
                )->Some_0;
                &&& !old(store).spec_is_live(e)
                &&& #[trigger] final(store).spec_is_live(e)
                &&& final(pending)@ =~= old(pending)@.push((e, final(pending)@.last().1))
                &&& bundle_matches_gadget(
                    final(pending)@.last().1,
                    *blocks,
                    ship_entity,
                    pos,
                    id,
                    blocks.spec_block(base).height as int,
                )
                &&& final(ship).tiles@ =~= old(ship).tiles@.insert(
                    pos,
                    Tile { gadget: Some(e), ..old(ship).tiles@[pos] },
                )
                &&& (!ignore_price ==> forall|it: GameItem|
                    final(inventory).spec_amount(it) as int == old(inventory).spec_amount(it)
                        - spec_cost_total(blocks.spec_block(id).cost@, it))
            },
{
    let ghost one_gadget_premise = actions@.len() == 1 && is_gadget_action(*blocks, actions@[0])
        && gadget_base(
        *blocks,
        old(ship).tiles@,
        block_entities@,
        action_coord(actions@[0]),
    ) is Some && (ignore_price || costs_affordable(
        *old(inventory),
        blocks.spec_block(actions@[0]->BuildBlock_1).cost@,
    ));
    let ghost all_skipped_premise = forall|k: int|
        0 <= k < actions@.len() ==> is_gadget_action(*blocks, #[trigger] actions@[k])
            && gadget_base(*blocks, old(ship).tiles@, block_entities@, action_coord(actions@[k])) is None;
    let ghost plain_premise = (forall|k: int|
        0 <= k < actions@.len() ==> !is_gadget_action(*blocks, #[trigger] actions@[k])) && (
    forall|k: int, l: int|
        0 <= k < l < actions@.len() ==> action_coord(#[trigger] actions@[k]) != action_coord(
            #[trigger] actions@[l],
        ));
    let ghost abandon_premise = !ignore_price && actions@.len() >= 1 && is_gadget_action(
        *blocks,
        actions@[0],
    ) && gadget_base(*blocks, old(ship).tiles@, block_entities@, action_coord(actions@[0])) is Some
        && !costs_affordable(*old(inventory), blocks.spec_block(actions@[0]->BuildBlock_1).cost@);
    let n = actions.len();
    let mut idx: usize = 0;
    let mut halted: bool = false;
    while idx < n && !halted
        invariant
            n == actions@.len(),
            idx <= n,
            store.wf(),
            ship.wf(),
            block_entities.wf(),
            blocks.wf(),
            ship.heat == old(ship).heat,
            ship.tiles@.dom() =~= old(ship).tiles@.dom(),
            forall|e: Entity|
                old(store).spec_is_live(e) ==> #[trigger] store.spec_is_live(e),
            old(pending)@.is_prefix_of(pending@),
            forall|j: int|
                old(pending)@.len() <= j < pending@.len() ==> crate::spawn::bundle_wf(
                    (#[trigger] pending@[j]).1,
                ) && store.spec_is_live(pending@[j].0) && !old(store).spec_is_live(
                    pending@[j].0,
                ),
            forall|j1: int, j2: int|
                old(pending)@.len() <= j1 < j2 < pending@.len() ==> (
                #[trigger] pending@[j1]).0 != (#[trigger] pending@[j2]).0,
            forall|k: int|
                0 <= k < actions@.len() ==> action_ok(
                    *blocks,
                    old(ship).tiles@.dom(),
                    #[trigger] actions@[k],
                ),
            all_skipped_premise == (forall|k: int|
                0 <= k < actions@.len() ==> is_gadget_action(*blocks, #[trigger] actions@[k])
                    && gadget_base(
                    *blocks,
                    old(ship).tiles@,
                    block_entities@,
                    action_coord(actions@[k]),
                ) is None),
            plain_premise == ((forall|k: int|
                0 <= k < actions@.len() ==> !is_gadget_action(*blocks, #[trigger] actions@[k]))
                && (forall|k: int, l: int|
                0 <= k < l < actions@.len() ==> action_coord(#[trigger] actions@[k])
                    != action_coord(#[trigger] actions@[l]))),
            abandon_premise == (!ignore_price && actions@.len() >= 1 && is_gadget_action(
                *blocks,
                actions@[0],
            ) && gadget_base(*blocks, old(ship).tiles@, block_entities@, action_coord(actions@[0])) is Some
                && !costs_affordable(
                *old(inventory),
                blocks.spec_block(actions@[0]->BuildBlock_1).cost@,
            )),
            all_skipped_premise ==> !halted && *store == *old(store) && pending@ == old(pending)@
                && *ship == *old(ship) && *inventory == *old(inventory),
            abandon_premise ==> (idx == 0 || halted) && *store == *old(store) && pending@ == old(
                pending,
            )@ && *ship == *old(ship) && *inventory == *old(inventory),
            idx == 0 ==> *store == *old(store) && pending@ == old(pending)@ && *ship == *old(
                ship,
            ) && *inventory == *old(inventory),
            halted ==> idx >= 1,
            ignore_price ==> *inventory == *old(inventory),
            one_gadget_premise && idx >= 1 ==> exists|e: Entity|
                {
                    let pos = actions@[0]->BuildBlock_0;
                    let id = actions@[0]->BuildBlock_1;
                    let base = gadget_base(
                        *blocks,
                        old(ship).tiles@,
                        block_entities@,
                        pos,
                    )->Some_0;
                    &&& !old(store).spec_is_live(e)
                    &&& #[trigger] store.spec_is_live(e)
                    &&& pending@ =~= old(pending)@.push((e, pending@.last().1))
                    &&& bundle_matches_gadget(
                        pending@.last().1,
                        *blocks,
                        ship_entity,
                        pos,
                        id,
                        blocks.spec_block(base).height as int,
                    )
                    &&& ship.tiles@ =~= old(ship).tiles@.insert(
                        pos,
                        Tile { gadget: Some(e), ..old(ship).tiles@[pos] },
                    )
                    &&& (!ignore_price ==> forall|it: GameItem|
                        inventory.spec_amount(it) as int == old(inventory).spec_amount(it)
                            - spec_cost_total(blocks.spec_block(id).cost@, it))
                },
            plain_premise ==> !halted && *inventory == *old(inventory) && forall|k: int|
                0 <= k < idx ==> built_ok(
                    ship.tiles@,
                    pending@,
                    *blocks,
                    ship_entity,
                    #[trigger] actions@[k],
                ),
        decreases n - idx,
    {
        let ghost pre_tiles = ship.tiles@;
        let ghost pre_pend = pending@;
        let r = apply_build_action(
            store,
            pending,
            ship,
            ship_entity,
            block_entities,
            inventory,
            blocks,
            &actions[idx],
            ignore_price,
        );
        proof {
            if plain_premise {
                assert(!is_gadget_action(*blocks, actions@[idx as int]));
                assert(r is Built);
                assert forall|k: int| 0 <= k < idx + 1 implies built_ok(
                    ship.tiles@,
                    pending@,
                    *blocks,
                    ship_entity,
                    #[trigger] actions@[k],
                ) by {
                    if k < idx {
                        assert(built_ok(pre_tiles, pre_pend, *blocks, ship_entity, actions@[k]));
                        assert(action_coord(actions@[k]) != action_coord(actions@[idx as int]));
                        let j = choose|j: int|
                            0 <= j < pre_pend.len() && (match actions@[k] {
                                BuildAction::BuildBlock(pos, id) => pre_tiles.dom().contains(pos)
                                    && pre_tiles[pos].block == Some((#[trigger] pre_pend[j]).0)
                                    && bundle_matches_block(
                                    pre_pend[j].1,
                                    *blocks,
                                    ship_entity,
                                    pos,
                                    id,
                                ),
                                BuildAction::BuildFloor(pos, floor) => pre_tiles.dom().contains(
                                    pos,
                                ) && pre_tiles[pos].floor == Some((#[trigger] pre_pend[j]).0)
                                    && bundle_matches_floor(pre_pend[j].1, floor, pos),
                                _ => false,
                            });
                        assert(pending@[j] == pre_pend[j]);
                    } else {
                        assert(pending@.len() >= 1);
                        let j = pending@.len() - 1;
                        assert(pending@[j] == pending@.last());
                    }
                };
            }
            if abandon_premise && idx == 0 {
                assert(r is Abandoned);
            }
            if all_skipped_premise {
                assert(r is Skipped);
            }
            if one_gadget_premise && idx == 0 {
                match r {
                    BuildResult::Skipped => {
                        assert(false);
                    }
                    BuildResult::Abandoned => {
                        assert(false);
                    }
                    BuildResult::Built(e) => {
                        assert(store.spec_is_live(e));
                        assert(is_gadget_action(*blocks, actions@[0]));
                    }
                }
            }
        }
        match r {
            BuildResult::Abandoned => {
                halted = true;
            }
            _ => {}
        }
        idx = idx + 1;
    }
    proof {
        if plain_premise {
            assert(idx == n);
        }
    }
}

/// Whether every action of a batch is admissible against a catalog and a
/// tile-grid domain.
pub open spec fn spec_batch_ok(blocks: Blocks, dom: Set<GridPos>, actions: Seq<BuildAction>) -> bool {
    forall|k: int| 0 <= k < actions.len() ==> action_ok(blocks, dom, #[trigger] actions[k])
}

/// Whether a build action stays inside the initial ship's grid box and is
/// otherwise well formed against the catalog.
pub open spec fn action_in_start_box(blocks: Blocks, a: BuildAction) -> bool {
    &&& match a {
        BuildAction::BuildBlock(pos, id) => {
            &&& blocks.spec_valid(id)
            &&& blocks.spec_block(id).size.x == 1
            &&& blocks.spec_block(id).size.y == 1
        }
        BuildAction::BuildFloor(_, _) => true,
        BuildAction::RemoveBlock(_) => false,
        BuildAction::RemoveFloor(_) => false,
    }
    &&& -32 <= action_coord(a).x < 32
    &&& -32 <= action_coord(a).y < 32
}


/// One cell of the starting hull: a wall on the border of the 8-by-8
/// square, a metal floor inside it.
pub open spec fn spec_hull_cell(
    blocks: Blocks,
    metal: Floor,
    x: int,
    y: int,
) -> BuildAction {
    if x == 0 || y == 0 || x == 7 || y == 7 {
        BuildAction::BuildBlock(GridPos { x: x as i16, y: y as i16 }, blocks.wall)
    } else {
        BuildAction::BuildFloor(GridPos { x: x as i16, y: y as i16 }, metal)
    }
}

/// The first `y` cells of hull column `x`, in order.
pub open spec fn spec_hull_col(blocks: Blocks, metal: Floor, x: int, y: int) -> Seq<BuildAction>
    decreases y,
{
    if y <= 0 {
        Seq::empty()
    } else {
        spec_hull_col(blocks, metal, x, y - 1) + seq![spec_hull_cell(blocks, metal, x, y - 1)]
    }
}

/// The first `x` hull columns, each of eight cells, in order.
pub open spec fn spec_hull_cols(blocks: Blocks, metal: Floor, x: int) -> Seq<BuildAction>
    decreases x,
{
    if x <= 0 {
        Seq::empty()
    } else {
        spec_hull_cols(blocks, metal, x - 1) + spec_hull_col(blocks, metal, x - 1, 8)
    }
}

/// The whole starting hull batch: the 8-by-8 walled square with its
/// floors, then the two engines and four cargo cubes aft.
pub open spec fn spec_initial_hull(blocks: Blocks, metal: Floor) -> Seq<BuildAction> {
    spec_hull_cols(blocks, metal, 8) + seq![
        BuildAction::BuildBlock(GridPos { x: 8i16, y: -2i16 }, blocks.engine),
        BuildAction::BuildBlock(GridPos { x: 8i16, y: 9i16 }, blocks.engine),
        BuildAction::BuildBlock(GridPos { x: 7i16, y: -2i16 }, blocks.cube),
        BuildAction::BuildBlock(GridPos { x: 7i16, y: -1i16 }, blocks.cube),
        BuildAction::BuildBlock(GridPos { x: 7i16, y: 8i16 }, blocks.cube),
        BuildAction::BuildBlock(GridPos { x: 7i16, y: 9i16 }, blocks.cube),
    ]
}

/// The starting gadget batch: laser gadgets on two corner walls.
pub open spec fn spec_initial_gadgets(blocks: Blocks) -> Seq<BuildAction> {
    seq![
        BuildAction::BuildBlock(GridPos { x: 0i16, y: 7i16 }, blocks.laser),
        BuildAction::BuildBlock(GridPos { x: 0i16, y: 0i16 }, blocks.laser),
    ]
}

/// The build batches of the starting ship: a walled square with a metal
/// floor inside, engines and cargo cubes aft, and laser gadgets on two
/// corners, built in a second batch so the corner walls exist first.
pub fn build_initial_ship(blocks: &Blocks, floors: &crate::floor::Floors) -> (r: (
    Vec<BuildAction>,
    Vec<BuildAction>,
))
    requires
        blocks.wf(),
        blocks.spec_valid(blocks.wall),
        blocks.spec_valid(blocks.engine),
        blocks.spec_valid(blocks.cube),
        blocks.spec_valid(blocks.laser),
        blocks.spec_block(blocks.wall).size == (crate::block::GridSize { x: 1, y: 1 }),
        blocks.spec_block(blocks.engine).size == (crate::block::GridSize { x: 1, y: 1 }),
        blocks.spec_block(blocks.cube).size == (crate::block::GridSize { x: 1, y: 1 }),
        blocks.spec_block(blocks.laser).size == (crate::block::GridSize { x: 1, y: 1 }),
    ensures
        forall|k: int|
            0 <= k < r.0@.len() ==> action_in_start_box(*blocks, #[trigger] r.0@[k]),
        forall|k: int|
            0 <= k < r.1@.len() ==> action_in_start_box(*blocks, #[trigger] r.1@[k]),
        r.0@ =~= spec_initial_hull(*blocks, floors.metal),
        r.1@ =~= spec_initial_gadgets(*blocks),
{
    let mut ship_actions: Vec<BuildAction> = Vec::new();
    let mut gadgets: Vec<BuildAction> = Vec::new();
    let size: i16 = 7;
    let mut x: i16 = 0;
    while x <= size
        invariant
            blocks.wf(),
            blocks.spec_valid(blocks.wall),
            blocks.spec_block(blocks.wall).size == (crate::block::GridSize { x: 1, y: 1 }),
            0 <= x <= size + 1,
            size == 7,
            forall|k: int|
                0 <= k < ship_actions@.len() ==> action_in_start_box(
                    *blocks,
                    #[trigger] ship_actions@[k],
                ),
            ship_actions@ =~= spec_hull_cols(*blocks, floors.metal, x as int),
        decreases size + 1 - x,
    {
        let mut y: i16 = 0;
        while y <= size
            invariant
                blocks.wf(),
                blocks.spec_valid(blocks.wall),
                blocks.spec_block(blocks.wall).size == (crate::block::GridSize { x: 1, y: 1 }),
                0 <= x <= size,
                0 <= y <= size + 1,
                size == 7,
                forall|k: int|
                    0 <= k < ship_actions@.len() ==> action_in_start_box(
                        *blocks,
                        #[trigger] ship_actions@[k],
                    ),
                ship_actions@ =~= spec_hull_cols(*blocks, floors.metal, x as int) + spec_hull_col(
                    *blocks,
                    floors.metal,
                    x as int,
                    y as int,
                ),
            decreases size + 1 - y,
        {
            if x == 0 || y == 0 || x == size || y == size {
                ship_actions.push(BuildAction::BuildBlock(GridPos { x, y }, blocks.wall));
            } else {
                ship_actions.push(BuildAction::BuildFloor(GridPos { x, y }, floors.metal));
            }
            y = y + 1;
        }
        x = x + 1;
    }
    ship_actions.push(BuildAction::BuildBlock(GridPos { x: size + 1, y: -2 }, blocks.engine));
    ship_actions.push(
        BuildAction::BuildBlock(GridPos { x: size + 1, y: size + 2 }, blocks.engine),
    );
    ship_actions.push(BuildAction::BuildBlock(GridPos { x: size, y: -2 }, blocks.cube));
    ship_actions.push(BuildAction::BuildBlock(GridPos { x: size, y: -1 }, blocks.cube));
    ship_actions.push(BuildAction::BuildBlock(GridPos { x: size, y: size + 1 }, blocks.cube));
    ship_actions.push(BuildAction::BuildBlock(GridPos { x: size, y: size + 2 }, blocks.cube));
    gadgets.push(BuildAction::BuildBlock(GridPos { x: 0, y: size }, blocks.laser));
    gadgets.push(BuildAction::BuildBlock(GridPos { x: 0, y: 0 }, blocks.laser));
    (ship_actions, gadgets)
}

} // verus!
