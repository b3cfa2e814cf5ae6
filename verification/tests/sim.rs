use ship_sim::block::{blocks_from_list, create_block, load_blocks, Block};
use ship_sim::collider::{Collider, GROUP_ASTEROID, GROUP_MISSLE, GROUP_SHIP};
use ship_sim::entity::EntityStore;
use ship_sim::geom::{
    isqrt, ray_shape_hit, shapes_overlap_check, ColliderShape, Hitbox,
};
use ship_sim::input::InputAction;
use ship_sim::item::{GameItem, Inventory};
use ship_sim::math::{GridPos, Vec3};
use ship_sim::objects::{build_mining_missle, missile_update, Asteroid, Health, MiningMissle};
use ship_sim::physics::{detect_contacts, run_physics};
use ship_sim::rcworld::RaycastWorld;
use ship_sim::removal::ToBeRemoved;
use ship_sim::render::{MeshId, Model, ObjectMeshes};
use ship_sim::ship::{execute_build_actions, BuildAction, BuildResult, Ship, TileMap};
use ship_sim::spawn::PendingSpawns;
use ship_sim::storage::EntityMap;
use ship_sim::transform::{RigidBody, Transform};
use ship_sim::world::ECS;

fn mesh(n: usize) -> MeshId {
    MeshId(n)
}

fn test_ecs() -> ECS {
    ECS::new(
        mesh(0),
        mesh(1),
        mesh(2),
        mesh(3),
        mesh(4),
        mesh(5),
        mesh(6),
        mesh(7),
        mesh(8),
        mesh(9),
        mesh(10),
    )
}

#[test]
fn removal_add_is_idempotent() {
    let mut store = EntityStore::new();
    let e = store.create();
    let mut queue = ToBeRemoved::new();
    queue.add(e);
    queue.add(e);
    queue.add(e);
    assert_eq!(queue.len(), 1);
    assert!(queue.contains(e));
    let other = store.create();
    queue.add(other);
    assert_eq!(queue.len(), 2);
}

#[test]
fn entity_store_liveness_and_stale_handles() {
    let mut store = EntityStore::new();
    let a = store.create();
    let b = store.create();
    assert!(store.is_alive(a));
    assert!(store.is_alive(b));
    store.destroy(a);
    assert!(!store.is_alive(a));
    assert!(store.is_alive(b));
    // The slot may be reused, but the stale handle stays dead.
    let c = store.create();
    assert!(store.is_alive(c));
    assert!(!store.is_alive(a));
}

#[test]
fn health_damage_clamps_at_zero() {
    let mut h = Health(10);
    h.damage(3);
    assert_eq!(h.health(), 7);
    h.damage(0);
    assert_eq!(h.health(), 7);
    h.damage(100);
    assert_eq!(h.health(), 0);
    h.damage(5);
    assert_eq!(h.health(), 0);
}

#[test]
fn inventory_add_remove_amounts() {
    let mut inv = Inventory::new();
    assert_eq!(inv.amount(&GameItem::Iron), 0);
    inv.add(GameItem::Iron, 7);
    inv.add(GameItem::Copper, 2);
    assert_eq!(inv.amount(&GameItem::Iron), 7);
    assert_eq!(inv.amount(&GameItem::Copper), 2);
    assert!(inv.has_enough_items(&GameItem::Iron.stack(7)));
    assert!(!inv.has_enough_items(&GameItem::Iron.stack(8)));
    inv.remove(GameItem::Iron, 5);
    assert_eq!(inv.amount(&GameItem::Iron), 2);
}

#[test]
fn isqrt_exact_values() {
    assert_eq!(isqrt(0), 0);
    assert_eq!(isqrt(1), 1);
    assert_eq!(isqrt(3), 1);
    assert_eq!(isqrt(4), 2);
    assert_eq!(isqrt(999999), 999);
    assert_eq!(isqrt(1000000), 1000);
    assert_eq!(isqrt(u64::MAX as u128), 4294967295);
}

#[test]
fn sphere_overlap_exact_boundary() {
    let a = Vec3 { x: 0, y: 0, z: 0 };
    let b = Vec3 { x: 2000, y: 0, z: 0 };
    // Touching counts as contact: radii 1000 + 1000 meet at distance 2000.
    assert!(shapes_overlap_check(
        &ColliderShape::Sphere(1000),
        a,
        &ColliderShape::Sphere(1000),
        b
    ));
    assert!(!shapes_overlap_check(
        &ColliderShape::Sphere(999),
        a,
        &ColliderShape::Sphere(1000),
        b
    ));
}

#[test]
fn sphere_box_overlap_uses_full_extents() {
    let box_center = Vec3 { x: 0, y: 0, z: 0 };
    let size = Vec3 { x: 1000, y: 1000, z: 1000 };
    // The box reaches 500 from its center: a sphere of radius 100 centered
    // at x=600 touches it; at x=601 it no longer does.
    let near = Vec3 { x: 600, y: 0, z: 0 };
    let far = Vec3 { x: 601, y: 0, z: 0 };
    assert!(shapes_overlap_check(
        &ColliderShape::Sphere(100),
        near,
        &ColliderShape::Cuboid(size),
        box_center
    ));
    assert!(!shapes_overlap_check(
        &ColliderShape::Sphere(100),
        far,
        &ColliderShape::Cuboid(size),
        box_center
    ));
}

#[test]
fn raycast_returns_first_hit_along_segment() {
    let mut store = EntityStore::new();
    let near_e = store.create();
    let far_e = store.create();
    let mut rcw = RaycastWorld::new();
    // Register the farther sphere first: selection must go by distance,
    // not registration order.
    rcw.register(far_e, GROUP_ASTEROID, ColliderShape::Sphere(500), Vec3 {
        x: 20000,
        y: 0,
        z: 0,
    });
    rcw.register(near_e, GROUP_ASTEROID, ColliderShape::Sphere(500), Vec3 {
        x: 10000,
        y: 0,
        z: 0,
    });
    let hit = rcw.raycast(
        &vec![GROUP_ASTEROID],
        Vec3 { x: 0, y: 0, z: 0 },
        Vec3 { x: 30000, y: 0, z: 0 },
    );
    assert_eq!(hit, Some(near_e));
}

#[test]
fn raycast_respects_whitelist() {
    let mut store = EntityStore::new();
    let e = store.create();
    let mut rcw = RaycastWorld::new();
    rcw.register(e, GROUP_SHIP, ColliderShape::Sphere(500), Vec3 { x: 5000, y: 0, z: 0 });
    let n = Vec3 { x: 0, y: 0, z: 0 };
    let f = Vec3 { x: 10000, y: 0, z: 0 };
    assert_eq!(rcw.raycast(&vec![GROUP_ASTEROID], n, f), None);
    assert_eq!(rcw.raycast(&vec![GROUP_SHIP], n, f), Some(e));
    // An empty whitelist admits every group.
    assert_eq!(rcw.raycast(&vec![], n, f), Some(e));
}

#[test]
fn raycast_is_deterministic_on_static_scene() {
    let mut store = EntityStore::new();
    let e = store.create();
    let mut rcw = RaycastWorld::new();
    rcw.register(e, GROUP_ASTEROID, ColliderShape::Sphere(800), Vec3 { x: 7000, y: 100, z: -50 });
    let n = Vec3 { x: 0, y: 0, z: 0 };
    let f = Vec3 { x: 20000, y: 0, z: 0 };
    let wl = vec![GROUP_ASTEROID];
    let first = rcw.raycast(&wl, n, f);
    let second = rcw.raycast(&wl, n, f);
    assert_eq!(first, second);
    assert_eq!(first, Some(e));
}

#[test]
fn raycast_sees_moved_pose_after_refresh() {
    // End-to-end scenario: a ray misses the old pose, the registration is
    // updated in place, and the same ray then hits the new pose.
    let mut store = EntityStore::new();
    let e = store.create();
    let mut rcw = RaycastWorld::new();
    let h = rcw.register(e, GROUP_ASTEROID, ColliderShape::Sphere(500), Vec3 {
        x: 5000,
        y: 9000,
        z: 0,
    });
    let n = Vec3 { x: 0, y: 0, z: 0 };
    let f = Vec3 { x: 10000, y: 0, z: 0 };
    assert_eq!(rcw.raycast(&vec![GROUP_ASTEROID], n, f), None);
    rcw.update_registration(h, ColliderShape::Sphere(500), Vec3 { x: 5000, y: 0, z: 0 });
    assert_eq!(rcw.raycast(&vec![GROUP_ASTEROID], n, f), Some(e));
}

#[test]
fn same_group_entities_never_collide() {
    // Two ship blocks at the exact same position: same group, group not in
    // either whitelist, so no contact event.
    let mut store = EntityStore::new();
    let a = store.create();
    let b = store.create();
    let mut transforms: EntityMap<Transform> = EntityMap::new();
    let mut colliders: EntityMap<Collider> = EntityMap::new();
    transforms.insert(a, Transform::from_position(0, 0, 0));
    transforms.insert(b, Transform::from_position(0, 0, 0));
    let hb = Hitbox::with_shape(ColliderShape::Cuboid(Vec3 { x: 1000, y: 1000, z: 1000 }));
    colliders.insert(a, Collider::new(hb, GROUP_SHIP, vec![GROUP_ASTEROID]));
    let hb2 = Hitbox::with_shape(ColliderShape::Cuboid(Vec3 { x: 1000, y: 1000, z: 1000 }));
    colliders.insert(b, Collider::new(hb2, GROUP_SHIP, vec![GROUP_ASTEROID]));
    let events = detect_contacts(&transforms, &colliders);
    assert_eq!(events.len(), 0);
}

#[test]
fn block_asteroid_contact_heats_ship_and_queues_asteroid() {
    // End-to-end scenario: a wall block and an asteroid flying into it;
    // after one physics tick the asteroid is queued and the ship gained
    // exactly one contact's worth of heat.
    let mut store = EntityStore::new();
    let ship_e = store.create();
    let block_e = store.create();
    let asteroid_e = store.create();
    let mut removal = ToBeRemoved::new();
    let mut transforms: EntityMap<Transform> = EntityMap::new();
    let mut colliders: EntityMap<Collider> = EntityMap::new();
    let mut bodies: EntityMap<RigidBody> = EntityMap::new();
    let mut blocks_tab: EntityMap<ship_sim::ship::BlockEntity> = EntityMap::new();
    let asteroids_tab = {
        let mut t: EntityMap<Asteroid> = EntityMap::new();
        t.insert(asteroid_e, Asteroid(GameItem::Iron));
        t
    };
    let missiles_tab: EntityMap<MiningMissle> = EntityMap::new();
    let mut ships: EntityMap<Ship> = EntityMap::new();
    ships.insert(ship_e, Ship { heat: 0, tiles: TileMap::new() });
    blocks_tab.insert(
        block_e,
        ship_sim::ship::BlockEntity { ship: ship_e, block_id: 0, root: GridPos { x: 0, y: 0 } },
    );
    transforms.insert(block_e, Transform::from_position(0, 0, 0));
    colliders.insert(
        block_e,
        Collider::new(
            Hitbox::with_shape(ColliderShape::Cuboid(Vec3 { x: 1000, y: 1000, z: 3000 })),
            GROUP_SHIP,
            vec![GROUP_ASTEROID],
        ),
    );
    transforms.insert(asteroid_e, Transform::from_position(1200, 0, 0));
    colliders.insert(
        asteroid_e,
        Collider::new(
            Hitbox::with_shape(ColliderShape::Sphere(800)),
            GROUP_ASTEROID,
            vec![GROUP_SHIP, GROUP_MISSLE],
        ),
    );
    bodies.insert(asteroid_e, RigidBody { velocity: Vec3 { x: -21, y: 0, z: 0 } });
    run_physics(
        &mut removal,
        &mut transforms,
        &colliders,
        &bodies,
        &blocks_tab,
        &asteroids_tab,
        &missiles_tab,
        &mut ships,
    );
    assert!(removal.contains(asteroid_e));
    assert!(!removal.contains(block_e));
    let ship = ships.get(ship_e).unwrap();
    assert_eq!(ship.heat, 20);
    // The asteroid moved by its velocity before contact detection.
    let t = transforms.get(asteroid_e).unwrap();
    assert_eq!(t.position.x, 1179);
}

#[test]
fn missile_with_dead_target_is_queued() {
    let mut store = EntityStore::new();
    let target = store.create();
    let mut pending = PendingSpawns::new();
    let meshes = ObjectMeshes::new(mesh(8), mesh(9), mesh(10));
    let missile = build_mining_missle(
        &meshes,
        &mut store,
        &mut pending,
        target,
        Vec3 { x: 0, y: 0, z: 0 },
    );
    let mut removal = ToBeRemoved::new();
    let mut missiles: EntityMap<MiningMissle> = EntityMap::new();
    missiles.insert(missile, MiningMissle { target });
    let mut transforms: EntityMap<Transform> = EntityMap::new();
    transforms.insert(missile, Transform::from_position(0, 0, 0));
    let mut bodies: EntityMap<RigidBody> = EntityMap::new();
    bodies.insert(missile, RigidBody { velocity: Vec3 { x: 0, y: 0, z: 108 } });
    store.destroy(target);
    missile_update(&store, &mut removal, &missiles, &transforms, &mut bodies);
    assert!(removal.contains(missile));
    // The velocity of a target-less missile is left alone.
    assert_eq!(bodies.get(missile).unwrap().velocity.z, 108);
}

#[test]
fn missile_homes_straight_once_level_with_target() {
    let mut store = EntityStore::new();
    let target = store.create();
    let missile = store.create();
    let mut removal = ToBeRemoved::new();
    let mut missiles: EntityMap<MiningMissle> = EntityMap::new();
    missiles.insert(missile, MiningMissle { target });
    let mut transforms: EntityMap<Transform> = EntityMap::new();
    transforms.insert(missile, Transform::from_position(0, 0, 5000));
    transforms.insert(target, Transform::from_position(3000, 4000, 5000));
    let mut bodies: EntityMap<RigidBody> = EntityMap::new();
    bodies.insert(missile, RigidBody { velocity: Vec3 { x: 0, y: 0, z: 108 } });
    missile_update(&store, &mut removal, &missiles, &transforms, &mut bodies);
    // Level with the target: the velocity turns fully horizontal, scaled
    // to missile speed along the 3-4-5 direction.
    let v = bodies.get(missile).unwrap().velocity;
    assert_eq!(v.z, 0);
    assert_eq!(v.x, 3000 * 108 / 5000);
    assert_eq!(v.y, 4000 * 108 / 5000);
    assert!(!removal.contains(missile));
}

fn gadget_catalog() -> ship_sim::block::Blocks {
    let mut list: Vec<Block> = Vec::new();
    let wall = create_block(&mut list, mesh(0), 1, 1, 3000, None, "wall", None, false, vec![]);
    let gadget = create_block(
        &mut list,
        mesh(4),
        1,
        1,
        200,
        None,
        "Laser",
        Some(ship_sim::block::SetupKind::Laser),
        true,
        vec![GameItem::Iron.stack(5)],
    );
    blocks_from_list(list, wall, wall, wall, wall, gadget)
}

fn empty_ship() -> Ship {
    let mut tiles = TileMap::new();
    for x in -2i16..3 {
        for y in -2i16..3 {
            tiles.insert(GridPos { x, y }, ship_sim::ship::Tile::empty());
        }
    }
    Ship { heat: 0, tiles }
}

#[test]
fn gadget_without_base_is_skipped_and_free() {
    // Gadget placement precondition: no base block in the tile's slot, so
    // nothing is created and nothing is deducted, whatever ignore_price is.
    let blocks = gadget_catalog();
    for ignore_price in [false, true] {
        let mut store = EntityStore::new();
        let mut pending = PendingSpawns::new();
        let mut ship = empty_ship();
        let ship_e = store.create();
        let bents: EntityMap<ship_sim::ship::BlockEntity> = EntityMap::new();
        let mut inv = Inventory::new();
        inv.add(GameItem::Iron, 50);
        let actions = vec![BuildAction::BuildBlock(GridPos { x: 0, y: 0 }, blocks.laser)];
        execute_build_actions(
            &mut store,
            &mut pending,
            &mut ship,
            ship_e,
            &bents,
            &mut inv,
            &blocks,
            &actions,
            ignore_price,
        );
        assert_eq!(pending.len(), 0);
        assert_eq!(inv.amount(&GameItem::Iron), 50);
        let tile = ship.tiles.get(GridPos { x: 0, y: 0 }).unwrap();
        assert!(tile.gadget.is_none());
    }
}

#[test]
fn unaffordable_gadget_abandons_whole_batch() {
    // End-to-end scenario: zero iron in stock, a gadget costing five iron
    // first in a two-action batch: no entity is created by either action
    // and the inventory is unchanged.
    let blocks = gadget_catalog();
    let mut store = EntityStore::new();
    let mut pending = PendingSpawns::new();
    let mut ship = empty_ship();
    let ship_e = store.create();
    // Put a base wall under the gadget's tile so only the cost can stop it.
    let mut bents: EntityMap<ship_sim::ship::BlockEntity> = EntityMap::new();
    let base = store.create();
    bents.insert(
        base,
        ship_sim::ship::BlockEntity { ship: ship_e, block_id: blocks.wall, root: GridPos {
            x: 0,
            y: 0,
        } },
    );
    let mut tile = ship.tiles.get(GridPos { x: 0, y: 0 }).unwrap();
    tile.block = Some(base);
    ship.tiles.insert(GridPos { x: 0, y: 0 }, tile);
    let mut inv = Inventory::new();
    let actions = vec![
        BuildAction::BuildBlock(GridPos { x: 0, y: 0 }, blocks.laser),
        BuildAction::BuildBlock(GridPos { x: 1, y: 0 }, blocks.wall),
    ];
    execute_build_actions(
        &mut store,
        &mut pending,
        &mut ship,
        ship_e,
        &bents,
        &mut inv,
        &blocks,
        &actions,
        false,
    );
    assert_eq!(pending.len(), 0);
    assert_eq!(inv.amount(&GameItem::Iron), 0);
    assert_eq!(inv.amount(&GameItem::Copper), 0);
    let t0 = ship.tiles.get(GridPos { x: 0, y: 0 }).unwrap();
    assert!(t0.gadget.is_none());
    let t1 = ship.tiles.get(GridPos { x: 1, y: 0 }).unwrap();
    assert!(t1.block.is_none());
}

#[test]
fn affordable_gadget_builds_and_deducts() {
    let blocks = gadget_catalog();
    let mut store = EntityStore::new();
    let mut pending = PendingSpawns::new();
    let mut ship = empty_ship();
    let ship_e = store.create();
    let mut bents: EntityMap<ship_sim::ship::BlockEntity> = EntityMap::new();
    let base = store.create();
    bents.insert(
        base,
        ship_sim::ship::BlockEntity { ship: ship_e, block_id: blocks.wall, root: GridPos {
            x: 0,
            y: 0,
        } },
    );
    let mut tile = ship.tiles.get(GridPos { x: 0, y: 0 }).unwrap();
    tile.block = Some(base);
    ship.tiles.insert(GridPos { x: 0, y: 0 }, tile);
    let mut inv = Inventory::new();
    inv.add(GameItem::Iron, 7);
    let actions = vec![BuildAction::BuildBlock(GridPos { x: 0, y: 0 }, blocks.laser)];
    execute_build_actions(
        &mut store,
        &mut pending,
        &mut ship,
        ship_e,
        &bents,
        &mut inv,
        &blocks,
        &actions,
        false,
    );
    assert_eq!(pending.len(), 1);
    assert_eq!(inv.amount(&GameItem::Iron), 2);
    let t0 = ship.tiles.get(GridPos { x: 0, y: 0 }).unwrap();
    let gadget = t0.gadget.expect("gadget slot filled");
    assert_eq!(pending.at(0).0, gadget);
    assert!(pending.at(0).1.gadget.is_some());
    assert!(pending.at(0).1.laser.is_some());
}

#[test]
fn built_block_occupies_tile_after_flush() {
    // Tile occupancy: a successful block build fills the slot with an
    // entity that, once maintenance has run, is alive and carries the
    // right back-reference.
    let mut ecs = test_ecs();
    let ship_e = {
        let mut found = None;
        for i in 0..ecs.ships.len() {
            found = Some(ecs.ships.at(i).0);
        }
        found.expect("starting ship exists")
    };
    let pos = GridPos { x: -5, y: -5 };
    let wall = ecs.blocks.wall;
    let actions = vec![BuildAction::BuildBlock(pos, wall)];
    ecs.build(ship_e, &actions, true);
    ecs.flush();
    let ship = ecs.ships.get(ship_e).unwrap();
    let tile = ship.tiles.get(pos).unwrap();
    let block_entity = tile.block.expect("block slot filled");
    assert!(ecs.store.is_alive(block_entity));
    let bent = ecs.block_entities.get(block_entity).expect("back-reference present");
    assert_eq!(bent.block_id, wall);
    assert_eq!(bent.root, pos);
    assert!(ecs.models.get(block_entity).is_some());
}

#[test]
fn starting_world_runs_ticks() {
    let mut ecs = test_ecs();
    for _ in 0..5 {
        ecs.update(
            InputAction::Idle,
            Vec3 { x: 0, y: 0, z: 10000 },
            Vec3 { x: 0, y: 0, z: -10000 },
        );
    }
    // The field spawned its first asteroid on the first tick; the spawn
    // countdown is ticking back down afterwards.
    assert!(ecs.field.asteroids.len() >= 1);
    let a = ecs.field.asteroids[0];
    assert!(ecs.store.is_alive(a));
    let t = ecs.transforms.get(a).expect("asteroid has a transform");
    // Spawned at the left edge, drifting right by 21 steps per tick for
    // the four ticks after the spawn tick.
    assert_eq!(t.position.x, -30000 + 4 * 21);
    assert!(t.position.y >= -15000 && t.position.y < 19000);
    assert!(ecs.asteroids.get(a).is_some());
    assert_eq!(ecs.healths.get(a).map(|h| h.0), Some(180));
}

#[test]
fn asteroid_spawn_lane_is_randomized_but_bounded() {
    // Exercises the randomness wrappers through the public tick: every
    // spawn lands at the field's edge inside the documented lanes.
    for _ in 0..10 {
        let mut ecs = test_ecs();
        ecs.update(
            InputAction::Idle,
            Vec3 { x: 0, y: 0, z: 10000 },
            Vec3 { x: 0, y: 0, z: -10000 },
        );
        let a = ecs.field.asteroids[0];
        let t = ecs.transforms.get(a).unwrap();
        assert_eq!(t.position.x, -30000);
        assert!((-15000..19000).contains(&t.position.y));
        assert!((-5000..5000).contains(&t.position.z));
        assert_eq!(ecs.bodies.get(a).unwrap().velocity.x, 21);
    }
}

#[test]
fn removal_queue_drained_once_per_maintain() {
    let mut ecs = test_ecs();
    // Spawn something removable: run a tick so the first asteroid exists.
    ecs.update(
        InputAction::Idle,
        Vec3 { x: 0, y: 0, z: 10000 },
        Vec3 { x: 0, y: 0, z: -10000 },
    );
    let a = ecs.field.asteroids[0];
    assert!(ecs.store.is_alive(a));
    ecs.removal.add(a);
    ecs.removal.add(a);
    assert_eq!(ecs.removal.len(), 1);
    ecs.maintain();
    assert!(!ecs.store.is_alive(a));
    assert_eq!(ecs.removal.len(), 0);
    assert!(ecs.transforms.get(a).is_none());
    assert!(ecs.asteroids.get(a).is_none());
}

#[test]
fn mined_asteroid_grants_reward_but_ranged_out_one_does_not() {
    let mut ecs = test_ecs();
    ecs.update(
        InputAction::Idle,
        Vec3 { x: 0, y: 0, z: 10000 },
        Vec3 { x: 0, y: 0, z: -10000 },
    );
    let a = ecs.field.asteroids[0];
    let item = ecs.asteroids.get(a).unwrap().0;
    let before = ecs.inventory.amount(&item);
    // Mined to exactly zero: reward fires once at maintenance.
    ecs.healths.insert(a, Health(0));
    ecs.removal.add(a);
    ecs.maintain();
    assert_eq!(ecs.inventory.amount(&item), before + 5);
}

#[test]
fn miner_cooldown_counts_and_fires() {
    let mut store = EntityStore::new();
    let miner_e = store.create();
    let target = store.create();
    let mut pending = PendingSpawns::new();
    let meshes = ObjectMeshes::new(mesh(8), mesh(9), mesh(10));
    let mut miners: EntityMap<ship_sim::block::Miner> = EntityMap::new();
    miners.insert(miner_e, ship_sim::block::Miner { shoot_time: 121 });
    let mut transforms: EntityMap<Transform> = EntityMap::new();
    transforms.insert(miner_e, Transform::from_position(0, 0, 0));
    let input = ship_sim::input::InputState {
        action: InputAction::Mining,
        target: Some(target),
    };
    ship_sim::block::miner_system(
        &mut store,
        &mut pending,
        &input,
        &meshes,
        &mut miners,
        &mut transforms,
    );
    assert_eq!(pending.len(), 1);
    assert_eq!(miners.get(miner_e).unwrap().shoot_time, 0);
    let bundle = &pending.at(0).1;
    assert_eq!(bundle.missile.as_ref().unwrap().target, target);
    assert_eq!(bundle.transform.as_ref().unwrap().position.z, 500);
}

#[test]
fn build_result_names_cases() {
    // The single-action protocol reports what happened.
    let blocks = gadget_catalog();
    let mut store = EntityStore::new();
    let mut pending = PendingSpawns::new();
    let mut ship = empty_ship();
    let ship_e = store.create();
    let bents: EntityMap<ship_sim::ship::BlockEntity> = EntityMap::new();
    let mut inv = Inventory::new();
    let r = ship_sim::ship::apply_build_action(
        &mut store,
        &mut pending,
        &mut ship,
        ship_e,
        &bents,
        &mut inv,
        &blocks,
        &BuildAction::BuildBlock(GridPos { x: 0, y: 0 }, blocks.laser),
        false,
    );
    assert!(matches!(r, BuildResult::Skipped));
    let r2 = ship_sim::ship::apply_build_action(
        &mut store,
        &mut pending,
        &mut ship,
        ship_e,
        &bents,
        &mut inv,
        &blocks,
        &BuildAction::BuildBlock(GridPos { x: 1, y: 1 }, blocks.wall),
        false,
    );
    assert!(matches!(r2, BuildResult::Built(_)));
}

#[test]
fn ray_shape_hit_reports_box_entry() {
    // A unit wall one grid step away is hit by a straight ray; the same
    // ray displaced two units misses it.
    let wall = ColliderShape::Cuboid(Vec3 { x: 1000, y: 1000, z: 3000 });
    let center = Vec3 { x: 5000, y: 0, z: 1500 };
    let hit = ray_shape_hit(
        &wall,
        center,
        Vec3 { x: 0, y: 0, z: 1500 },
        Vec3 { x: 10000, y: 0, z: 1500 },
    );
    assert!(hit.is_some());
    let miss = ray_shape_hit(
        &wall,
        center,
        Vec3 { x: 0, y: 2000, z: 1500 },
        Vec3 { x: 10000, y: 2000, z: 1500 },
    );
    assert!(miss.is_none());
}

#[test]
fn load_blocks_catalog_shape() {
    let blocks = load_blocks(mesh(0), mesh(1), mesh(2), mesh(3), mesh(4));
    assert_eq!(blocks.len(), 5);
    let wall = blocks.get_block(blocks.wall);
    assert_eq!(wall.height, 3000);
    assert!(!wall.is_gadget);
    let laser = blocks.get_block(blocks.laser);
    assert!(laser.is_gadget);
    assert_eq!(laser.kind_name, "Laser");
}
