//! The asteroid field: the singleton controller that prunes dead
//! asteroids from its roster, queues those that drifted out of range, and
//! spawns a fresh asteroid on a fixed period with randomized lane, height
//! and facing.

use crate::collider::{Collider, GROUP_ASTEROID, GROUP_MISSLE, GROUP_SHIP};
use crate::entity::{Entity, EntityStore};
use crate::geom::{ColliderShape, Hitbox};
use crate::item::GameItem;
use crate::math::{Vec3, POS_LIMIT};
use crate::objects::{Asteroid, Health, ASTEROID_COLLIDER_RADIUS, ASTEROID_HEALTH};
use crate::removal::ToBeRemoved;
use crate::render::{Model, ObjectMeshes};
use crate::spawn::{bundle_wf, PendingSpawns, SpawnBundle};
use crate::storage::EntityMap;
use crate::transform::{RigidBody, RotZ, Transform};
use rand::Rng;
use vstd::prelude::*;

verus! {

/// An asteroid's drift velocity, in coordinate steps per tick.
pub const ASTEROID_DRIFT: i64 = 21;

/// Ticks between two asteroid spawns.
pub const ASTEROID_SPAWN_TIME: u16 = 200;

/// Half-width of the play area; asteroids beyond it are removed.
pub const ASTEROID_X_RANGE: i64 = 30000;

/// The singleton controller of the asteroid field.
pub struct AsteroidField {
    /// Live asteroids this controller has spawned, pruned lazily.
    pub asteroids: Vec<Entity>,
    /// Ticks left until the next spawn.
    pub tick: u16,
    /// Spawn period, in ticks.
    pub spawn_time: u16,
    /// Asteroids beyond this distance from the center are removed.
    pub x_range: i64,
}

impl AsteroidField {
    /// The range is non-negative and inside the coordinate space.
    pub open spec fn wf(self) -> bool {
        0 <= self.x_range <= POS_LIMIT
    }

    /// The controller as the game starts it.
    pub fn new() -> (r: AsteroidField)
        ensures
            r.wf(),
            r.asteroids@ =~= Seq::<Entity>::empty(),
            r.tick == 0,
            r.spawn_time == ASTEROID_SPAWN_TIME,
            r.x_range == ASTEROID_X_RANGE,
    {
        AsteroidField {
            asteroids: Vec::new(),
            tick: 0,
            spawn_time: ASTEROID_SPAWN_TIME,
            x_range: ASTEROID_X_RANGE,
        }
    }
}

/// Relies on `rand::Rng::gen_range` on the thread-local generator: the
/// result lies in the requested half-open range.
#[verifier::external_body]
fn rng_range(lo: i64, hi: i64) -> (r: i64)
    requires
        lo < hi,
    ensures
        lo <= r < hi,
{
    rand::thread_rng().gen_range(lo..hi)
}

/// Relies on `rand::random`: a coin flip; nothing is promised of the
/// outcome.
#[verifier::external_body]
fn rng_bool() -> bool {
    rand::random()
}

/// Whether a bundle is a freshly spawned field asteroid: a drifting
/// asteroid-group sphere at the field's left edge within the spawn lanes,
/// full health, drawn with the mesh of the item it is made of. Holds of
/// every random outcome.
pub open spec fn asteroid_bundle_ok(b: SpawnBundle, meshes: ObjectMeshes, x_range: i64) -> bool {
    &&& bundle_wf(b)
    &&& match b.asteroid {
        Option::Some(a) => match b.model {
            Option::Some(m) => m.mesh_id == meshes.spec_asteroid_mesh(a.0) && m.model_id is None,
            Option::None => false,
        },
        Option::None => false,
    }
    &&& b.health == Some(Health(ASTEROID_HEALTH))
    &&& b.body == Some(RigidBody { velocity: Vec3 { x: ASTEROID_DRIFT as i64, y: 0, z: 0 } })
    &&& match b.transform {
        Option::Some(t) => {
            &&& t.position.x == -x_range
            &&& -15000 <= t.position.y < 19000
            &&& -5000 <= t.position.z < 5000
        }
        Option::None => false,
    }
    &&& match b.collider {
        Option::Some(c) => {
            &&& c.hitbox == (Hitbox {
                shape: ColliderShape::Sphere(ASTEROID_COLLIDER_RADIUS as i64),
                offset: Vec3 { x: 0, y: 0, z: 0 },
            })
            &&& c.group == GROUP_ASTEROID
            &&& c.whitelist@ =~= seq![GROUP_SHIP, GROUP_MISSLE]
        }
        Option::None => false,
    }
    &&& b.block is None
    &&& b.gadget is None
    &&& b.missile is None
    &&& b.miner is None
    &&& b.laser is None
}

/// The first `k` roster entries that are still live, in order.
pub open spec fn spec_live_roster(roster: Seq<Entity>, store: EntityStore, k: int) -> Seq<Entity>
    decreases k,
{
    if k <= 0 {
        Seq::empty()
    } else {
        spec_live_roster(roster, store, k - 1) + (if store.spec_is_live(roster[k - 1]) {
            seq![roster[k - 1]]
        } else {
            Seq::empty()
        })
    }
}

/// Runs the asteroid field for one tick: dead roster entries are pruned,
/// live asteroids beyond the range are queued for removal, and when the
/// countdown runs out a new asteroid is spawned on a random lane and the
/// countdown restarts.
#[verifier::loop_isolation(false)]
pub fn asteroid_field_update(
    store: &mut EntityStore,
    pending: &mut PendingSpawns,
    removal: &mut ToBeRemoved,
    transforms: &EntityMap<Transform>,
    field: &mut AsteroidField,
    meshes: &ObjectMeshes,
)
    requires
        old(store).wf(),
        old(removal).wf(),
        transforms.wf(),
        old(field).wf(),
    ensures
        final(store).wf(),
        final(removal).wf(),
        final(field).wf(),
        final(field).spawn_time == old(field).spawn_time,
        final(field).x_range == old(field).x_range,
        final(field).tick == (if old(field).tick > 0 {
            (old(field).tick - 1) as u16
        } else {
            old(field).spawn_time
        }),
        forall|e: Entity|
            old(store).spec_is_live(e) ==> #[trigger] final(store).spec_is_live(e),
        old(pending)@.is_prefix_of(final(pending)@),
        forall|j: int|
            old(pending)@.len() <= j < final(pending)@.len() ==> asteroid_bundle_ok(
                (#[trigger] final(pending)@[j]).1,
                *meshes,
                old(field).x_range,
            ) && final(store).spec_is_live(final(pending)@[j].0) && !old(store).spec_is_live(
                final(pending)@[j].0,
            ),
        final(pending)@.len() == old(pending)@.len() + (if old(field).tick > 0 {
            0int
        } else {
            1int
        }),
        final(field).asteroids@ =~= spec_live_roster(
            old(field).asteroids@,
            *old(store),
            old(field).asteroids@.len() as int,
        ) + (if old(field).tick > 0 {
            Seq::<Entity>::empty()
        } else {
            seq![final(pending)@.last().0]
        }),
        forall|e: Entity|
            old(removal)@.contains(e) ==> #[trigger] final(removal)@.contains(e),
        forall|e: Entity|
            #[trigger] final(removal)@.contains(e) && !old(removal)@.contains(e) ==> old(field).asteroids@.contains(e) && old(store).spec_is_live(e) && transforms@.dom().contains(
                e,
            ) && (transforms@[e].position.x > old(field).x_range || transforms@[e].position.x
                < -old(field).x_range),
        forall|a: Entity|
            #[trigger] old(field).asteroids@.contains(a) && old(store).spec_is_live(a)
                && transforms@.dom().contains(a) && (transforms@[a].position.x > old(field).x_range || transforms@[a].position.x < -old(field).x_range) ==> final(removal)@.contains(a),
{
    // Prune entries whose entity has died since the last tick.
    let mut kept: Vec<Entity> = Vec::new();
    let roster_len = field.asteroids.len();
    let mut i: usize = 0;
    while i < roster_len
        invariant
            i <= roster_len,
            roster_len == field.asteroids@.len(),
            *field == *old(field),
            *store == *old(store),
            forall|k: int|
                0 <= k < kept@.len() ==> old(field).asteroids@.contains(#[trigger] kept@[k])
                    && old(store).spec_is_live(kept@[k]),
            forall|j: int|
                0 <= j < i && old(store).spec_is_live(#[trigger] old(field).asteroids@[j])
                    ==> kept@.contains(old(field).asteroids@[j]),
            kept@ =~= spec_live_roster(old(field).asteroids@, *old(store), i as int),
        decreases roster_len - i,
    {
        let a = field.asteroids[i];
        let ghost pre_kept = kept@;
        if store.is_alive(a) {
            kept.push(a);
            proof {
                assert(kept@.last() == a);
            }
        }
        proof {
            assert forall|j: int|
                0 <= j < i + 1 && old(store).spec_is_live(
                    #[trigger] old(field).asteroids@[j],
                ) implies kept@.contains(old(field).asteroids@[j]) by {
                if j < i {
                    assert(pre_kept.contains(old(field).asteroids@[j]));
                    let t0 = choose|t: int|
                        0 <= t < pre_kept.len() && pre_kept[t] == old(field).asteroids@[j];
                    assert(kept@[t0] == old(field).asteroids@[j]);
                } else {
                    assert(old(field).asteroids@[j] == a);
                    assert(kept@.contains(a));
                }
            };
        }
        i = i + 1;
    }
    // Queue live asteroids that have drifted out of range.
    let kept_len = kept.len();
    let mut k: usize = 0;
    while k < kept_len
        invariant
            k <= kept_len,
            kept_len == kept@.len(),
            removal.wf(),
            *field == *old(field),
            *store == *old(store),
            forall|t: int|
                0 <= t < kept@.len() ==> old(field).asteroids@.contains(#[trigger] kept@[t])
                    && old(store).spec_is_live(kept@[t]),
            forall|e: Entity|
                old(removal)@.contains(e) ==> #[trigger] removal@.contains(e),
            forall|e: Entity|
                #[trigger] removal@.contains(e) && !old(removal)@.contains(e) ==> old(field).asteroids@.contains(e) && old(store).spec_is_live(e)
                    && transforms@.dom().contains(e) && (transforms@[e].position.x > old(field).x_range || transforms@[e].position.x < -old(field).x_range),
            forall|t: int|
                0 <= t < k && transforms@.dom().contains(#[trigger] kept@[t]) && (
                transforms@[kept@[t]].position.x > old(field).x_range
                    || transforms@[kept@[t]].position.x < -old(field).x_range)
                    ==> removal@.contains(kept@[t]),
        decreases kept_len - k,
    {
        let a = kept[k];
        let ghost pre = removal@;
        match transforms.get(a) {
            Some(t) => {
                if t.position.x > field.x_range || t.position.x < -field.x_range {
                    removal.add(a);
                }
            }
            None => {}
        }
        proof {
            assert forall|e: Entity|
                old(removal)@.contains(e) implies #[trigger] removal@.contains(e) by {
                assert(pre.contains(e));
                let t0 = choose|t: int| 0 <= t < pre.len() && pre[t] == e;
                assert(removal@[t0] == e);
            };
            assert forall|e: Entity|
                #[trigger] removal@.contains(e) && !old(removal)@.contains(e) implies old(
                field,
            ).asteroids@.contains(e) && old(store).spec_is_live(e) && transforms@.dom().contains(
                e,
            ) && (transforms@[e].position.x > old(field).x_range || transforms@[e].position.x
                < -old(field).x_range) by {
                if !pre.contains(e) {
                    let idx = choose|t: int|
                        0 <= t < removal@.len() && #[trigger] removal@[t] == e;
                    assert(idx == pre.len());
                    assert(e == kept@[k as int]);
                    assert(old(field).asteroids@.contains(e));
                }
            };
            assert forall|t: int|
                0 <= t < k + 1 && transforms@.dom().contains(#[trigger] kept@[t]) && (
            transforms@[kept@[t]].position.x > old(field).x_range
                || transforms@[kept@[t]].position.x < -old(field).x_range) implies removal@.contains(
                kept@[t],
            ) by {
                if t < k {
                    assert(pre.contains(kept@[t]));
                    let t0 = choose|t2: int| 0 <= t2 < pre.len() && pre[t2] == kept@[t];
                    assert(removal@[t0] == kept@[t]);
                }
            };
        }
        k = k + 1;
    }
    let ghost kept_seq = kept@;
    proof {
        assert forall|a: Entity|
            #[trigger] old(field).asteroids@.contains(a) && old(store).spec_is_live(a)
                && transforms@.dom().contains(a) && (transforms@[a].position.x > old(field).x_range || transforms@[a].position.x < -old(field).x_range) implies removal@.contains(
            a,
        ) by {
            let j = choose|j: int|
                0 <= j < old(field).asteroids@.len() && #[trigger] old(field).asteroids@[j] == a;
            assert(kept_seq.contains(a));
            let t = choose|t: int| 0 <= t < kept_seq.len() && #[trigger] kept_seq[t] == a;
        };
    }
    field.asteroids = kept;
    // Count down and spawn on schedule.
    if field.tick > 0 {
        field.tick = field.tick - 1;
    } else {
        field.tick = field.spawn_time;
        let item = if rng_range(0, 2) == 0 {
            GameItem::Iron
        } else {
            GameItem::Copper
        };
        let lane: i64 = if rng_bool() {
            14000
        } else {
            -10000
        };
        let pos_y: i64 = rng_range(-5000, 5000) + lane;
        let pos_z: i64 = rng_range(-5000, 5000);
        let mut transform = Transform::from_position(-field.x_range, pos_y, pos_z);
        transform.set_rotation_z(rng_range(-1000, 1001), rng_range(-1000, 1001));
        let e = store.create();
        let mut bundle = SpawnBundle::empty();
        bundle.transform = Some(transform);
        bundle.model = Some(Model::new(meshes.asteroid_mesh(item)));
        bundle.body = Some(RigidBody { velocity: Vec3 { x: ASTEROID_DRIFT, y: 0, z: 0 } });
        let mut wl: Vec<u32> = Vec::new();
        wl.push(GROUP_SHIP);
        wl.push(GROUP_MISSLE);
        bundle.collider = Some(
            Collider::new(
                Hitbox::with_shape(ColliderShape::Sphere(ASTEROID_COLLIDER_RADIUS)),
                GROUP_ASTEROID,
                wl,
            ),
        );
        bundle.asteroid = Some(Asteroid(item));
        bundle.health = Some(Health(ASTEROID_HEALTH));
        pending.push(e, bundle);
        field.asteroids.push(e);
    }
}

} // verus!
