//! Free-floating simulation objects: health, asteroids and mining
//! missiles, and the systems that drive them.

use crate::collider::{Collider, GROUP_ASTEROID, GROUP_MISSLE};
use crate::entity::{Entity, EntityStore};
use crate::geom::{is_sqrt_floor, isqrt, lemma_mul_le, sqrt_floor, ColliderShape, Hitbox};
use crate::item::GameItem;
use crate::math::{vec_within, Vec3, POS_LIMIT, VEL_LIMIT};
use crate::removal::ToBeRemoved;
use crate::render::{Model, ObjectMeshes};
use crate::spawn::{bundle_wf, PendingSpawns, SpawnBundle};
use crate::storage::EntityMap;
use crate::transform::{RigidBody, Transform};
use vstd::prelude::*;

verus! {

/// Hit points of a destructible entity.
///
/// Health only ever decreases, through `damage`, and never below zero:
/// damage exceeding the remainder clamps to exactly zero.
#[derive(Debug, Clone, Copy, PartialEq, Eq, Structural)]
pub struct Health(pub u32);

impl Health {
    /// Removes `amount` hit points, saturating at zero.
    pub fn damage(&mut self, amount: u32)
        ensures
            final(self).0 == if amount <= old(self).0 {
                (old(self).0 - amount) as u32
            } else {
                0u32
            },
            final(self).0 <= old(self).0,
    {
        self.0 = self.0 - if amount < self.0 {
            amount
        } else {
            self.0
        };
    }

    /// The remaining hit points.
    pub fn health(&self) -> (r: u32)
        ensures
            r == self.0,
    {
        self.0
    }
}

/// Tag component of an asteroid, carrying the item it is made of.
pub struct Asteroid(pub GameItem);

/// Hit points an asteroid spawns with.
pub const ASTEROID_HEALTH: u32 = 180;

/// Collision radius of an asteroid.
pub const ASTEROID_COLLIDER_RADIUS: i64 = 800;

/// Component of a mining missile: the entity it homes toward.
pub struct MiningMissle {
    pub target: Entity,
}

/// Missile speed, in coordinate steps per tick.
pub const MISSLE_SPEED: i64 = 108;

/// Queues every live entity whose health has reached exactly zero; removal
/// itself stays deferred so death-consequence systems still see the
/// pre-removal state this tick.
#[verifier::loop_isolation(false)]
pub fn no_more_health(
    store: &EntityStore,
    removal: &mut ToBeRemoved,
    healths: &EntityMap<Health>,
)
    requires
        old(removal).wf(),
        healths.wf(),
    ensures
        final(removal).wf(),
        forall|e: Entity|
            #[trigger] final(removal)@.contains(e) == (old(removal)@.contains(e) || (
            healths@.dom().contains(e) && store.spec_is_live(e) && healths@[e].0 == 0)),
{
    let n = healths.len();
    let mut i: usize = 0;
    while i < n
        invariant
            removal.wf(),
            i <= n,
            forall|e: Entity|
                #[trigger] removal@.contains(e) == (old(removal)@.contains(e) || exists|j: int|
                    0 <= j < i && (#[trigger] healths.entry_seq()[j]).0 == e
                        && store.spec_is_live(e) && healths.entry_seq()[j].1.0 == 0),
        decreases n - i,
    {
        let entry = healths.at(i);
        let e = entry.0;
        let ghost pre = removal@;
        if store.is_alive(e) && entry.1.0 == 0 {
            removal.add(e);
        }
        proof {
            assert forall|e2: Entity| #[trigger]
                removal@.contains(e2) == (old(removal)@.contains(e2) || exists|j: int|
                    0 <= j < i + 1 && (#[trigger] healths.entry_seq()[j]).0 == e2
                        && store.spec_is_live(e2) && healths.entry_seq()[j].1.0 == 0) by {
                if removal@.contains(e2) {
                    if !pre.contains(e2) {
                        assert(e2 == e);
                        assert(healths.entry_seq()[i as int].0 == e2);
                    } else {
                        if !old(removal)@.contains(e2) {
                            let j = choose|j: int|
                                0 <= j < i && (#[trigger] healths.entry_seq()[j]).0 == e2
                                    && store.spec_is_live(e2) && healths.entry_seq()[j].1.0 == 0;
                        }
                    }
                } else {
                    if old(removal)@.contains(e2) {
                        assert(pre.contains(e2));
                        let t0 = choose|t: int| 0 <= t < pre.len() && pre[t] == e2;
                        assert(removal@[t0] == e2);
                        assert(removal@.contains(e2));
                    }
                    if exists|j: int|
                        0 <= j < i + 1 && (#[trigger] healths.entry_seq()[j]).0 == e2
                            && store.spec_is_live(e2) && healths.entry_seq()[j].1.0 == 0 {
                        let j = choose|j: int|
                            0 <= j < i + 1 && (#[trigger] healths.entry_seq()[j]).0 == e2
                                && store.spec_is_live(e2) && healths.entry_seq()[j].1.0 == 0;
                        if j < i {
                            assert(pre.contains(e2));
                            let t0 = choose|t: int| 0 <= t < pre.len() && pre[t] == e2;
                            assert(removal@[t0] == e2);
                            assert(removal@.contains(e2));
                        } else {
                            assert(e2 == e);
                            assert(removal@.contains(e2));
                        }
                    }
                }
            };
        }
        i = i + 1;
    }
    proof {
        assert forall|e: Entity| #[trigger]
            final(removal)@.contains(e) == (old(removal)@.contains(e) || (
        healths@.dom().contains(e) && store.spec_is_live(e) && healths@[e].0 == 0)) by {
            if healths@.dom().contains(e) && store.spec_is_live(e) && healths@[e].0 == 0 {
                healths.lemma_view_has_entry(e);
                let j = choose|j: int|
                    0 <= j < healths.entry_seq().len() && (#[trigger] healths.entry_seq()[j]).0
                        == e;
                healths.lemma_entry_in_view(j);
            }
            if removal@.contains(e) && !old(removal)@.contains(e) {
                let j = choose|j: int|
                    0 <= j < n && (#[trigger] healths.entry_seq()[j]).0 == e
                        && store.spec_is_live(e) && healths.entry_seq()[j].1.0 == 0;
                healths.lemma_entry_in_view(j);
            }
        };
    }
}

/// An asteroid's visual scale for a remaining health: full size at spawn
/// health, shrinking toward half size as the health is mined away.
pub open spec fn spec_asteroid_scale(h: u32) -> i64 {
    let capped = if h <= ASTEROID_HEALTH {
        h as int
    } else {
        ASTEROID_HEALTH as int
    };
    (500 + (capped * 500) / (ASTEROID_HEALTH as int)) as i64
}

/// Shrinks every asteroid's visual scale as its health is mined away.
#[verifier::loop_isolation(false)]
pub fn asteroid_shrink(
    transforms: &mut EntityMap<Transform>,
    asteroids: &EntityMap<Asteroid>,
    healths: &EntityMap<Health>,
)
    requires
        old(transforms).wf(),
        asteroids.wf(),
        healths.wf(),
        crate::physics::transforms_ok(old(transforms)@),
    ensures
        final(transforms).wf(),
        crate::physics::transforms_ok(final(transforms)@),
        final(transforms)@.dom() =~= old(transforms)@.dom(),
        forall|e: Entity| #[trigger]
            final(transforms)@.dom().contains(e) ==> final(transforms)@[e] == (
            if healths@.dom().contains(e) && asteroids@.dom().contains(e) {
                Transform {
                    scale: Vec3 {
                        x: spec_asteroid_scale(healths@[e].0),
                        y: spec_asteroid_scale(healths@[e].0),
                        z: spec_asteroid_scale(healths@[e].0),
                    },
                    ..old(transforms)@[e]
                }
            } else {
                old(transforms)@[e]
            }),
{
    let n = asteroids.len();
    let mut i: usize = 0;
    while i < n
        invariant
            transforms.wf(),
            i <= n,
            crate::physics::transforms_ok(transforms@),
            transforms@.dom() =~= old(transforms)@.dom(),
            forall|e: Entity| #[trigger]
                transforms@.dom().contains(e) ==> transforms@[e] == (
                if healths@.dom().contains(e) && exists|j: int|
                    0 <= j < i && (#[trigger] asteroids.entry_seq()[j]).0 == e {
                    Transform {
                        scale: Vec3 {
                            x: spec_asteroid_scale(healths@[e].0),
                            y: spec_asteroid_scale(healths@[e].0),
                            z: spec_asteroid_scale(healths@[e].0),
                        },
                        ..old(transforms)@[e]
                    }
                } else {
                    old(transforms)@[e]
                }),
        decreases n - i,
    {
        let entry = asteroids.at(i);
        let e = entry.0;
        proof {
            asteroids.lemma_entry_keys_distinct();
        }
        let ghost pre = transforms@;
        let health: Option<u32> = match healths.get(e) {
            Some(h) => Some(h.0),
            None => None,
        };
        match (transforms.get(e), health) {
            (Some(t), Some(h)) => {
                let capped: u32 = if h <= ASTEROID_HEALTH {
                    h
                } else {
                    ASTEROID_HEALTH
                };
                let scale: i64 = 500 + (capped as i64 * 500) / (ASTEROID_HEALTH as i64);
                let nt = Transform { scale: Vec3 { x: scale, y: scale, z: scale }, ..*t };
                transforms.insert(e, nt);
            }
            _ => {}
        }
        proof {
            assert forall|e2: Entity| #[trigger]
                transforms@.dom().contains(e2) implies transforms@[e2] == (
            if healths@.dom().contains(e2) && exists|j: int|
                0 <= j < i + 1 && (#[trigger] asteroids.entry_seq()[j]).0 == e2 {
                Transform {
                    scale: Vec3 {
                        x: spec_asteroid_scale(healths@[e2].0),
                        y: spec_asteroid_scale(healths@[e2].0),
                        z: spec_asteroid_scale(healths@[e2].0),
                    },
                    ..old(transforms)@[e2]
                }
            } else {
                old(transforms)@[e2]
            }) by {
                if e2 == e {
                    assert(asteroids.entry_seq()[i as int].0 == e);
                } else {
                    assert(transforms@[e2] == pre[e2]);
                    if exists|j: int|
                        0 <= j < i + 1 && (#[trigger] asteroids.entry_seq()[j]).0 == e2 {
                        let j = choose|j: int|
                            0 <= j < i + 1 && (#[trigger] asteroids.entry_seq()[j]).0 == e2;
                        assert(j < i);
                    }
                }
            };
        }
        i = i + 1;
    }
    proof {
        assert forall|e: Entity| #[trigger]
            transforms@.dom().contains(e) implies transforms@[e] == (
        if healths@.dom().contains(e) && asteroids@.dom().contains(e) {
            Transform {
                scale: Vec3 {
                    x: spec_asteroid_scale(healths@[e].0),
                    y: spec_asteroid_scale(healths@[e].0),
                    z: spec_asteroid_scale(healths@[e].0),
                },
                ..old(transforms)@[e]
            }
        } else {
            old(transforms)@[e]
        }) by {
            if asteroids@.dom().contains(e) {
                asteroids.lemma_view_has_entry(e);
            }
            if exists|j: int| 0 <= j < n && (#[trigger] asteroids.entry_seq()[j]).0 == e {
                let j = choose|j: int|
                    0 <= j < n && (#[trigger] asteroids.entry_seq()[j]).0 == e;
                asteroids.lemma_entry_in_view(j);
            }
        };
    }
}

/// Reward per mined asteroid.
pub const MINED_REWARD: u32 = 5;

/// The inventory after granting the mined reward for the queued entities
/// before position `k`, first queued first: an entry pays out only when it
/// is an asteroid whose health was mined to exactly zero, so asteroids
/// removed for leaving the play area grant nothing.
pub open spec fn spec_mined_rewards(
    queue: Seq<Entity>,
    ast: Map<Entity, Asteroid>,
    hp: Map<Entity, Health>,
    inv: crate::item::Inventory,
    k: int,
) -> crate::item::Inventory
    decreases k,
{
    if k <= 0 {
        inv
    } else {
        let prev = spec_mined_rewards(queue, ast, hp, inv, k - 1);
        let e = queue[k - 1];
        if ast.dom().contains(e) && hp.dom().contains(e) && hp[e].0 == 0 {
            spec_inv_add(prev, ast[e].0, MINED_REWARD)
        } else {
            prev
        }
    }
}

/// The amount `base` plus `delta` when `bump` holds, saturating.
pub open spec fn spec_sat_bump(base: u32, bump: bool, delta: u32) -> u32 {
    if bump {
        if base + delta <= u32::MAX {
            (base + delta) as u32
        } else {
            u32::MAX
        }
    } else {
        base
    }
}

/// An inventory with `delta` more of `item`, saturating.
pub open spec fn spec_inv_add(
    inv: crate::item::Inventory,
    item: GameItem,
    delta: u32,
) -> crate::item::Inventory {
    crate::item::Inventory::spec_with(
        spec_sat_bump(inv.spec_amount(GameItem::Iron), item == GameItem::Iron, delta),
        spec_sat_bump(inv.spec_amount(GameItem::Copper), item == GameItem::Copper, delta),
    )
}

/// Grants the mined reward for every queued asteroid whose health reached
/// zero, once per entity; the queue holds each entity at most once.
#[verifier::loop_isolation(false)]
pub fn asteroid_mined(
    queue: &ToBeRemoved,
    inventory: &mut crate::item::Inventory,
    asteroids: &EntityMap<Asteroid>,
    healths: &EntityMap<Health>,
)
    requires
        asteroids.wf(),
        healths.wf(),
    ensures
        forall|it: GameItem| #[trigger]
            final(inventory).spec_amount(it) == spec_mined_rewards(
                queue@,
                asteroids@,
                healths@,
                *old(inventory),
                queue@.len() as int,
            ).spec_amount(it),
{
    let n = queue.len();
    let mut k: usize = 0;
    while k < n
        invariant
            k <= n,
            forall|it: GameItem| #[trigger]
                inventory.spec_amount(it) == spec_mined_rewards(
                    queue@,
                    asteroids@,
                    healths@,
                    *old(inventory),
                    k as int,
                ).spec_amount(it),
        decreases n - k,
    {
        let e = queue.at(k);
        let mined: Option<GameItem> = match (asteroids.get(e), healths.get(e)) {
            (Some(a), Some(h)) => {
                if h.0 == 0 {
                    Some(a.0)
                } else {
                    None
                }
            }
            _ => None,
        };
        match mined {
            Some(item) => {
                let ghost pre = *inventory;
                inventory.add(item, MINED_REWARD);
                proof {
                    assert forall|it: GameItem| #[trigger]
                        inventory.spec_amount(it) == spec_inv_add(
                        pre,
                        item,
                        MINED_REWARD,
                    ).spec_amount(it) by {
                        assert(spec_inv_add(pre, item, MINED_REWARD).spec_amount(it) == (
                        if it == item {
                            if pre.spec_amount(item) + MINED_REWARD <= u32::MAX {
                                (pre.spec_amount(item) + MINED_REWARD) as u32
                            } else {
                                u32::MAX
                            }
                        } else {
                            pre.spec_amount(it)
                        })) by {
                            lemma_inv_add(pre, item, MINED_REWARD);
                        };
                    };
                }
            }
            None => {}
        }
        k = k + 1;
    }
}

/// What adding to an inventory holds of each item.
proof fn lemma_inv_add(inv: crate::item::Inventory, item: GameItem, delta: u32)
    ensures
        forall|it: GameItem| #[trigger]
            spec_inv_add(inv, item, delta).spec_amount(it) == if it == item {
                if inv.spec_amount(item) + delta <= u32::MAX {
                    (inv.spec_amount(item) + delta) as u32
                } else {
                    u32::MAX
                }
            } else {
                inv.spec_amount(it)
            },
{
    crate::item::Inventory::lemma_spec_with(
        spec_sat_bump(inv.spec_amount(GameItem::Iron), item == GameItem::Iron, delta),
        spec_sat_bump(inv.spec_amount(GameItem::Copper), item == GameItem::Copper, delta),
    );
    assert forall|it: GameItem| #[trigger]
        spec_inv_add(inv, item, delta).spec_amount(it) == if it == item {
            if inv.spec_amount(item) + delta <= u32::MAX {
                (inv.spec_amount(item) + delta) as u32
            } else {
                u32::MAX
            }
        } else {
            inv.spec_amount(it)
        } by {
        match it {
            GameItem::Iron => {}
            GameItem::Copper => {}
        }
    };
}

/// Records the deferred creation of a mining missile homing toward
/// `target`: launched straight up from `pos` at missile speed, with a
/// small missile-group sphere collider tested against asteroids.
pub fn build_mining_missle(
    meshes: &ObjectMeshes,
    store: &mut EntityStore,
    pending: &mut PendingSpawns,
    target: Entity,
    pos: Vec3,
) -> (e: Entity)
    requires
        old(store).wf(),
        vec_within(pos, POS_LIMIT),
    ensures
        final(store).wf(),
        !old(store).spec_is_live(e),
        final(store).spec_is_live(e),
        forall|x: Entity|
            #[trigger] final(store).spec_is_live(x) == (old(store).spec_is_live(x) || x == e),
        final(pending)@ =~= old(pending)@.push((e, final(pending)@.last().1)),
        ({
            let b = final(pending)@.last().1;
            &&& bundle_wf(b)
            &&& b.missile == Some(MiningMissle { target })
            &&& match b.transform {
                Option::Some(t) => t.position == pos,
                Option::None => false,
            }
            &&& b.body == Some(
                RigidBody { velocity: Vec3 { x: 0, y: 0, z: MISSLE_SPEED as i64 } },
            )
            &&& match b.model {
                Option::Some(m) => m.mesh_id == meshes.mining_missle && m.model_id is None,
                Option::None => false,
            }
            &&& match b.collider {
                Option::Some(c) => {
                    &&& c.hitbox == (Hitbox {
                        shape: ColliderShape::Sphere(200),
                        offset: Vec3 { x: 0, y: 0, z: 0 },
                    })
                    &&& c.group == GROUP_MISSLE
                    &&& c.whitelist@ =~= seq![GROUP_ASTEROID]
                }
                Option::None => false,
            }
            &&& b.block is None
            &&& b.gadget is None
            &&& b.asteroid is None
            &&& b.health is None
            &&& b.miner is None
            &&& b.laser is None
        }),
{
    let e = store.create();
    let mut bundle = SpawnBundle::empty();
    bundle.transform = Some(Transform::from_position(pos.x, pos.y, pos.z));
    bundle.model = Some(Model::new(meshes.mining_missle));
    bundle.body = Some(RigidBody { velocity: Vec3 { x: 0, y: 0, z: MISSLE_SPEED } });
    let mut wl: Vec<u32> = Vec::new();
    wl.push(GROUP_ASTEROID);
    bundle.collider = Some(
        Collider::new(Hitbox::with_shape(ColliderShape::Sphere(200)), GROUP_MISSLE, wl),
    );
    bundle.missile = Some(MiningMissle { target });
    pending.push(e, bundle);
    e
}

/// The velocity a homing missile takes for the given missile and target
/// positions, or `None` where the current velocity is kept: below the
/// approach window, or when missile and target share an xy position while
/// the blend would need a direction.
pub open spec fn spec_missile_velocity(mpos: Vec3, tpos: Vec3) -> Option<Vec3> {
    let dx = tpos.x - mpos.x;
    let dy = tpos.y - mpos.y;
    let len = sqrt_floor(dx * dx + dy * dy);
    if mpos.z >= tpos.z {
        if len > 0 {
            Some(
                Vec3 {
                    x: scaled_div(dx, MISSLE_SPEED as int, len) as i64,
                    y: scaled_div(dy, MISSLE_SPEED as int, len) as i64,
                    z: 0,
                },
            )
        } else {
            None
        }
    } else if mpos.z >= tpos.z - 1000 {
        let dz = tpos.z - mpos.z;
        let zf = 1000 - (dz * dz) / 1000;
        if len > 0 {
            let rise = if 1000 - zf >= 400 {
                1000 - zf
            } else {
                400
            };
            Some(
                Vec3 {
                    x: scaled_div(dx, (MISSLE_SPEED as int) * zf, len * 1000) as i64,
                    y: scaled_div(dy, (MISSLE_SPEED as int) * zf, len * 1000) as i64,
                    z: ((MISSLE_SPEED as int) * rise / 1000) as i64,
                },
            )
        } else {
            None
        }
    } else {
        None
    }
}

/// `d * num / den` rounded toward zero: the quotient of the magnitudes
/// with the sign of `d`.
pub open spec fn scaled_div(d: int, num: int, den: int) -> int {
    if d >= 0 {
        d * num / den
    } else {
        -((-d) * num / den)
    }
}

/// Computes `d * num / den` rounded toward zero.
pub(crate) fn scaled_div_exec(d: i64, num: i64, den: i128) -> (r: i64)
    requires
        0 < den <= 0x100000000000,
        -0x20000000 <= d <= 0x20000000,
        0 <= num <= 108000,
    ensures
        r as int == scaled_div(d as int, num as int, den as int),
{
    proof {
        lemma_mul_le(d as int, num as int, 0x20000000, 108000);
    }
    if d >= 0 {
        ((d as u128 * num as u128) / (den as u128)) as i64
    } else {
        proof {
            lemma_mul_le(-(d as int), num as int, 0x20000000, 108000);
        }
        let mag: u128 = ((-(d as i128)) as u128 * num as u128) / (den as u128);
        proof {
            assert(mag as int <= 0x20000000 * 108000) by (nonlinear_arith)
                requires
                    mag as int == ((-(d as int)) * (num as int)) / (den as int),
                    0 <= -(d as int) <= 0x20000000,
                    0 <= num as int <= 108000,
                    den as int > 0,
            ;
        }
        -(mag as i64)
    }
}

/// The quotient of `scaled_div` stays within `cap` when the magnitude
/// product is within `cap * den`.
pub(crate) proof fn lemma_scaled_div_le(d: int, num: int, den: int, cap: int)
    by (nonlinear_arith)
    requires
        den > 0,
        0 <= num,
        0 <= cap,
        (if d >= 0 {
            d
        } else {
            -d
        }) * num <= cap * den,
    ensures
        -cap <= scaled_div(d, num, den) <= cap,
{
}

/// Steers every mining missile: one whose target has died is queued for
/// its own removal within this tick — the dead handle is never followed —
/// and one whose target lives blends its climb into a straight run at the
/// target as it closes in.
#[verifier::rlimit(60)]
#[verifier::spinoff_prover]
#[verifier::loop_isolation(false)]
pub fn missile_update(
    store: &EntityStore,
    removal: &mut ToBeRemoved,
    missiles: &EntityMap<MiningMissle>,
    transforms: &EntityMap<Transform>,
    bodies: &mut EntityMap<RigidBody>,
)
    requires
        old(removal).wf(),
        missiles.wf(),
        transforms.wf(),
        old(bodies).wf(),
        crate::physics::transforms_ok(transforms@),
        crate::physics::bodies_ok(old(bodies)@),
    ensures
        final(removal).wf(),
        final(bodies).wf(),
        crate::physics::bodies_ok(final(bodies)@),
        final(bodies)@.dom() =~= old(bodies)@.dom(),
        forall|e: Entity|
            missiles@.dom().contains(e) && !store.spec_is_live(missiles@[e].target)
                ==> #[trigger] final(removal)@.contains(e),
        forall|e: Entity|
            old(removal)@.contains(e) ==> #[trigger] final(removal)@.contains(e),
        forall|e: Entity| #[trigger]
            final(bodies)@.dom().contains(e) ==> final(bodies)@[e] == (
            if missiles@.dom().contains(e) && store.spec_is_live(missiles@[e].target)
                && transforms@.dom().contains(e) && transforms@.dom().contains(
                missiles@[e].target,
            ) {
                match spec_missile_velocity(
                    transforms@[e].position,
                    transforms@[missiles@[e].target].position,
                ) {
                    Option::Some(v) => RigidBody { velocity: v },
                    Option::None => old(bodies)@[e],
                }
            } else {
                old(bodies)@[e]
            }),
{
    let n = missiles.len();
    let mut i: usize = 0;
    while i < n
        invariant
            removal.wf(),
            bodies.wf(),
            crate::physics::bodies_ok(bodies@),
            i <= n,
            bodies@.dom() =~= old(bodies)@.dom(),
            forall|j: int|
                0 <= j < i && !store.spec_is_live(
                    (#[trigger] missiles.entry_seq()[j]).1.target,
                ) ==> removal@.contains(missiles.entry_seq()[j].0),
            forall|e: Entity|
                old(removal)@.contains(e) ==> #[trigger] removal@.contains(e),
            forall|e: Entity| #[trigger]
                bodies@.dom().contains(e) ==> bodies@[e] == (
                if missiles@.dom().contains(e) && store.spec_is_live(missiles@[e].target)
                    && transforms@.dom().contains(e) && transforms@.dom().contains(
                    missiles@[e].target,
                ) && (exists|j: int|
                    0 <= j < i && (#[trigger] missiles.entry_seq()[j]).0 == e) {
                    match spec_missile_velocity(
                        transforms@[e].position,
                        transforms@[missiles@[e].target].position,
                    ) {
                        Option::Some(v) => RigidBody { velocity: v },
                        Option::None => old(bodies)@[e],
                    }
                } else {
                    old(bodies)@[e]
                }),
        decreases n - i,
    {
        let entry = missiles.at(i);
        let e = entry.0;
        let target = entry.1.target;
        proof {
            missiles.lemma_entry_keys_distinct();
        }
        let ghost pre_rem = removal@;
        let ghost pre_bodies = bodies@;
        if !store.is_alive(target) {
            removal.add(e);
        } else if transforms.contains(e) && transforms.contains(target) {
            let mpos = match transforms.get(e) {
                Some(t) => t.position,
                None => vstd::pervasive::unreached(),
            };
            let tpos = match transforms.get(target) {
                Some(t) => t.position,
                None => vstd::pervasive::unreached(),
            };
            let dx: i64 = tpos.x - mpos.x;
            let dy: i64 = tpos.y - mpos.y;
            proof {
                lemma_mul_le(dx as int, dx as int, 0x20000000, 0x20000000);
                lemma_mul_le(dy as int, dy as int, 0x20000000, 0x20000000);
                assert(dx as i128 * dx as i128 + dy as i128 * dy as i128 >= 0)
                    by (nonlinear_arith)
                    requires
                        true,
                ;
            }
            let n2: u128 = (dx as i128 * dx as i128 + dy as i128 * dy as i128) as u128;
            let len_u: u128 = isqrt(n2);
            proof {
                assert((dx as int) * (dx as int) >= 0 && (dy as int) * (dy as int) >= 0)
                    by (nonlinear_arith)
                    requires
                        true,
                ;
                assert((len_u as int) * (len_u as int) <= n2 as int);
                assert(len_u as int <= 0x40000000) by (nonlinear_arith)
                    requires
                        (len_u as int) * (len_u as int) <= n2 as int,
                        n2 as int <= 0x800000000000000,
                        len_u as int >= 0,
                ;
                crate::geom::lemma_sqrt_floor_exists(n2 as int);
                crate::geom::lemma_sqrt_floor_unique(
                    n2 as int,
                    len_u as int,
                    sqrt_floor(n2 as int),
                );
                assert((dx as int) * (dx as int) >= 0 && (dy as int) * (dy as int) >= 0)
                    by (nonlinear_arith)
                    requires
                        true,
                ;
                assert((dx as int) * (dx as int) <= ((len_u as int) + 1) * ((len_u as int) + 1)
                    - 1);
                assert((dy as int) * (dy as int) <= ((len_u as int) + 1) * ((len_u as int) + 1)
                    - 1);
            }
            let len: i64 = len_u as i64;
            let new_v: Option<Vec3> = if mpos.z >= tpos.z {
                if len > 0 {
                    proof {
                        assert(dx as int * (MISSLE_SPEED as int) <= 0x20000000 * 108);
                        assert((if dx as int >= 0 { dx as int } else { -(dx as int) }) * 108 <= 108
                            * (len as int)) by (nonlinear_arith)
                            requires
                                (dx as int) * (dx as int) <= ((len as int) + 1) * ((len as int)
                                    + 1) - 1,
                                len as int > 0,
                        ;
                        assert((if dy as int >= 0 { dy as int } else { -(dy as int) }) * 108 <= 108
                            * (len as int)) by (nonlinear_arith)
                            requires
                                (dy as int) * (dy as int) <= ((len as int) + 1) * ((len as int)
                                    + 1) - 1,
                                len as int > 0,
                        ;
                        lemma_scaled_div_le(dx as int, 108, len as int, 108);
                        lemma_scaled_div_le(dy as int, 108, len as int, 108);
                    }
                    let vx: i64 = scaled_div_exec(dx, MISSLE_SPEED, len as i128);
                    let vy: i64 = scaled_div_exec(dy, MISSLE_SPEED, len as i128);
                    Some(Vec3 { x: vx, y: vy, z: 0 })
                } else {
                    None
                }
            } else if mpos.z >= tpos.z - 1000 {
                let dz: i64 = tpos.z - mpos.z;
                proof {
                    assert(0 < dz <= 1000);
                    assert(0 <= (dz as int) * (dz as int) <= 1000000) by (nonlinear_arith)
                        requires
                            0 < dz as int <= 1000,
                    ;
                }
                let zf: i64 = 1000 - (dz * dz) / 1000;
                if len > 0 {
                    let rise: i64 = if 1000 - zf >= 400 {
                        1000 - zf
                    } else {
                        400
                    };
                    proof {
                        assert(0 <= zf as int <= 1000);
                        assert((if dx as int >= 0 { dx as int } else { -(dx as int) }) * (108 * (
                        zf as int)) <= 108 * ((len as int) * 1000)) by (nonlinear_arith)
                            requires
                                (dx as int) * (dx as int) <= ((len as int) + 1) * ((len as int)
                                    + 1) - 1,
                                len as int > 0,
                                0 <= zf as int <= 1000,
                        ;
                        assert((if dy as int >= 0 { dy as int } else { -(dy as int) }) * (108 * (
                        zf as int)) <= 108 * ((len as int) * 1000)) by (nonlinear_arith)
                            requires
                                (dy as int) * (dy as int) <= ((len as int) + 1) * ((len as int)
                                    + 1) - 1,
                                len as int > 0,
                                0 <= zf as int <= 1000,
                        ;
                        lemma_scaled_div_le(dx as int, 108 * zf as int, (len as int) * 1000, 108);
                        lemma_scaled_div_le(dy as int, 108 * zf as int, (len as int) * 1000, 108);
                        lemma_mul_le(len as int, 1000, 0x40000000, 1000);
                    }
                    let vx: i64 = scaled_div_exec(dx, MISSLE_SPEED * zf, len as i128 * 1000);
                    let vy: i64 = scaled_div_exec(dy, MISSLE_SPEED * zf, len as i128 * 1000);
                    let vz: i64 = MISSLE_SPEED * rise / 1000;
                    Some(Vec3 { x: vx, y: vy, z: vz })
                } else {
                    None
                }
            } else {
                None
            };
            proof {
                assert(new_v == spec_missile_velocity(mpos, tpos));
            }
            match new_v {
                Some(v) => {
                    if bodies.contains(e) {
                        bodies.insert(e, RigidBody { velocity: v });
                    }
                }
                None => {}
            }
        }
        proof {
            assert forall|e2: Entity| #[trigger]
                bodies@.dom().contains(e2) implies bodies@[e2] == (
            if missiles@.dom().contains(e2) && store.spec_is_live(missiles@[e2].target)
                && transforms@.dom().contains(e2) && transforms@.dom().contains(
                missiles@[e2].target,
            ) && (exists|j: int|
                0 <= j < i + 1 && (#[trigger] missiles.entry_seq()[j]).0 == e2) {
                match spec_missile_velocity(
                    transforms@[e2].position,
                    transforms@[missiles@[e2].target].position,
                ) {
                    Option::Some(v) => RigidBody { velocity: v },
                    Option::None => old(bodies)@[e2],
                }
            } else {
                old(bodies)@[e2]
            }) by {
                if e2 == e {
                    assert(missiles.entry_seq()[i as int].0 == e);
                    assert(missiles@.dom().contains(e));
                    assert(missiles@[e].target == target);
                } else {
                    assert(bodies@[e2] == pre_bodies[e2]);
                    if exists|j: int|
                        0 <= j < i + 1 && (#[trigger] missiles.entry_seq()[j]).0 == e2 {
                        let j = choose|j: int|
                            0 <= j < i + 1 && (#[trigger] missiles.entry_seq()[j]).0 == e2;
                        assert(j < i);
                    }
                }
            };
            assert forall|j: int|
                0 <= j < i + 1 && !store.spec_is_live(
                    (#[trigger] missiles.entry_seq()[j]).1.target,
                ) implies removal@.contains(missiles.entry_seq()[j].0) by {
                if j < i {
                    assert(pre_rem.contains(missiles.entry_seq()[j].0));
                    let t0 = choose|t: int|
                        0 <= t < pre_rem.len() && pre_rem[t] == missiles.entry_seq()[j].0;
                    assert(removal@[t0] == missiles.entry_seq()[j].0);
                } else {
                    assert(missiles.entry_seq()[j].0 == e);
                }
            };
            assert forall|e2: Entity|
                old(removal)@.contains(e2) implies #[trigger] removal@.contains(e2) by {
                assert(pre_rem.contains(e2));
                let t0 = choose|t: int| 0 <= t < pre_rem.len() && pre_rem[t] == e2;
                assert(removal@[t0] == e2);
            };
        }
        i = i + 1;
    }
    proof {
        assert forall|e: Entity|
            missiles@.dom().contains(e) && !store.spec_is_live(
                missiles@[e].target,
            ) implies #[trigger] removal@.contains(e) by {
            missiles.lemma_view_has_entry(e);
            let j = choose|j: int|
                0 <= j < missiles.entry_seq().len() && (#[trigger] missiles.entry_seq()[j]).0
                    == e;
            missiles.lemma_entry_in_view(j);
        };
        assert forall|e: Entity| #[trigger]
            bodies@.dom().contains(e) implies bodies@[e] == (
        if missiles@.dom().contains(e) && store.spec_is_live(missiles@[e].target)
            && transforms@.dom().contains(e) && transforms@.dom().contains(
            missiles@[e].target,
        ) {
            match spec_missile_velocity(
                transforms@[e].position,
                transforms@[missiles@[e].target].position,
            ) {
                Option::Some(v) => RigidBody { velocity: v },
                Option::None => old(bodies)@[e],
            }
        } else {
            old(bodies)@[e]
        }) by {
            if missiles@.dom().contains(e) {
                missiles.lemma_view_has_entry(e);
            }
            if exists|j: int| 0 <= j < n && (#[trigger] missiles.entry_seq()[j]).0 == e {
                let j = choose|j: int|
                    0 <= j < n && (#[trigger] missiles.entry_seq()[j]).0 == e;
                missiles.lemma_entry_in_view(j);
            }
        };
    }
}

} // verus!
