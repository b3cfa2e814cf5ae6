//! The per-tick contact world: velocity integration, contact detection and
//! gameplay consequences.
//!
//! The contact world is rebuilt from the current transforms and colliders
//! every tick; only freshly detected contacts matter, and they are handed
//! on as an explicit event list. A block-versus-asteroid contact queues the
//! asteroid for removal and heats the block's ship; a missile-versus-
//! asteroid contact queues both.

use crate::collider::{groups_interact, Collider};
use crate::entity::Entity;
use crate::geom::{shapes_overlap, shapes_overlap_check, Hitbox, WORLD_LIMIT};
use crate::math::{spec_clamp, vec_within, Vec3, POS_LIMIT};
use crate::objects::{Asteroid, MiningMissle};
use crate::removal::{spec_removal_add, ToBeRemoved};
use crate::ship::{BlockEntity, Ship, CONTACT_HEAT};
use crate::storage::EntityMap;
use crate::transform::{RigidBody, Transform};
use vstd::prelude::*;

verus! {

/// Every transform in the table is bounded.
pub open spec fn transforms_ok(m: Map<Entity, Transform>) -> bool {
    forall|e: Entity| #[trigger] m.dom().contains(e) ==> m[e].wf()
}

/// Every velocity in the table is bounded.
pub open spec fn bodies_ok(m: Map<Entity, RigidBody>) -> bool {
    forall|e: Entity| #[trigger] m.dom().contains(e) ==> m[e].wf()
}

/// Every collider's hitbox in the table is bounded.
pub open spec fn colliders_ok(m: Map<Entity, Collider>) -> bool {
    forall|e: Entity| #[trigger] m.dom().contains(e) ==> m[e].hitbox.wf()
}

/// Every block back-reference points at an entity carrying a ship.
pub open spec fn blocks_have_ships(bl: Map<Entity, BlockEntity>, ships: Map<Entity, Ship>) -> bool {
    forall|e: Entity| #[trigger] bl.dom().contains(e) ==> ships.dom().contains(bl[e].ship)
}

/// One integration step: the position moves by the per-tick velocity,
/// clamped into the coordinate range; rotation and scale stay.
pub open spec fn spec_integrate(t: Transform, b: RigidBody) -> Transform {
    Transform {
        position: Vec3 {
            x: spec_clamp(t.position.x + b.velocity.x, POS_LIMIT as int) as i64,
            y: spec_clamp(t.position.y + b.velocity.y, POS_LIMIT as int) as i64,
            z: spec_clamp(t.position.z + b.velocity.z, POS_LIMIT as int) as i64,
        },
        ..t
    }
}

/// The whole transform table after one integration step.
pub open spec fn spec_integrated(
    tr: Map<Entity, Transform>,
    bd: Map<Entity, RigidBody>,
) -> Map<Entity, Transform> {
    Map::new(
        |e: Entity| tr.dom().contains(e),
        |e: Entity|
            if bd.dom().contains(e) {
                spec_integrate(tr[e], bd[e])
            } else {
                tr[e]
            },
    )
}

/// Integrates every rigid body's velocity into its transform.
pub fn integrate_bodies(transforms: &mut EntityMap<Transform>, bodies: &EntityMap<RigidBody>)
    requires
        old(transforms).wf(),
        bodies.wf(),
        transforms_ok(old(transforms)@),
        bodies_ok(bodies@),
    ensures
        final(transforms).wf(),
        final(transforms)@ =~= spec_integrated(old(transforms)@, bodies@),
        transforms_ok(final(transforms)@),
{
    let n = transforms.len();
    let mut i: usize = 0;
    while i < n
        invariant
            transforms.wf(),
            bodies.wf(),
            transforms_ok(old(transforms)@),
            transforms_ok(transforms@),
            bodies_ok(bodies@),
            n == transforms.entry_seq().len(),
            i <= n,
            transforms.entry_seq().len() == old(transforms).entry_seq().len(),
            forall|j: int|
                0 <= j < n ==> (#[trigger] transforms.entry_seq()[j]).0 == old(
                    transforms,
                ).entry_seq()[j].0,
            transforms@.dom() =~= old(transforms)@.dom(),
            forall|j: int|
                0 <= j < i ==> transforms@[(#[trigger] transforms.entry_seq()[j]).0]
                    == spec_integrated(old(transforms)@, bodies@)[transforms.entry_seq()[j].0],
            forall|j: int|
                i <= j < n ==> transforms@[(#[trigger] transforms.entry_seq()[j]).0] == old(
                    transforms,
                )@[transforms.entry_seq()[j].0],
        decreases n - i,
    {
        let entry = *transforms.at(i);
        let e = entry.0;
        let t = entry.1;
        match bodies.get(e) {
            Some(b) => {
                let nt = Transform {
                    position: Vec3 {
                        x: crate::math::clamp_i64(t.position.x + b.velocity.x, POS_LIMIT),
                        y: crate::math::clamp_i64(t.position.y + b.velocity.y, POS_LIMIT),
                        z: crate::math::clamp_i64(t.position.z + b.velocity.z, POS_LIMIT),
                    },
                    ..t
                };
                proof {
                    transforms.lemma_entry_keys_distinct();
                }
                let ghost pre = *transforms;
                transforms.set_at(i, nt);
                proof {
                    assert forall|j: int|
                        0 <= j < n && j != i implies transforms@[(
                    #[trigger] transforms.entry_seq()[j]).0] == pre@[transforms.entry_seq()[j].0] by {
                        assert(transforms.entry_seq()[j].0 == pre.entry_seq()[j].0);
                        assert(pre.entry_seq()[j].0 != pre.entry_seq()[i as int].0);
                    };
                }
            }
            None => {}
        }
        i = i + 1;
    }
    proof {
        assert forall|e: Entity| #[trigger]
            transforms@.dom().contains(e) implies transforms@[e] == spec_integrated(
            old(transforms)@,
            bodies@,
        )[e] by {
            transforms.lemma_view_has_entry(e);
            let j = choose|j: int|
                0 <= j < transforms.entry_seq().len() && (#[trigger] transforms.entry_seq()[j]).0
                    == e;
        };
        assert(transforms@ =~= spec_integrated(old(transforms)@, bodies@));
    }
}

/// The world-space center of a placed hitbox.
pub open spec fn spec_center(t: Transform, hb: Hitbox) -> Vec3 {
    Vec3 {
        x: (t.position.x + hb.offset.x) as i64,
        y: (t.position.y + hb.offset.y) as i64,
        z: (t.position.z + hb.offset.z) as i64,
    }
}

/// Whether collider entries `i` and `j` produce a contact: both entities
/// placed, their groups whitelisted against each other, and their shapes
/// overlapping.
pub open spec fn pair_hit(
    cs: Seq<(Entity, Collider)>,
    tr: Map<Entity, Transform>,
    i: int,
    j: int,
) -> bool {
    let (e1, c1) = cs[i];
    let (e2, c2) = cs[j];
    &&& tr.dom().contains(e1)
    &&& tr.dom().contains(e2)
    &&& groups_interact(c1.group, c1.whitelist@, c2.group, c2.whitelist@)
    &&& shapes_overlap(
        c1.hitbox.shape,
        spec_center(tr[e1], c1.hitbox),
        c2.hitbox.shape,
        spec_center(tr[e2], c2.hitbox),
    )
}

/// The contact events of entry `i` against later entries, from `j` on.
pub open spec fn spec_pairs_inner(
    cs: Seq<(Entity, Collider)>,
    tr: Map<Entity, Transform>,
    i: int,
    j: int,
) -> Seq<(Entity, Entity)>
    decreases cs.len() - j,
{
    if j >= cs.len() || j < 0 {
        Seq::empty()
    } else {
        (if pair_hit(cs, tr, i, j) {
            seq![(cs[i].0, cs[j].0)]
        } else {
            Seq::empty()
        }) + spec_pairs_inner(cs, tr, i, j + 1)
    }
}

/// All contact events among entries from `i` on, each unordered pair once,
/// in entry order.
pub open spec fn spec_pairs_outer(
    cs: Seq<(Entity, Collider)>,
    tr: Map<Entity, Transform>,
    i: int,
) -> Seq<(Entity, Entity)>
    decreases cs.len() - i,
{
    if i >= cs.len() || i < 0 {
        Seq::empty()
    } else {
        spec_pairs_inner(cs, tr, i, i + 1) + spec_pairs_outer(cs, tr, i + 1)
    }
}

/// Detects every contact among the placed colliders, in entry order.
pub fn detect_contacts(transforms: &EntityMap<Transform>, colliders: &EntityMap<Collider>) -> (r:
    Vec<(Entity, Entity)>)
    requires
        transforms.wf(),
        colliders.wf(),
        transforms_ok(transforms@),
        colliders_ok(colliders@),
    ensures
        r@ == spec_pairs_outer(colliders.entry_seq(), transforms@, 0),
{
    let n = colliders.len();
    let mut acc: Vec<(Entity, Entity)> = Vec::new();
    let mut i: usize = 0;
    while i < n
        invariant
            transforms.wf(),
            colliders.wf(),
            transforms_ok(transforms@),
            colliders_ok(colliders@),
            n == colliders.entry_seq().len(),
            i <= n,
            spec_pairs_outer(colliders.entry_seq(), transforms@, 0) =~= acc@ + spec_pairs_outer(
                colliders.entry_seq(),
                transforms@,
                i as int,
            ),
        decreases n - i,
    {
        let mut j: usize = i + 1;
        while j < n
            invariant
                transforms.wf(),
                colliders.wf(),
                transforms_ok(transforms@),
                colliders_ok(colliders@),
                n == colliders.entry_seq().len(),
                i < n,
                i < j <= n,
                spec_pairs_outer(colliders.entry_seq(), transforms@, 0) =~= acc@
                    + spec_pairs_inner(colliders.entry_seq(), transforms@, i as int, j as int)
                    + spec_pairs_outer(colliders.entry_seq(), transforms@, i as int + 1),
            decreases n - j,
        {
            let ei = colliders.at(i);
            let ej = colliders.at(j);
            let hit: bool = match (transforms.get(ei.0), transforms.get(ej.0)) {
                (Some(ti), Some(tj)) => {
                    let interact = crate::collider::contains_group(&ei.1.whitelist, ej.1.group)
                        && crate::collider::contains_group(&ej.1.whitelist, ei.1.group);
                    if interact {
                        let ci = Vec3 {
                            x: ti.position.x + ei.1.hitbox.offset.x,
                            y: ti.position.y + ei.1.hitbox.offset.y,
                            z: ti.position.z + ei.1.hitbox.offset.z,
                        };
                        let cj = Vec3 {
                            x: tj.position.x + ej.1.hitbox.offset.x,
                            y: tj.position.y + ej.1.hitbox.offset.y,
                            z: tj.position.z + ej.1.hitbox.offset.z,
                        };
                        shapes_overlap_check(&ei.1.hitbox.shape, ci, &ej.1.hitbox.shape, cj)
                    } else {
                        false
                    }
                }
                _ => false,
            };
            proof {
                assert(hit == pair_hit(
                    colliders.entry_seq(),
                    transforms@,
                    i as int,
                    j as int,
                ));
            }
            if hit {
                acc.push((ei.0, ej.0));
            }
            j = j + 1;
        }
        i = i + 1;
    }
    acc
}

/// Heat addition that sticks at the counter's maximum.
pub open spec fn spec_heat_add(h: u32, d: u32) -> u32 {
    if h + d <= u32::MAX {
        (h + d) as u32
    } else {
        u32::MAX
    }
}

/// The removal queue and ship table after one contact event: a contact
/// involving a block queues the asteroid in the pair and heats the block's
/// ship; a missile-and-asteroid contact queues both entities.
pub open spec fn spec_event_step(
    ev: (Entity, Entity),
    bl: Map<Entity, BlockEntity>,
    ast: Map<Entity, Asteroid>,
    mis: Map<Entity, MiningMissle>,
    rem: Seq<Entity>,
    ships: Map<Entity, Ship>,
) -> (Seq<Entity>, Map<Entity, Ship>) {
    let (e1, e2) = ev;
    let block_involved = bl.dom().contains(e1) || bl.dom().contains(e2);
    let rem1 = if block_involved {
        if ast.dom().contains(e1) {
            spec_removal_add(rem, e1)
        } else if ast.dom().contains(e2) {
            spec_removal_add(rem, e2)
        } else {
            rem
        }
    } else {
        rem
    };
    let ships1 = if block_involved {
        let bent = if bl.dom().contains(e1) {
            e1
        } else {
            e2
        };
        let se = bl[bent].ship;
        if bl.dom().contains(bent) && ships.dom().contains(se) {
            ships.insert(
                se,
                Ship { heat: spec_heat_add(ships[se].heat, CONTACT_HEAT), tiles: ships[se].tiles },
            )
        } else {
            ships
        }
    } else {
        ships
    };
    let missile_hit = (mis.dom().contains(e1) || mis.dom().contains(e2)) && (ast.dom().contains(e1)
        || ast.dom().contains(e2));
    let rem2 = if missile_hit {
        spec_removal_add(spec_removal_add(rem1, e1), e2)
    } else {
        rem1
    };
    (rem2, ships1)
}

/// The removal queue and ship table after a whole event list, first event
/// first.
pub open spec fn spec_apply_events(
    evs: Seq<(Entity, Entity)>,
    bl: Map<Entity, BlockEntity>,
    ast: Map<Entity, Asteroid>,
    mis: Map<Entity, MiningMissle>,
    rem: Seq<Entity>,
    ships: Map<Entity, Ship>,
) -> (Seq<Entity>, Map<Entity, Ship>)
    decreases evs.len(),
{
    if evs.len() == 0 {
        (rem, ships)
    } else {
        let step = spec_event_step(evs[0], bl, ast, mis, rem, ships);
        spec_apply_events(evs.subrange(1, evs.len() as int), bl, ast, mis, step.0, step.1)
    }
}

/// Applies the gameplay consequences of a contact-event list.
pub fn apply_contact_events(
    events: &Vec<(Entity, Entity)>,
    removal: &mut ToBeRemoved,
    blocks: &EntityMap<BlockEntity>,
    asteroids: &EntityMap<Asteroid>,
    missiles: &EntityMap<MiningMissle>,
    ships: &mut EntityMap<Ship>,
)
    requires
        old(removal).wf(),
        blocks.wf(),
        asteroids.wf(),
        missiles.wf(),
        old(ships).wf(),
    ensures
        final(removal).wf(),
        final(ships).wf(),
        ({
            let out = spec_apply_events(
                events@,
                blocks@,
                asteroids@,
                missiles@,
                old(removal)@,
                old(ships)@,
            );
            final(removal)@ == out.0 && final(ships)@ =~= out.1
        }),
        final(ships)@.dom() =~= old(ships)@.dom(),
        forall|e: Entity| #[trigger]
            final(ships)@.dom().contains(e) ==> final(ships)@[e].tiles == old(ships)@[e].tiles,
{
    let n = events.len();
    proof {
        assert(events@.subrange(0, n as int) =~= events@);
    }
    let mut k: usize = 0;
    while k < n
        invariant
            removal.wf(),
            blocks.wf(),
            asteroids.wf(),
            missiles.wf(),
            ships.wf(),
            n == events@.len(),
            k <= n,
            ships@.dom() =~= old(ships)@.dom(),
            forall|e: Entity| #[trigger]
                ships@.dom().contains(e) ==> ships@[e].tiles == old(ships)@[e].tiles,
            spec_apply_events(
                events@,
                blocks@,
                asteroids@,
                missiles@,
                old(removal)@,
                old(ships)@,
            ) == spec_apply_events(
                events@.subrange(k as int, n as int),
                blocks@,
                asteroids@,
                missiles@,
                removal@,
                ships@,
            ),
        decreases n - k,
    {
        let ghost pre_rem = removal@;
        let ghost pre_ships = ships@;
        let ev = events[k];
        let e1 = ev.0;
        let e2 = ev.1;
        let block_involved = blocks.contains(e1) || blocks.contains(e2);
        if block_involved {
            if asteroids.contains(e1) {
                removal.add(e1);
            } else if asteroids.contains(e2) {
                removal.add(e2);
            }
            let bent = if blocks.contains(e1) {
                e1
            } else {
                e2
            };
            match blocks.get(bent) {
                Some(b) => {
                    let se = b.ship;
                    match ships.take(se) {
                        Some(mut s) => {
                            s.heat = s.heat.saturating_add(crate::ship::CONTACT_HEAT);
                            ships.insert(se, s);
                        }
                        None => {}
                    }
                }
                None => {}
            }
        }
        let missile_hit = (missiles.contains(e1) || missiles.contains(e2)) && (asteroids.contains(
            e1,
        ) || asteroids.contains(e2));
        if missile_hit {
            removal.add(e1);
            removal.add(e2);
        }
        proof {
            let step = spec_event_step(ev, blocks@, asteroids@, missiles@, pre_rem, pre_ships);
            assert(removal@ == step.0);
            assert(ships@ =~= step.1);
            assert(events@.subrange(k as int, n as int)[0] == ev);
            assert(events@.subrange(k as int, n as int).subrange(
                1,
                (n - k) as int,
            ) =~= events@.subrange(k as int + 1, n as int));
        }
        k = k + 1;
    }
    proof {
        assert(events@.subrange(n as int, n as int) =~= Seq::<(Entity, Entity)>::empty());
    }
}

/// The full physics pass: integrate velocities into transforms, detect the
/// tick's contacts at the post-integration poses, and apply their
/// consequences to the removal queue and the ships.
pub fn run_physics(
    removal: &mut ToBeRemoved,
    transforms: &mut EntityMap<Transform>,
    colliders: &EntityMap<Collider>,
    bodies: &EntityMap<RigidBody>,
    blocks: &EntityMap<BlockEntity>,
    asteroids: &EntityMap<Asteroid>,
    missiles: &EntityMap<MiningMissle>,
    ships: &mut EntityMap<Ship>,
)
    requires
        old(removal).wf(),
        old(transforms).wf(),
        colliders.wf(),
        bodies.wf(),
        blocks.wf(),
        asteroids.wf(),
        missiles.wf(),
        old(ships).wf(),
        transforms_ok(old(transforms)@),
        bodies_ok(bodies@),
        colliders_ok(colliders@),
    ensures
        final(removal).wf(),
        final(transforms).wf(),
        final(ships).wf(),
        final(transforms)@ =~= spec_integrated(old(transforms)@, bodies@),
        transforms_ok(final(transforms)@),
        final(ships)@.dom() =~= old(ships)@.dom(),
        forall|e: Entity| #[trigger]
            final(ships)@.dom().contains(e) ==> final(ships)@[e].tiles == old(ships)@[e].tiles,
        ({
            let tr = spec_integrated(old(transforms)@, bodies@);
            let evs = spec_pairs_outer(colliders.entry_seq(), tr, 0);
            let out = spec_apply_events(
                evs,
                blocks@,
                asteroids@,
                missiles@,
                old(removal)@,
                old(ships)@,
            );
            final(removal)@ == out.0 && final(ships)@ =~= out.1
        }),
{
    integrate_bodies(transforms, bodies);
    let events = detect_contacts(transforms, colliders);
    apply_contact_events(&events, removal, blocks, asteroids, missiles, ships);
}

/// No event of entry `i` against entries from `j` on equals `p`, when no
/// later partner of `i` both matches `p` and produces a hit.
proof fn lemma_inner_not_contains(
    cs: Seq<(Entity, Collider)>,
    tr: Map<Entity, Transform>,
    i: int,
    j: int,
    p: (Entity, Entity),
)
    requires
        0 <= i < cs.len(),
        forall|b: int|
            j <= b < cs.len() && ((#[trigger] cs[b]).0 == p.1 && cs[i].0 == p.0) ==> !pair_hit(
                cs,
                tr,
                i,
                b,
            ),
    ensures
        !spec_pairs_inner(cs, tr, i, j).contains(p),
    decreases cs.len() - j,
{
    if 0 <= j < cs.len() {
        lemma_inner_not_contains(cs, tr, i, j + 1, p);
        if spec_pairs_inner(cs, tr, i, j).contains(p) {
            let k = choose|k: int|
                0 <= k < spec_pairs_inner(cs, tr, i, j).len() && spec_pairs_inner(cs, tr, i, j)[k]
                    == p;
            if pair_hit(cs, tr, i, j) {
                if k == 0 {
                    assert(p == (cs[i].0, cs[j].0));
                    assert(false);
                } else {
                    assert(spec_pairs_inner(cs, tr, i, j + 1)[k - 1] == p);
                    assert(spec_pairs_inner(cs, tr, i, j + 1).contains(p));
                    assert(false);
                }
            } else {
                assert(spec_pairs_inner(cs, tr, i, j + 1)[k] == p);
                assert(spec_pairs_inner(cs, tr, i, j + 1).contains(p));
                assert(false);
            }
        }
    } else {
        if spec_pairs_inner(cs, tr, i, j).contains(p) {
            let k = choose|k: int|
                0 <= k < spec_pairs_inner(cs, tr, i, j).len() && spec_pairs_inner(cs, tr, i, j)[k]
                    == p;
            assert(false);
        }
    }
}

/// No event among entries from `m` on equals `p`, when no matching pair of
/// entries produces a hit.
proof fn lemma_outer_not_contains(
    cs: Seq<(Entity, Collider)>,
    tr: Map<Entity, Transform>,
    m: int,
    p: (Entity, Entity),
)
    requires
        forall|a: int, b: int|
            0 <= a < b < cs.len() && ((#[trigger] cs[a]).0 == p.0 && (#[trigger] cs[b]).0 == p.1)
                ==> !pair_hit(cs, tr, a, b),
    ensures
        !spec_pairs_outer(cs, tr, m).contains(p),
    decreases cs.len() - m,
{
    if 0 <= m < cs.len() {
        lemma_outer_not_contains(cs, tr, m + 1, p);
        lemma_inner_not_contains(cs, tr, m, m + 1, p);
        if spec_pairs_outer(cs, tr, m).contains(p) {
            let k = choose|k: int|
                0 <= k < spec_pairs_outer(cs, tr, m).len() && spec_pairs_outer(cs, tr, m)[k] == p;
            let inner = spec_pairs_inner(cs, tr, m, m + 1);
            if k < inner.len() {
                assert(inner[k] == p);
                assert(inner.contains(p));
                assert(false);
            } else {
                assert(spec_pairs_outer(cs, tr, m + 1)[k - inner.len()] == p);
                assert(spec_pairs_outer(cs, tr, m + 1).contains(p));
                assert(false);
            }
        }
    } else {
        if spec_pairs_outer(cs, tr, m).contains(p) {
            let k = choose|k: int|
                0 <= k < spec_pairs_outer(cs, tr, m).len() && spec_pairs_outer(cs, tr, m)[k] == p;
            assert(false);
        }
    }
}

/// Two entities registered in one collision group that neither whitelists
/// never produce a contact event with each other, whatever their
/// positions — exact overlap included.
pub proof fn lemma_no_self_collision(
    cs: Seq<(Entity, Collider)>,
    tr: Map<Entity, Transform>,
    g: u32,
    i: int,
    j: int,
)
    requires
        0 <= i < cs.len(),
        0 <= j < cs.len(),
        i != j,
        forall|a: int, b: int| 0 <= a < b < cs.len() ==> (#[trigger] cs[a]).0 != (#[trigger] cs[b]).0,
        cs[i].1.group == g,
        cs[j].1.group == g,
        !cs[i].1.whitelist@.contains(g),
        !cs[j].1.whitelist@.contains(g),
    ensures
        !spec_pairs_outer(cs, tr, 0).contains((cs[i].0, cs[j].0)),
        !spec_pairs_outer(cs, tr, 0).contains((cs[j].0, cs[i].0)),
{
    assert forall|a: int, b: int|
        0 <= a < b < cs.len() && ((#[trigger] cs[a]).0 == cs[i].0 && (#[trigger] cs[b]).0
            == cs[j].0) implies !pair_hit(cs, tr, a, b) by {
        assert(a == i && b == j);
    };
    assert forall|a: int, b: int|
        0 <= a < b < cs.len() && ((#[trigger] cs[a]).0 == cs[j].0 && (#[trigger] cs[b]).0
            == cs[i].0) implies !pair_hit(cs, tr, a, b) by {
        assert(a == j && b == i);
    };
    lemma_outer_not_contains(cs, tr, 0, (cs[i].0, cs[j].0));
    lemma_outer_not_contains(cs, tr, 0, (cs[j].0, cs[i].0));
}

} // verus!
