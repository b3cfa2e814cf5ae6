//! Synchronization of the persistent side structures with the component
//! world: the raycast registrations and the render instances, including
//! the hitbox-outline proxies, and their teardown when entities die.

use crate::collider::Collider;
use crate::entity::Entity;
use crate::geom::WORLD_LIMIT;
use crate::math::{vec_within, Vec3};
use crate::physics::{colliders_ok, spec_center, transforms_ok};
use crate::rcworld::{reg_of, RaycastHandle, RaycastWorld, Reg};
use crate::removal::ToBeRemoved;
use crate::render::{Model, RenderInstance, RenderInstances};
use crate::storage::EntityMap;
use crate::transform::Transform;
use vstd::prelude::*;

verus! {

/// Every recorded raycast handle names an occupied registration carrying
/// its own entity, and no two entities share a slot.
pub open spec fn handles_ok(hs: Map<Entity, RaycastHandle>, regs: Seq<Option<Reg>>) -> bool {
    &&& forall|e: Entity| #[trigger]
        hs.dom().contains(e) ==> hs[e].slot < regs.len() && regs[hs[e].slot as int] is Some
            && reg_of(regs[hs[e].slot as int]).entity == e
    &&& forall|e1: Entity, e2: Entity|
        hs.dom().contains(e1) && hs.dom().contains(e2) && e1 != e2 ==> (#[trigger] hs[e1]).slot
            != (#[trigger] hs[e2]).slot
}

/// Every model component's allocated instance is occupied, and no two
/// entities' models share an instance slot.
pub open spec fn models_ok(ms: Map<Entity, Model>, insts: Seq<Option<RenderInstance>>) -> bool {
    &&& forall|e: Entity| #[trigger]
        ms.dom().contains(e) ==> match ms[e].model_id {
            Option::Some(id) => id.slot < insts.len() && insts[id.slot as int] is Some,
            Option::None => true,
        }
    &&& forall|e1: Entity, e2: Entity|
        ms.dom().contains(e1) && ms.dom().contains(e2) && e1 != e2 && ms[e1].model_id is Some
            && ms[e2].model_id is Some ==> (#[trigger] ms[e1]).model_id != (
        #[trigger] ms[e2]).model_id
}

/// Refreshes the persistent raycast world: a placed collider seen for the
/// first time is registered, with its group as membership and the
/// internal raycast group as whitelist; an already registered one has its
/// registration pose and shape updated in place. The recorded handle being
/// present is the one source of truth for which case applies.
#[verifier::loop_isolation(false)]
pub fn refresh_raycast_world(
    rcw: &mut RaycastWorld,
    transforms: &EntityMap<Transform>,
    colliders: &EntityMap<Collider>,
    handles: &mut EntityMap<RaycastHandle>,
)
    requires
        old(rcw).wf(),
        transforms.wf(),
        colliders.wf(),
        old(handles).wf(),
        transforms_ok(transforms@),
        colliders_ok(colliders@),
        handles_ok(old(handles)@, old(rcw)@),
    ensures
        final(rcw).wf(),
        final(handles).wf(),
        handles_ok(final(handles)@, final(rcw)@),
        forall|e: Entity|
            old(handles)@.dom().contains(e) ==> final(handles)@.dom().contains(e) && final(handles)@[e] == old(handles)@[e],
        forall|e: Entity| #[trigger]
            final(handles)@.dom().contains(e) == (old(handles)@.dom().contains(e) || (
            colliders@.dom().contains(e) && transforms@.dom().contains(e))),
        forall|e: Entity|
            colliders@.dom().contains(e) && transforms@.dom().contains(e) ==> {
                let reg = reg_of(final(rcw)@[(#[trigger] final(handles)@[e]).slot as int]);
                &&& reg.entity == e
                &&& reg.shape == colliders@[e].hitbox.shape
                &&& reg.center == spec_center(transforms@[e], colliders@[e].hitbox)
                &&& (!old(handles)@.dom().contains(e) ==> reg.group == colliders@[e].group)
            },
{
    let n = colliders.len();
    let mut i: usize = 0;
    while i < n
        invariant
            rcw.wf(),
            transforms.wf(),
            colliders.wf(),
            handles.wf(),
            transforms_ok(transforms@),
            colliders_ok(colliders@),
            handles_ok(handles@, rcw@),
            n == colliders.entry_seq().len(),
            i <= n,
            forall|e: Entity| #[trigger]
                old(handles)@.dom().contains(e) ==> handles@.dom().contains(e) && handles@[e]
                    == old(handles)@[e],
            forall|e: Entity| #[trigger]
                handles@.dom().contains(e) ==> (old(handles)@.dom().contains(e) || (
                colliders@.dom().contains(e) && transforms@.dom().contains(e))),
            forall|e: Entity| #[trigger]
                handles@.dom().contains(e) && !old(handles)@.dom().contains(e) ==> exists|j: int|
                    0 <= j < i && (#[trigger] colliders.entry_seq()[j]).0 == e,
            forall|j: int|
                0 <= j < i ==> {
                    let e = (#[trigger] colliders.entry_seq()[j]).0;
                    transforms@.dom().contains(e) ==> handles@.dom().contains(e)
                },
            forall|j: int|
                0 <= j < i ==> {
                    let e = (#[trigger] colliders.entry_seq()[j]).0;
                    transforms@.dom().contains(e) ==> {
                        let reg = reg_of(rcw@[handles@[e].slot as int]);
                        &&& reg.entity == e
                        &&& reg.shape == colliders@[e].hitbox.shape
                        &&& reg.center == spec_center(transforms@[e], colliders@[e].hitbox)
                        &&& (!old(handles)@.dom().contains(e) ==> reg.group == colliders@[e].group)
                    }
                },
        decreases n - i,
    {
        let entry = colliders.at(i);
        let e = entry.0;
        proof {
            colliders.lemma_entry_keys_distinct();
        }
        match transforms.get(e) {
            Some(t) => {
                let hb = entry.1.hitbox;
                let center = Vec3 {
                    x: t.position.x + hb.offset.x,
                    y: t.position.y + hb.offset.y,
                    z: t.position.z + hb.offset.z,
                };
                let existing: Option<RaycastHandle> = match handles.get(e) {
                    Some(h) => Some(*h),
                    None => None,
                };
                match existing {
                    Some(h) => {
                        let ghost pre_rcw = rcw@;
                        rcw.update_registration(h, hb.shape, center);
                        proof {
                            assert(handles@[e] == h);
                            assert(reg_of(rcw@[h.slot as int]).entity == e);
                            assert(reg_of(rcw@[h.slot as int]).shape == colliders@[e].hitbox.shape);
                            assert(reg_of(rcw@[h.slot as int]).center == spec_center(
                                transforms@[e],
                                colliders@[e].hitbox,
                            ));
                            if !old(handles)@.dom().contains(e) {
                                let j0 = choose|j: int|
                                    0 <= j < i && (#[trigger] colliders.entry_seq()[j]).0 == e;
                                assert(colliders.entry_seq()[i as int].0 == e);
                                assert(false);
                            }
                            assert forall|j: int| 0 <= j < i implies {
                                let e2 = (#[trigger] colliders.entry_seq()[j]).0;
                                transforms@.dom().contains(e2) ==> {
                                    let reg = reg_of(rcw@[handles@[e2].slot as int]);
                                    &&& reg.entity == e2
                                    &&& reg.shape == colliders@[e2].hitbox.shape
                                    &&& reg.center == spec_center(
                                        transforms@[e2],
                                        colliders@[e2].hitbox,
                                    )
                                    &&& (!old(handles)@.dom().contains(e2) ==> reg.group
                                        == colliders@[e2].group)
                                }
                            } by {
                                let e2 = colliders.entry_seq()[j].0;
                                colliders.lemma_entry_in_view(j);
                                if transforms@.dom().contains(e2) {
                                    assert(colliders.entry_seq()[i as int].0 == e);
                                    assert(e2 != e);
                                    assert(handles@.dom().contains(e2));
                                    assert(handles@.dom().contains(e));
                                    assert(handles@[e2].slot != handles@[e].slot);
                                    assert(rcw@[handles@[e2].slot as int]
                                        == pre_rcw[handles@[e2].slot as int]);
                                }
                            };
                        }
                    }
                    None => {
                        proof {
                            assert(!old(handles)@.dom().contains(e));
                        }
                        let ghost pre_rcw = rcw@;
                        let ghost pre_handles = handles@;
                        let h = rcw.register(
                            e,
                            entry.1.group,
                            hb.shape,
                            center,
                        );
                        handles.insert(e, h);
                        proof {
                            assert(handles@[e] == h);
                            assert(reg_of(rcw@[h.slot as int]).entity == e);
                            assert(reg_of(rcw@[h.slot as int]).shape == colliders@[e].hitbox.shape);
                            assert(reg_of(rcw@[h.slot as int]).center == spec_center(
                                transforms@[e],
                                colliders@[e].hitbox,
                            ));
                            assert(reg_of(rcw@[h.slot as int]).group == colliders@[e].group);
                            assert forall|e2: Entity| #[trigger]
                                handles@.dom().contains(e2) && !old(handles)@.dom().contains(
                                e2,
                            ) implies exists|j: int|
                                0 <= j < i + 1 && (#[trigger] colliders.entry_seq()[j]).0
                                    == e2 by {
                                if e2 == e {
                                    assert(colliders.entry_seq()[i as int].0 == e2);
                                } else {
                                    assert(pre_handles.dom().contains(e2));
                                    let j0 = choose|j: int|
                                        0 <= j < i && (#[trigger] colliders.entry_seq()[j]).0
                                            == e2;
                                }
                            };
                            assert forall|e2: Entity| #[trigger]
                                old(handles)@.dom().contains(e2) implies handles@.dom().contains(
                                e2,
                            ) && handles@[e2] == old(handles)@[e2] by {
                                assert(pre_handles.dom().contains(e2));
                                assert(e2 != e);
                            };
                            assert forall|j: int| 0 <= j < i implies {
                                let e2 = (#[trigger] colliders.entry_seq()[j]).0;
                                transforms@.dom().contains(e2) ==> {
                                    let reg = reg_of(rcw@[handles@[e2].slot as int]);
                                    &&& reg.entity == e2
                                    &&& reg.shape == colliders@[e2].hitbox.shape
                                    &&& reg.center == spec_center(
                                        transforms@[e2],
                                        colliders@[e2].hitbox,
                                    )
                                    &&& (!old(handles)@.dom().contains(e2) ==> reg.group
                                        == colliders@[e2].group)
                                }
                            } by {
                                let e2 = colliders.entry_seq()[j].0;
                                colliders.lemma_entry_in_view(j);
                                if transforms@.dom().contains(e2) {
                                    assert(colliders.entry_seq()[i as int].0 == e);
                                    assert(e2 != e);
                                    assert(pre_handles.dom().contains(e2));
                                    assert(handles@[e2] == pre_handles[e2]);
                                    assert(pre_rcw[pre_handles[e2].slot as int] is Some);
                                    assert(pre_handles[e2].slot != h.slot);
                                    assert(rcw@[handles@[e2].slot as int]
                                        == pre_rcw[handles@[e2].slot as int]);
                                }
                            };
                        }
                    }
                }
            }
            None => {}
        }
        i = i + 1;
    }
    proof {
        assert forall|e: Entity|
            colliders@.dom().contains(e) && transforms@.dom().contains(e) implies #[trigger]
        handles@.dom().contains(e) by {
            colliders.lemma_view_has_entry(e);
        };
        assert forall|e: Entity|
            colliders@.dom().contains(e) && transforms@.dom().contains(e) implies {
            let reg = reg_of(rcw@[(#[trigger] handles@[e]).slot as int]);
            &&& reg.entity == e
            &&& reg.shape == colliders@[e].hitbox.shape
            &&& reg.center == spec_center(transforms@[e], colliders@[e].hitbox)
            &&& (!old(handles)@.dom().contains(e) ==> reg.group == colliders@[e].group)
        } by {
            colliders.lemma_view_has_entry(e);
        };
    }
}

/// Tears down the raycast registration of every entity pending removal,
/// exactly once: afterwards the handle table no longer records the entity,
/// so a second pass would find nothing to clean.
#[verifier::loop_isolation(false)]
pub fn cleanup_raycast_registrations(
    queue: &ToBeRemoved,
    rcw: &mut RaycastWorld,
    handles: &mut EntityMap<RaycastHandle>,
)
    requires
        old(rcw).wf(),
        old(handles).wf(),
        handles_ok(old(handles)@, old(rcw)@),
    ensures
        final(rcw).wf(),
        final(handles).wf(),
        handles_ok(final(handles)@, final(rcw)@),
        forall|e: Entity| #[trigger]
            final(handles)@.dom().contains(e) == (old(handles)@.dom().contains(e)
                && !queue@.contains(e)),
        forall|e: Entity|
            #[trigger] final(handles)@.dom().contains(e) ==> final(handles)@[e] == old(handles)@[e] && final(rcw)@[old(handles)@[e].slot as int] == old(rcw)@[old(handles)@[e].slot as int],
        forall|e: Entity|
            old(handles)@.dom().contains(e) && queue@.contains(e) ==> final(rcw)@[old(handles)@[e].slot as int] is None,
        final(rcw)@.len() == old(rcw)@.len(),
        forall|s: int|
            0 <= s < old(rcw)@.len() && (forall|e: Entity|
                old(handles)@.dom().contains(e) && queue@.contains(e) ==> (
                #[trigger] old(handles)@[e]).slot != s) ==> final(rcw)@[s] == old(rcw)@[s],
{
    let n = queue.len();
    let mut k: usize = 0;
    while k < n
        invariant
            rcw.wf(),
            handles.wf(),
            handles_ok(handles@, rcw@),
            n == queue@.len(),
            k <= n,
            forall|e: Entity| #[trigger]
                handles@.dom().contains(e) == (old(handles)@.dom().contains(e)
                    && !queue@.take(k as int).contains(e)),
            forall|e: Entity|
                #[trigger] handles@.dom().contains(e) ==> handles@[e] == old(handles)@[e]
                    && rcw@[old(handles)@[e].slot as int] == old(rcw)@[old(handles)@[e].slot as int],
            forall|e: Entity|
                old(handles)@.dom().contains(e) && queue@.take(k as int).contains(e)
                    ==> rcw@[old(handles)@[e].slot as int] is None,
            rcw@.len() == old(rcw)@.len(),
            forall|s: int|
                0 <= s < old(rcw)@.len() && (forall|e: Entity|
                    old(handles)@.dom().contains(e) && queue@.take(k as int).contains(e) ==> (
                    #[trigger] old(handles)@[e]).slot != s) ==> rcw@[s] == old(rcw)@[s],
        decreases n - k,
    {
        let e = queue.at(k);
        let ghost pre_handles = handles@;
        let ghost pre_rcw = rcw@;
        proof {
            assert(forall|e2: Entity| #[trigger]
                pre_handles.dom().contains(e2) ==> pre_handles[e2] == old(handles)@[e2]
                    && pre_rcw[old(handles)@[e2].slot as int] == old(rcw)@[old(handles)@[e2].slot as int]);
            assert(handles_ok(pre_handles, pre_rcw));
            assert(forall|e2: Entity|
                old(handles)@.dom().contains(e2) && #[trigger] queue@.take(k as int).contains(e2)
                    ==> pre_rcw[old(handles)@[e2].slot as int] is None);
            assert(forall|e2: Entity|
                old(handles)@.dom().contains(e2) && !(#[trigger] pre_handles.dom().contains(e2))
                    ==> queue@.take(k as int).contains(e2));
        }
        let taken = handles.take(e);
        match taken {
            Some(h) => {
                rcw.remove_registration(h);
            }
            None => {}
        }
        proof {
            match taken {
                Option::Some(h) => {
                    assert(pre_handles.dom().contains(e));
                    assert(old(handles)@.dom().contains(e));
                    assert(h == old(handles)@[e]);
                    assert(rcw@ =~= pre_rcw.update(h.slot as int, None));
                    assert forall|e2: Entity|
                        #[trigger] handles@.dom().contains(e2) implies handles@[e2] == old(handles)@[e2] && rcw@[old(handles)@[e2].slot as int] == old(rcw)@[old(handles)@[e2].slot as int] by {
                        assert(e2 != e);
                        assert(pre_handles.dom().contains(e2));
                        assert(old(handles)@.dom().contains(e2));
                        assert(pre_handles[e2].slot != pre_handles[e].slot);
                        assert(old(handles)@[e2].slot != old(handles)@[e].slot);
                        assert(rcw@[old(handles)@[e2].slot as int] == pre_rcw[old(handles)@[e2].slot as int]);
                    };
                }
                Option::None => {
                    assert(rcw@ == pre_rcw);
                }
            }
            assert(queue@.take(k as int + 1).drop_last() =~= queue@.take(k as int));
            assert(queue@.take(k as int + 1).last() == queue@[k as int]);
            assert forall|x: Entity| #[trigger]
                queue@.take(k as int + 1).contains(x) == (queue@.take(k as int).contains(x) || x
                    == queue@[k as int]) by {
                if queue@.take(k as int + 1).contains(x) {
                    let j = choose|j: int|
                        0 <= j < k + 1 && #[trigger] queue@.take(k as int + 1)[j] == x;
                    if j < k {
                        assert(queue@.take(k as int)[j] == x);
                    }
                } else {
                    if queue@.take(k as int).contains(x) {
                        let j = choose|j: int|
                            0 <= j < k && #[trigger] queue@.take(k as int)[j] == x;
                        assert(queue@.take(k as int + 1)[j] == x);
                    }
                    if x == queue@[k as int] {
                        assert(queue@.take(k as int + 1)[k as int] == x);
                    }
                }
            };
            assert forall|e3: Entity|
                old(handles)@.dom().contains(e3) && queue@.take(k as int + 1).contains(
                e3,
            ) implies rcw@[old(handles)@[e3].slot as int] is None by {
                if e3 == queue@[k as int] {
                    if pre_handles.dom().contains(e3) {
                        assert(pre_handles[e3] == old(handles)@[e3]);
                        assert(handles_ok(pre_handles, pre_rcw));
                        assert(rcw@ =~= pre_rcw.update(pre_handles[e3].slot as int, None));
                        assert(rcw@[old(handles)@[e3].slot as int] is None);
                    } else {
                        assert(queue@.take(k as int).contains(e3));
                        assert(pre_rcw[old(handles)@[e3].slot as int] is None);
                        match taken {
                            Option::Some(h) => {
                                assert(rcw@ =~= pre_rcw.update(h.slot as int, None));
                            }
                            Option::None => {
                                assert(rcw@ == pre_rcw);
                            }
                        }
                        assert(rcw@[old(handles)@[e3].slot as int] is None);
                    }
                } else {
                    assert(queue@.take(k as int).contains(e3));
                    let slot = old(handles)@[e3].slot as int;
                    assert(pre_rcw[slot] is None);
                    assert(old(handles)@.dom().contains(e3));
                    assert(slot < old(rcw)@.len());
                    assert(pre_rcw.len() == old(rcw)@.len());
                    assert(0 <= slot < pre_rcw.len());
                    match taken {
                        Option::Some(h) => {
                            assert(rcw@ =~= pre_rcw.update(h.slot as int, None));
                            assert(0 <= h.slot < pre_rcw.len());
                            assert(rcw@.len() == pre_rcw.len());
                            assert(rcw@[slot] == pre_rcw.update(h.slot as int, None)[slot]);
                            assert(pre_rcw.update(h.slot as int, None)[slot] is None);
                        }
                        Option::None => {
                            assert(rcw@ == pre_rcw);
                        }
                    }
                    assert(rcw@[slot] is None);
                }
            };
            assert forall|s: int|
                0 <= s < old(rcw)@.len() && (forall|e2: Entity|
                    old(handles)@.dom().contains(e2) && queue@.take(k as int + 1).contains(e2)
                        ==> (#[trigger] old(handles)@[e2]).slot != s) implies rcw@[s] == old(rcw)@[s] by {
                assert(forall|e2: Entity|
                    old(handles)@.dom().contains(e2) && #[trigger] queue@.take(
                        k as int,
                    ).contains(e2) ==> old(handles)@[e2].slot != s);
                assert(pre_rcw[s] == old(rcw)@[s]);
                match taken {
                    Option::Some(h) => {
                        assert(pre_handles.dom().contains(e));
                        assert(old(handles)@.dom().contains(e));
                        assert(queue@.take(k as int + 1).contains(e));
                        assert(old(handles)@[e].slot != s);
                        assert(rcw@ =~= pre_rcw.update(h.slot as int, None));
                        assert(rcw@[s] == pre_rcw[s]);
                    }
                    Option::None => {
                        assert(rcw@ == pre_rcw);
                    }
                }
            };
        }
        k = k + 1;
    }
    proof {
        assert(queue@.take(n as int) =~= queue@);
    }
}

/// Keeps every drawn model in step with its entity: a model without an
/// instance gets one at the entity's transform, one with an instance has
/// its pose updated.
pub fn sync_models(
    transforms: &EntityMap<Transform>,
    models: &mut EntityMap<Model>,
    instances: &mut RenderInstances,
)
    requires
        transforms.wf(),
        old(models).wf(),
        old(instances).wf(),
        models_ok(old(models)@, old(instances)@),
    ensures
        final(models).wf(),
        final(instances).wf(),
        models_ok(final(models)@, final(instances)@),
        final(models)@.dom() =~= old(models)@.dom(),
        forall|s: int|
            0 <= s < old(instances)@.len() && (#[trigger] old(instances)@[s]) is Some ==> s
                < final(instances)@.len() && final(instances)@[s] is Some,
        forall|e: Entity| #[trigger]
            final(models)@.dom().contains(e) ==> final(models)@[e].mesh_id == old(models)@[e].mesh_id,
        forall|e: Entity|
            #[trigger] final(models)@.dom().contains(e) && transforms@.dom().contains(e) ==> {
                let m = final(models)@[e];
                &&& m.model_id is Some
                &&& final(instances)@[m.model_id->Some_0.slot as int] == Some(
                    RenderInstance { mesh: m.mesh_id, pose: transforms@[e] },
                )
            },
        forall|e: Entity|
            #[trigger] final(models)@.dom().contains(e) && !transforms@.dom().contains(e)
                ==> final(models)@[e] == old(models)@[e],
{
    let n = models.len();
    let mut i: usize = 0;
    while i < n
        invariant
            transforms.wf(),
            models.wf(),
            instances.wf(),
            models_ok(models@, instances@),
            forall|s: int|
                0 <= s < old(instances)@.len() && (#[trigger] old(instances)@[s]) is Some ==> s
                    < instances@.len() && instances@[s] is Some,
            n == models.entry_seq().len(),
            i <= n,
            models.entry_seq().len() == old(models).entry_seq().len(),
            forall|j: int|
                0 <= j < n ==> (#[trigger] models.entry_seq()[j]).0 == old(models).entry_seq()[j].0,
            models@.dom() =~= old(models)@.dom(),
            forall|e: Entity| #[trigger]
                models@.dom().contains(e) ==> models@[e].mesh_id == old(models)@[e].mesh_id,
            forall|j: int|
                0 <= j < i ==> {
                    let e = (#[trigger] models.entry_seq()[j]).0;
                    transforms@.dom().contains(e) ==> {
                        let m = models@[e];
                        &&& m.model_id is Some
                        &&& instances@[m.model_id->Some_0.slot as int] == Some(
                            RenderInstance { mesh: m.mesh_id, pose: transforms@[e] },
                        )
                    }
                },
            forall|j: int|
                i <= j < n ==> models@[(#[trigger] models.entry_seq()[j]).0] == old(models)@[models.entry_seq()[j].0],
            forall|e: Entity|
                #[trigger] models@.dom().contains(e) && !transforms@.dom().contains(e)
                    ==> models@[e] == old(models)@[e],
        decreases n - i,
    {
        let entry = models.at(i);
        let e = entry.0;
        let model = Model { mesh_id: entry.1.mesh_id, model_id: entry.1.model_id };
        proof {
            models.lemma_entry_keys_distinct();
        }
        match transforms.get(e) {
            Some(t) => {
                let ghost pre_models = models@;
                let ghost pre_instances = instances@;
                proof {
                    assert(models@[e] == model);
                }
                match model.model_id {
                    Some(m) => {
                        instances.update_model(model.mesh_id, m, *t);
                        proof {
                            assert forall|j: int|
                                0 <= j < i implies {
                                let e2 = (#[trigger] models.entry_seq()[j]).0;
                                transforms@.dom().contains(e2) ==> {
                                    let m2 = models@[e2];
                                    &&& m2.model_id is Some
                                    &&& instances@[m2.model_id->Some_0.slot as int] == Some(
                                        RenderInstance { mesh: m2.mesh_id, pose: transforms@[e2] },
                                    )
                                }
                            } by {
                                let e2 = models.entry_seq()[j].0;
                                models.lemma_entry_in_view(j);
                                if transforms@.dom().contains(e2) {
                                    assert(e2 != e);
                                    let m2 = models@[e2];
                                    assert(m2.model_id is Some);
                                    assert(m2.model_id != model.model_id);
                                    assert(m2.model_id->Some_0.slot != m.slot);
                                    assert(instances@[m2.model_id->Some_0.slot as int]
                                        == pre_instances[m2.model_id->Some_0.slot as int]);
                                }
                            };
                        }
                    }
                    None => {
                        let m = instances.new_model(model.mesh_id, *t);
                        models.set_at(i, Model { mesh_id: model.mesh_id, model_id: Some(m) });
                        proof {
                            assert forall|e1: Entity, e2: Entity|
                                models@.dom().contains(e1) && models@.dom().contains(e2) && e1
                                    != e2 && models@[e1].model_id is Some
                                    && models@[e2].model_id is Some implies (
                            #[trigger] models@[e1]).model_id != (
                            #[trigger] models@[e2]).model_id by {
                                if e1 == e {
                                    assert(models@[e2] == pre_models[e2]);
                                    assert(pre_instances[models@[e2].model_id->Some_0.slot as int] is Some);
                                } else if e2 == e {
                                    assert(models@[e1] == pre_models[e1]);
                                    assert(pre_instances[models@[e1].model_id->Some_0.slot as int] is Some);
                                }
                            };
                            assert forall|j: int|
                                0 <= j < i implies {
                                let e2 = (#[trigger] models.entry_seq()[j]).0;
                                transforms@.dom().contains(e2) ==> {
                                    let m2 = models@[e2];
                                    &&& m2.model_id is Some
                                    &&& instances@[m2.model_id->Some_0.slot as int] == Some(
                                        RenderInstance { mesh: m2.mesh_id, pose: transforms@[e2] },
                                    )
                                }
                            } by {
                                let e2 = models.entry_seq()[j].0;
                                models.lemma_entry_in_view(j);
                                if transforms@.dom().contains(e2) {
                                    assert(e2 != e);
                                    assert(models@[e2] == pre_models[e2]);
                                    let m2 = models@[e2];
                                    assert(m2.model_id is Some);
                                    assert(pre_instances[m2.model_id->Some_0.slot as int] is Some);
                                    assert(m2.model_id->Some_0.slot != m.slot);
                                    assert(instances@[m2.model_id->Some_0.slot as int]
                                        == pre_instances[m2.model_id->Some_0.slot as int]);
                                }
                            };
                        }
                    }
                }
            }
            None => {}
        }
        i = i + 1;
    }
    proof {
        assert forall|e: Entity|
            #[trigger] models@.dom().contains(e) && transforms@.dom().contains(e) implies {
            let m = models@[e];
            &&& m.model_id is Some
            &&& instances@[m.model_id->Some_0.slot as int] == Some(
                RenderInstance { mesh: m.mesh_id, pose: transforms@[e] },
            )
        } by {
            models.lemma_view_has_entry(e);
        };
    }
}

/// Removes the drawn instance of every entity pending removal, exactly
/// once: the model component's instance id is cleared, so nothing is
/// removed twice.
pub fn cleanup_models(
    queue: &ToBeRemoved,
    models: &mut EntityMap<Model>,
    instances: &mut RenderInstances,
)
    requires
        old(models).wf(),
        old(instances).wf(),
        models_ok(old(models)@, old(instances)@),
    ensures
        final(models).wf(),
        final(instances).wf(),
        models_ok(final(models)@, final(instances)@),
        final(models)@.dom() =~= old(models)@.dom(),
        forall|e: Entity| #[trigger]
            final(models)@.dom().contains(e) ==> final(models)@[e].mesh_id == old(models)@[e].mesh_id && (queue@.contains(e) ==> final(models)@[e].model_id is None) && (
            !queue@.contains(e) ==> final(models)@[e] == old(models)@[e]),
{
    let n = queue.len();
    let mut k: usize = 0;
    while k < n
        invariant
            models.wf(),
            instances.wf(),
            models_ok(models@, instances@),
            n == queue@.len(),
            k <= n,
            models@.dom() =~= old(models)@.dom(),
            forall|e: Entity| #[trigger]
                models@.dom().contains(e) ==> models@[e].mesh_id == old(models)@[e].mesh_id && (
                queue@.take(k as int).contains(e) ==> models@[e].model_id is None) && (
                !queue@.take(k as int).contains(e) ==> models@[e] == old(models)@[e]),
        decreases n - k,
    {
        let e = queue.at(k);
        match models.get(e) {
            Some(model) => {
                let mesh_id = model.mesh_id;
                match model.model_id {
                    Some(m) => {
                        instances.remove_model(m);
                        models.insert(e, Model { mesh_id, model_id: None });
                    }
                    None => {}
                }
            }
            None => {}
        }
        proof {
            assert(queue@.take(k as int + 1).drop_last() =~= queue@.take(k as int));
            assert(queue@.take(k as int + 1).last() == queue@[k as int]);
            assert forall|x: Entity| #[trigger]
                queue@.take(k as int + 1).contains(x) == (queue@.take(k as int).contains(x) || x
                    == queue@[k as int]) by {
                if queue@.take(k as int + 1).contains(x) {
                    let j = choose|j: int|
                        0 <= j < k + 1 && #[trigger] queue@.take(k as int + 1)[j] == x;
                    if j < k {
                        assert(queue@.take(k as int)[j] == x);
                    }
                } else {
                    if queue@.take(k as int).contains(x) {
                        let j = choose|j: int|
                            0 <= j < k && #[trigger] queue@.take(k as int)[j] == x;
                        assert(queue@.take(k as int + 1)[j] == x);
                    }
                    if x == queue@[k as int] {
                        assert(queue@.take(k as int + 1)[k as int] == x);
                    }
                }
            };
        }
        k = k + 1;
    }
    proof {
        assert(queue@.take(n as int) =~= queue@);
    }
}

} // verus!
