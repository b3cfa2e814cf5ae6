//! The persistent raycast world: a long-lived registry of placed collider
//! shapes, updated in place as entities move, and queried by pointer rays.
//!
//! It is a separate structure from the per-tick contact world: targeting
//! needs a stable registry the UI can query between ticks, with the
//! internal-only raycast group keeping registrations from interfering with
//! each other.

use crate::entity::Entity;
use crate::geom::{
    key_eq, ray_shape_hit, ray_shape_key, ColliderShape, RAY_LIMIT, WORLD_LIMIT,
};
use crate::math::{vec_within, Vec3};
use crate::slotmap::SlotMap;
use vstd::pervasive::unreached;
use vstd::prelude::*;

verus! {

/// Names one registration in the raycast world.
#[derive(Debug, Clone, Copy, PartialEq, Eq, Structural)]
pub struct RaycastHandle {
    pub slot: usize,
}

/// One registration: an entity's placed shape and collision group.
#[derive(Debug, Clone, Copy, PartialEq, Eq, Structural)]
pub struct Reg {
    pub entity: Entity,
    pub group: u32,
    pub shape: ColliderShape,
    pub center: Vec3,
}

impl Reg {
    /// Shape and placement are bounded.
    pub open spec fn wf(self) -> bool {
        self.shape.wf() && vec_within(self.center, WORLD_LIMIT)
    }
}

/// The registration under a slot, when the slot is occupied.
pub open spec fn reg_of(o: Option<Reg>) -> Reg {
    match o {
        Option::Some(reg) => reg,
        Option::None => arbitrary(),
    }
}

/// The entry key of registration slot `i` against the segment, or `None`
/// when the slot is vacant, filtered out by the whitelist, or missed. An
/// empty whitelist admits every group.
pub open spec fn candidate_key(
    regs: Seq<Option<Reg>>,
    wl: Seq<u32>,
    n: Vec3,
    f: Vec3,
    i: int,
) -> Option<int> {
    match regs[i] {
        Option::None => Option::None,
        Option::Some(reg) => {
            if wl.len() == 0 || wl.contains(reg.group) {
                ray_shape_key(reg.shape, reg.center, n, f)
            } else {
                Option::None
            }
        }
    }
}

/// The best (slot, key) pair among slots below `upto`: the smallest key,
/// earliest slot on ties.
pub open spec fn spec_best_hit(
    regs: Seq<Option<Reg>>,
    wl: Seq<u32>,
    n: Vec3,
    f: Vec3,
    upto: int,
) -> Option<(int, int)>
    decreases upto,
{
    if upto <= 0 {
        Option::None
    } else {
        let prev = spec_best_hit(regs, wl, n, f, upto - 1);
        let cur = candidate_key(regs, wl, n, f, upto - 1);
        match (prev, cur) {
            (Option::None, Option::None) => Option::None,
            (Option::None, Option::Some(k)) => Option::Some((upto - 1, k)),
            (Option::Some(pick), Option::None) => Option::Some(pick),
            (Option::Some(pick), Option::Some(k)) => {
                if k < pick.1 {
                    Option::Some((upto - 1, k))
                } else {
                    Option::Some(pick)
                }
            }
        }
    }
}

/// The key inside an optional key.
pub open spec fn key_val(o: Option<int>) -> int {
    match o {
        Option::Some(k) => k,
        Option::None => arbitrary(),
    }
}

/// What the best-hit fold guarantees: a `None` outcome means no slot below
/// `upto` is a candidate; a pick names a candidate slot whose key no other
/// candidate beats, with the earliest slot winning ties.
pub proof fn lemma_best_hit_props(regs: Seq<Option<Reg>>, wl: Seq<u32>, n: Vec3, f: Vec3, upto: int)
    ensures
        match spec_best_hit(regs, wl, n, f, upto) {
            Option::None => forall|j: int|
                0 <= j < upto ==> candidate_key(regs, wl, n, f, j) is None,
            Option::Some(pick) => {
                &&& 0 <= pick.0 < upto
                &&& candidate_key(regs, wl, n, f, pick.0) == Option::Some(pick.1)
                &&& forall|j: int|
                    0 <= j < upto && candidate_key(regs, wl, n, f, j) is Some ==> pick.1
                        <= key_val(#[trigger] candidate_key(regs, wl, n, f, j))
                &&& forall|j: int|
                    0 <= j < upto && candidate_key(regs, wl, n, f, j) == Option::Some(pick.1)
                        ==> pick.0 <= j
            }
        },
    decreases upto,
{
    if upto > 0 {
        lemma_best_hit_props(regs, wl, n, f, upto - 1);
    }
}

/// The first entity met by the segment `n -> f` among registrations whose
/// group passes the whitelist; `None` when nothing is hit. A pure function
/// of the registrations and the query, so an unchanged world answers two
/// identical queries identically.
pub open spec fn spec_raycast(regs: Seq<Option<Reg>>, wl: Seq<u32>, n: Vec3, f: Vec3) -> Option<
    Entity,
> {
    match spec_best_hit(regs, wl, n, f, regs.len() as int) {
        Option::None => Option::None,
        Option::Some(pick) => Option::Some(reg_of(regs[pick.0]).entity),
    }
}

/// Raycast determinism: the outcome is a pure function of the
/// registrations, the whitelist and the segment, so two consecutive casts
/// over an unchanged world agree.
pub proof fn lemma_raycast_deterministic(
    regs1: Seq<Option<Reg>>,
    regs2: Seq<Option<Reg>>,
    wl1: Seq<u32>,
    wl2: Seq<u32>,
    n: Vec3,
    f: Vec3,
)
    requires
        regs1 == regs2,
        wl1 == wl2,
    ensures
        spec_raycast(regs1, wl1, n, f) == spec_raycast(regs2, wl2, n, f),
{
}

/// A segment that hits exactly one admissible registration returns that
/// registration's entity: slot `i` holds a registration whose group passes
/// the whitelist and whose shape the segment meets, while every other slot
/// yields no candidate.
pub proof fn lemma_raycast_sole_candidate(
    regs: Seq<Option<Reg>>,
    wl: Seq<u32>,
    n: Vec3,
    f: Vec3,
    i: int,
)
    requires
        0 <= i < regs.len(),
        regs[i] is Some,
        candidate_key(regs, wl, n, f, i) is Some,
        forall|j: int|
            0 <= j < regs.len() && j != i ==> candidate_key(regs, wl, n, f, j) is None,
    ensures
        spec_raycast(regs, wl, n, f) == Some(reg_of(regs[i]).entity),
{
    lemma_best_hit_props(regs, wl, n, f, regs.len() as int);
    match spec_best_hit(regs, wl, n, f, regs.len() as int) {
        Option::None => {
            assert(candidate_key(regs, wl, n, f, i) is None);
        }
        Option::Some(pick) => {
            assert(candidate_key(regs, wl, n, f, pick.0) is Some);
            assert(pick.0 == i);
        }
    }
}

/// The persistent raycast registry.
pub struct RaycastWorld {
    map: SlotMap<Reg>,
}

impl View for RaycastWorld {
    type V = Seq<Option<Reg>>;

    closed spec fn view(&self) -> Seq<Option<Reg>> {
        self.map@
    }
}

impl RaycastWorld {
    /// Slots are bookkept consistently and every registration is bounded.
    pub closed spec fn wf(self) -> bool {
        &&& self.map.wf()
        &&& forall|i: int|
            0 <= i < self.map@.len() && self.map@[i] is Some ==> reg_of(#[trigger] self.map@[i]).wf()
    }

    /// Whether `h` names an occupied registration slot.
    pub open spec fn spec_valid(self, h: RaycastHandle) -> bool {
        h.slot < self@.len() && self@[h.slot as int] is Some
    }

    /// An empty raycast world.
    pub fn new() -> (r: RaycastWorld)
        ensures
            r.wf(),
            r@ =~= Seq::<Option<Reg>>::empty(),
    {
        RaycastWorld { map: SlotMap::new() }
    }

    /// Registers an entity's placed shape; later ticks update it in place
    /// through the returned handle.
    pub fn register(&mut self, entity: Entity, group: u32, shape: ColliderShape, center: Vec3) -> (h:
        RaycastHandle)
        requires
            old(self).wf(),
            shape.wf(),
            vec_within(center, WORLD_LIMIT),
        ensures
            final(self).wf(),
            final(self).spec_valid(h),
            final(self)@[h.slot as int] == Some(Reg { entity, group, shape, center }),
            h.slot < old(self)@.len() ==> old(self)@[h.slot as int] is None && final(self)@ =~= old(
                self,
            )@.update(h.slot as int, Some(Reg { entity, group, shape, center })),
            h.slot >= old(self)@.len() ==> h.slot == old(self)@.len() && final(self)@ =~= old(
                self,
            )@.push(Some(Reg { entity, group, shape, center })),
    {
        let slot = self.map.insert(Reg { entity, group, shape, center });
        RaycastHandle { slot }
    }

    /// Moves or reshapes the registration behind `h`, keeping its entity
    /// and group.
    pub fn update_registration(&mut self, h: RaycastHandle, shape: ColliderShape, center: Vec3)
        requires
            old(self).wf(),
            old(self).spec_valid(h),
            shape.wf(),
            vec_within(center, WORLD_LIMIT),
        ensures
            final(self).wf(),
            final(self)@ =~= old(self)@.update(
                h.slot as int,
                Some(
                    Reg {
                        entity: reg_of(old(self)@[h.slot as int]).entity,
                        group: reg_of(old(self)@[h.slot as int]).group,
                        shape,
                        center,
                    },
                ),
            ),
    {
        let (entity, group) = match self.map.get(h.slot) {
            Some(reg) => (reg.entity, reg.group),
            None => unreached(),
        };
        self.map.set(h.slot, Reg { entity, group, shape, center });
    }

    /// Drops the registration behind `h`; its slot may be reused.
    pub fn remove_registration(&mut self, h: RaycastHandle)
        requires
            old(self).wf(),
            old(self).spec_valid(h),
        ensures
            final(self).wf(),
            final(self)@ =~= old(self)@.update(h.slot as int, None),
    {
        self.map.vacate(h.slot);
    }

    /// The registration behind `h`, if the slot is occupied.
    pub fn get(&self, h: RaycastHandle) -> (r: Option<&Reg>)
        ensures
            match r {
                Some(reg) => self.spec_valid(h) && self@[h.slot as int] == Some(*reg),
                None => !self.spec_valid(h),
            },
    {
        self.map.get(h.slot)
    }

    /// Casts the segment `near -> far` and returns the first entity hit
    /// among groups passing the whitelist; an empty whitelist admits every
    /// group.
    pub fn raycast(&self, whitelist: &Vec<u32>, near: Vec3, far: Vec3) -> (r: Option<Entity>)
        requires
            self.wf(),
            vec_within(near, RAY_LIMIT),
            vec_within(far, RAY_LIMIT),
        ensures
            r == spec_raycast(self@, whitelist@, near, far),
    {
        let n = self.map.slot_count();
        let mut best: Option<(usize, i64)> = None;
        let mut i: usize = 0;
        while i < n
            invariant
                self.wf(),
                vec_within(near, RAY_LIMIT),
                vec_within(far, RAY_LIMIT),
                n == self@.len(),
                i <= n,
                match best {
                    Option::Some(pick) => spec_best_hit(self@, whitelist@, near, far, i as int)
                        == Option::Some((pick.0 as int, pick.1 as int)) && pick.0 < n,
                    Option::None => spec_best_hit(self@, whitelist@, near, far, i as int) is None,
                },
            decreases n - i,
        {
            let cur: Option<i64> = match self.map.get(i) {
                Some(reg) => {
                    if whitelist.len() == 0 || crate::collider::contains_group(
                        whitelist,
                        reg.group,
                    ) {
                        ray_shape_hit(&reg.shape, reg.center, near, far)
                    } else {
                        None
                    }
                }
                None => None,
            };
            proof {
                assert(key_eq(cur, candidate_key(self@, whitelist@, near, far, i as int)));
            }
            best = match (best, cur) {
                (None, None) => None,
                (None, Some(k)) => Some((i, k)),
                (Some(pick), None) => Some(pick),
                (Some(pick), Some(k)) => {
                    if k < pick.1 {
                        Some((i, k))
                    } else {
                        Some(pick)
                    }
                }
            };
            i = i + 1;
        }
        proof {
            lemma_best_hit_props(self@, whitelist@, near, far, n as int);
        }
        match best {
            Some(pick) => {
                match self.map.get(pick.0) {
                    Some(reg) => Some(reg.entity),
                    None => unreached(),
                }
            }
            None => None,
        }
    }
}

} // verus!
