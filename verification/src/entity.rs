//! Generational entity handles and the store that issues them.
//!
//! A handle pairs a slot index with a generation counter; destroying an
//! entity bumps its slot's generation, so stale handles are never reported
//! live again and a slot can be reused without confusing old references.

use vstd::prelude::*;

verus! {

/// An opaque handle identifying one simulation object.
#[derive(Debug, Clone, Copy, PartialEq, Eq, Hash, Structural)]
pub struct Entity {
    idx: usize,
    gen: u64,
}

#[derive(Debug, Clone, Copy)]
struct Slot {
    gen: u64,
    alive: bool,
}

/// The arena-like registry of live entities.
pub struct EntityStore {
    slots: Vec<Slot>,
    free: Vec<usize>,
}

impl EntityStore {
    /// Internal consistency of the free list; every store the crate hands
    /// out satisfies it and every operation preserves it.
    pub closed spec fn wf(self) -> bool {
        &&& forall|k: int|
            0 <= k < self.free@.len() ==> (#[trigger] self.free@[k]) < self.slots@.len()
                && !self.slots@[self.free@[k] as int].alive
        &&& forall|k: int, l: int|
            0 <= k < l < self.free@.len() ==> self.free@[k] != self.free@[l]
    }

    /// Whether `e` is a currently live entity of this store.
    pub closed spec fn spec_is_live(self, e: Entity) -> bool {
        &&& e.idx < self.slots@.len()
        &&& self.slots@[e.idx as int].alive
        &&& self.slots@[e.idx as int].gen == e.gen
    }

    /// An empty store with no live entities.
    pub fn new() -> (r: EntityStore)
        ensures
            r.wf(),
            forall|e: Entity| !r.spec_is_live(e),
    {
        EntityStore { slots: Vec::new(), free: Vec::new() }
    }

    /// Whether `e` is live; stale or destroyed handles report `false`.
    pub fn is_alive(&self, e: Entity) -> (r: bool)
        ensures
            r == self.spec_is_live(e),
    {
        e.idx < self.slots.len() && self.slots[e.idx].alive && self.slots[e.idx].gen == e.gen
    }

    /// Creates a new live entity, distinct from every live one.
    pub fn create(&mut self) -> (r: Entity)
        requires
            old(self).wf(),
        ensures
            final(self).wf(),
            final(self).spec_is_live(r),
            !old(self).spec_is_live(r),
            forall|e: Entity|
                #[trigger] final(self).spec_is_live(e) == (old(self).spec_is_live(e) || e == r),
    {
        if let Some(idx) = self.free.pop() {
            let gen = self.slots[idx].gen;
            self.slots.set(idx, Slot { gen, alive: true });
            Entity { idx, gen }
        } else {
            let idx = self.slots.len();
            self.slots.push(Slot { gen: 0, alive: true });
            Entity { idx, gen: 0 }
        }
    }

    /// Destroys `e`; a stale or already destroyed handle is a no-op.
    pub fn destroy(&mut self, e: Entity)
        requires
            old(self).wf(),
        ensures
            final(self).wf(),
            forall|x: Entity|
                #[trigger] final(self).spec_is_live(x) == (old(self).spec_is_live(x) && x != e),
    {
        if e.idx < self.slots.len() && self.slots[e.idx].alive && self.slots[e.idx].gen == e.gen {
            let gen = self.slots[e.idx].gen;
            if gen < u64::MAX {
                self.slots.set(e.idx, Slot { gen: gen + 1, alive: false });
                assert(forall|k: int|
                    0 <= k < self.free@.len() ==> (#[trigger] self.free@[k]) != e.idx);
                self.free.push(e.idx);
            } else {
                // The slot's generations are spent: retire it for good.
                self.slots.set(e.idx, Slot { gen, alive: false });
            }
        }
    }
}

} // verus!
