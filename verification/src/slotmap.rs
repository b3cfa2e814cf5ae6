//! A slot map: stable indices into a vector of optional entries, with a
//! free list for reuse. Both long-lived side structures of the simulation
//! (raycast registrations and render instances) are built on it.

use vstd::prelude::*;

verus! {

/// A vector of optional entries with stable slot indices.
pub struct SlotMap<T> {
    slots: Vec<Option<T>>,
    free: Vec<usize>,
}

impl<T> View for SlotMap<T> {
    type V = Seq<Option<T>>;

    closed spec fn view(&self) -> Seq<Option<T>> {
        self.slots@
    }
}

impl<T> SlotMap<T> {
    /// Free slots are vacant, in range and listed once.
    pub closed spec fn wf(self) -> bool {
        &&& forall|k: int|
            0 <= k < self.free@.len() ==> (#[trigger] self.free@[k]) < self.slots@.len()
                && self.slots@[self.free@[k] as int] is None
        &&& forall|k: int, l: int|
            0 <= k < l < self.free@.len() ==> self.free@[k] != self.free@[l]
    }

    /// An empty slot map.
    pub fn new() -> (r: SlotMap<T>)
        ensures
            r.wf(),
            r@ =~= Seq::<Option<T>>::empty(),
    {
        SlotMap { slots: Vec::new(), free: Vec::new() }
    }

    /// The number of slots, vacant ones included.
    pub fn slot_count(&self) -> (r: usize)
        ensures
            r == self@.len(),
    {
        self.slots.len()
    }

    /// The entry in slot `h`; out-of-range slots read as vacant.
    pub fn get(&self, h: usize) -> (r: Option<&T>)
        ensures
            match r {
                Some(v) => h < self@.len() && self@[h as int] == Some(*v),
                None => h >= self@.len() || self@[h as int] is None,
            },
    {
        if h < self.slots.len() {
            match &self.slots[h] {
                Some(v) => Some(v),
                None => None,
            }
        } else {
            None
        }
    }

    /// Stores `v` in a vacant slot and returns its index.
    pub fn insert(&mut self, v: T) -> (h: usize)
        requires
            old(self).wf(),
        ensures
            final(self).wf(),
            h < final(self)@.len(),
            final(self)@[h as int] == Some(v),
            h < old(self)@.len() ==> old(self)@[h as int] is None && final(self)@ =~= old(
                self,
            )@.update(h as int, Some(v)),
            h >= old(self)@.len() ==> h == old(self)@.len() && final(self)@ =~= old(self)@.push(
                Some(v),
            ),
    {
        if let Some(h) = self.free.pop() {
            self.slots.set(h, Some(v));
            h
        } else {
            let h = self.slots.len();
            self.slots.push(Some(v));
            h
        }
    }

    /// Replaces the entry in the occupied slot `h`.
    pub fn set(&mut self, h: usize, v: T)
        requires
            old(self).wf(),
            h < old(self)@.len(),
            old(self)@[h as int] is Some,
        ensures
            final(self).wf(),
            final(self)@ =~= old(self)@.update(h as int, Some(v)),
    {
        self.slots.set(h, Some(v));
        proof {
            assert(forall|k: int|
                0 <= k < self.free@.len() ==> (#[trigger] self.free@[k]) != h);
        }
    }

    /// Vacates the occupied slot `h` for reuse.
    pub fn vacate(&mut self, h: usize)
        requires
            old(self).wf(),
            h < old(self)@.len(),
            old(self)@[h as int] is Some,
        ensures
            final(self).wf(),
            final(self)@ =~= old(self)@.update(h as int, None),
    {
        self.slots.set(h, None);
        proof {
            assert(forall|k: int|
                0 <= k < self.free@.len() ==> (#[trigger] self.free@[k]) != h);
        }
        self.free.push(h);
    }
}

} // verus!
