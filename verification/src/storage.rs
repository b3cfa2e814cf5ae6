//! Per-type component tables keyed by entity.
//!
//! A table is a small association vector with unique keys; its mathematical
//! view is the `Map` from entity to component. Systems iterate it by index,
//! so the enumeration order is also exposed as a sequence of entries.

use crate::entity::Entity;
use vstd::prelude::*;

verus! {

/// A component table: at most one component of type `T` per entity.
pub struct EntityMap<T> {
    entries: Vec<(Entity, T)>,
    gmap: Ghost<Map<Entity, T>>,
}

impl<T> View for EntityMap<T> {
    type V = Map<Entity, T>;

    closed spec fn view(&self) -> Map<Entity, T> {
        self.gmap@
    }
}

impl<T> EntityMap<T> {
    /// The entries in iteration order.
    pub closed spec fn entry_seq(self) -> Seq<(Entity, T)> {
        self.entries@
    }

    /// Internal consistency: keys are unique and the entry list carries
    /// exactly the view's mappings.
    pub closed spec fn wf(self) -> bool {
        &&& forall|i: int, j: int|
            0 <= i < j < self.entries@.len()
                ==> (#[trigger] self.entries@[i]).0 != (#[trigger] self.entries@[j]).0
        &&& forall|i: int|
            0 <= i < self.entries@.len() ==> self.gmap@.dom().contains(
                (#[trigger] self.entries@[i]).0,
            ) && self.gmap@[self.entries@[i].0] == self.entries@[i].1
        &&& forall|e: Entity| #[trigger]
            self.gmap@.dom().contains(e) ==> exists|i: int|
                0 <= i < self.entries@.len() && (#[trigger] self.entries@[i]).0 == e
    }

    /// In a consistent table, an entry's key is in the view's domain; handy
    /// for callers that reason about iteration.
    pub proof fn lemma_entry_in_view(&self, i: int)
        requires
            self.wf(),
            0 <= i < self.entry_seq().len(),
        ensures
            self@.dom().contains(self.entry_seq()[i].0),
            self@[self.entry_seq()[i].0] == self.entry_seq()[i].1,
    {
    }

    /// In a consistent table, no entity owns two entries.
    pub proof fn lemma_entry_keys_distinct(&self)
        requires
            self.wf(),
        ensures
            forall|i: int, j: int|
                0 <= i < j < self.entry_seq().len() ==> (#[trigger] self.entry_seq()[i]).0 != (
                #[trigger] self.entry_seq()[j]).0,
    {
    }

    /// In a consistent table, every mapped entity owns an entry.
    pub proof fn lemma_view_has_entry(&self, e: Entity)
        requires
            self.wf(),
            self@.dom().contains(e),
        ensures
            exists|i: int|
                0 <= i < self.entry_seq().len() && (#[trigger] self.entry_seq()[i]).0 == e,
    {
        let k = choose|i: int|
            0 <= i < self.entries@.len() && (#[trigger] self.entries@[i]).0 == e;
        assert(self.entry_seq()[k].0 == e);
    }

    /// An empty table.
    pub fn new() -> (r: EntityMap<T>)
        ensures
            r.wf(),
            r@ =~= Map::<Entity, T>::empty(),
            r.entry_seq() =~= Seq::<(Entity, T)>::empty(),
    {
        EntityMap { entries: Vec::new(), gmap: Ghost(Map::empty()) }
    }

    /// How many entities have a component in this table.
    pub fn len(&self) -> (r: usize)
        ensures
            r == self.entry_seq().len(),
    {
        self.entries.len()
    }

    /// The entry at iteration position `i`.
    pub fn at(&self, i: usize) -> (r: &(Entity, T))
        requires
            self.wf(),
            i < self.entry_seq().len(),
        ensures
            *r == self.entry_seq()[i as int],
            self@.dom().contains(r.0),
            self@[r.0] == r.1,
    {
        &self.entries[i]
    }

    /// The iteration position of `e`'s entry, if any.
    fn index_of(&self, e: Entity) -> (r: Option<usize>)
        requires
            self.wf(),
        ensures
            match r {
                Some(i) => i < self.entry_seq().len() && self.entry_seq()[i as int].0 == e
                    && self@.dom().contains(e) && self@[e] == self.entry_seq()[i as int].1,
                None => !self@.dom().contains(e),
            },
    {
        let n = self.entries.len();
        let mut i: usize = 0;
        while i < n
            invariant
                self.wf(),
                n == self.entries@.len(),
                i <= n,
                forall|j: int| 0 <= j < i ==> (#[trigger] self.entries@[j]).0 != e,
            decreases n - i,
        {
            if self.entries[i].0 == e {
                return Some(i);
            }
            i = i + 1;
        }
        None
    }

    /// Whether `e` has a component in this table.
    pub fn contains(&self, e: Entity) -> (r: bool)
        requires
            self.wf(),
        ensures
            r == self@.dom().contains(e),
    {
        self.index_of(e).is_some()
    }

    /// The component of `e`, if any.
    pub fn get(&self, e: Entity) -> (r: Option<&T>)
        requires
            self.wf(),
        ensures
            match r {
                Some(v) => self@.dom().contains(e) && *v == self@[e],
                None => !self@.dom().contains(e),
            },
    {
        match self.index_of(e) {
            Some(i) => Some(&self.entries[i].1),
            None => None,
        }
    }

    /// Replaces the component at iteration position `i`, keeping its key.
    pub fn set_at(&mut self, i: usize, v: T)
        requires
            old(self).wf(),
            i < old(self).entry_seq().len(),
        ensures
            final(self).wf(),
            final(self).entry_seq() =~= old(self).entry_seq().update(
                i as int,
                (old(self).entry_seq()[i as int].0, v),
            ),
            final(self)@ =~= old(self)@.insert(old(self).entry_seq()[i as int].0, v),
    {
        let e = self.entries[i].0;
        self.entries.set(i, (e, v));
        proof {
            self.gmap@ = self.gmap@.insert(e, v);
            lemma_wf_after_write(*old(self), *self, i as int, e, v);
        }
    }

    /// Inserts or replaces the component of `e`.
    pub fn insert(&mut self, e: Entity, v: T)
        requires
            old(self).wf(),
        ensures
            final(self).wf(),
            final(self)@ =~= old(self)@.insert(e, v),
            final(self).entry_seq().len() <= old(self).entry_seq().len() + 1,
    {
        match self.index_of(e) {
            Some(i) => {
                self.entries.set(i, (e, v));
                proof {
                    self.gmap@ = self.gmap@.insert(e, v);
                    lemma_wf_after_write(*old(self), *self, i as int, e, v);
                }
            }
            None => {
                self.entries.push((e, v));
                proof {
                    self.gmap@ = self.gmap@.insert(e, v);
                    let prev = *old(self);
                    let m = self.entries@.len() - 1;
                    assert forall|j: int|
                        0 <= j < self.entries@.len() implies self.gmap@.dom().contains(
                        (#[trigger] self.entries@[j]).0,
                    ) && self.gmap@[self.entries@[j].0] == self.entries@[j].1 by {
                        if j != m {
                            assert(self.entries@[j] == prev.entries@[j]);
                            assert(prev.gmap@.dom().contains(prev.entries@[j].0));
                            assert(prev.entries@[j].0 != e);
                        }
                    };
                    assert forall|x: Entity| #[trigger]
                        self.gmap@.dom().contains(x) implies exists|k: int|
                        0 <= k < self.entries@.len() && (#[trigger] self.entries@[k]).0 == x by {
                        if x == e {
                            assert(self.entries@[m].0 == x);
                        } else {
                            let k = choose|k: int|
                                0 <= k < prev.entries@.len() && (#[trigger] prev.entries@[k]).0
                                    == x;
                            assert(self.entries@[k].0 == x);
                        }
                    };
                }
            }
        }
    }

    /// Removes and returns the component of `e`, if any.
    pub fn take(&mut self, e: Entity) -> (r: Option<T>)
        requires
            old(self).wf(),
        ensures
            final(self).wf(),
            final(self)@ =~= old(self)@.remove(e),
            final(self).entry_seq().len() <= old(self).entry_seq().len(),
            match r {
                Some(v) => old(self)@.dom().contains(e) && v == old(self)@[e],
                None => !old(self)@.dom().contains(e) && *final(self) == *old(self),
            },
    {
        match self.index_of(e) {
            Some(i) => {
                let pair = self.entries.remove(i);
                proof {
                    self.gmap@ = self.gmap@.remove(e);
                    let prev = *old(self);
                    let ii = i as int;
                    assert forall|j: int|
                        0 <= j < self.entries@.len() implies #[trigger] self.entries@[j] == (
                    if j < ii {
                        prev.entries@[j]
                    } else {
                        prev.entries@[j + 1]
                    }) by {};
                    assert forall|j: int|
                        0 <= j < self.entries@.len() implies (
                    #[trigger] self.entries@[j]).0 != e by {
                        if j < ii {
                            assert(prev.entries@[j].0 != prev.entries@[ii].0);
                        } else {
                            assert(prev.entries@[j + 1].0 != prev.entries@[ii].0);
                        }
                    };
                    assert forall|x: Entity| #[trigger]
                        self.gmap@.dom().contains(x) implies exists|k: int|
                        0 <= k < self.entries@.len() && (#[trigger] self.entries@[k]).0 == x by {
                        let k = choose|k: int|
                            0 <= k < prev.entries@.len() && (#[trigger] prev.entries@[k]).0 == x;
                        if k < ii {
                            assert(self.entries@[k].0 == x);
                        } else {
                            assert(k != ii);
                            assert(self.entries@[k - 1].0 == x);
                        }
                    };
                }
                Some(pair.1)
            }
            None => {
                proof {
                    assert(self@ =~= self@.remove(e));
                }
                None
            }
        }
    }

    /// Removes the component of `e`, if any.
    pub fn remove(&mut self, e: Entity)
        requires
            old(self).wf(),
        ensures
            final(self).wf(),
            final(self)@ =~= old(self)@.remove(e),
            final(self).entry_seq().len() <= old(self).entry_seq().len(),
    {
        let _ = self.take(e);
    }
}

/// After writing entry `i` with its own key `e` and mirroring the write in
/// the ghost map, the table is consistent again.
proof fn lemma_wf_after_write<T>(prev: EntityMap<T>, cur: EntityMap<T>, i: int, e: Entity, v: T)
    requires
        prev.wf(),
        0 <= i < prev.entry_seq().len(),
        prev.entry_seq()[i].0 == e,
        cur.entry_seq() == prev.entry_seq().update(i, (e, v)),
        cur@ == prev@.insert(e, v),
    ensures
        cur.wf(),
{
    assert forall|j: int|
        0 <= j < cur.entry_seq().len() implies cur@.dom().contains(
        (#[trigger] cur.entry_seq()[j]).0,
    ) && cur@[cur.entry_seq()[j].0] == cur.entry_seq()[j].1 by {
        if j != i {
            assert(cur.entry_seq()[j] == prev.entry_seq()[j]);
            assert(prev@.dom().contains(prev.entry_seq()[j].0));
            assert(prev.entry_seq()[j].0 != e);
        }
    };
    assert forall|x: Entity| #[trigger] cur@.dom().contains(x) implies exists|k: int|
        0 <= k < cur.entry_seq().len() && (#[trigger] cur.entry_seq()[k]).0 == x by {
        if x == e {
            assert(cur.entry_seq()[i].0 == x);
        } else {
            let k = choose|k: int|
                0 <= k < prev.entry_seq().len() && (#[trigger] prev.entry_seq()[k]).0 == x;
            assert(cur.entry_seq()[k].0 == x);
        }
    };
}

} // verus!
