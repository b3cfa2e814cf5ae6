//! The deduplicated queue of entities pending destruction.
//!
//! Systems mark entities for removal at any point of a tick; the queue is
//! consumed exactly once per tick, after the main system pass, so collider
//! and model cleanup run against pre-removal state. Duplicate marks collapse
//! to one entry, so cleanup runs once per entity.

use crate::entity::Entity;
use vstd::prelude::*;

verus! {

/// What one `add` call does to the queue's contents: a duplicate mark
/// leaves the queue unchanged.
pub open spec fn spec_removal_add(s: Seq<Entity>, e: Entity) -> Seq<Entity> {
    if s.contains(e) {
        s
    } else {
        s.push(e)
    }
}

/// Marking an entity any number of times is the same as marking it once.
pub proof fn lemma_removal_add_idempotent(s: Seq<Entity>, e: Entity)
    ensures
        spec_removal_add(spec_removal_add(s, e), e) == spec_removal_add(s, e),
{
    if !s.contains(e) {
        assert(s.push(e)[s.len() as int] == e);
        assert(s.push(e).contains(e));
    }
}

/// The pending-destruction list; each entity appears at most once.
pub struct ToBeRemoved {
    list: Vec<Entity>,
}

impl View for ToBeRemoved {
    type V = Seq<Entity>;

    closed spec fn view(&self) -> Seq<Entity> {
        self.list@
    }
}

impl ToBeRemoved {
    /// No entity is queued twice.
    pub open spec fn wf(self) -> bool {
        forall|i: int, j: int| 0 <= i < j < self@.len() ==> self@[i] != self@[j]
    }

    /// An empty queue.
    pub fn new() -> (r: ToBeRemoved)
        ensures
            r.wf(),
            r@ =~= Seq::<Entity>::empty(),
    {
        ToBeRemoved { list: Vec::new() }
    }

    /// How many entities are pending removal.
    pub fn len(&self) -> (r: usize)
        ensures
            r == self@.len(),
    {
        self.list.len()
    }

    /// The queued entity at position `i`.
    pub fn at(&self, i: usize) -> (r: Entity)
        requires
            i < self@.len(),
        ensures
            r == self@[i as int],
    {
        self.list[i]
    }

    /// Whether `e` is pending removal.
    pub fn contains(&self, e: Entity) -> (r: bool)
        ensures
            r == self@.contains(e),
    {
        let n = self.list.len();
        let mut i: usize = 0;
        while i < n
            invariant
                n == self.list@.len(),
                i <= n,
                forall|j: int| 0 <= j < i ==> self.list@[j] != e,
            decreases n - i,
        {
            if self.list[i] == e {
                assert(self@[i as int] == e);
                return true;
            }
            i = i + 1;
        }
        false
    }

    /// Marks `e` for removal at the end of the tick; marking it again
    /// before the queue is drained has no effect.
    pub fn add(&mut self, e: Entity)
        requires
            old(self).wf(),
        ensures
            final(self).wf(),
            final(self)@ == spec_removal_add(old(self)@, e),
            final(self)@.contains(e),
    {
        if !self.contains(e) {
            self.list.push(e);
            assert(self@[self@.len() - 1] == e);
        }
    }

    /// Empties the queue.
    pub fn clear(&mut self)
        ensures
            final(self).wf(),
            final(self)@ =~= Seq::<Entity>::empty(),
    {
        self.list.clear();
    }
}

} // verus!
