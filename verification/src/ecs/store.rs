//! The component store: the entries of one component type, in the order in
//! which they were attached.

use vstd::prelude::*;
use crate::ecs::model::{Slot, entities_of, holds, is_first_at, position, without, lemma_position};

verus! {

/// All live components of one type, each with the entity that owns it.
pub struct Store<C> {
    slots: Vec<Slot<C>>,
}

impl<C> View for Store<C> {
    type V = Seq<Slot<C>>;

    closed spec fn view(&self) -> Seq<Slot<C>> {
        self.slots@
    }
}

impl<C> Store<C> {
    /// A store without entries.
    pub fn new() -> (store: Self)
        ensures
            store@ == Seq::<Slot<C>>::empty(),
    {
        Store { slots: Vec::new() }
    }

    /// The number of entries.
    pub fn len(&self) -> (n: usize)
        ensures
            n == self@.len(),
    {
        self.slots.len()
    }

    /// Appends `value` as an entry of `entity`.
    pub fn push(&mut self, entity: usize, value: C)
        ensures
            final(self)@ == old(self)@.push(Slot { entity, value }),
    {
        self.slots.push(Slot { entity, value });
    }

    /// The index of the first entry that belongs to `entity`.
    pub fn find(&self, entity: usize) -> (found: Option<usize>)
        ensures
            match found {
                Some(i) => is_first_at(self@, entity, i as int),
                None => !holds(self@, entity),
            },
    {
        let mut i: usize = 0;
        while i < self.slots.len()
            invariant
                i <= self.slots.len(),
                forall|j: int| 0 <= j < i ==> (#[trigger] self.slots@[j]).entity != entity,
            decreases self.slots.len() - i,
        {
            if self.slots[i].entity == entity {
                return Some(i);
            }
            i += 1;
        }
        None
    }

    /// Whether some entry belongs to `entity`.
    pub fn contains(&self, entity: usize) -> (found: bool)
        ensures
            found == holds(self@, entity),
    {
        self.find(entity).is_some()
    }

    /// The first component that belongs to `entity`.
    pub fn get(&self, entity: usize) -> (found: Option<&C>)
        ensures
            match found {
                Some(c) => holds(self@, entity) && *c == self@[position(self@, entity)].value,
                None => !holds(self@, entity),
            },
    {
        match self.find(entity) {
            Some(i) => {
                proof {
                    lemma_position(self@, entity);
                }
                Some(&self.slots[i].value)
            },
            None => None,
        }
    }

    /// Exclusive access to the first component that belongs to `entity`. The
    /// entry keeps its place and its entity, whatever is written through the
    /// handle.
    pub fn get_mut(&mut self, entity: usize) -> (found: Option<&mut C>)
        ensures
            match found {
                Some(c) => {
                    &&& holds(old(self)@, entity)
                    &&& *c == old(self)@[position(old(self)@, entity)].value
                    &&& final(self)@ == old(self)@.update(
                        position(old(self)@, entity),
                        Slot { entity, value: *final(c) },
                    )
                },
                None => !holds(old(self)@, entity) && final(self)@ == old(self)@,
            },
    {
        match self.find(entity) {
            Some(i) => {
                proof {
                    lemma_position(self@, entity);
                }
                Some(&mut self.slots[i].value)
            },
            None => None,
        }
    }

    /// Takes out every entry that belongs to `entity` and says whether there
    /// was one. The other entries keep their order.
    pub fn remove_entity(&mut self, entity: usize) -> (removed: bool)
        ensures
            final(self)@ == without(old(self)@, entity),
            removed == holds(old(self)@, entity),
    {
        let ghost before = self.slots@;
        let ghost keep = |s: Slot<C>| s.entity != entity;
        let ghost mut k: int = 0;
        let mut removed = false;
        let mut i: usize = 0;
        proof {
            assert(before.take(0) =~= Seq::<Slot<C>>::empty());
            assert(before.skip(0) =~= before);
            reveal(Seq::filter);
        }
        while i < self.slots.len()
            invariant
                0 <= k <= before.len(),
                i == before.take(k).filter(keep).len(),
                self.slots@ == before.take(k).filter(keep) + before.skip(k),
                removed == holds(before.take(k), entity),
                keep == |s: Slot<C>| s.entity != entity,
            decreases before.len() - k,
        {
            proof {
                assert(before.take(k + 1) =~= before.take(k).push(before[k]));
                before.take(k).lemma_filter_push(before[k], keep);
                assert(self.slots@[i as int] == before.skip(k)[0]);
                if holds(before.take(k + 1), entity) {
                    let w = choose|w: int|
                        0 <= w < before.take(k + 1).len() && (#[trigger] before.take(k + 1)[w]).entity
                            == entity;
                    if w < k {
                        assert(before.take(k)[w].entity == entity);
                    }
                }
                if holds(before.take(k), entity) {
                    let w = choose|w: int|
                        0 <= w < before.take(k).len() && (#[trigger] before.take(k)[w]).entity
                            == entity;
                    assert(before.take(k + 1)[w].entity == entity);
                }
            }
            if self.slots[i].entity == entity {
                self.slots.remove(i);
                removed = true;
                proof {
                    assert(before.take(k + 1)[k].entity == entity);
                    assert(self.slots@ =~= before.take(k + 1).filter(keep) + before.skip(k + 1));
                }
            } else {
                i += 1;
                proof {
                    assert(self.slots@ =~= before.take(k + 1).filter(keep) + before.skip(k + 1));
                }
            }
            proof {
                k = k + 1;
            }
        }
        proof {
            assert(before.skip(k).len() == 0);
            assert(k == before.len());
            assert(before.take(k) =~= before);
            assert(self.slots@ =~= before.filter(keep));
        }
        removed
    }

    /// The owning entities of the entries, in store order.
    pub fn entities(&self) -> (ids: Vec<usize>)
        ensures
            ids@ == entities_of(self@),
    {
        let mut ids: Vec<usize> = Vec::new();
        let mut i: usize = 0;
        while i < self.slots.len()
            invariant
                i <= self.slots.len(),
                ids@ == entities_of(self.slots@.take(i as int)),
            decreases self.slots.len() - i,
        {
            ids.push(self.slots[i].entity);
            proof {
                assert(self.slots@.take(i + 1) =~= self.slots@.take(i as int).push(self.slots@[i as int]));
                assert(ids@ =~= entities_of(self.slots@.take(i + 1)));
            }
            i += 1;
        }
        proof {
            assert(self.slots@.take(i as int) =~= self.slots@);
        }
        ids
    }
}

} // verus!
