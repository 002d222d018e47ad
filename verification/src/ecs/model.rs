//! The mathematical model of a world: what its stores hold, how many live
//! components each entity owns, and how each operation changes both.

use vstd::prelude::*;
use crate::ecs::entities::lowest_free;
use crate::ecs::types::EcsError;

verus! {

/// One entry of a component store: a value and the entity that owns it.
pub struct Slot<C> {
    pub entity: usize,
    pub value: C,
}

/// The owning entities of a store's entries, in store order.
pub open spec fn entities_of<C>(store: Seq<Slot<C>>) -> Seq<usize> {
    store.map_values(|s: Slot<C>| s.entity)
}

/// Whether some entry of the store belongs to `entity`.
pub open spec fn holds<C>(store: Seq<Slot<C>>, entity: usize) -> bool {
    exists|i: int| 0 <= i < store.len() && (#[trigger] store[i]).entity == entity
}

/// Whether `i` is the first entry of the store that belongs to `entity`.
pub open spec fn is_first_at<C>(store: Seq<Slot<C>>, entity: usize, i: int) -> bool {
    &&& 0 <= i < store.len()
    &&& store[i].entity == entity
    &&& forall|j: int| 0 <= j < i ==> (#[trigger] store[j]).entity != entity
}

/// The index of the first entry that belongs to `entity`, where there is one.
pub open spec fn position<C>(store: Seq<Slot<C>>, entity: usize) -> int {
    choose|i: int| is_first_at(store, entity, i)
}

/// No two entries of the store belong to the same entity.
pub open spec fn distinct_entities<C>(store: Seq<Slot<C>>) -> bool {
    forall|i: int, j: int|
        0 <= i < store.len() && 0 <= j < store.len() && i != j ==> (#[trigger] store[i]).entity
            != (#[trigger] store[j]).entity
}

/// The store with every entry of `entity` taken out, the others in order.
pub open spec fn without<C>(store: Seq<Slot<C>>, entity: usize) -> Seq<Slot<C>> {
    store.filter(|s: Slot<C>| s.entity != entity)
}

/// How many entries of the store belong to `entity`.
pub open spec fn occurrences<C>(store: Seq<Slot<C>>, entity: usize) -> nat {
    store.filter(|s: Slot<C>| s.entity == entity).len()
}

/// How many entries of all the stores together belong to `entity`.
pub open spec fn live_count<C>(stores: Seq<Seq<Slot<C>>>, entity: usize) -> nat
    decreases stores.len(),
{
    if stores.len() == 0 {
        0
    } else {
        live_count(stores.drop_last(), entity) + occurrences(stores.last(), entity)
    }
}

/// How many entries all the stores hold together.
pub open spec fn component_total<C>(stores: Seq<Seq<Slot<C>>>) -> nat
    decreases stores.len(),
{
    if stores.len() == 0 {
        0
    } else {
        component_total(stores.drop_last()) + stores.last().len()
    }
}

/// Where an entity is held, `position` names its first entry, and that entry is
/// the only index that `is_first_at` accepts.
pub proof fn lemma_position<C>(store: Seq<Slot<C>>, entity: usize)
    requires
        holds(store, entity),
    ensures
        is_first_at(store, entity, position(store, entity)),
        forall|i: int| is_first_at(store, entity, i) ==> i == position(store, entity),
{
    let k = choose|k: int| 0 <= k < store.len() && (#[trigger] store[k]).entity == entity;
    lemma_first_exists(store, entity, k);
    let p = position(store, entity);
    assert forall|i: int| is_first_at(store, entity, i) implies i == p by {
        if i < p {
            assert(store[i].entity != entity);
        } else if p < i {
            assert(store[p].entity != entity);
        }
    }
}

proof fn lemma_first_exists<C>(store: Seq<Slot<C>>, entity: usize, k: int)
    requires
        0 <= k < store.len(),
        store[k].entity == entity,
    ensures
        exists|i: int| is_first_at(store, entity, i),
    decreases k,
{
    if forall|j: int| 0 <= j < k ==> (#[trigger] store[j]).entity != entity {
        assert(is_first_at(store, entity, k));
    } else {
        let j = choose|j: int| 0 <= j < k && (#[trigger] store[j]).entity == entity;
        lemma_first_exists(store, entity, j);
    }
}

/// What a world holds, as plain mathematical values.
pub struct WorldView<C> {
    /// The live-component counter of each entity that was handed out; an
    /// entity's number is its index.
    pub counts: Seq<nat>,
    /// The store of each component type; a type's number is its index.
    pub stores: Seq<Seq<Slot<C>>>,
    /// The (entity, component type) pairs attached as transient since the last
    /// purge, in the order of attachment.
    pub transient: Seq<(usize, usize)>,
}

impl<C> WorldView<C> {
    /// A world of `type_count` component types without entities.
    pub open spec fn empty(type_count: nat) -> Self {
        WorldView {
            counts: Seq::empty(),
            stores: Seq::new(type_count, |t: int| Seq::empty()),
            transient: Seq::empty(),
        }
    }

    /// Whether `entity` holds a component of type `type_id`.
    pub open spec fn has(self, type_id: usize, entity: usize) -> bool {
        type_id < self.stores.len() && holds(self.stores[type_id as int], entity)
    }

    /// The bookkeeping is sound: every counter equals the number of entries
    /// that belong to its entity, every entry belongs to an entity that was
    /// handed out, and no entity holds two components of one type.
    pub open spec fn inv(self) -> bool {
        &&& forall|e: usize|
            e < self.counts.len() ==> self.counts[e as int] == #[trigger] live_count(
                self.stores,
                e,
            )
        &&& forall|t: int, i: int|
            0 <= t < self.stores.len() && 0 <= i < self.stores[t].len() ==> (
            #[trigger] self.stores[t][i]).entity < self.counts.len()
        &&& forall|t: int|
            0 <= t < self.stores.len() ==> distinct_entities(#[trigger] self.stores[t])
    }

    /// The number of entities that were handed out, and the number of
    /// components in all stores together.
    pub open spec fn stat(self) -> (nat, nat) {
        (self.counts.len(), component_total(self.stores))
    }

    /// Whether some entity that was handed out owns no component.
    pub open spec fn has_free(self) -> bool {
        exists|j: int| 0 <= j < self.counts.len() && #[trigger] self.counts[j] == 0
    }

    /// Whether `id` is the entity that creation hands out: the lowest one
    /// without components, or the next unused number where every entity owns
    /// one.
    pub open spec fn is_lowest_free(self, id: int) -> bool {
        lowest_free(self.counts, id)
    }

    /// The world after an entity was created: unchanged where a free entity
    /// is reused, else with one more counter, at zero.
    pub open spec fn spawn(self) -> Self {
        if self.has_free() {
            self
        } else {
            WorldView {
                counts: self.counts.push(0),
                stores: self.stores,
                transient: self.transient,
            }
        }
    }

    /// Why attaching a component of type `type_id` to `entity` is refused, if
    /// it is.
    pub open spec fn attach_error(self, type_id: usize, entity: usize) -> Option<EcsError> {
        if type_id >= self.stores.len() {
            Some(EcsError::UnknownComponentType)
        } else if entity >= self.counts.len() {
            Some(EcsError::UnknownEntity)
        } else if holds(self.stores[type_id as int], entity) {
            Some(EcsError::DuplicateComponent)
        } else {
            None
        }
    }

    /// The world after `value` was attached to `entity` as a component of type
    /// `type_id`; unchanged where the attachment is refused.
    pub open spec fn attach(self, type_id: usize, entity: usize, transient: bool, value: C) -> Self {
        if self.attach_error(type_id, entity).is_some() {
            self
        } else {
            WorldView {
                counts: self.counts.update(entity as int, self.counts[entity as int] + 1),
                stores: self.stores.update(
                    type_id as int,
                    self.stores[type_id as int].push(Slot { entity, value }),
                ),
                transient: if transient {
                    self.transient.push((entity, type_id))
                } else {
                    self.transient
                },
            }
        }
    }

    /// The world after the component of type `type_id` was detached from
    /// `entity`: every matching entry leaves the store and the counter drops
    /// by one. Unchanged where the entity holds no such component.
    pub open spec fn detach(self, type_id: usize, entity: usize) -> Self {
        if self.has(type_id, entity) {
            WorldView {
                counts: if entity < self.counts.len() {
                    self.counts.update(entity as int, (self.counts[entity as int] - 1) as nat)
                } else {
                    self.counts
                },
                stores: self.stores.update(
                    type_id as int,
                    without(self.stores[type_id as int], entity),
                ),
                transient: self.transient,
            }
        } else {
            self
        }
    }

    /// The world after the first component of type `type_id` that `entity`
    /// holds was replaced by `value`; the entry keeps its place and its entity.
    pub open spec fn write(self, type_id: usize, entity: usize, value: C) -> Self {
        if self.has(type_id, entity) {
            WorldView {
                counts: self.counts,
                stores: self.stores.update(
                    type_id as int,
                    self.stores[type_id as int].update(
                        position(self.stores[type_id as int], entity),
                        Slot { entity, value },
                    ),
                ),
                transient: self.transient,
            }
        } else {
            self
        }
    }

    /// The world after each (entity, component type) pair of `pairs` was
    /// detached, first to last.
    pub open spec fn detach_each(self, pairs: Seq<(usize, usize)>) -> Self
        decreases pairs.len(),
    {
        if pairs.len() == 0 {
            self
        } else {
            self.detach_each(pairs.drop_last()).detach(pairs.last().1, pairs.last().0)
        }
    }

    /// The world at the end of a tick: every pair of the transient registry
    /// detached, and the registry empty.
    pub open spec fn purge(self) -> Self {
        let swept = self.detach_each(self.transient);
        WorldView { counts: swept.counts, stores: swept.stores, transient: Seq::empty() }
    }

    /// Whether every component type that `query` names is below the number of
    /// types.
    pub open spec fn knows(self, query: Seq<usize>) -> bool {
        forall|k: int| 0 <= k < query.len() ==> #[trigger] query[k] < self.stores.len()
    }

    /// Whether `entity` holds a component of every type that `query` names
    /// at the indices from `from` up to, but without, `to`.
    pub open spec fn has_each(self, query: Seq<usize>, from: int, to: int, entity: usize) -> bool {
        forall|k: int| from <= k < to ==> self.has(#[trigger] query[k], entity)
    }

    /// The entities that hold a component of every type that `query` names, in
    /// the order of the store of the first type named. The empty query matches
    /// nothing.
    pub open spec fn matches(self, query: Seq<usize>) -> Seq<usize> {
        if query.len() == 0 {
            Seq::empty()
        } else {
            entities_of(self.stores[query[0] as int]).filter(
                |e: usize| self.has_each(query, 1, query.len() as int, e),
            )
        }
    }
}

} // verus!
