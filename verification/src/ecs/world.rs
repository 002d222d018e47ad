//! The world: the single owner of the entity table, of one component store
//! for each component type, and of the transient registry.

use vstd::prelude::*;
use crate::ecs::counting::lemma_without;
use crate::ecs::entities::EntityTable;
use crate::ecs::laws::{
    lemma_attach_inv, lemma_detach_each_inv, lemma_detach_inv, lemma_free_holds_nothing,
    lemma_spawn_inv, lemma_write_inv,
};
use crate::ecs::model::{Slot, WorldView, component_total, entities_of, position};
use crate::ecs::query::Query;
use crate::ecs::store::Store;
use crate::ecs::types::{Component, EcsError};

verus! {

/// Entities and their components.
///
/// `C` is the type of the component values; a value says of itself to which
/// of the world's component types it belongs.
pub struct World<C> {
    stores: Vec<Store<C>>,
    entities: EntityTable,
    one_frame: Vec<(usize, usize)>,
}

impl<C> View for World<C> {
    type V = WorldView<C>;

    closed spec fn view(&self) -> WorldView<C> {
        WorldView {
            counts: self.entities@,
            stores: contents(self.stores@),
            transient: self.one_frame@,
        }
    }
}

/// What each of the stores holds.
pub closed spec fn contents<C>(stores: Seq<Store<C>>) -> Seq<Seq<Slot<C>>> {
    Seq::new(stores.len(), |t: int| stores[t]@)
}

/// Replacing one store replaces what it holds and nothing else.
proof fn lemma_contents<C>(stores: Seq<Store<C>>)
    ensures
        contents(stores).len() == stores.len(),
        forall|t: int| 0 <= t < stores.len() ==> (#[trigger] contents(stores)[t]) == stores[t]@,
        forall|t: int, store: Store<C>|
            0 <= t < stores.len() ==> #[trigger] contents(stores.update(t, store)) == contents(
                stores,
            ).update(t, store@),
{
    assert forall|t: int, store: Store<C>| 0 <= t < stores.len() implies #[trigger] contents(
        stores.update(t, store),
    ) == contents(stores).update(t, store@) by {
        assert(contents(stores.update(t, store)) =~= contents(stores).update(t, store@));
    }
}

impl<C> World<C> {
    /// The world keeps sound books. Every function of the world that is given
    /// such a world leaves one.
    pub open spec fn wf(&self) -> bool {
        self@.inv()
    }

    /// A world of `type_count` component types, numbered from zero, without
    /// entities.
    pub fn create(type_count: usize) -> (world: Self)
        ensures
            world.wf(),
            world@ == WorldView::<C>::empty(type_count as nat),
    {
        let mut stores: Vec<Store<C>> = Vec::new();
        let mut t: usize = 0;
        while t < type_count
            invariant
                t <= type_count,
                stores@.len() == t,
                forall|i: int| 0 <= i < t ==> (#[trigger] stores@[i])@ == Seq::<Slot<C>>::empty(),
            decreases type_count - t,
        {
            stores.push(Store::new());
            t += 1;
        }
        let world = World { stores, entities: EntityTable::new(), one_frame: Vec::new() };
        assert(world@.stores =~= WorldView::<C>::empty(type_count as nat).stores);
        world
    }

    /// The number of component types.
    pub fn type_count(&self) -> (n: usize)
        ensures
            n == self@.stores.len(),
    {
        self.stores.len()
    }

    /// Hands out an entity that owns no component: the lowest such entity
    /// that was handed out before, else a new one with the next number.
    pub fn create_entity(&mut self) -> (id: usize)
        requires
            old(self).wf(),
        ensures
            final(self).wf(),
            old(self)@.is_lowest_free(id as int),
            final(self)@ == old(self)@.spawn(),
            id < final(self)@.counts.len(),
            final(self)@.counts[id as int] == 0,
            forall|t: usize| !final(self)@.has(t, id),
    {
        let id = self.entities.allocate();
        proof {
            lemma_spawn_inv(old(self)@, id as int);
            assert(self@.stores == old(self)@.stores);
            lemma_free_holds_nothing(self@, id);
        }
        id
    }

    /// The number of live components of `entity`, where it was handed out.
    pub fn live_count(&self, entity: usize) -> (count: Option<usize>)
        ensures
            match count {
                Some(c) => entity < self@.counts.len() && c == self@.counts[entity as int],
                None => entity >= self@.counts.len(),
            },
    {
        self.entities.count(entity)
    }

    /// Whether `entity` holds a component of type `type_id`.
    pub fn has(&self, type_id: usize, entity: usize) -> (held: bool)
        ensures
            held == self@.has(type_id, entity),
    {
        type_id < self.stores.len() && self.stores[type_id].contains(entity)
    }

    /// The entities that hold a component of type `type_id`, in store order.
    pub fn owners(&self, type_id: usize) -> (ids: Result<Vec<usize>, EcsError>)
        ensures
            match ids {
                Ok(v) => type_id < self@.stores.len() && v@ == entities_of(
                    self@.stores[type_id as int],
                ),
                Err(e) => e == EcsError::UnknownComponentType && type_id >= self@.stores.len(),
            },
    {
        if type_id < self.stores.len() {
            Ok(self.stores[type_id].entities())
        } else {
            Err(EcsError::UnknownComponentType)
        }
    }

    /// Detaches the component of type `type_id` from `entity`: every matching
    /// entry leaves the store, and the entity's counter drops by one. Nothing
    /// changes where the entity holds no such component.
    pub fn remove(&mut self, type_id: usize, entity: usize)
        requires
            old(self).wf(),
        ensures
            final(self).wf(),
            final(self)@ == old(self)@.detach(type_id, entity),
            !old(self)@.has(type_id, entity) ==> final(self)@ == old(self)@,
    {
        proof {
            lemma_detach_inv(old(self)@, type_id, entity);
        }
        if type_id < self.stores.len() {
            let removed = self.stores[type_id].remove_entity(entity);
            if removed {
                self.entities.decrement(entity);
                proof {
                    assert(self@.stores =~= old(self)@.detach(type_id, entity).stores);
                }
            } else {
                proof {
                    lemma_without(old(self)@.stores[type_id as int], entity);
                    assert(self@.stores =~= old(self)@.stores);
                }
            }
        }
    }

    /// The entity count and the number of components in all stores together.
    pub fn stat(&self) -> (counts: (usize, usize))
        requires
            self@.stat().1 <= usize::MAX,
        ensures
            counts.0 == self@.stat().0,
            counts.1 == self@.stat().1,
    {
        let mut total: usize = 0;
        let mut t: usize = 0;
        let ghost stores = self@.stores;
        while t < self.stores.len()
            invariant
                t <= self.stores.len(),
                stores == self@.stores,
                stores.len() == self.stores.len(),
                total == component_total(stores.take(t as int)),
                component_total(stores) <= usize::MAX,
            decreases self.stores.len() - t,
        {
            proof {
                assert(stores.take(t + 1).drop_last() =~= stores.take(t as int));
                lemma_component_total_prefix(stores, t + 1);
            }
            total = total + self.stores[t].len();
            t += 1;
        }
        proof {
            assert(stores.take(t as int) =~= stores);
        }
        (self.entities.len(), total)
    }

    /// The component of type `type_id` that `entity` holds.
    pub fn get(&self, type_id: usize, entity: usize) -> (found: Result<Option<&C>, EcsError>)
        ensures
            match found {
                Ok(Some(c)) => self@.has(type_id, entity) && *c == self@.stores[type_id as int][position(
                    self@.stores[type_id as int],
                    entity,
                )].value,
                Ok(None) => type_id < self@.stores.len() && !self@.has(type_id, entity),
                Err(e) => e == EcsError::UnknownComponentType && type_id >= self@.stores.len(),
            },
    {
        if type_id < self.stores.len() {
            Ok(self.stores[type_id].get(entity))
        } else {
            Err(EcsError::UnknownComponentType)
        }
    }

    /// Exclusive access to the component of type `type_id` that `entity`
    /// holds. What is written through the handle replaces the component's
    /// value; the books stay sound whatever is written.
    pub fn get_mut(&mut self, type_id: usize, entity: usize) -> (found: Result<
        Option<&mut C>,
        EcsError,
    >)
        requires
            old(self).wf(),
        ensures
            match found {
                Ok(Some(c)) => {
                    &&& old(self)@.has(type_id, entity)
                    &&& *c == old(self)@.stores[type_id as int][position(
                        old(self)@.stores[type_id as int],
                        entity,
                    )].value
                    &&& final(self)@ == old(self)@.write(type_id, entity, *final(c))
                    &&& final(self).wf()
                },
                Ok(None) => type_id < old(self)@.stores.len() && !old(self)@.has(type_id, entity)
                    && final(self)@ == old(self)@,
                Err(e) => e == EcsError::UnknownComponentType && type_id >= old(self)@.stores.len()
                    && final(self)@ == old(self)@,
            },
            final(self).wf(),
    {
        proof {
            lemma_write_inv(old(self)@, type_id, entity);
        }
        if type_id < self.stores.len() {
            proof {
                lemma_contents(self.stores@);
                assert(self.stores@.update(type_id as int, self.stores@[type_id as int])
                    =~= self.stores@);
            }
            Ok(self.stores[type_id].get_mut(entity))
        } else {
            Err(EcsError::UnknownComponentType)
        }
    }

    /// Attaches `value` to `entity` as a component of type `type_id`: the
    /// value goes to the end of the type's store and the entity's counter
    /// rises by one. A transient component is entered in the registry and
    /// leaves at the next purge. Refused, with the world unchanged, where the
    /// world has no such type, where the entity was never handed out, and
    /// where the entity holds a component of the type already.
    pub fn attach(&mut self, type_id: usize, entity: usize, transient: bool, value: C) -> (done:
        Result<(), EcsError>)
        requires
            old(self).wf(),
        ensures
            final(self).wf(),
            final(self)@ == old(self)@.attach(type_id, entity, transient, value),
            match done {
                Ok(()) => old(self)@.attach_error(type_id, entity).is_none(),
                Err(e) => old(self)@.attach_error(type_id, entity) == Some(e) && final(self)@
                    == old(self)@,
            },
    {
        proof {
            lemma_attach_inv(old(self)@, type_id, entity, transient, value);
            lemma_contents(self.stores@);
        }
        if type_id >= self.stores.len() {
            return Err(EcsError::UnknownComponentType);
        }
        if entity >= self.entities.len() {
            return Err(EcsError::UnknownEntity);
        }
        if self.stores[type_id].contains(entity) {
            return Err(EcsError::DuplicateComponent);
        }
        if transient {
            self.one_frame.push((entity, type_id));
        }
        self.entities.increment(entity);
        self.stores[type_id].push(entity, value);
        Ok(())
    }

    /// Ends a tick: detaches every component that was attached as transient
    /// since the last purge, and empties the registry.
    pub fn clear_transient(&mut self)
        requires
            old(self).wf(),
        ensures
            final(self).wf(),
            final(self)@ == old(self)@.purge(),
    {
        let ghost pairs = self.one_frame@;
        let mut i: usize = 0;
        while i < self.one_frame.len()
            invariant
                i <= pairs.len(),
                self.one_frame@ == pairs,
                pairs == old(self)@.transient,
                old(self).wf(),
                self.wf(),
                self@ == old(self)@.detach_each(pairs.take(i as int)),
            decreases pairs.len() - i,
        {
            let pair = self.one_frame[i];
            proof {
                assert(pairs.take(i + 1).drop_last() =~= pairs.take(i as int));
            }
            self.remove(pair.1, pair.0);
            i += 1;
        }
        self.one_frame.clear();
        proof {
            assert(pairs.take(i as int) =~= pairs);
            lemma_detach_each_inv(old(self)@, pairs);
            assert(self@.stores == old(self)@.purge().stores);
        }
    }

    /// A query on this world that names no component type yet.
    pub fn query(&self) -> (query: Query<'_, C>)
        ensures
            query.world() == self,
            query.types() == Seq::<usize>::empty(),
    {
        Query::new(self)
    }
}

impl<C: Component> World<C> {
    /// Attaches `component` to the entity it names, as a component of the type
    /// it names, transient where it says so: `attach` with what the component
    /// says of itself.
    pub fn add(&mut self, component: C) -> (done: Result<(), EcsError>)
        requires
            old(self).wf(),
        ensures
            final(self).wf(),
            final(self)@ == old(self)@.attach(
                component.id_spec(),
                component.entity_spec(),
                component.one_frame_spec(),
                component,
            ),
            match done {
                Ok(()) => old(self)@.attach_error(component.id_spec(), component.entity_spec())
                    .is_none(),
                Err(e) => old(self)@.attach_error(component.id_spec(), component.entity_spec())
                    == Some(e) && final(self)@ == old(self)@,
            },
    {
        let type_id = component.get_id();
        let entity = component.entity();
        let transient = component.one_frame();
        self.attach(type_id, entity, transient, component)
    }
}

/// The total of a prefix of the stores is the total of the prefix one store
/// shorter plus the length of its last store, and no more than the total of
/// all.
proof fn lemma_component_total_prefix<C>(stores: Seq<Seq<Slot<C>>>, n: int)
    requires
        0 <= n <= stores.len(),
    ensures
        component_total(stores.take(n)) <= component_total(stores),
    decreases stores.len() - n,
{
    if n < stores.len() {
        lemma_component_total_prefix(stores, n + 1);
        assert(stores.take(n + 1).drop_last() =~= stores.take(n));
    } else {
        assert(stores.take(n) =~= stores);
    }
}

} // verus!
