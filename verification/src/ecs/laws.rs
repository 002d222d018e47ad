//! What holds of every world, whatever was done to it.

use vstd::prelude::*;
use crate::ecs::counting::{
    lemma_live_count_bound, lemma_live_count_none, lemma_live_count_positive,
    lemma_live_count_update, lemma_occurrences, lemma_occurrences_push,
    lemma_occurrences_update, lemma_without,
};
use crate::ecs::filter::{
    lemma_filter_all, lemma_filter_distinct, lemma_filter_members, lemma_filter_same,
    lemma_filter_twice,
};
use crate::ecs::model::{
    Slot, WorldView, distinct_entities, entities_of, holds, lemma_position, live_count,
    occurrences, position, without,
};

verus! {

/// A world without entities keeps sound books.
pub proof fn lemma_empty_inv<C>(type_count: nat)
    ensures
        WorldView::<C>::empty(type_count).inv(),
{
}

/// Creating an entity keeps the books sound, and the entity handed out owns
/// no component.
pub proof fn lemma_spawn_inv<C>(world: WorldView<C>, id: int)
    requires
        world.inv(),
        world.is_lowest_free(id),
    ensures
        world.spawn().inv(),
        id < world.counts.len() <==> world.has_free(),
        0 <= id < world.spawn().counts.len(),
        world.spawn().counts[id] == 0,
{
    if world.has_free() {
        let j = choose|j: int| 0 <= j < world.counts.len() && #[trigger] world.counts[j] == 0;
        if id > j {
            assert(world.counts[j] != 0);
        }
    } else {
        if id < world.counts.len() {
            assert(world.counts[id] == 0);
        }
        let after = world.spawn();
        assert forall|e: usize| e < after.counts.len() implies after.counts[e as int]
            == #[trigger] live_count(after.stores, e) by {
            if e == world.counts.len() {
                assert forall|t: int| 0 <= t < world.stores.len() implies !holds(
                    #[trigger] world.stores[t],
                    e,
                ) by {
                    if holds(world.stores[t], e) {
                        let i = choose|i: int|
                            0 <= i < world.stores[t].len() && (#[trigger] world.stores[t][i]).entity
                                == e;
                        assert(world.stores[t][i].entity < world.counts.len());
                    }
                }
                lemma_live_count_none(world.stores, e);
            }
        }
    }
}

/// Attaching a component keeps the books sound, whether it is accepted or
/// refused.
pub proof fn lemma_attach_inv<C>(
    world: WorldView<C>,
    type_id: usize,
    entity: usize,
    transient: bool,
    value: C,
)
    requires
        world.inv(),
    ensures
        world.attach(type_id, entity, transient, value).inv(),
        world.attach_error(type_id, entity).is_none() ==> world.counts[entity as int]
            < world.stores.len(),
{
    if world.attach_error(type_id, entity).is_none() {
        let after = world.attach(type_id, entity, transient, value);
        let slot = Slot { entity, value };
        let old_store = world.stores[type_id as int];
        let new_store = old_store.push(slot);
        assert forall|e: usize| e < after.counts.len() implies after.counts[e as int]
            == #[trigger] live_count(after.stores, e) by {
            lemma_live_count_update(world.stores, type_id as int, new_store, e);
            lemma_occurrences_push(old_store, slot, e);
            assert(world.counts[e as int] == live_count(world.stores, e));
        }
        assert forall|t: int, i: int|
            0 <= t < after.stores.len() && 0 <= i < after.stores[t].len() implies (
        #[trigger] after.stores[t][i]).entity < after.counts.len() by {
            if t == type_id && i == old_store.len() {
            } else {
                assert(world.stores[t][i].entity < world.counts.len());
            }
        }
        assert forall|t: int| 0 <= t < after.stores.len() implies distinct_entities(
            #[trigger] after.stores[t],
        ) by {
            assert(distinct_entities(world.stores[t]));
            if t == type_id {
                assert forall|i: int, j: int|
                    0 <= i < new_store.len() && 0 <= j < new_store.len() && i != j implies (
                #[trigger] new_store[i]).entity != (#[trigger] new_store[j]).entity by {
                    if i < old_store.len() && j < old_store.len() {
                        assert(old_store[i].entity != old_store[j].entity);
                    } else if i < old_store.len() {
                        assert(old_store[i].entity != entity);
                    } else {
                        assert(old_store[j].entity != entity);
                    }
                }
            }
        }
        lemma_live_count_bound(after.stores, entity);
        assert(after.counts[entity as int] == live_count(after.stores, entity));
    }
}

/// Detaching a component keeps the books sound, whether the entity held one or
/// not; where it held one, its counter was above zero.
pub proof fn lemma_detach_inv<C>(world: WorldView<C>, type_id: usize, entity: usize)
    requires
        world.inv(),
    ensures
        world.detach(type_id, entity).inv(),
        world.detach(type_id, entity).counts.len() == world.counts.len(),
        world.detach(type_id, entity).stores.len() == world.stores.len(),
        world.has(type_id, entity) ==> entity < world.counts.len() && world.counts[entity as int]
            > 0,
{
    if world.has(type_id, entity) {
        let after = world.detach(type_id, entity);
        let old_store = world.stores[type_id as int];
        let new_store = without(old_store, entity);
        let w = choose|w: int| 0 <= w < old_store.len() && (#[trigger] old_store[w]).entity == entity;
        assert(world.stores[type_id as int][w].entity < world.counts.len());
        lemma_live_count_positive(world.stores, type_id as int, entity);
        assert(world.counts[entity as int] == live_count(world.stores, entity));
        lemma_without(old_store, entity);
        assert(distinct_entities(world.stores[type_id as int]));
        assert forall|e: usize| e < after.counts.len() implies after.counts[e as int]
            == #[trigger] live_count(after.stores, e) by {
            lemma_live_count_update(world.stores, type_id as int, new_store, e);
            assert(world.counts[e as int] == live_count(world.stores, e));
            if e == entity {
                lemma_occurrences(old_store, entity);
            } else {
                assert(occurrences(without(old_store, entity), e) == occurrences(old_store, e));
            }
        }
        assert forall|t: int, i: int|
            0 <= t < after.stores.len() && 0 <= i < after.stores[t].len() implies (
        #[trigger] after.stores[t][i]).entity < after.counts.len() by {
            if t == type_id {
                assert(old_store.contains(new_store[i]));
                let j = choose|j: int| 0 <= j < old_store.len() && old_store[j] == new_store[i];
                assert(world.stores[t][j].entity < world.counts.len());
            } else {
                assert(world.stores[t][i].entity < world.counts.len());
            }
        }
        assert forall|t: int| 0 <= t < after.stores.len() implies distinct_entities(
            #[trigger] after.stores[t],
        ) by {
            assert(distinct_entities(world.stores[t]));
        }
    }
}

/// Detaching a list of pairs keeps the books sound and changes neither the
/// number of entities nor the number of stores nor the registry.
pub proof fn lemma_detach_each_inv<C>(world: WorldView<C>, pairs: Seq<(usize, usize)>)
    requires
        world.inv(),
    ensures
        world.detach_each(pairs).inv(),
        world.detach_each(pairs).counts.len() == world.counts.len(),
        world.detach_each(pairs).stores.len() == world.stores.len(),
        world.detach_each(pairs).transient == world.transient,
    decreases pairs.len(),
{
    if pairs.len() > 0 {
        lemma_detach_each_inv(world, pairs.drop_last());
        lemma_detach_inv(world.detach_each(pairs.drop_last()), pairs.last().1, pairs.last().0);
    }
}

/// The purge at the end of a tick keeps the books sound.
pub proof fn lemma_purge_inv<C>(world: WorldView<C>)
    requires
        world.inv(),
    ensures
        world.purge().inv(),
        world.purge().counts.len() == world.counts.len(),
        world.purge().stores.len() == world.stores.len(),
{
    lemma_detach_each_inv(world, world.transient);
}

/// Detaching a component type that the entity does not hold changes nothing:
/// neither a store nor a counter, and so neither number of the statistics.
pub proof fn lemma_detach_absent<C>(world: WorldView<C>, type_id: usize, entity: usize)
    requires
        !world.has(type_id, entity),
    ensures
        world.detach(type_id, entity) == world,
{
}

/// Replacing the value of a component keeps the books sound, whatever the new
/// value is.
pub proof fn lemma_write_inv<C>(world: WorldView<C>, type_id: usize, entity: usize)
    requires
        world.inv(),
    ensures
        forall|value: C| (#[trigger] world.write(type_id, entity, value)).inv(),
{
    assert forall|value: C| (#[trigger] world.write(type_id, entity, value)).inv() by {
        if world.has(type_id, entity) {
            let after = world.write(type_id, entity, value);
            let old_store = world.stores[type_id as int];
            lemma_position(old_store, entity);
            let p = position(old_store, entity);
            let new_store = old_store.update(p, Slot { entity, value });
            assert forall|e: usize| occurrences(new_store, e) == occurrences(old_store, e) by {
                lemma_occurrences_update(old_store, p, Slot { entity, value }, e);
            }
            assert forall|e: usize| e < after.counts.len() implies after.counts[e as int]
                == #[trigger] live_count(after.stores, e) by {
                lemma_live_count_update(world.stores, type_id as int, new_store, e);
                assert(world.counts[e as int] == live_count(world.stores, e));
            }
            assert forall|t: int, i: int|
                0 <= t < after.stores.len() && 0 <= i < after.stores[t].len() implies (
            #[trigger] after.stores[t][i]).entity < after.counts.len() by {
                assert(world.stores[t][i].entity < world.counts.len());
            }
            assert forall|t: int| 0 <= t < after.stores.len() implies distinct_entities(
                #[trigger] after.stores[t],
            ) by {
                assert(distinct_entities(world.stores[t]));
                if t == type_id {
                    assert forall|i: int, j: int|
                        0 <= i < new_store.len() && 0 <= j < new_store.len() && i != j implies (
                    #[trigger] new_store[i]).entity != (#[trigger] new_store[j]).entity by {
                        assert(old_store[i].entity != old_store[j].entity);
                    }
                }
            }
        }
    }
}

/// One thing that can be done to a world.
pub enum Op<C> {
    /// An entity is created.
    Spawn,
    /// A component is attached.
    Attach { type_id: usize, entity: usize, transient: bool, value: C },
    /// A component is detached.
    Detach { type_id: usize, entity: usize },
    /// The value of a component is replaced.
    Write { type_id: usize, entity: usize, value: C },
    /// The tick ends.
    Purge,
}

/// The world after `op`.
pub open spec fn apply<C>(world: WorldView<C>, op: Op<C>) -> WorldView<C> {
    match op {
        Op::Spawn => world.spawn(),
        Op::Attach { type_id, entity, transient, value } => world.attach(
            type_id,
            entity,
            transient,
            value,
        ),
        Op::Detach { type_id, entity } => world.detach(type_id, entity),
        Op::Write { type_id, entity, value } => world.write(type_id, entity, value),
        Op::Purge => world.purge(),
    }
}

/// The world after each of `ops`, first to last.
pub open spec fn apply_all<C>(world: WorldView<C>, ops: Seq<Op<C>>) -> WorldView<C>
    decreases ops.len(),
{
    if ops.len() == 0 {
        world
    } else {
        apply(apply_all(world, ops.drop_last()), ops.last())
    }
}

/// Whatever is done to a world that keeps sound books, in whatever order, the
/// books stay sound: the counter of every entity equals the number of store
/// entries that belong to it.
pub proof fn lemma_counts_match_stores<C>(world: WorldView<C>, ops: Seq<Op<C>>)
    requires
        world.inv(),
    ensures
        apply_all(world, ops).inv(),
        forall|e: usize|
            e < apply_all(world, ops).counts.len() ==> apply_all(world, ops).counts[e as int]
                == #[trigger] live_count(apply_all(world, ops).stores, e),
    decreases ops.len(),
{
    if ops.len() > 0 {
        let before = apply_all(world, ops.drop_last());
        lemma_counts_match_stores(world, ops.drop_last());
        match ops.last() {
            Op::Spawn => {
                if before.has_free() {
                } else {
                    assert(before.is_lowest_free(before.counts.len() as int));
                    lemma_spawn_inv(before, before.counts.len() as int);
                }
            },
            Op::Attach { type_id, entity, transient, value } => {
                lemma_attach_inv(before, type_id, entity, transient, value);
            },
            Op::Detach { type_id, entity } => {
                lemma_detach_inv(before, type_id, entity);
            },
            Op::Write { type_id, entity, value } => {
                lemma_write_inv(before, type_id, entity);
            },
            Op::Purge => {
                lemma_purge_inv(before);
            },
        }
    }
}

/// From its creation on, whatever is done to it, a world keeps sound books.
pub proof fn lemma_sound_from_creation<C>(type_count: nat, ops: Seq<Op<C>>)
    ensures
        apply_all(WorldView::<C>::empty(type_count), ops).inv(),
{
    lemma_empty_inv::<C>(type_count);
    lemma_counts_match_stores(WorldView::<C>::empty(type_count), ops);
}

/// In a world with sound books an entity whose counter is zero holds no
/// component: no entity is handed out while a component still belongs to it.
pub proof fn lemma_free_holds_nothing<C>(world: WorldView<C>, entity: usize)
    requires
        world.inv(),
        entity < world.counts.len(),
        world.counts[entity as int] == 0,
    ensures
        forall|t: usize| !world.has(t, entity),
{
    assert forall|t: usize| !world.has(t, entity) by {
        if world.has(t, entity) {
            lemma_live_count_positive(world.stores, t as int, entity);
            assert(world.counts[entity as int] == live_count(world.stores, entity));
        }
    }
}

/// Only one entity can be the one that creation hands out. So an entity
/// without components is handed out again as soon as every entity below it
/// owns a component.
pub proof fn lemma_reuse<C>(world: WorldView<C>, id: int, free: int)
    requires
        world.is_lowest_free(id),
        0 <= free < world.counts.len(),
        world.counts[free] == 0,
        forall|j: int| 0 <= j < free ==> #[trigger] world.counts[j] != 0,
    ensures
        id == free,
{
    if id < free {
        assert(world.counts[id] != 0);
    } else if free < id {
        assert(world.counts[free] != 0);
    }
}

/// Detaching a component type that the entity does not hold leaves the
/// statistics as they were.
pub proof fn lemma_detach_absent_stat<C>(world: WorldView<C>, type_id: usize, entity: usize)
    requires
        !world.has(type_id, entity),
    ensures
        world.detach(type_id, entity).stat() == world.stat(),
{
}

/// An entity is among the owners of a store exactly when the store holds it.
pub proof fn lemma_owners<C>(store: Seq<Slot<C>>, entity: usize)
    ensures
        entities_of(store).contains(entity) <==> holds(store, entity),
        distinct_entities(store) ==> entities_of(store).no_duplicates(),
{
    let owners = entities_of(store);
    if owners.contains(entity) {
        let i = choose|i: int| 0 <= i < owners.len() && owners[i] == entity;
        assert(store[i].entity == entity);
    }
    if holds(store, entity) {
        let i = choose|i: int| 0 <= i < store.len() && (#[trigger] store[i]).entity == entity;
        assert(owners[i] == entity);
    }
    if distinct_entities(store) {
        assert forall|i: int, j: int|
            0 <= i < owners.len() && 0 <= j < owners.len() && i != j implies owners[i]
            != owners[j] by {
            assert(store[i].entity != store[j].entity);
        }
    }
}

/// A query that names at least one type finds exactly the entities that hold
/// a component of every type it names.
pub proof fn lemma_matches<C>(world: WorldView<C>, query: Seq<usize>, entity: usize)
    requires
        query.len() > 0,
        world.knows(query),
    ensures
        world.matches(query).contains(entity) <==> world.has_each(
            query,
            0,
            query.len() as int,
            entity,
        ),
{
    let first = world.stores[query[0] as int];
    let rest = |e: usize| world.has_each(query, 1, query.len() as int, e);
    lemma_filter_members(entities_of(first), rest, entity);
    lemma_owners(first, entity);
    if world.has_each(query, 0, query.len() as int, entity) {
        assert(world.has(query[0], entity));
    }
    if world.has(query[0], entity) && rest(entity) {
        assert forall|k: int| 0 <= k < query.len() implies world.has(#[trigger] query[k], entity) by {
            if k == 0 {
            }
        }
    }
}

/// In a world with sound books no query finds an entity twice, provided the
/// type it names first is one of the world's.
pub proof fn lemma_matches_distinct<C>(world: WorldView<C>, query: Seq<usize>)
    requires
        world.inv(),
        query.len() > 0 ==> query[0] < world.stores.len(),
    ensures
        world.matches(query).no_duplicates(),
{
    if query.len() > 0 {
        let first = world.stores[query[0] as int];
        assert(distinct_entities(first));
        lemma_owners(first, 0);
        lemma_filter_distinct(
            entities_of(first),
            |e: usize| world.has_each(query, 1, query.len() as int, e),
        );
    }
}

/// The order in which a query names its types does not change the set of
/// entities it finds: two queries that name the same types find the same
/// entities. Only the order of the result differs, which is that of the
/// store of the type named first.
pub proof fn lemma_query_order<C>(world: WorldView<C>, one: Seq<usize>, other: Seq<usize>)
    requires
        one.len() > 0,
        other.len() > 0,
        world.knows(one),
        world.knows(other),
        one.to_set() == other.to_set(),
    ensures
        world.matches(one).to_set() == world.matches(other).to_set(),
{
    assert forall|e: usize| world.matches(one).contains(e) <==> world.matches(other).contains(
        e,
    ) by {
        lemma_matches(world, one, e);
        lemma_matches(world, other, e);
        if world.has_each(one, 0, one.len() as int, e) {
            lemma_same_types(world, one, other, e);
        }
        if world.has_each(other, 0, other.len() as int, e) {
            lemma_same_types(world, other, one, e);
        }
    }
    assert(world.matches(one).to_set() =~= world.matches(other).to_set());
}

proof fn lemma_same_types<C>(world: WorldView<C>, one: Seq<usize>, other: Seq<usize>, e: usize)
    requires
        one.to_set() == other.to_set(),
        world.has_each(one, 0, one.len() as int, e),
    ensures
        world.has_each(other, 0, other.len() as int, e),
{
    assert forall|k: int| 0 <= k < other.len() implies world.has(#[trigger] other[k], e) by {
        assert(other.contains(other[k]));
        assert(other.to_set().contains(other[k]));
        assert(one.to_set().contains(other[k]));
        assert(one.contains(other[k]));
        let j = choose|j: int| 0 <= j < one.len() && one[j] == other[k];
        assert(world.has(one[j], e));
    }
}

/// Whether the entry `slot` of the store of type `type_id` stays when `pairs`
/// are detached: whether no pair names its entity and the type.
pub open spec fn stays<C>(pairs: Seq<(usize, usize)>, type_id: usize, slot: Slot<C>) -> bool {
    !pairs.contains((slot.entity, type_id))
}

/// Detaching a list of pairs takes from each store exactly the entries that a
/// pair names, and leaves the others in their order.
pub proof fn lemma_detach_each_stores<C>(
    world: WorldView<C>,
    pairs: Seq<(usize, usize)>,
    type_id: usize,
)
    requires
        type_id < world.stores.len(),
    ensures
        world.detach_each(pairs).stores.len() == world.stores.len(),
        world.detach_each(pairs).stores[type_id as int] == world.stores[type_id as int].filter(
            |slot: Slot<C>| stays(pairs, type_id, slot),
        ),
    decreases pairs.len(),
{
    let store = world.stores[type_id as int];
    let kept = |slot: Slot<C>| stays(pairs, type_id, slot);
    if pairs.len() == 0 {
        lemma_filter_all(store, kept);
    } else {
        let front = pairs.drop_last();
        let last = pairs.last();
        lemma_detach_each_stores(world, front, type_id);
        let before = world.detach_each(front);
        let kept_before = |slot: Slot<C>| stays(front, type_id, slot);
        let other = |slot: Slot<C>| last.1 != type_id || slot.entity != last.0;
        assert forall|slot: Slot<C>| #[trigger] kept(slot) == (kept_before(slot) && other(slot)) by {
            assert(pairs =~= front.push(last));
            if front.contains((slot.entity, type_id)) {
                let k = choose|k: int| 0 <= k < front.len() && front[k] == (slot.entity, type_id);
                assert(pairs[k] == (slot.entity, type_id));
            }
            if pairs.contains((slot.entity, type_id)) {
                let k = choose|k: int| 0 <= k < pairs.len() && pairs[k] == (slot.entity, type_id);
                if k < front.len() {
                    assert(front[k] == (slot.entity, type_id));
                }
            }
            if last == (slot.entity, type_id) {
                assert(pairs[pairs.len() - 1] == (slot.entity, type_id));
            }
        }
        lemma_filter_twice(store, kept_before, other, kept);
        let middle = before.stores[type_id as int];
        if last.1 == type_id {
            let gone = |slot: Slot<C>| slot.entity != last.0;
            lemma_filter_same(middle, gone, other);
            lemma_without(middle, last.0);
        } else {
            lemma_filter_all(middle, other);
        }
    }
}

/// The purge at the end of a tick takes from each store exactly the entries
/// whose entity and type the registry names, leaves the others in their
/// order, and empties the registry.
pub proof fn lemma_purge_stores<C>(world: WorldView<C>, type_id: usize)
    requires
        type_id < world.stores.len(),
    ensures
        world.purge().transient.len() == 0,
        world.purge().stores[type_id as int] == world.stores[type_id as int].filter(
            |slot: Slot<C>| stays(world.transient, type_id, slot),
        ),
{
    lemma_detach_each_stores(world, world.transient, type_id);
}

/// What detaching a list of pairs does to one entity and one of its component
/// types, where every pair that names the entity names that type or a type
/// that the entity does not hold: the entity keeps its other components, and
/// it loses the component of that type, and one from its counter, exactly
/// where a pair names the two.
pub proof fn lemma_detach_each_one<C>(
    world: WorldView<C>,
    pairs: Seq<(usize, usize)>,
    type_id: usize,
    entity: usize,
)
    requires
        world.inv(),
        entity < world.counts.len(),
        forall|k: int|
            0 <= k < pairs.len() && (#[trigger] pairs[k]).0 == entity ==> pairs[k].1 == type_id
                || !world.has(pairs[k].1, entity),
    ensures
        world.detach_each(pairs).inv(),
        world.detach_each(pairs).counts.len() == world.counts.len(),
        forall|t: usize|
            t != type_id ==> world.detach_each(pairs).has(t, entity) == world.has(t, entity),
        world.detach_each(pairs).has(type_id, entity) == (world.has(type_id, entity)
            && !pairs.contains((entity, type_id))),
        world.detach_each(pairs).counts[entity as int] == world.counts[entity as int] - if world.has(
            type_id,
            entity,
        ) && pairs.contains((entity, type_id)) {
            1int
        } else {
            0int
        },
    decreases pairs.len(),
{
    if pairs.len() > 0 {
        let front = pairs.drop_last();
        let last = pairs.last();
        assert forall|k: int| 0 <= k < front.len() && (#[trigger] front[k]).0 == entity implies front[k].1
            == type_id || !world.has(front[k].1, entity) by {
            assert(front[k] == pairs[k]);
        }
        lemma_detach_each_one(world, front, type_id, entity);
        let before = world.detach_each(front);
        let after = before.detach(last.1, last.0);
        lemma_detach_inv(before, last.1, last.0);
        assert(pairs[pairs.len() - 1] == last);
        if front.contains((entity, type_id)) {
            let k = choose|k: int| 0 <= k < front.len() && front[k] == (entity, type_id);
            assert(pairs[k] == (entity, type_id));
        }
        if pairs.contains((entity, type_id)) && last != (entity, type_id) {
            let k = choose|k: int| 0 <= k < pairs.len() && pairs[k] == (entity, type_id);
            assert(front[k] == (entity, type_id));
        }
        if before.has(last.1, last.0) {
            let store = before.stores[last.1 as int];
            lemma_without(store, last.0);
            lemma_occurrences(store, entity);
            lemma_occurrences(without(store, last.0), entity);
            if last.0 != entity {
                assert(occurrences(without(store, last.0), entity) == occurrences(store, entity));
            }
            assert forall|t: usize| t != last.1 implies after.has(t, entity) == before.has(
                t,
                entity,
            ) by {}
        }
    }
}

/// A component that was attached as transient is found by queries until the
/// tick ends and by none after it, and the purge lowers the counter of its
/// entity by exactly one. This holds unless the registry names another
/// component that the entity holds: that one leaves at the purge too.
pub proof fn lemma_transient_purge<C>(
    world: WorldView<C>,
    type_id: usize,
    entity: usize,
    value: C,
    query: Seq<usize>,
)
    requires
        world.inv(),
        world.attach_error(type_id, entity).is_none(),
        forall|k: int|
            0 <= k < world.transient.len() && (#[trigger] world.transient[k]).0 == entity
                ==> world.transient[k].1 == type_id || !world.has(world.transient[k].1, entity),
        query.len() > 0,
        world.knows(query),
        query.contains(type_id),
    ensures
        ({
            let during = world.attach(type_id, entity, true, value);
            let after = during.purge();
            &&& during.has(type_id, entity)
            &&& during.matches(query).contains(entity) <==> during.has_each(
                query,
                0,
                query.len() as int,
                entity,
            )
            &&& !after.has(type_id, entity)
            &&& !after.matches(query).contains(entity)
            &&& after.counts[entity as int] == during.counts[entity as int] - 1
            &&& forall|t: usize| t != type_id ==> after.has(t, entity) == world.has(t, entity)
        }),
{
    let during = world.attach(type_id, entity, true, value);
    let after = during.purge();
    lemma_attach_inv(world, type_id, entity, true, value);
    let grown = during.stores[type_id as int];
    assert(grown[grown.len() - 1].entity == entity);
    assert(during.has(type_id, entity));
    lemma_matches(during, query, entity);
    let pairs = during.transient;
    assert(pairs[pairs.len() - 1] == (entity, type_id));
    assert forall|t: usize| t != type_id implies during.has(t, entity) == world.has(t, entity) by {}
    assert forall|k: int| 0 <= k < pairs.len() && (#[trigger] pairs[k]).0 == entity implies pairs[k].1
        == type_id || !during.has(pairs[k].1, entity) by {
        if k < world.transient.len() {
            assert(pairs[k] == world.transient[k]);
        }
    }
    lemma_detach_each_one(during, pairs, type_id, entity);
    lemma_purge_inv(during);
    lemma_matches(after, query, entity);
    if after.has_each(query, 0, query.len() as int, entity) {
        let k = choose|k: int| 0 <= k < query.len() && query[k] == type_id;
        assert(after.has(query[k], entity));
    }
}

} // verus!
