//! Facts about counting the entries of an entity, on which the world's
//! bookkeeping rests.

use vstd::prelude::*;
use crate::ecs::model::{Slot, holds, distinct_entities, without, occurrences, live_count};

verus! {

/// Appending an entry adds one to the count of its entity and to no other.
pub proof fn lemma_occurrences_push<C>(store: Seq<Slot<C>>, slot: Slot<C>, entity: usize)
    ensures
        occurrences(store.push(slot), entity) == occurrences(store, entity) + if slot.entity
            == entity {
            1nat
        } else {
            0nat
        },
{
    store.lemma_filter_push(slot, |s: Slot<C>| s.entity == entity);
}

/// An entity is held exactly when it is counted, and where no entity occurs
/// twice the count is at most one.
pub proof fn lemma_occurrences<C>(store: Seq<Slot<C>>, entity: usize)
    ensures
        holds(store, entity) <==> occurrences(store, entity) > 0,
        distinct_entities(store) ==> occurrences(store, entity) <= 1,
    decreases store.len(),
{
    if store.len() == 0 {
        reveal(Seq::filter);
    } else {
        let front = store.drop_last();
        let last = store.last();
        lemma_occurrences(front, entity);
        lemma_occurrences_push(front, last, entity);
        assert(store =~= front.push(last));
        if holds(front, entity) {
            let i = choose|i: int| 0 <= i < front.len() && (#[trigger] front[i]).entity == entity;
            assert(store[i].entity == entity);
        }
        if holds(store, entity) {
            let i = choose|i: int| 0 <= i < store.len() && (#[trigger] store[i]).entity == entity;
            if i < front.len() {
                assert(front[i].entity == entity);
            }
        }
        if last.entity == entity {
            assert(store[store.len() - 1].entity == entity);
        }
        if distinct_entities(store) {
            assert forall|i: int, j: int|
                0 <= i < front.len() && 0 <= j < front.len() && i != j implies (#[trigger] front[i]).entity
                != (#[trigger] front[j]).entity by {
                assert(store[i].entity != store[j].entity);
            }
            if last.entity == entity && holds(front, entity) {
                let i = choose|i: int|
                    0 <= i < front.len() && (#[trigger] front[i]).entity == entity;
                assert(store[i].entity == store[store.len() - 1].entity);
            }
        }
    }
}

/// What taking an entity out of a store leaves behind.
pub proof fn lemma_without<C>(store: Seq<Slot<C>>, entity: usize)
    ensures
        without(store, entity).len() <= store.len(),
        !holds(store, entity) ==> without(store, entity) == store,
        holds(store, entity) ==> without(store, entity).len() < store.len(),
        forall|i: int|
            0 <= i < without(store, entity).len() ==> (#[trigger] without(store, entity)[i]).entity
                != entity && store.contains(without(store, entity)[i]),
        forall|other: usize|
            other != entity ==> #[trigger] occurrences(without(store, entity), other)
                == occurrences(store, other),
        occurrences(without(store, entity), entity) == 0,
        distinct_entities(store) ==> distinct_entities(without(store, entity)),
    decreases store.len(),
{
    let keep = |s: Slot<C>| s.entity != entity;
    if store.len() == 0 {
        reveal(Seq::filter);
    } else {
        let front = store.drop_last();
        let last = store.last();
        let rest = without(front, entity);
        let out = without(store, entity);
        lemma_without(front, entity);
        assert(store =~= front.push(last));
        front.lemma_filter_push(last, keep);
        assert(out == if last.entity != entity {
            rest.push(last)
        } else {
            rest
        });
        if !holds(store, entity) {
            assert(!holds(front, entity)) by {
                if holds(front, entity) {
                    let i = choose|i: int|
                        0 <= i < front.len() && (#[trigger] front[i]).entity == entity;
                    assert(store[i].entity == entity);
                }
            }
            assert(store[store.len() - 1].entity != entity);
            assert(out =~= store);
        }
        if holds(store, entity) {
            if last.entity != entity {
                let i = choose|i: int|
                    0 <= i < store.len() && (#[trigger] store[i]).entity == entity;
                assert(front[i].entity == entity);
            }
        }
        assert forall|i: int| 0 <= i < out.len() implies (#[trigger] out[i]).entity != entity
            && store.contains(out[i]) by {
            if i < rest.len() {
                assert(out[i] == rest[i]);
                assert(front.contains(rest[i]));
                let j = choose|j: int| 0 <= j < front.len() && front[j] == rest[i];
                assert(store[j] == out[i]);
            } else {
                assert(store[store.len() - 1] == out[i]);
            }
        }
        assert forall|other: usize| other != entity implies #[trigger] occurrences(out, other)
            == occurrences(store, other) by {
            lemma_occurrences_push(front, last, other);
            if last.entity != entity {
                lemma_occurrences_push(rest, last, other);
            }
        }
        lemma_occurrences_push(front, last, entity);
        if last.entity != entity {
            lemma_occurrences_push(rest, last, entity);
        }
        if distinct_entities(store) {
            assert forall|i: int, j: int|
                0 <= i < front.len() && 0 <= j < front.len() && i != j implies (#[trigger] front[i]).entity
                != (#[trigger] front[j]).entity by {
                assert(store[i].entity != store[j].entity);
            }
            assert forall|i: int, j: int|
                0 <= i < out.len() && 0 <= j < out.len() && i != j implies (#[trigger] out[i]).entity
                != (#[trigger] out[j]).entity by {
                if i < rest.len() && j < rest.len() {
                    assert(rest[i].entity != rest[j].entity);
                } else {
                    let inner = if i < rest.len() {
                        i
                    } else {
                        j
                    };
                    assert(front.contains(rest[inner]));
                    let w = choose|w: int| 0 <= w < front.len() && front[w] == rest[inner];
                    assert(store[w].entity != store[store.len() - 1].entity);
                }
            }
        }
    }
}

/// An entity that no store holds has no live component.
pub proof fn lemma_live_count_none<C>(stores: Seq<Seq<Slot<C>>>, entity: usize)
    requires
        forall|t: int| 0 <= t < stores.len() ==> !holds(#[trigger] stores[t], entity),
    ensures
        live_count(stores, entity) == 0,
    decreases stores.len(),
{
    if stores.len() > 0 {
        let front = stores.drop_last();
        assert forall|t: int| 0 <= t < front.len() implies !holds(#[trigger] front[t], entity) by {
            assert(front[t] == stores[t]);
        }
        lemma_live_count_none(front, entity);
        assert(!holds(stores[stores.len() - 1], entity));
        lemma_occurrences(stores.last(), entity);
    }
}

/// Replacing one store changes an entity's live count by the difference of its
/// counts in the old store and in the new one.
pub proof fn lemma_live_count_update<C>(
    stores: Seq<Seq<Slot<C>>>,
    t: int,
    store: Seq<Slot<C>>,
    entity: usize,
)
    requires
        0 <= t < stores.len(),
    ensures
        live_count(stores.update(t, store), entity) + occurrences(stores[t], entity) == live_count(
            stores,
            entity,
        ) + occurrences(store, entity),
    decreases stores.len(),
{
    let after = stores.update(t, store);
    if t == stores.len() - 1 {
        assert(after.drop_last() =~= stores.drop_last());
    } else {
        lemma_live_count_update(stores.drop_last(), t, store, entity);
        assert(after.drop_last() =~= stores.drop_last().update(t, store));
    }
}

/// Where no store holds an entity twice, the entity has at most as many live
/// components as there are stores.
pub proof fn lemma_live_count_bound<C>(stores: Seq<Seq<Slot<C>>>, entity: usize)
    requires
        forall|t: int| 0 <= t < stores.len() ==> distinct_entities(#[trigger] stores[t]),
    ensures
        live_count(stores, entity) <= stores.len(),
    decreases stores.len(),
{
    if stores.len() > 0 {
        let front = stores.drop_last();
        assert forall|t: int| 0 <= t < front.len() implies distinct_entities(#[trigger] front[t]) by {
            assert(front[t] == stores[t]);
        }
        lemma_live_count_bound(front, entity);
        assert(distinct_entities(stores[stores.len() - 1]));
        lemma_occurrences(stores.last(), entity);
    }
}

/// An entity that some store holds has a live component.
pub proof fn lemma_live_count_positive<C>(stores: Seq<Seq<Slot<C>>>, t: int, entity: usize)
    requires
        0 <= t < stores.len(),
        holds(stores[t], entity),
    ensures
        live_count(stores, entity) > 0,
    decreases stores.len(),
{
    if t == stores.len() - 1 {
        lemma_occurrences(stores.last(), entity);
    } else {
        assert(stores.drop_last()[t] == stores[t]);
        lemma_live_count_positive(stores.drop_last(), t, entity);
    }
}

/// Replacing an entry by one of the same entity changes no count.
pub proof fn lemma_occurrences_update<C>(
    store: Seq<Slot<C>>,
    i: int,
    slot: Slot<C>,
    entity: usize,
)
    requires
        0 <= i < store.len(),
        store[i].entity == slot.entity,
    ensures
        occurrences(store.update(i, slot), entity) == occurrences(store, entity),
    decreases store.len(),
{
    let after = store.update(i, slot);
    let front = store.drop_last();
    assert(store =~= front.push(store.last()));
    lemma_occurrences_push(front, store.last(), entity);
    if i == store.len() - 1 {
        assert(after =~= front.push(slot));
        lemma_occurrences_push(front, slot, entity);
    } else {
        lemma_occurrences_update(front, i, slot, entity);
        assert(after =~= front.update(i, slot).push(store.last()));
        lemma_occurrences_push(front.update(i, slot), store.last(), entity);
    }
}

} // verus!
