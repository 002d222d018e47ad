//! Queries: which entities hold a component of every type in a list.

use vstd::prelude::*;
use crate::ecs::filter::{lemma_filter_all, lemma_filter_twice};
use crate::ecs::laws::lemma_matches_distinct;
use crate::ecs::types::EcsError;
use crate::ecs::world::World;

verus! {

/// A list of component types, bound to the world it asks.
pub struct Query<'a, C> {
    world: &'a World<C>,
    query: Vec<usize>,
}

impl<'a, C> Query<'a, C> {
    /// The world that the query asks.
    pub closed spec fn world(&self) -> &World<C> {
        self.world
    }

    /// The component types named so far, in the order of naming.
    pub closed spec fn types(&self) -> Seq<usize> {
        self.query@
    }

    /// A query on `world` that names no component type yet.
    pub fn new(world: &'a World<C>) -> (query: Self)
        ensures
            query.world() == world,
            query.types() == Seq::<usize>::empty(),
    {
        Query { world, query: Vec::new() }
    }

    /// The query that also names the component type `type_id`.
    pub fn with(self, type_id: usize) -> (query: Self)
        ensures
            query.world() == self.world(),
            query.types() == self.types().push(type_id),
    {
        let mut query = self;
        query.query.push(type_id);
        query
    }

    /// The entities that hold a component of every type named, in the order
    /// of the store of the first type named. A query that names no type
    /// matches no entity; one that names a type the world does not have is
    /// refused.
    pub fn fetch(&self) -> (found: Result<Vec<usize>, EcsError>)
        ensures
            match found {
                Ok(ids) => self.world()@.knows(self.types()) && ids@ == self.world()@.matches(
                    self.types(),
                ),
                Err(e) => e == EcsError::UnknownComponentType && !self.world()@.knows(
                    self.types(),
                ),
            },
            found.is_ok() && self.world().wf() ==> found.unwrap()@.no_duplicates(),
    {
        proof {
            if self.world.wf() && self.world@.knows(self.query@) {
                if self.query@.len() > 0 {
                    assert(self.query@[0] < self.world@.stores.len());
                }
                lemma_matches_distinct(self.world@, self.query@);
            }
        }
        let ghost view = self.world@;
        let ghost types = self.query@;
        let n = self.query.len();
        let mut k: usize = 0;
        while k < n
            invariant
                k <= n,
                n == self.query@.len(),
                forall|j: int| 0 <= j < k ==> (#[trigger] self.query@[j]) < self.world@.stores.len(),
            decreases n - k,
        {
            if self.query[k] >= self.world.type_count() {
                return Err(EcsError::UnknownComponentType);
            }
            k += 1;
        }
        if n == 0 {
            return Ok(Vec::new());
        }
        let mut entities = match self.world.owners(self.query[0]) {
            Ok(ids) => ids,
            Err(e) => {
                return Err(e);
            },
        };
        let ghost first = entities@;
        proof {
            lemma_filter_all(first, |e: usize| view.has_each(types, 1, 1, e));
        }
        let mut k: usize = 1;
        while k < n
            invariant
                1 <= k <= n,
                n == self.query@.len(),
                view == self.world@,
                types == self.query@,
                view.knows(types),
                first == crate::ecs::model::entities_of(view.stores[types[0] as int]),
                entities@ == first.filter(|e: usize| view.has_each(types, 1, k as int, e)),
            decreases n - k,
        {
            let type_id = self.query[k];
            let mut kept: Vec<usize> = Vec::new();
            let mut i: usize = 0;
            let ghost held = |e: usize| view.has(type_id, e);
            proof {
                reveal(Seq::filter);
                assert(entities@.take(0).filter(held) =~= Seq::<usize>::empty());
            }
            while i < entities.len()
                invariant
                    i <= entities.len(),
                    view == self.world@,
                    held == |e: usize| view.has(type_id, e),
                    kept@ == entities@.take(i as int).filter(held),
                decreases entities.len() - i,
            {
                let e = entities[i];
                proof {
                    assert(entities@.take(i + 1) =~= entities@.take(i as int).push(e));
                    entities@.take(i as int).lemma_filter_push(e, held);
                }
                if self.world.has(type_id, e) {
                    kept.push(e);
                }
                i += 1;
            }
            proof {
                assert(entities@.take(i as int) =~= entities@);
                let before = |e: usize| view.has_each(types, 1, k as int, e);
                let after = |e: usize| view.has_each(types, 1, k + 1, e);
                assert forall|e: usize| #[trigger] after(e) == (before(e) && held(e)) by {
                    if before(e) && held(e) {
                        assert forall|j: int| 1 <= j < k + 1 implies view.has(
                            #[trigger] types[j],
                            e,
                        ) by {
                            if j == k {
                            }
                        }
                    }
                    if after(e) {
                        assert(view.has(types[k as int], e));
                    }
                }
                lemma_filter_twice(first, before, held, after);
            }
            entities = kept;
            k += 1;
        }
        Ok(entities)
    }
}

} // verus!
