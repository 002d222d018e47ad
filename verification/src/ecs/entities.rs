//! The entity table: one live-component counter for each entity that was
//! handed out.

use vstd::prelude::*;

verus! {

/// Whether `id` is the lowest index of `counts` that holds zero, or the length
/// of `counts` where no index does.
pub open spec fn lowest_free(counts: Seq<nat>, id: int) -> bool {
    &&& 0 <= id <= counts.len()
    &&& forall|j: int| 0 <= j < id ==> #[trigger] counts[j] != 0
    &&& id < counts.len() ==> counts[id] == 0
}

/// The counters of the entities; an entity's number is its index.
pub struct EntityTable {
    counts: Vec<usize>,
}

impl View for EntityTable {
    type V = Seq<nat>;

    closed spec fn view(&self) -> Seq<nat> {
        self.counts@.map_values(|c: usize| c as nat)
    }
}

impl EntityTable {
    /// A table without entities.
    pub fn new() -> (table: Self)
        ensures
            table@ == Seq::<nat>::empty(),
    {
        let table = EntityTable { counts: Vec::new() };
        assert(table@ =~= Seq::<nat>::empty());
        table
    }

    /// The number of entities that were handed out.
    pub fn len(&self) -> (n: usize)
        ensures
            n == self@.len(),
    {
        self.counts.len()
    }

    /// The counter of `entity`, where it was handed out.
    pub fn count(&self, entity: usize) -> (count: Option<usize>)
        ensures
            match count {
                Some(c) => entity < self@.len() && c == self@[entity as int],
                None => entity >= self@.len(),
            },
    {
        if entity < self.counts.len() {
            Some(self.counts[entity])
        } else {
            None
        }
    }

    /// Hands out the lowest entity whose counter is zero; where there is none,
    /// a new entity with the next number and a counter of zero.
    pub fn allocate(&mut self) -> (id: usize)
        ensures
            lowest_free(old(self)@, id as int),
            final(self)@ == if id < old(self)@.len() {
                old(self)@
            } else {
                old(self)@.push(0)
            },
    {
        let mut i: usize = 0;
        while i < self.counts.len()
            invariant
                i <= self.counts.len(),
                *self == *old(self),
                forall|j: int| 0 <= j < i ==> #[trigger] self@[j] != 0,
            decreases self.counts.len() - i,
        {
            if self.counts[i] == 0 {
                return i;
            }
            i += 1;
        }
        self.counts.push(0);
        assert(self@ =~= old(self)@.push(0));
        i
    }

    /// Adds one to the counter of `entity`.
    pub fn increment(&mut self, entity: usize)
        requires
            entity < old(self)@.len(),
            old(self)@[entity as int] < usize::MAX,
        ensures
            final(self)@ == old(self)@.update(entity as int, old(self)@[entity as int] + 1),
    {
        let c = self.counts[entity];
        self.counts[entity] = c + 1;
        assert(self@ =~= old(self)@.update(entity as int, old(self)@[entity as int] + 1));
    }

    /// Takes one from the counter of `entity`.
    pub fn decrement(&mut self, entity: usize)
        requires
            entity < old(self)@.len(),
            old(self)@[entity as int] > 0,
        ensures
            final(self)@ == old(self)@.update(
                entity as int,
                (old(self)@[entity as int] - 1) as nat,
            ),
    {
        let c = self.counts[entity];
        self.counts[entity] = c - 1;
        assert(self@ =~= old(self)@.update(
            entity as int,
            (old(self)@[entity as int] - 1) as nat,
        ));
    }
}

} // verus!
