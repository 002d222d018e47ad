//! What the batch system decides: which draw calls go together.

use vstd::prelude::*;

verus! {

/// The places of `materials` at which `material` stands, in rising order.
pub open spec fn places_of(materials: Seq<Option<usize>>, material: usize) -> Seq<usize>
    decreases materials.len(),
{
    if materials.len() == 0 {
        Seq::empty()
    } else {
        let before = places_of(materials.drop_last(), material);
        if materials.last() == Some(material) {
            before.push((materials.len() - 1) as usize)
        } else {
            before
        }
    }
}

/// Whether `batches` groups the places of `materials` by material: each
/// batch holds the places of its material, all of them and in rising order;
/// no material has two batches, every material that stands somewhere has
/// one, and the batches come in the order in which their materials first
/// stand.
pub open spec fn groups(
    materials: Seq<Option<usize>>,
    batches: Seq<(usize, Seq<usize>)>,
) -> bool {
    &&& forall|b: int|
        0 <= b < batches.len() ==> (#[trigger] batches[b]).1 == places_of(materials, batches[b].0)
            && batches[b].1.len() > 0
    &&& forall|a: int, b: int|
        0 <= a < b < batches.len() ==> (#[trigger] batches[a]).0 != (#[trigger] batches[b]).0
            && batches[a].1[0] < batches[b].1[0]
    &&& forall|i: int|
        0 <= i < materials.len() && materials[i].is_some() ==> exists|b: int|
            0 <= b < batches.len() && (#[trigger] batches[b]).0 == materials[i].unwrap()
}

/// The materials and places of the batches.
pub open spec fn batch_views(batches: Seq<(usize, Vec<usize>)>) -> Seq<(usize, Seq<usize>)> {
    Seq::new(batches.len(), |b: int| (batches[b].0, batches[b].1@))
}

/// Groups the places of `materials` by the material that stands there; a
/// place without material belongs to no batch.
pub fn batch(materials: &Vec<Option<usize>>) -> (batches: Vec<(usize, Vec<usize>)>)
    ensures
        groups(materials@, batch_views(batches@)),
{
    let mut batches: Vec<(usize, Vec<usize>)> = Vec::new();
    let mut i: usize = 0;
    proof {
        assert(materials@.take(0) =~= Seq::<Option<usize>>::empty());
    }
    while i < materials.len()
        invariant
            i <= materials.len(),
            groups(materials@.take(i as int), batch_views(batches@)),
        decreases materials.len() - i,
    {
        let ghost seen = materials@.take(i as int);
        let ghost next = materials@.take(i + 1);
        let ghost before = batch_views(batches@);
        proof {
            assert(next.drop_last() =~= seen);
            assert(next.last() == materials@[i as int]);
            assert forall|b: int| 0 <= b < before.len() implies (#[trigger] before[b]).1[0] < i by {
                lemma_places_below(seen, before[b].0);
            }
        }
        match materials[i] {
            Some(material) => {
                let mut b: usize = 0;
                while b < batches.len() && batches[b].0 != material
                    invariant
                        b <= batches.len(),
                        before == batch_views(batches@),
                        forall|a: int| 0 <= a < b ==> (#[trigger] before[a]).0 != material,
                    decreases batches.len() - b,
                {
                    b += 1;
                }
                if b < batches.len() {
                    batches[b].1.push(i);
                    proof {
                        let after = batch_views(batches@);
                        assert(after.len() == before.len());
                        assert forall|a: int| 0 <= a < after.len() implies (#[trigger] after[a])
                            == if a == b {
                            (material, before[a].1.push(i))
                        } else {
                            before[a]
                        } by {
                            assert(before[a].0 == after[a].0);
                        }
                        assert forall|c: int| 0 <= c < after.len() implies (#[trigger] after[c]).1
                            == places_of(next, after[c].0) && after[c].1.len() > 0 by {
                            assert(before[c].1 == places_of(seen, before[c].0));
                            if c != b {
                                assert(before[c].0 != before[b as int].0);
                            }
                        }
                        assert forall|a: int, c: int| 0 <= a < c < after.len() implies (
                        #[trigger] after[a]).0 != (#[trigger] after[c]).0 && after[a].1[0]
                            < after[c].1[0] by {
                            assert(before[a].0 != before[c].0 && before[a].1[0] < before[c].1[0]);
                            assert(before[a].1.len() > 0 && before[c].1.len() > 0);
                        }
                        assert forall|k: int| 0 <= k < next.len() && next[k].is_some() implies exists|
                            c: int,
                        |
                            0 <= c < after.len() && (#[trigger] after[c]).0 == next[k].unwrap() by {
                            if k < i {
                                assert(seen[k] == next[k]);
                                let c = choose|c: int|
                                    0 <= c < before.len() && (#[trigger] before[c]).0
                                        == seen[k].unwrap();
                                assert(after[c].0 == next[k].unwrap());
                            } else {
                                assert(after[b as int].0 == material);
                            }
                        }
                    }
                } else {
                    let mut places: Vec<usize> = Vec::new();
                    places.push(i);
                    batches.push((material, places));
                    proof {
                        let after = batch_views(batches@);
                        assert(after =~= before.push((material, seq![i])));
                        lemma_places_absent(seen, before, material);
                        assert(places_of(next, material) =~= seq![i]);
                        assert forall|c: int| 0 <= c < after.len() implies (#[trigger] after[c]).1
                            == places_of(next, after[c].0) && after[c].1.len() > 0 by {
                            if c < before.len() {
                                assert(before[c].1 == places_of(seen, before[c].0));
                                assert(before[c].0 != material);
                            }
                        }
                        assert forall|a: int, c: int| 0 <= a < c < after.len() implies (
                        #[trigger] after[a]).0 != (#[trigger] after[c]).0 && after[a].1[0]
                            < after[c].1[0] by {
                            if c < before.len() {
                                assert(before[a].0 != before[c].0 && before[a].1[0]
                                    < before[c].1[0]);
                            } else {
                                assert(before[a].0 != material);
                                assert(before[a].1[0] < i);
                            }
                        }
                        assert forall|k: int| 0 <= k < next.len() && next[k].is_some() implies exists|
                            c: int,
                        |
                            0 <= c < after.len() && (#[trigger] after[c]).0 == next[k].unwrap() by {
                            if k < i {
                                assert(seen[k] == next[k]);
                                let c = choose|c: int|
                                    0 <= c < before.len() && (#[trigger] before[c]).0
                                        == seen[k].unwrap();
                                assert(after[c].0 == next[k].unwrap());
                            } else {
                                assert(after[after.len() - 1].0 == material);
                            }
                        }
                    }
                }
            },
            None => {
                proof {
                    assert forall|c: int| 0 <= c < before.len() implies (#[trigger] before[c]).1
                        == places_of(next, before[c].0) by {
                        assert(before[c].1 == places_of(seen, before[c].0));
                    }
                    assert forall|k: int| 0 <= k < next.len() && next[k].is_some() implies exists|
                        c: int,
                    |
                        0 <= c < before.len() && (#[trigger] before[c]).0 == next[k].unwrap() by {
                        assert(seen[k] == next[k]);
                    }
                }
            },
        }
        i += 1;
    }
    proof {
        assert(materials@.take(i as int) =~= materials@);
    }
    batches
}

/// Every place at which a material stands lies within the sequence.
proof fn lemma_places_below(materials: Seq<Option<usize>>, material: usize)
    requires
        materials.len() <= usize::MAX,
    ensures
        forall|k: int|
            0 <= k < places_of(materials, material).len() ==> (#[trigger] places_of(
                materials,
                material,
            )[k]) < materials.len(),
    decreases materials.len(),
{
    if materials.len() > 0 {
        lemma_places_below(materials.drop_last(), material);
        let before = places_of(materials.drop_last(), material);
        let places = places_of(materials, material);
        assert forall|k: int| 0 <= k < places.len() implies (#[trigger] places[k])
            < materials.len() by {
            if k < before.len() {
                assert(places[k] == before[k]);
            }
        }
    }
}

/// A material without a batch stands nowhere.
proof fn lemma_places_absent(
    materials: Seq<Option<usize>>,
    batches: Seq<(usize, Seq<usize>)>,
    material: usize,
)
    requires
        groups(materials, batches),
        forall|a: int| 0 <= a < batches.len() ==> (#[trigger] batches[a]).0 != material,
    ensures
        places_of(materials, material) == Seq::<usize>::empty(),
{
    assert forall|k: int| 0 <= k < materials.len() implies materials[k] != Some(material) by {
        if materials[k] == Some(material) {
            let b = choose|b: int|
                0 <= b < batches.len() && (#[trigger] batches[b]).0 == materials[k].unwrap();
            assert(batches[b].0 != material);
        }
    }
    lemma_places_none(materials, material, materials.len() as int);
    assert(materials.take(materials.len() as int) =~= materials);
}

/// A material that stands at none of the first `n` places has no place among
/// them.
proof fn lemma_places_none(materials: Seq<Option<usize>>, material: usize, n: int)
    requires
        0 <= n <= materials.len(),
        forall|k: int| 0 <= k < n ==> materials[k] != Some(material),
    ensures
        places_of(materials.take(n), material) == Seq::<usize>::empty(),
    decreases n,
{
    if n > 0 {
        lemma_places_none(materials, material, n - 1);
        assert(materials.take(n).drop_last() =~= materials.take(n - 1));
        assert(materials.take(n).last() == materials[n - 1]);
    }
}

} // verus!
