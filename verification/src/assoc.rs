//! Facts about maps described by lists of distinct key-value entries.

use vstd::prelude::*;

verus! {

/// The map that a list of entries describes, later entries overriding
/// earlier ones.
pub open spec fn assoc_map<K, V>(e: Seq<(K, V)>) -> Map<K, V>
    decreases e.len(),
{
    if e.len() == 0 {
        Map::empty()
    } else {
        assoc_map(e.drop_last()).insert(e.last().0, e.last().1)
    }
}

pub open spec fn distinct_keys<K, V>(e: Seq<(K, V)>) -> bool {
    forall|i: int, j: int| 0 <= i < j < e.len() ==> e[i].0 != e[j].0
}

pub proof fn lemma_assoc_dom<K, V>(e: Seq<(K, V)>, k: K)
    ensures
        assoc_map(e).dom().contains(k) <==> exists|i: int| 0 <= i < e.len() && e[i].0 == k,
    decreases e.len(),
{
    if e.len() > 0 {
        lemma_assoc_dom(e.drop_last(), k);
        if assoc_map(e.drop_last()).dom().contains(k) {
            let i = choose|i: int| 0 <= i < e.drop_last().len() && e.drop_last()[i].0 == k;
            assert(e[i].0 == k);
        }
        if exists|i: int| 0 <= i < e.len() && e[i].0 == k {
            let i = choose|i: int| 0 <= i < e.len() && e[i].0 == k;
            if i < e.len() - 1 {
                assert(e.drop_last()[i].0 == k);
            }
        }
    }
}

pub proof fn lemma_assoc_get<K, V>(e: Seq<(K, V)>, i: int)
    requires
        distinct_keys(e),
        0 <= i < e.len(),
    ensures
        assoc_map(e).dom().contains(e[i].0),
        assoc_map(e)[e[i].0] == e[i].1,
    decreases e.len(),
{
    if i < e.len() - 1 {
        assert(e.drop_last()[i] == e[i]);
        lemma_assoc_get(e.drop_last(), i);
    }
}

pub proof fn lemma_assoc_update<K, V>(e: Seq<(K, V)>, i: int, v: V)
    requires
        distinct_keys(e),
        0 <= i < e.len(),
    ensures
        assoc_map(e.update(i, (e[i].0, v))) == assoc_map(e).insert(e[i].0, v),
        distinct_keys(e.update(i, (e[i].0, v))),
    decreases e.len(),
{
    let e2 = e.update(i, (e[i].0, v));
    if i == e.len() - 1 {
        assert(e2.drop_last() =~= e.drop_last());
        assert(assoc_map(e2) =~= assoc_map(e).insert(e[i].0, v));
    } else {
        assert(e2.drop_last() =~= e.drop_last().update(i, (e[i].0, v)));
        lemma_assoc_update(e.drop_last(), i, v);
        assert(e.last().0 != e[i].0);
        assert(assoc_map(e2) =~= assoc_map(e).insert(e[i].0, v));
    }
}

pub proof fn lemma_assoc_push<K, V>(e: Seq<(K, V)>, k: K, v: V)
    requires
        distinct_keys(e),
        !assoc_map(e).dom().contains(k),
    ensures
        assoc_map(e.push((k, v))) == assoc_map(e).insert(k, v),
        distinct_keys(e.push((k, v))),
{
    assert(e.push((k, v)).drop_last() =~= e);
    lemma_assoc_dom(e, k);
}

pub proof fn lemma_assoc_remove<K, V>(e: Seq<(K, V)>, i: int)
    requires
        distinct_keys(e),
        0 <= i < e.len(),
    ensures
        assoc_map(e.remove(i)) == assoc_map(e).remove(e[i].0),
        distinct_keys(e.remove(i)),
    decreases e.len(),
{
    let k = e[i].0;
    if i == e.len() - 1 {
        assert(e.remove(i) =~= e.drop_last());
        lemma_assoc_dom(e.drop_last(), k);
        assert(assoc_map(e.drop_last()) =~= assoc_map(e).remove(k));
    } else {
        assert(e.remove(i).drop_last() =~= e.drop_last().remove(i));
        assert(e.remove(i).last() == e.last());
        lemma_assoc_remove(e.drop_last(), i);
        assert(e.last().0 != k);
        assert(assoc_map(e.remove(i)) =~= assoc_map(e).remove(k));
    }
}

pub proof fn lemma_assoc_absent<K, V>(e: Seq<(K, V)>, k: K)
    requires
        forall|i: int| 0 <= i < e.len() ==> e[i].0 != k,
    ensures
        !assoc_map(e).dom().contains(k),
{
    lemma_assoc_dom(e, k);
}

/// Applying `f` to every value of the entries applies it to every value
/// of the map.
pub proof fn lemma_assoc_map_values<K, V>(e: Seq<(K, V)>, e2: Seq<(K, V)>, f: spec_fn(V) -> V)
    requires
        e2.len() == e.len(),
        forall|i: int| 0 <= i < e.len() ==> (#[trigger] e2[i]).0 == e[i].0 && e2[i].1 == f(e[i].1),
    ensures
        assoc_map(e2) == assoc_map(e).map_values(f),
        distinct_keys(e) ==> distinct_keys(e2),
    decreases e.len(),
{
    if e.len() > 0 {
        lemma_assoc_map_values(e.drop_last(), e2.drop_last(), f);
        assert(assoc_map(e2) =~= assoc_map(e).map_values(f));
    } else {
        assert(assoc_map(e2) =~= assoc_map(e).map_values(f));
    }
}

/// A list of distinct entries describes a finite map of as many keys.
pub proof fn lemma_distinct_len<K, V>(e: Seq<(K, V)>)
    requires
        distinct_keys(e),
    ensures
        assoc_map(e).dom().finite(),
        assoc_map(e).len() == e.len(),
    decreases e.len(),
{
    if e.len() > 0 {
        let d = e.drop_last();
        assert(distinct_keys(d));
        lemma_distinct_len(d);
        lemma_assoc_dom(d, e.last().0);
        if assoc_map(d).dom().contains(e.last().0) {
            let i = choose|i: int| 0 <= i < d.len() && d[i].0 == e.last().0;
            assert(e[i].0 == e[e.len() - 1].0);
        }
    } else {
        assert(assoc_map(e).dom() =~= Set::<K>::empty());
    }
}

} // verus!
