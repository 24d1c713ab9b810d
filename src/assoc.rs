//! Lists of key-value pairs read as maps: a later pair wins over an earlier
//! one with the same key. Both caches store their entries this way.

use vstd::prelude::*;

verus! {

/// The map a list of pairs stands for.
pub open spec fn assoc_map<K, V>(es: Seq<(K, V)>) -> Map<K, V>
    decreases es.len(),
{
    if es.len() == 0 {
        Map::empty()
    } else {
        assoc_map(es.drop_last()).insert(es.last().0, es.last().1)
    }
}

/// No key occurs twice.
pub open spec fn keys_distinct<K, V>(es: Seq<(K, V)>) -> bool {
    forall|i: int, j: int| 0 <= i < j < es.len() ==> es[i].0 != es[j].0
}

pub proof fn lemma_assoc_has<K, V>(es: Seq<(K, V)>, i: int)
    requires
        keys_distinct(es),
        0 <= i < es.len(),
    ensures
        assoc_map(es).contains_key(es[i].0),
        assoc_map(es)[es[i].0] == es[i].1,
    decreases es.len(),
{
    if i < es.len() - 1 {
        lemma_assoc_has(es.drop_last(), i);
    }
}

pub proof fn lemma_assoc_lacks<K, V>(es: Seq<(K, V)>, k: K)
    requires
        forall|i: int| 0 <= i < es.len() ==> es[i].0 != k,
    ensures
        !assoc_map(es).contains_key(k),
    decreases es.len(),
{
    if es.len() > 0 {
        lemma_assoc_lacks(es.drop_last(), k);
    }
}

pub proof fn lemma_assoc_push<K, V>(es: Seq<(K, V)>, e: (K, V))
    ensures
        assoc_map(es.push(e)) == assoc_map(es).insert(e.0, e.1),
{
    assert(es.push(e).drop_last() =~= es);
}

pub proof fn lemma_assoc_update<K, V>(es: Seq<(K, V)>, i: int, e: (K, V))
    requires
        keys_distinct(es),
        0 <= i < es.len(),
        e.0 == es[i].0,
    ensures
        assoc_map(es.update(i, e)) == assoc_map(es).insert(e.0, e.1),
    decreases es.len(),
{
    let us = es.update(i, e);
    if i == es.len() - 1 {
        assert(us.drop_last() =~= es.drop_last());
        assert(assoc_map(us) =~= assoc_map(es).insert(e.0, e.1));
    } else {
        assert(us.drop_last() =~= es.drop_last().update(i, e));
        lemma_assoc_update(es.drop_last(), i, e);
        assert(assoc_map(us) =~= assoc_map(es).insert(e.0, e.1));
    }
}

pub proof fn lemma_assoc_remove<K, V>(es: Seq<(K, V)>, i: int)
    requires
        keys_distinct(es),
        0 <= i < es.len(),
    ensures
        assoc_map(es.remove(i)) == assoc_map(es).remove(es[i].0),
    decreases es.len(),
{
    let rs = es.remove(i);
    if i == es.len() - 1 {
        assert(rs =~= es.drop_last());
        assert forall|j: int| 0 <= j < rs.len() implies rs[j].0 != es[i].0 by {
            assert(rs[j] == es[j]);
        }
        lemma_assoc_lacks(rs, es[i].0);
        assert(assoc_map(rs) =~= assoc_map(es).remove(es[i].0));
    } else {
        assert(rs.drop_last() =~= es.drop_last().remove(i));
        assert(rs.last() == es.last());
        lemma_assoc_remove(es.drop_last(), i);
        assert(assoc_map(rs) =~= assoc_map(es).remove(es[i].0));
    }
}

} // verus!
