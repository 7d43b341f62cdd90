//! Association sequences: a sequence of key-value pairs with pairwise
//! distinct keys, read as a `Map`. The store keeps its counters and its
//! badges as such sequences, so the facts here are proved once and shared.

use vstd::prelude::*;

verus! {

/// The map described by a sequence of key-value pairs. A later pair wins,
/// though under `distinct_keys` the question never arises.
pub open spec fn assoc_map<K, V>(s: Seq<(K, V)>) -> Map<K, V>
    decreases s.len(),
{
    if s.len() == 0 {
        Map::empty()
    } else {
        assoc_map(s.drop_last()).insert(s.last().0, s.last().1)
    }
}

/// No key appears twice.
pub open spec fn distinct_keys<K, V>(s: Seq<(K, V)>) -> bool {
    forall|i: int, j: int| 0 <= i < j < s.len() ==> s[i].0 != s[j].0
}

/// A pair of the sequence is in the map; under distinct keys its value is
/// the one stored there.
pub proof fn lemma_assoc_index<K, V>(s: Seq<(K, V)>, i: int)
    requires
        distinct_keys(s),
        0 <= i < s.len(),
    ensures
        assoc_map(s).contains_key(s[i].0),
        assoc_map(s)[s[i].0] == s[i].1,
    decreases s.len(),
{
    if i == s.len() - 1 {
    } else {
        assert(distinct_keys(s.drop_last())) by {
            assert(forall|p: int, q: int|
                0 <= p < q < s.drop_last().len() ==> s.drop_last()[p].0 != s.drop_last()[q].0);
        }
        lemma_assoc_index(s.drop_last(), i);
        assert(s.drop_last()[i] == s[i]);
        assert(s.last().0 != s[i].0);
    }
}

/// A key is in the map exactly when some pair of the sequence carries it.
pub proof fn lemma_assoc_dom<K, V>(s: Seq<(K, V)>, k: K)
    ensures
        assoc_map(s).contains_key(k) <==> exists|i: int| 0 <= i < s.len() && s[i].0 == k,
    decreases s.len(),
{
    if s.len() == 0 {
    } else {
        lemma_assoc_dom(s.drop_last(), k);
        if s.last().0 == k {
            assert(s[s.len() - 1].0 == k);
        } else {
            if exists|i: int| 0 <= i < s.len() && s[i].0 == k {
                let i = choose|i: int| 0 <= i < s.len() && s[i].0 == k;
                assert(i < s.len() - 1);
                assert(s.drop_last()[i].0 == k);
            }
            if exists|i: int| 0 <= i < s.drop_last().len() && s.drop_last()[i].0 == k {
                let i = choose|i: int| 0 <= i < s.drop_last().len() && s.drop_last()[i].0 == k;
                assert(s[i].0 == k);
            }
        }
    }
}

/// Replacing the pair at `i` by one with the same key updates the map at
/// that key alone.
pub proof fn lemma_assoc_update<K, V>(s: Seq<(K, V)>, i: int, p: (K, V))
    requires
        distinct_keys(s),
        0 <= i < s.len(),
        p.0 == s[i].0,
    ensures
        distinct_keys(s.update(i, p)),
        assoc_map(s.update(i, p)) == assoc_map(s).insert(p.0, p.1),
    decreases s.len(),
{
    assert(distinct_keys(s.update(i, p))) by {
        assert(forall|a: int, b: int|
            0 <= a < b < s.len() ==> s.update(i, p)[a].0 != s.update(i, p)[b].0) by {
            assert(forall|a: int| 0 <= a < s.len() ==> s.update(i, p)[a].0 == s[a].0);
        }
    }
    if i == s.len() - 1 {
        assert(s.update(i, p).drop_last() =~= s.drop_last());
        assert(s.update(i, p).last() == p);
        assert(assoc_map(s.update(i, p)) == assoc_map(s.drop_last()).insert(p.0, p.1));
        assert(assoc_map(s.drop_last()).insert(p.0, p.1)
            =~= assoc_map(s.drop_last()).insert(s.last().0, s.last().1).insert(p.0, p.1));
    } else {
        assert(distinct_keys(s.drop_last())) by {
            assert(forall|a: int, b: int|
                0 <= a < b < s.drop_last().len() ==> s.drop_last()[a].0 != s.drop_last()[b].0);
        }
        lemma_assoc_update(s.drop_last(), i, p);
        assert(s.update(i, p).drop_last() =~= s.drop_last().update(i, p));
        assert(s.update(i, p).last() == s.last());
        assert(assoc_map(s.update(i, p))
            == assoc_map(s.drop_last()).insert(p.0, p.1).insert(s.last().0, s.last().1));
        assert(p.0 != s.last().0);
        assert(assoc_map(s.drop_last()).insert(p.0, p.1).insert(s.last().0, s.last().1)
            =~= assoc_map(s.drop_last()).insert(s.last().0, s.last().1).insert(p.0, p.1));
    }
}

/// Appending a pair with a fresh key inserts it into the map.
pub proof fn lemma_assoc_push<K, V>(s: Seq<(K, V)>, p: (K, V))
    requires
        distinct_keys(s),
        forall|i: int| 0 <= i < s.len() ==> s[i].0 != p.0,
    ensures
        distinct_keys(s.push(p)),
        assoc_map(s.push(p)) == assoc_map(s).insert(p.0, p.1),
{
    assert(s.push(p).drop_last() =~= s);
    assert(s.push(p).last() == p);
    assert(forall|a: int, b: int|
        0 <= a < b < s.push(p).len() ==> s.push(p)[a].0 != s.push(p)[b].0) by {
        assert(forall|a: int| 0 <= a < s.len() ==> s.push(p)[a] == s[a]);
        assert(s.push(p)[s.len() as int] == p);
    }
}

/// Removing the pair at `i` removes its key from the map.
pub proof fn lemma_assoc_remove<K, V>(s: Seq<(K, V)>, i: int)
    requires
        distinct_keys(s),
        0 <= i < s.len(),
    ensures
        distinct_keys(s.remove(i)),
        assoc_map(s.remove(i)) == assoc_map(s).remove(s[i].0),
    decreases s.len(),
{
    assert(distinct_keys(s.remove(i))) by {
        assert(forall|a: int, b: int|
            0 <= a < b < s.remove(i).len() ==> s.remove(i)[a].0 != s.remove(i)[b].0) by {
            assert(forall|a: int|
                0 <= a < s.remove(i).len()
                    ==> s.remove(i)[a] == (if a < i { s[a] } else { s[a + 1] }));
        }
    }
    if i == s.len() - 1 {
        assert(s.remove(i) =~= s.drop_last());
        assert(!assoc_map(s.drop_last()).contains_key(s[i].0)) by {
            lemma_assoc_dom(s.drop_last(), s[i].0);
            assert(forall|a: int| 0 <= a < s.drop_last().len() ==> s.drop_last()[a] == s[a]);
        }
        assert(assoc_map(s.drop_last())
            =~= assoc_map(s.drop_last()).insert(s.last().0, s.last().1).remove(s[i].0));
    } else {
        assert(distinct_keys(s.drop_last())) by {
            assert(forall|a: int, b: int|
                0 <= a < b < s.drop_last().len() ==> s.drop_last()[a].0 != s.drop_last()[b].0);
        }
        lemma_assoc_remove(s.drop_last(), i);
        assert(s.remove(i).drop_last() =~= s.drop_last().remove(i));
        assert(s.remove(i).last() == s.last());
        assert(assoc_map(s.remove(i))
            == assoc_map(s.drop_last()).remove(s[i].0).insert(s.last().0, s.last().1));
        assert(s.drop_last()[i] == s[i]);
        assert(s[i].0 != s.last().0);
        assert(assoc_map(s.drop_last()).remove(s[i].0).insert(s.last().0, s.last().1)
            =~= assoc_map(s.drop_last()).insert(s.last().0, s.last().1).remove(s[i].0));
    }
}

} // verus!
