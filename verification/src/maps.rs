//! Maps built from sequences of entries, where a later entry for a key
//! replaces an earlier one (as repeated `HashMap::insert` does).
use vstd::prelude::*;

verus! {

pub open spec fn last_wins<K, V>(s: Seq<(K, V)>) -> Map<K, V>
    decreases s.len(),
{
    if s.len() == 0 {
        Map::empty()
    } else {
        last_wins(s.drop_last()).insert(s.last().0, s.last().1)
    }
}

/// No key occurs twice.
pub open spec fn unique_keys<K, V>(s: Seq<(K, V)>) -> bool {
    forall|i: int, j: int| 0 <= i < j < s.len() ==> #[trigger] s[i].0 != #[trigger] s[j].0
}

/// A key is in the map exactly when some entry has it, and its value is
/// that of the last such entry.
pub proof fn lemma_last_wins<K, V>(s: Seq<(K, V)>, k: K)
    ensures
        last_wins(s).contains_key(k) <==> exists|j: int| 0 <= j < s.len() && s[j].0 == k,
        forall|i: int|
            0 <= i < s.len() && s[i].0 == k && (forall|j: int| i < j < s.len() ==> s[j].0 != k)
                ==> last_wins(s)[k] == s[i].1,
    decreases s.len(),
{
    if s.len() > 0 {
        let t = s.drop_last();
        lemma_last_wins(t, k);
        if s.last().0 != k {
            assert((exists|j: int| 0 <= j < s.len() && s[j].0 == k) ==> exists|j: int|
                0 <= j < t.len() && t[j].0 == k) by {
                if exists|j: int| 0 <= j < s.len() && s[j].0 == k {
                    let j = choose|j: int| 0 <= j < s.len() && s[j].0 == k;
                    assert(t[j].0 == k);
                }
            }
            assert forall|i: int|
                0 <= i < s.len() && s[i].0 == k && (forall|j: int| i < j < s.len() ==> s[j].0 != k)
                    implies last_wins(s)[k] == s[i].1 by {
                assert(t[i] == s[i]);
                assert forall|j: int| i < j < t.len() implies t[j].0 != k by {
                    assert(t[j] == s[j]);
                }
            }
        } else {
            assert(s[s.len() - 1].0 == k);
        }
    }
}

/// With unique keys, entry `i` is what the map holds for its key.
pub proof fn lemma_last_wins_unique<K, V>(s: Seq<(K, V)>, i: int)
    requires
        unique_keys(s),
        0 <= i < s.len(),
    ensures
        last_wins(s).contains_key(s[i].0),
        last_wins(s)[s[i].0] == s[i].1,
{
    lemma_last_wins(s, s[i].0);
}

/// Replacing the value of entry `i` replaces it in the map.
pub proof fn lemma_last_wins_update<K, V>(s: Seq<(K, V)>, i: int, v: V)
    requires
        unique_keys(s),
        0 <= i < s.len(),
    ensures
        unique_keys(s.update(i, (s[i].0, v))),
        last_wins(s.update(i, (s[i].0, v))) == last_wins(s).insert(s[i].0, v),
{
    let t = s.update(i, (s[i].0, v));
    assert forall|a: int, b: int| 0 <= a < b < t.len() implies #[trigger] t[a].0 != #[trigger] t[b].0 by {
        assert(s[a].0 != s[b].0);
    }
    assert forall|k: K| #[trigger] last_wins(t).contains_key(k) == last_wins(s).insert(
        s[i].0,
        v,
    ).contains_key(k) by {
        lemma_last_wins(t, k);
        lemma_last_wins(s, k);
        if exists|j: int| 0 <= j < s.len() && s[j].0 == k {
            let j = choose|j: int| 0 <= j < s.len() && s[j].0 == k;
            assert(t[j].0 == k);
        }
        if exists|j: int| 0 <= j < t.len() && t[j].0 == k {
            let j = choose|j: int| 0 <= j < t.len() && t[j].0 == k;
            assert(s[j].0 == k);
        }
    }
    assert forall|k: K| #[trigger] last_wins(t).contains_key(k) implies last_wins(t)[k]
        == last_wins(s).insert(s[i].0, v)[k] by {
        lemma_last_wins(t, k);
        lemma_last_wins(s, k);
        let j = choose|j: int| 0 <= j < t.len() && t[j].0 == k;
        assert(forall|m: int| j < m < t.len() ==> t[m].0 != k);
        assert(forall|m: int| j < m < s.len() ==> s[m].0 != k) by {
            assert forall|m: int| j < m < s.len() implies s[m].0 != k by {
                assert(t[m].0 == s[m].0);
            }
        }
        assert(s[j].0 == k);
    }
    assert(last_wins(t) =~= last_wins(s).insert(s[i].0, v));
}

/// Inserting an entry for a new key adds it to the map.
pub proof fn lemma_last_wins_insert<K, V>(s: Seq<(K, V)>, p: int, e: (K, V))
    requires
        unique_keys(s),
        0 <= p <= s.len(),
        forall|j: int| 0 <= j < s.len() ==> s[j].0 != e.0,
    ensures
        unique_keys(s.insert(p, e)),
        last_wins(s.insert(p, e)) == last_wins(s).insert(e.0, e.1),
{
    let t = s.insert(p, e);
    s.insert_ensures(p, e);
    assert forall|a: int, b: int| 0 <= a < b < t.len() implies #[trigger] t[a].0 != #[trigger] t[b].0 by {
        if a < p && b > p {
            assert(t[b] == s[b - 1]);
        } else if a > p {
            assert(t[b] == s[b - 1]);
            assert(t[a] == s[a - 1]);
        } else if a == p {
            assert(t[b] == s[b - 1]);
        } else if b == p {
        }
    }
    assert forall|k: K| #[trigger] last_wins(t).contains_key(k) == last_wins(s).insert(
        e.0,
        e.1,
    ).contains_key(k) by {
        lemma_last_wins(t, k);
        lemma_last_wins(s, k);
        if exists|j: int| 0 <= j < s.len() && s[j].0 == k {
            let j = choose|j: int| 0 <= j < s.len() && s[j].0 == k;
            if j < p {
                assert(t[j].0 == k);
            } else {
                assert(t[j + 1].0 == k);
            }
        }
        if k == e.0 {
            assert(t[p].0 == k);
        }
        if exists|j: int| 0 <= j < t.len() && t[j].0 == k {
            let j = choose|j: int| 0 <= j < t.len() && t[j].0 == k;
            if j < p {
                assert(s[j].0 == k);
            } else if j > p {
                assert(s[j - 1].0 == k);
            }
        }
    }
    assert forall|k: K| #[trigger] last_wins(t).contains_key(k) implies last_wins(t)[k]
        == last_wins(s).insert(e.0, e.1)[k] by {
        lemma_last_wins(t, k);
        lemma_last_wins(s, k);
        let j = choose|j: int| 0 <= j < t.len() && t[j].0 == k;
        assert(forall|m: int| j < m < t.len() ==> t[m].0 != k);
        if j < p {
            assert(s[j] == t[j]);
            assert forall|m: int| j < m < s.len() implies s[m].0 != k by {
                if m < p {
                    assert(t[m] == s[m]);
                } else {
                    assert(t[m + 1] == s[m]);
                }
            }
        } else if j > p {
            assert(s[j - 1] == t[j]);
            assert forall|m: int| j - 1 < m < s.len() implies s[m].0 != k by {
                assert(t[m + 1] == s[m]);
            }
        }
    }
    assert(last_wins(t) =~= last_wins(s).insert(e.0, e.1));
}

/// Mapping the values of the entries maps the values of the map.
pub proof fn lemma_last_wins_map_values<K, V, W>(s: Seq<(K, V)>, f: spec_fn(V) -> W)
    ensures
        last_wins(s.map_values(|e: (K, V)| (e.0, f(e.1)))) == last_wins(s).map_values(f),
    decreases s.len(),
{
    let g = |e: (K, V)| (e.0, f(e.1));
    if s.len() == 0 {
        assert(s.map_values(g) =~= Seq::<(K, W)>::empty());
        assert(last_wins(s).map_values(f) =~= Map::<K, W>::empty());
    } else {
        let t = s.drop_last();
        lemma_last_wins_map_values(t, f);
        assert(s.map_values(g).drop_last() =~= t.map_values(g));
        assert(s.map_values(g).last() == g(s.last()));
        assert(last_wins(s.map_values(g)) =~= last_wins(s).map_values(f));
    }
}

} // verus!
