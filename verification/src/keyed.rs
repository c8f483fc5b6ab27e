use vstd::prelude::*;

verus! {

/// No key occurs twice in a sequence of key/value pairs.
pub open spec fn keys_unique<K, V>(s: Seq<(K, V)>) -> bool {
    forall|i: int, j: int|
        0 <= i < s.len() && 0 <= j < s.len() && i != j ==> #[trigger] s[i].0 != #[trigger] s[j].0
}

/// The map obtained by inserting the pairs of `s` one after the other into an
/// empty map: a later pair overrides an earlier one with the same key.
pub open spec fn pairs_to_map<K, V>(s: Seq<(K, V)>) -> Map<K, V>
    decreases s.len(),
{
    if s.len() == 0 {
        Map::empty()
    } else {
        pairs_to_map(s.drop_last()).insert(s.last().0, s.last().1)
    }
}

/// A key is in `pairs_to_map(s)` exactly when some pair of `s` carries it.
pub proof fn lemma_pairs_to_map_dom<K, V>(s: Seq<(K, V)>)
    ensures
        forall|k: K|
            #[trigger] pairs_to_map(s).contains_key(k) <==> exists|i: int|
                0 <= i < s.len() && #[trigger] s[i].0 == k,
    decreases s.len(),
{
    if s.len() > 0 {
        let p = s.drop_last();
        lemma_pairs_to_map_dom(p);
        assert forall|k: K| #[trigger] pairs_to_map(s).contains_key(k) <==> exists|i: int|
            0 <= i < s.len() && #[trigger] s[i].0 == k by {
            if pairs_to_map(s).contains_key(k) {
                if k == s.last().0 {
                    assert(s[s.len() - 1].0 == k);
                } else {
                    assert(pairs_to_map(p).contains_key(k));
                    let i = choose|i: int| 0 <= i < p.len() && #[trigger] p[i].0 == k;
                    assert(s[i].0 == k);
                }
            }
            if exists|i: int| 0 <= i < s.len() && #[trigger] s[i].0 == k {
                let i = choose|i: int| 0 <= i < s.len() && #[trigger] s[i].0 == k;
                if i < s.len() - 1 {
                    assert(p[i].0 == k);
                    assert(pairs_to_map(p).contains_key(k));
                }
            }
        }
    }
}

/// With unique keys, each pair of `s` is found in `pairs_to_map(s)`.
pub proof fn lemma_pairs_to_map_index<K, V>(s: Seq<(K, V)>, i: int)
    requires
        keys_unique(s),
        0 <= i < s.len(),
    ensures
        pairs_to_map(s).contains_key(s[i].0),
        pairs_to_map(s)[s[i].0] == s[i].1,
    decreases s.len(),
{
    let p = s.drop_last();
    if i < s.len() - 1 {
        assert(keys_unique(p)) by {
            assert forall|a: int, b: int|
                0 <= a < p.len() && 0 <= b < p.len() && a != b implies #[trigger] p[a].0
                != #[trigger] p[b].0 by {
                assert(s[a].0 != s[b].0);
            }
        }
        assert(p[i] == s[i]);
        lemma_pairs_to_map_index(p, i);
        assert(s[i].0 != s[s.len() - 1].0);
    }
}

/// Facts about `pairs_to_map(s)` for a sequence with unique keys, stated for
/// every key at once.
pub proof fn lemma_pairs_to_map_unique<K, V>(s: Seq<(K, V)>)
    requires
        keys_unique(s),
    ensures
        forall|k: K|
            #[trigger] pairs_to_map(s).contains_key(k) <==> exists|i: int|
                0 <= i < s.len() && #[trigger] s[i].0 == k,
        forall|i: int|
            0 <= i < s.len() ==> #[trigger] pairs_to_map(s)[s[i].0] == s[i].1,
{
    lemma_pairs_to_map_dom(s);
    assert forall|i: int| 0 <= i < s.len() implies #[trigger] pairs_to_map(s)[s[i].0] == s[i].1 by {
        lemma_pairs_to_map_index(s, i);
    }
}

/// Appending a pair whose key is new inserts it.
pub proof fn lemma_push_fresh<K, V>(s: Seq<(K, V)>, k: K, v: V)
    requires
        keys_unique(s),
        !pairs_to_map(s).contains_key(k),
    ensures
        keys_unique(s.push((k, v))),
        pairs_to_map(s.push((k, v))) == pairs_to_map(s).insert(k, v),
{
    lemma_pairs_to_map_dom(s);
    let t = s.push((k, v));
    assert(t.drop_last() =~= s);
    assert forall|a: int, b: int|
        0 <= a < t.len() && 0 <= b < t.len() && a != b implies #[trigger] t[a].0
        != #[trigger] t[b].0 by {
        if a == s.len() {
            assert(s[b].0 == t[b].0);
        } else if b == s.len() {
            assert(s[a].0 == t[a].0);
        } else {
            assert(s[a].0 != s[b].0);
        }
    }
}

/// Replacing the value of the pair at index `i` updates its key in the map.
pub proof fn lemma_update_value<K, V>(s: Seq<(K, V)>, i: int, v: V)
    requires
        keys_unique(s),
        0 <= i < s.len(),
    ensures
        keys_unique(s.update(i, (s[i].0, v))),
        pairs_to_map(s.update(i, (s[i].0, v))) == pairs_to_map(s).insert(s[i].0, v),
{
    let t = s.update(i, (s[i].0, v));
    assert(keys_unique(t)) by {
        assert forall|a: int, b: int|
            0 <= a < t.len() && 0 <= b < t.len() && a != b implies #[trigger] t[a].0
            != #[trigger] t[b].0 by {
            assert(t[a].0 == s[a].0 && t[b].0 == s[b].0);
        }
    }
    lemma_pairs_to_map_unique(s);
    lemma_pairs_to_map_unique(t);
    let m = pairs_to_map(s).insert(s[i].0, v);
    assert forall|k: K| #[trigger] pairs_to_map(t).contains_key(k) <==> m.contains_key(k) by {
        if pairs_to_map(t).contains_key(k) {
            let j = choose|j: int| 0 <= j < t.len() && #[trigger] t[j].0 == k;
            assert(s[j].0 == k);
        }
        if m.contains_key(k) && k != s[i].0 {
            let j = choose|j: int| 0 <= j < s.len() && #[trigger] s[j].0 == k;
            assert(t[j].0 == k);
        }
        if k == s[i].0 {
            assert(t[i].0 == k);
        }
    }
    assert forall|k: K| #[trigger] pairs_to_map(t).contains_key(k) implies pairs_to_map(t)[k]
        == m[k] by {
        let j = choose|j: int| 0 <= j < t.len() && #[trigger] t[j].0 == k;
        assert(pairs_to_map(t)[t[j].0] == t[j].1);
        if j != i {
            assert(pairs_to_map(s)[s[j].0] == s[j].1);
        }
    }
    assert(pairs_to_map(t) =~= m);
}

/// Removing the pair at index `i` removes its key from the map.
pub proof fn lemma_remove_at<K, V>(s: Seq<(K, V)>, i: int)
    requires
        keys_unique(s),
        0 <= i < s.len(),
    ensures
        keys_unique(s.remove(i)),
        pairs_to_map(s.remove(i)) == pairs_to_map(s).remove(s[i].0),
{
    let t = s.remove(i);
    assert forall|a: int| 0 <= a < t.len() implies #[trigger] t[a] == (if a < i {
        s[a]
    } else {
        s[a + 1]
    }) by {}
    assert(keys_unique(t)) by {
        assert forall|a: int, b: int|
            0 <= a < t.len() && 0 <= b < t.len() && a != b implies #[trigger] t[a].0
            != #[trigger] t[b].0 by {
            let sa = if a < i { a } else { a + 1 };
            let sb = if b < i { b } else { b + 1 };
            assert(t[a] == s[sa] && t[b] == s[sb]);
            assert(s[sa].0 != s[sb].0);
        }
    }
    lemma_pairs_to_map_unique(s);
    lemma_pairs_to_map_unique(t);
    let m = pairs_to_map(s).remove(s[i].0);
    assert forall|k: K| #[trigger] pairs_to_map(t).contains_key(k) <==> m.contains_key(k) by {
        if pairs_to_map(t).contains_key(k) {
            let j = choose|j: int| 0 <= j < t.len() && #[trigger] t[j].0 == k;
            let sj = if j < i { j } else { j + 1 };
            assert(t[j] == s[sj]);
            assert(s[sj].0 == k);
            assert(sj != i);
            assert(s[sj].0 != s[i].0);
        }
        if m.contains_key(k) {
            let j = choose|j: int| 0 <= j < s.len() && #[trigger] s[j].0 == k;
            assert(j != i);
            let tj = if j < i { j } else { j - 1 };
            assert(t[tj] == s[j]);
            assert(t[tj].0 == k);
        }
    }
    assert forall|k: K| #[trigger] pairs_to_map(t).contains_key(k) implies pairs_to_map(t)[k]
        == m[k] by {
        let j = choose|j: int| 0 <= j < t.len() && #[trigger] t[j].0 == k;
        let sj = if j < i { j } else { j + 1 };
        assert(t[j] == s[sj]);
        assert(pairs_to_map(t)[t[j].0] == t[j].1);
        assert(pairs_to_map(s)[s[sj].0] == s[sj].1);
    }
    assert(pairs_to_map(t) =~= m);
}

/// With unique keys, `pairs_to_map(s)` is finite and has one key per pair.
pub proof fn lemma_pairs_to_map_len<K, V>(s: Seq<(K, V)>)
    requires
        keys_unique(s),
    ensures
        pairs_to_map(s).dom().finite(),
        pairs_to_map(s).len() == s.len(),
    decreases s.len(),
{
    if s.len() > 0 {
        let p = s.drop_last();
        assert(keys_unique(p)) by {
            assert forall|a: int, b: int|
                0 <= a < p.len() && 0 <= b < p.len() && a != b implies #[trigger] p[a].0
                != #[trigger] p[b].0 by {
                assert(s[a].0 != s[b].0);
            }
        }
        lemma_pairs_to_map_len(p);
        lemma_pairs_to_map_dom(p);
        if pairs_to_map(p).contains_key(s.last().0) {
            let i = choose|i: int| 0 <= i < p.len() && #[trigger] p[i].0 == s.last().0;
            assert(s[i].0 != s[s.len() - 1].0);
        }
    }
}

} // verus!
