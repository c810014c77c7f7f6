//! Association lists whose keys occur at most once, read as finite maps.

use vstd::prelude::*;

verus! {

/// The map that the pairs `s` spell, later pairs overriding earlier ones.
pub open spec fn assoc_map<K, V>(s: Seq<(K, V)>) -> Map<K, V>
    decreases s.len(),
{
    if s.len() == 0 {
        Map::empty()
    } else {
        assoc_map(s.drop_last()).insert(s.last().0, s.last().1)
    }
}

/// No key occurs twice.
pub open spec fn keys_distinct<K, V>(s: Seq<(K, V)>) -> bool {
    forall|i: int, j: int| 0 <= i < j < s.len() ==> (#[trigger] s[i]).0 != (#[trigger] s[j]).0
}

proof fn lemma_distinct_drop_last<K, V>(s: Seq<(K, V)>)
    requires
        s.len() > 0,
        keys_distinct(s),
    ensures
        keys_distinct(s.drop_last()),
{
    let sp = s.drop_last();
    assert forall|i: int, j: int| 0 <= i < j < sp.len() implies (#[trigger] sp[i]).0 != (#[trigger] sp[j]).0 by {
        assert(sp[i] == s[i] && sp[j] == s[j]);
    }
}

/// A key is in the map exactly when some pair has it, and then it maps to that pair's value.
pub proof fn lemma_assoc_lookup<K, V>(s: Seq<(K, V)>, k: K)
    requires
        keys_distinct(s),
    ensures
        forall|i: int| 0 <= i < s.len() && (#[trigger] s[i]).0 == k ==> assoc_map(s).contains_key(k) && assoc_map(s)[k] == s[i].1,
        (forall|i: int| 0 <= i < s.len() ==> (#[trigger] s[i]).0 != k) ==> !assoc_map(s).contains_key(k),
    decreases s.len(),
{
    if s.len() > 0 {
        let sp = s.drop_last();
        lemma_distinct_drop_last(s);
        lemma_assoc_lookup(sp, k);
        assert forall|i: int| 0 <= i < s.len() && (#[trigger] s[i]).0 == k implies assoc_map(s).contains_key(k) && assoc_map(s)[k] == s[i].1 by {
            if i < s.len() - 1 {
                assert(sp[i] == s[i]);
                assert(s[i].0 != s[s.len() - 1].0);
            }
        }
        if forall|i: int| 0 <= i < s.len() ==> (#[trigger] s[i]).0 != k {
            assert forall|i: int| 0 <= i < sp.len() implies (#[trigger] sp[i]).0 != k by { assert(sp[i] == s[i]); }
            assert(s[s.len() - 1].0 != k);
        }
    }
}

/// Replacing the value of the pair at `i` replaces the value of its key.
pub proof fn lemma_assoc_update<K, V>(s: Seq<(K, V)>, i: int, v: V)
    requires
        keys_distinct(s),
        0 <= i < s.len(),
    ensures
        assoc_map(s.update(i, (s[i].0, v))) == assoc_map(s).insert(s[i].0, v),
        keys_distinct(s.update(i, (s[i].0, v))),
    decreases s.len(),
{
    let t = s.update(i, (s[i].0, v));
    assert(keys_distinct(t)) by {
        assert forall|a: int, b: int| 0 <= a < b < t.len() implies (#[trigger] t[a]).0 != (#[trigger] t[b]).0 by {
            assert(t[a].0 == s[a].0 && t[b].0 == s[b].0);
        }
    }
    let sp = s.drop_last();
    lemma_distinct_drop_last(s);
    if i == s.len() - 1 {
        assert(t.drop_last() =~= sp);
        assert(assoc_map(s).insert(s[i].0, v) =~= assoc_map(sp).insert(s[i].0, s[i].1).insert(s[i].0, v));
        assert(assoc_map(t) =~= assoc_map(sp).insert(s[i].0, v));
    } else {
        lemma_assoc_update(sp, i, v);
        assert(t.drop_last() =~= sp.update(i, (sp[i].0, v)));
        assert(s[i].0 != s[s.len() - 1].0);
        assert(assoc_map(t) =~= assoc_map(sp).insert(s[i].0, v).insert(s.last().0, s.last().1));
        assert(assoc_map(s).insert(s[i].0, v) =~= assoc_map(sp).insert(s.last().0, s.last().1).insert(s[i].0, v));
    }
}

/// Adding a pair with a new key adds that key.
pub proof fn lemma_assoc_push<K, V>(s: Seq<(K, V)>, k: K, v: V)
    requires
        keys_distinct(s),
        !assoc_map(s).contains_key(k),
    ensures
        keys_distinct(s.push((k, v))),
        assoc_map(s.push((k, v))) == assoc_map(s).insert(k, v),
{
    let t = s.push((k, v));
    lemma_assoc_lookup(s, k);
    assert forall|a: int, b: int| 0 <= a < b < t.len() implies (#[trigger] t[a]).0 != (#[trigger] t[b]).0 by {
        if b == s.len() {
            assert(t[a] == s[a]);
            if s[a].0 == k {
                assert(assoc_map(s).contains_key(k));
            }
        } else {
            assert(t[a] == s[a] && t[b] == s[b]);
        }
    }
    assert(t.drop_last() =~= s);
}

/// Removing the pair at `i` removes its key.
pub proof fn lemma_assoc_remove<K, V>(s: Seq<(K, V)>, i: int)
    requires
        keys_distinct(s),
        0 <= i < s.len(),
    ensures
        keys_distinct(s.remove(i)),
        assoc_map(s.remove(i)) == assoc_map(s).remove(s[i].0),
    decreases s.len(),
{
    let t = s.remove(i);
    assert forall|a: int, b: int| 0 <= a < b < t.len() implies (#[trigger] t[a]).0 != (#[trigger] t[b]).0 by {
        let a2 = if a < i { a } else { a + 1 };
        let b2 = if b < i { b } else { b + 1 };
        assert(t[a] == s[a2] && t[b] == s[b2]);
    }
    let sp = s.drop_last();
    lemma_distinct_drop_last(s);
    if i == s.len() - 1 {
        assert(t =~= sp);
        lemma_assoc_lookup(sp, s[i].0);
        assert forall|j: int| 0 <= j < sp.len() implies (#[trigger] sp[j]).0 != s[i].0 by {
            assert(sp[j] == s[j]);
        }
        assert(assoc_map(s).remove(s[i].0) =~= assoc_map(sp));
    } else {
        lemma_assoc_remove(sp, i);
        assert(t.drop_last() =~= sp.remove(i));
        assert(t.last() == s.last());
        assert(s[i].0 != s.last().0);
        assert(assoc_map(t) =~= assoc_map(sp).remove(s[i].0).insert(s.last().0, s.last().1));
        assert(assoc_map(s).remove(s[i].0) =~= assoc_map(sp).insert(s.last().0, s.last().1).remove(s[i].0));
    }
}

} // verus!
