//! Lists of key-value pairs, read as maps.

use vstd::prelude::*;

verus! {

/// The map that a list of pairs spells. Of two pairs with one key the later counts.
pub open spec fn as_map<K, V>(pairs: Seq<(K, V)>) -> Map<K, V>
    decreases pairs.len(),
{
    if pairs.len() == 0 {
        Map::empty()
    } else {
        as_map(pairs.drop_last()).insert(pairs.last().0, pairs.last().1)
    }
}

/// No key occurs twice.
pub open spec fn unique_keys<K, V>(pairs: Seq<(K, V)>) -> bool {
    forall|i: int, j: int|
        0 <= i < j < pairs.len() ==> (#[trigger] pairs[i]).0 != (#[trigger] pairs[j]).0
}

/// Pair `i` of the list has the given key.
pub open spec fn key_at<K, V>(pairs: Seq<(K, V)>, i: int, key: K) -> bool {
    0 <= i < pairs.len() && pairs[i].0 == key
}

/// Some pair of the list has the given key.
pub open spec fn has_key<K, V>(pairs: Seq<(K, V)>, key: K) -> bool {
    exists|i: int| key_at(pairs, i, key)
}

/// What the map of a list without repeated keys holds.
pub proof fn lemma_as_map<K, V>(pairs: Seq<(K, V)>)
    requires
        unique_keys(pairs),
    ensures
        forall|key: K| #[trigger] as_map(pairs).contains_key(key) <==> has_key(pairs, key),
        forall|i: int|
            0 <= i < pairs.len() ==> as_map(pairs).contains_key((#[trigger] pairs[i]).0)
                && as_map(pairs)[pairs[i].0] == pairs[i].1,
        as_map(pairs).dom().finite(),
        as_map(pairs).dom().len() == pairs.len(),
    decreases pairs.len(),
{
    if pairs.len() > 0 {
        let before = pairs.drop_last();
        assert forall|i: int, j: int| 0 <= i < j < before.len() implies (#[trigger] before[i]).0
            != (#[trigger] before[j]).0 by {
            assert(before[i] == pairs[i] && before[j] == pairs[j]);
        }
        lemma_as_map(before);
        let n = pairs.len() - 1;
        assert(!as_map(before).contains_key(pairs[n].0)) by {
            if has_key(before, pairs[n].0) {
                let i = choose|i: int| key_at(before, i, pairs[n].0);
                assert(before[i] == pairs[i]);
            }
        }
        assert forall|key: K| #[trigger] as_map(pairs).contains_key(key) <==> has_key(
            pairs,
            key,
        ) by {
            if has_key(before, key) {
                let i = choose|i: int| key_at(before, i, key);
                assert(key_at(pairs, i, key));
            }
            if key == pairs[n].0 {
                assert(key_at(pairs, n, key));
            }
            if has_key(pairs, key) {
                let i = choose|i: int| key_at(pairs, i, key);
                if i < n {
                    assert(key_at(before, i, key));
                }
            }
        }
        assert forall|i: int| 0 <= i < pairs.len() implies as_map(pairs).contains_key(
            (#[trigger] pairs[i]).0,
        ) && as_map(pairs)[pairs[i].0] == pairs[i].1 by {
            if i < n {
                assert(before[i] == pairs[i]);
                assert(pairs[i].0 != pairs[n].0);
            }
        }
    }
}

/// Appending a pair with a new key adds it to the map.
pub proof fn lemma_push<K, V>(pairs: Seq<(K, V)>, key: K, value: V)
    requires
        unique_keys(pairs),
        !as_map(pairs).contains_key(key),
    ensures
        unique_keys(pairs.push((key, value))),
        as_map(pairs.push((key, value))) == as_map(pairs).insert(key, value),
{
    lemma_as_map(pairs);
    let after = pairs.push((key, value));
    assert(after.drop_last() =~= pairs);
    assert forall|i: int, j: int| 0 <= i < j < after.len() implies (#[trigger] after[i]).0 != (
    #[trigger] after[j]).0 by {
        if j == pairs.len() {
            assert(key_at(pairs, i, after[i].0));
        }
    }
}

/// Giving the pair at `at` another value changes that one entry of the map.
pub proof fn lemma_update<K, V>(pairs: Seq<(K, V)>, at: int, value: V)
    requires
        unique_keys(pairs),
        0 <= at < pairs.len(),
    ensures
        unique_keys(pairs.update(at, (pairs[at].0, value))),
        as_map(pairs.update(at, (pairs[at].0, value))) == as_map(pairs).insert(
            pairs[at].0,
            value,
        ),
{
    let after = pairs.update(at, (pairs[at].0, value));
    assert(unique_keys(after)) by {
        assert forall|i: int, j: int| 0 <= i < j < after.len() implies (#[trigger] after[i]).0
            != (#[trigger] after[j]).0 by {
            assert(pairs[i].0 != pairs[j].0);
        }
    }
    lemma_as_map(pairs);
    lemma_as_map(after);
    let want = as_map(pairs).insert(pairs[at].0, value);
    assert forall|key: K| as_map(after).contains_key(key) <==> want.contains_key(key) by {
        if has_key(pairs, key) {
            let i = choose|i: int| key_at(pairs, i, key);
            assert(key_at(after, i, key));
        }
        if has_key(after, key) {
            let i = choose|i: int| key_at(after, i, key);
            assert(key_at(pairs, i, key));
        }
    }
    assert forall|key: K| as_map(after).contains_key(key) implies as_map(after)[key]
        == want[key] by {
        let i = choose|i: int| key_at(after, i, key);
        assert(as_map(after)[after[i].0] == after[i].1);
        assert(as_map(pairs)[pairs[i].0] == pairs[i].1);
        if i != at {
            assert(pairs[i].0 != pairs[at].0);
        }
    }
    assert(as_map(after) =~= want);
}

/// Taking the pair at `at` out of the list removes its key from the map.
pub proof fn lemma_remove<K, V>(pairs: Seq<(K, V)>, at: int)
    requires
        unique_keys(pairs),
        0 <= at < pairs.len(),
    ensures
        unique_keys(pairs.remove(at)),
        as_map(pairs.remove(at)) == as_map(pairs).remove(pairs[at].0),
{
    let after = pairs.remove(at);
    assert(unique_keys(after)) by {
        assert forall|i: int, j: int| 0 <= i < j < after.len() implies (#[trigger] after[i]).0
            != (#[trigger] after[j]).0 by {
            let a = if i < at { i } else { i + 1 };
            let b = if j < at { j } else { j + 1 };
            assert(after[i] == pairs[a] && after[j] == pairs[b]);
        }
    }
    lemma_as_map(pairs);
    lemma_as_map(after);
    let want = as_map(pairs).remove(pairs[at].0);
    assert forall|key: K| as_map(after).contains_key(key) <==> want.contains_key(key) by {
        if has_key(pairs, key) && key != pairs[at].0 {
            let i = choose|i: int| key_at(pairs, i, key);
            assert(key_at(after, if i < at { i } else { i - 1 }, key));
        }
        if has_key(after, key) {
            let i = choose|i: int| key_at(after, i, key);
            let a = if i < at { i } else { i + 1 };
            assert(key_at(pairs, a, key));
            assert(pairs[a].0 != pairs[at].0);
        }
    }
    assert forall|key: K| as_map(after).contains_key(key) implies as_map(after)[key]
        == want[key] by {
        let i = choose|i: int| key_at(after, i, key);
        let a = if i < at { i } else { i + 1 };
        assert(after[i] == pairs[a]);
        assert(as_map(after)[after[i].0] == after[i].1);
        assert(as_map(pairs)[pairs[a].0] == pairs[a].1);
    }
    assert(as_map(after) =~= want);
}

} // verus!
