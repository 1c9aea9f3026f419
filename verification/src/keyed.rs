//! Lists of records with distinct keys, read as finite maps. The engine
//! keeps its registries this way; these lemmas relate edits of a list to
//! edits of its map.

use vstd::prelude::*;

verus! {

/// The map that a list of records stands for: each record's key maps to
/// its value; a later record wins over an earlier one with the same key.
pub open spec fn keyed<T, K, V>(s: Seq<T>, key: spec_fn(T) -> K, val: spec_fn(T) -> V) -> Map<K, V>
    decreases s.len(),
{
    if s.len() == 0 {
        Map::empty()
    } else {
        keyed(s.drop_last(), key, val).insert(key(s.last()), val(s.last()))
    }
}

/// No two records of the list share a key.
pub open spec fn keys_unique<T, K>(s: Seq<T>, key: spec_fn(T) -> K) -> bool {
    forall|i: int, j: int| 0 <= i < j < s.len() ==> key(s[i]) != key(s[j])
}

/// The keyed map of a list: its domain is finite, holds exactly the keys
/// of the records, and maps each key to the value of the last record that
/// has it.
pub proof fn lemma_keyed_facts<T, K, V>(s: Seq<T>, key: spec_fn(T) -> K, val: spec_fn(T) -> V)
    ensures
        keyed(s, key, val).dom().finite(),
        forall|k: K| #[trigger] keyed(s, key, val).contains_key(k) <==> exists|i: int| 0 <= i < s.len() && key(s[i]) == k,
        keys_unique(s, key) ==> keyed(s, key, val).dom().len() == s.len(),
        keys_unique(s, key) ==> forall|i: int| 0 <= i < s.len() ==> #[trigger] keyed(s, key, val)[key(s[i])] == val(s[i]),
    decreases s.len(),
{
    if s.len() > 0 {
        let init = s.drop_last();
        lemma_keyed_facts(init, key, val);
        assert forall|k: K| #[trigger] keyed(s, key, val).contains_key(k) <==> exists|i: int| 0 <= i < s.len() && key(s[i]) == k by {
            if keyed(s, key, val).contains_key(k) && k != key(s.last()) {
                let i = choose|i: int| 0 <= i < init.len() && key(init[i]) == k;
                assert(s[i] == init[i]);
            }
            if exists|i: int| 0 <= i < s.len() && key(s[i]) == k {
                let i = choose|i: int| 0 <= i < s.len() && key(s[i]) == k;
                if i < s.len() - 1 { assert(init[i] == s[i]); }
            }
        }
        if keys_unique(s, key) {
            assert(keys_unique(init, key)) by {
                assert forall|i: int, j: int| 0 <= i < j < init.len() implies key(init[i]) != key(init[j]) by {
                    assert(init[i] == s[i] && init[j] == s[j]);
                }
            }
            assert(!keyed(init, key, val).contains_key(key(s.last()))) by {
                if keyed(init, key, val).contains_key(key(s.last())) {
                    let i = choose|i: int| 0 <= i < init.len() && key(init[i]) == key(s.last());
                    assert(init[i] == s[i]);
                }
            }
            assert forall|i: int| 0 <= i < s.len() implies #[trigger] keyed(s, key, val)[key(s[i])] == val(s[i]) by {
                if i < s.len() - 1 {
                    assert(init[i] == s[i]);
                }
            }
        }
    }
}

/// Replacing a record by one with the same key updates that key's value.
pub proof fn lemma_keyed_update<T, K, V>(s: Seq<T>, key: spec_fn(T) -> K, val: spec_fn(T) -> V, i: int, x: T)
    requires
        keys_unique(s, key),
        0 <= i < s.len(),
        key(s[i]) == key(x),
    ensures
        keys_unique(s.update(i, x), key),
        keyed(s.update(i, x), key, val) == keyed(s, key, val).insert(key(x), val(x)),
{
    let q = s.update(i, x);
    assert(keys_unique(q, key)) by {
        assert forall|a: int, b: int| 0 <= a < b < q.len() implies key(q[a]) != key(q[b]) by {
            assert(key(q[a]) == key(s[a]) && key(q[b]) == key(s[b]));
        }
    }
    lemma_keyed_facts(s, key, val);
    lemma_keyed_facts(q, key, val);
    let m = keyed(s, key, val).insert(key(x), val(x));
    assert forall|k: K| #[trigger] keyed(q, key, val).contains_key(k) <==> m.contains_key(k) by {
        if keyed(q, key, val).contains_key(k) {
            let j = choose|j: int| 0 <= j < q.len() && key(q[j]) == k;
            assert(key(s[j]) == k);
        }
        if keyed(s, key, val).contains_key(k) {
            let j = choose|j: int| 0 <= j < s.len() && key(s[j]) == k;
            assert(key(q[j]) == k);
        }
        if k == key(x) { assert(key(q[i]) == k); }
    }
    assert forall|k: K| keyed(q, key, val).contains_key(k) implies keyed(q, key, val)[k] == m[k] by {
        let j = choose|j: int| 0 <= j < q.len() && key(q[j]) == k;
        assert(keyed(q, key, val)[key(q[j])] == val(q[j]));
        if j != i {
            assert(keyed(s, key, val)[key(s[j])] == val(s[j]));
        }
    }
    assert(keyed(q, key, val) =~= m);
}

/// Appending a record with a new key inserts that key.
pub proof fn lemma_keyed_push<T, K, V>(s: Seq<T>, key: spec_fn(T) -> K, val: spec_fn(T) -> V, x: T)
    requires
        keys_unique(s, key),
        !keyed(s, key, val).contains_key(key(x)),
    ensures
        keys_unique(s.push(x), key),
        keyed(s.push(x), key, val) == keyed(s, key, val).insert(key(x), val(x)),
{
    lemma_keyed_facts(s, key, val);
    let q = s.push(x);
    assert(q.drop_last() =~= s);
    assert(keys_unique(q, key)) by {
        assert forall|a: int, b: int| 0 <= a < b < q.len() implies key(q[a]) != key(q[b]) by {
            assert(q[a] == s[a]);
            if b < s.len() { assert(q[b] == s[b]); }
        }
    }
}

/// Removing a record removes its key.
pub proof fn lemma_keyed_remove<T, K, V>(s: Seq<T>, key: spec_fn(T) -> K, val: spec_fn(T) -> V, i: int)
    requires
        keys_unique(s, key),
        0 <= i < s.len(),
    ensures
        keys_unique(s.remove(i), key),
        keyed(s.remove(i), key, val) == keyed(s, key, val).remove(key(s[i])),
{
    let q = s.remove(i);
    let gone = key(s[i]);
    assert(keys_unique(q, key)) by {
        assert forall|a: int, b: int| 0 <= a < b < q.len() implies key(q[a]) != key(q[b]) by {
            let a2 = if a < i { a } else { a + 1 };
            let b2 = if b < i { b } else { b + 1 };
            assert(q[a] == s[a2] && q[b] == s[b2]);
        }
    }
    lemma_keyed_facts(s, key, val);
    lemma_keyed_facts(q, key, val);
    let m = keyed(s, key, val).remove(gone);
    assert forall|k: K| #[trigger] keyed(q, key, val).contains_key(k) <==> m.contains_key(k) by {
        if keyed(q, key, val).contains_key(k) {
            let j = choose|j: int| 0 <= j < q.len() && key(q[j]) == k;
            let j2 = if j < i { j } else { j + 1 };
            assert(q[j] == s[j2]);
        }
        if keyed(s, key, val).contains_key(k) && k != gone {
            let j = choose|j: int| 0 <= j < s.len() && key(s[j]) == k;
            let j2 = if j < i { j } else { j - 1 };
            assert(q[j2] == s[j]);
        }
    }
    assert forall|k: K| keyed(q, key, val).contains_key(k) implies keyed(q, key, val)[k] == m[k] by {
        let j = choose|j: int| 0 <= j < q.len() && key(q[j]) == k;
        let j2 = if j < i { j } else { j + 1 };
        assert(q[j] == s[j2]);
        assert(keyed(q, key, val)[key(q[j])] == val(q[j]));
        assert(keyed(s, key, val)[key(s[j2])] == val(s[j2]));
    }
    assert(keyed(q, key, val) =~= m);
}

/// When no record has the key, the keyed map lacks it.
pub proof fn lemma_keyed_absent<T, K, V>(s: Seq<T>, key: spec_fn(T) -> K, val: spec_fn(T) -> V, k: K)
    requires
        forall|j: int| 0 <= j < s.len() ==> key(s[j]) != k,
    ensures
        !keyed(s, key, val).contains_key(k),
        keyed(s, key, val).remove(k) == keyed(s, key, val),
{
    lemma_keyed_facts(s, key, val);
    assert(keyed(s, key, val).remove(k) =~= keyed(s, key, val));
}

} // verus!
