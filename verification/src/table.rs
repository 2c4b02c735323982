//! Maps held as vectors of entries with distinct keys, and the map a
//! vector of entries stands for.
use vstd::prelude::*;

verus! {

/// No two entries share a key.
pub open spec fn keys_unique<E, K>(s: Seq<E>, key: spec_fn(E) -> K) -> bool {
    forall|i: int, j: int|
        0 <= i < s.len() && 0 <= j < s.len() && #[trigger] key(s[i]) == #[trigger] key(s[j]) ==> i == j
}

/// Some entry has key `k`.
pub open spec fn has_key<E, K>(s: Seq<E>, key: spec_fn(E) -> K, k: K) -> bool {
    exists|i: int| 0 <= i < s.len() && #[trigger] key(s[i]) == k
}

/// The map from each key to the view of its entry.
pub open spec fn table<E, K, V>(s: Seq<E>, key: spec_fn(E) -> K, val: spec_fn(E) -> V) -> Map<K, V> {
    Map::new(
        |k: K| has_key(s, key, k),
        |k: K| val(s[choose|i: int| 0 <= i < s.len() && #[trigger] key(s[i]) == k]),
    )
}

pub proof fn lemma_table_at<E, K, V>(s: Seq<E>, key: spec_fn(E) -> K, val: spec_fn(E) -> V, i: int)
    requires
        keys_unique(s, key),
        0 <= i < s.len(),
    ensures
        table(s, key, val).contains_key(key(s[i])),
        table(s, key, val)[key(s[i])] == val(s[i]),
{
    let k = key(s[i]);
    assert(has_key(s, key, k));
    let j = choose|j: int| 0 <= j < s.len() && #[trigger] key(s[j]) == k;
    assert(key(s[j]) == key(s[i]));
}

pub proof fn lemma_table_absent<E, K, V>(s: Seq<E>, key: spec_fn(E) -> K, val: spec_fn(E) -> V, k: K)
    requires
        forall|i: int| 0 <= i < s.len() ==> #[trigger] key(s[i]) != k,
    ensures
        !table(s, key, val).contains_key(k),
{
}

pub proof fn lemma_table_update<E, K, V>(s: Seq<E>, key: spec_fn(E) -> K, val: spec_fn(E) -> V, i: int, e: E)
    requires
        keys_unique(s, key),
        0 <= i < s.len(),
        key(e) == key(s[i]),
    ensures
        keys_unique(s.update(i, e), key),
        table(s.update(i, e), key, val) == table(s, key, val).insert(key(e), val(e)),
{
    let t = s.update(i, e);
    assert forall|a: int, b: int| 0 <= a < t.len() && 0 <= b < t.len() && #[trigger] key(t[a]) == #[trigger] key(t[b]) implies a == b by {
        assert(key(t[a]) == key(s[a]));
        assert(key(t[b]) == key(s[b]));
    }
    let m1 = table(t, key, val);
    let m2 = table(s, key, val).insert(key(e), val(e));
    assert forall|k: K| m1.contains_key(k) <==> m2.contains_key(k) by {
        if has_key(t, key, k) {
            let j = choose|j: int| 0 <= j < t.len() && #[trigger] key(t[j]) == k;
            assert(key(s[j]) == k);
        }
        if has_key(s, key, k) {
            let j = choose|j: int| 0 <= j < s.len() && #[trigger] key(s[j]) == k;
            assert(key(t[j]) == k);
        }
        if k == key(e) {
            assert(key(t[i]) == k);
        }
    }
    assert forall|k: K| m1.contains_key(k) implies m1[k] == m2[k] by {
        lemma_table_at(t, key, val, choose|j: int| 0 <= j < t.len() && #[trigger] key(t[j]) == k);
        let j = choose|j: int| 0 <= j < t.len() && #[trigger] key(t[j]) == k;
        if j != i {
            lemma_table_at(s, key, val, j);
            assert(key(s[j]) == k);
        }
    }
    assert(m1 =~= m2);
}

pub proof fn lemma_table_push<E, K, V>(s: Seq<E>, key: spec_fn(E) -> K, val: spec_fn(E) -> V, e: E)
    requires
        keys_unique(s, key),
        !has_key(s, key, key(e)),
    ensures
        keys_unique(s.push(e), key),
        table(s.push(e), key, val) == table(s, key, val).insert(key(e), val(e)),
{
    let t = s.push(e);
    assert forall|a: int, b: int| 0 <= a < t.len() && 0 <= b < t.len() && #[trigger] key(t[a]) == #[trigger] key(t[b]) implies a == b by {
        if a < s.len() && b < s.len() {
            assert(key(s[a]) == key(s[b]));
        } else if a < s.len() {
            assert(key(s[a]) == key(e));
        } else if b < s.len() {
            assert(key(s[b]) == key(e));
        }
    }
    let m1 = table(t, key, val);
    let m2 = table(s, key, val).insert(key(e), val(e));
    assert forall|k: K| m1.contains_key(k) <==> m2.contains_key(k) by {
        if has_key(t, key, k) {
            let j = choose|j: int| 0 <= j < t.len() && #[trigger] key(t[j]) == k;
            if j < s.len() {
                assert(key(s[j]) == k);
            }
        }
        if has_key(s, key, k) {
            let j = choose|j: int| 0 <= j < s.len() && #[trigger] key(s[j]) == k;
            assert(key(t[j]) == k);
        }
        if k == key(e) {
            assert(key(t[s.len() as int]) == k);
        }
    }
    assert forall|k: K| m1.contains_key(k) implies m1[k] == m2[k] by {
        let j = choose|j: int| 0 <= j < t.len() && #[trigger] key(t[j]) == k;
        lemma_table_at(t, key, val, j);
        if j < s.len() {
            assert(key(s[j]) == k);
            lemma_table_at(s, key, val, j);
        }
    }
    assert(m1 =~= m2);
}

pub proof fn lemma_table_remove<E, K, V>(s: Seq<E>, key: spec_fn(E) -> K, val: spec_fn(E) -> V, i: int)
    requires
        keys_unique(s, key),
        0 <= i < s.len(),
    ensures
        keys_unique(s.remove(i), key),
        table(s.remove(i), key, val) == table(s, key, val).remove(key(s[i])),
{
    let t = s.remove(i);
    assert forall|j: int| 0 <= j < t.len() implies #[trigger] t[j] == s[if j < i { j } else { j + 1 }] by {}
    assert forall|a: int, b: int| 0 <= a < t.len() && 0 <= b < t.len() && #[trigger] key(t[a]) == #[trigger] key(t[b]) implies a == b by {
        let a2 = if a < i { a } else { a + 1 };
        let b2 = if b < i { b } else { b + 1 };
        assert(key(s[a2]) == key(s[b2]));
    }
    let m1 = table(t, key, val);
    let m2 = table(s, key, val).remove(key(s[i]));
    assert forall|k: K| m1.contains_key(k) <==> m2.contains_key(k) by {
        if has_key(t, key, k) {
            let j = choose|j: int| 0 <= j < t.len() && #[trigger] key(t[j]) == k;
            let j2 = if j < i { j } else { j + 1 };
            assert(key(s[j2]) == k);
            assert(j2 != i);
        }
        if has_key(s, key, k) && k != key(s[i]) {
            let j = choose|j: int| 0 <= j < s.len() && #[trigger] key(s[j]) == k;
            assert(j != i);
            let j2 = if j < i { j } else { j - 1 };
            assert(key(t[j2]) == k);
        }
    }
    assert forall|k: K| m1.contains_key(k) implies m1[k] == m2[k] by {
        let j = choose|j: int| 0 <= j < t.len() && #[trigger] key(t[j]) == k;
        lemma_table_at(t, key, val, j);
        let j2 = if j < i { j } else { j + 1 };
        assert(key(s[j2]) == k);
        lemma_table_at(s, key, val, j2);
    }
    assert(m1 =~= m2);
}

/// The part of a map whose values satisfy `keep`.
pub open spec fn map_keep<K, V>(m: Map<K, V>, keep: spec_fn(V) -> bool) -> Map<K, V> {
    Map::new(|k: K| m.contains_key(k) && keep(m[k]), |k: K| m[k])
}

} // verus!
