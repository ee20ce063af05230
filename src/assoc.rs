//! Association lists: sequences of key/value pairs with distinct keys, read
//! as finite maps by their first matching entry.
use vstd::prelude::*;

verus! {

/// No two entries of `s` share a key.
pub open spec fn keys_unique<K, V>(s: Seq<(K, V)>) -> bool {
    forall|i: int, j: int|
        0 <= i < s.len() && 0 <= j < s.len() && i != j ==> #[trigger] s[i].0 != #[trigger] s[j].0
}

/// Some entry of `s` has key `k`.
pub open spec fn has_key<K, V>(s: Seq<(K, V)>, k: K) -> bool {
    exists|i: int| 0 <= i < s.len() && #[trigger] s[i].0 == k
}

/// The value stored under `k`, if any.
pub open spec fn lookup<K, V>(s: Seq<(K, V)>, k: K) -> Option<V> {
    if has_key(s, k) {
        Some(s[choose|i: int| 0 <= i < s.len() && #[trigger] s[i].0 == k].1)
    } else {
        None
    }
}

/// With distinct keys, the entry found at `i` is the one `lookup` reads.
pub proof fn lemma_lookup_at<K, V>(s: Seq<(K, V)>, i: int)
    requires
        keys_unique(s),
        0 <= i < s.len(),
    ensures
        lookup(s, s[i].0) == Some(s[i].1),
{
    assert(has_key(s, s[i].0));
}

/// Replacing the value of an existing entry changes the lookup of its key
/// alone and keeps the keys distinct.
pub proof fn lemma_lookup_update<K, V>(s: Seq<(K, V)>, i: int, v: V)
    requires
        keys_unique(s),
        0 <= i < s.len(),
    ensures
        keys_unique(s.update(i, (s[i].0, v))),
        forall|k: K|
            #[trigger] lookup(s.update(i, (s[i].0, v)), k) == if k == s[i].0 {
                Some(v)
            } else {
                lookup(s, k)
            },
{
    let t = s.update(i, (s[i].0, v));
    assert forall|a: int, b: int|
        0 <= a < t.len() && 0 <= b < t.len() && a != b implies #[trigger] t[a].0
        != #[trigger] t[b].0 by {
        assert(s[a].0 != s[b].0);
    }
    assert forall|k: K| #[trigger] lookup(t, k) == if k == s[i].0 {
        Some(v)
    } else {
        lookup(s, k)
    } by {
        if k == s[i].0 {
            lemma_lookup_at(t, i);
        } else {
            if has_key(s, k) {
                let j = choose|j: int| 0 <= j < s.len() && #[trigger] s[j].0 == k;
                lemma_lookup_at(s, j);
                lemma_lookup_at(t, j);
            } else {
                assert forall|j: int| 0 <= j < t.len() implies #[trigger] t[j].0 != k by {
                    assert(s[j].0 != k);
                }
            }
        }
    }
}

/// Appending an entry under a new key adds that key alone and keeps the keys
/// distinct.
pub proof fn lemma_lookup_push<K, V>(s: Seq<(K, V)>, k: K, v: V)
    requires
        keys_unique(s),
        !has_key(s, k),
    ensures
        keys_unique(s.push((k, v))),
        forall|k2: K|
            #[trigger] lookup(s.push((k, v)), k2) == if k2 == k {
                Some(v)
            } else {
                lookup(s, k2)
            },
{
    let t = s.push((k, v));
    assert forall|a: int, b: int|
        0 <= a < t.len() && 0 <= b < t.len() && a != b implies #[trigger] t[a].0
        != #[trigger] t[b].0 by {
        if a < s.len() && b < s.len() {
            assert(s[a].0 != s[b].0);
        } else if a < s.len() {
            assert(s[a].0 != k);
        } else {
            assert(s[b].0 != k);
        }
    }
    assert forall|k2: K| #[trigger] lookup(t, k2) == if k2 == k {
        Some(v)
    } else {
        lookup(s, k2)
    } by {
        if k2 == k {
            lemma_lookup_at(t, s.len() as int);
        } else {
            if has_key(s, k2) {
                let j = choose|j: int| 0 <= j < s.len() && #[trigger] s[j].0 == k2;
                lemma_lookup_at(s, j);
                lemma_lookup_at(t, j);
            } else {
                assert forall|j: int| 0 <= j < t.len() implies #[trigger] t[j].0 != k2 by {
                    if j < s.len() {
                        assert(s[j].0 != k2);
                    }
                }
            }
        }
    }
}

} // verus!
