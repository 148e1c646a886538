//! Ordered association sequences.
//!
//! Several parts of the core keep key/value pairs in insertion order (the
//! registry, the entity identity mapping, per-entity cells and ledgers, the
//! correlator). These spec functions give all of them one vocabulary:
//! lookup by first match, update-or-append, and removal.

use vstd::prelude::*;

verus! {

/// The value stored under the first occurrence of `k`, if any.
pub open spec fn assoc_get<K, V>(s: Seq<(K, V)>, k: K) -> Option<V>
    decreases s.len(),
{
    if s.len() == 0 {
        None
    } else if s[0].0 == k {
        Some(s[0].1)
    } else {
        assoc_get(s.drop_first(), k)
    }
}

/// The position of the first occurrence of `k`, or -1 if `k` is absent.
pub open spec fn assoc_index<K, V>(s: Seq<(K, V)>, k: K) -> int
    decreases s.len(),
{
    if s.len() == 0 {
        -1
    } else if s[0].0 == k {
        0
    } else if assoc_index(s.drop_first(), k) == -1 {
        -1
    } else {
        1 + assoc_index(s.drop_first(), k)
    }
}

/// Whether some pair carries the key `k`.
pub open spec fn assoc_has<K, V>(s: Seq<(K, V)>, k: K) -> bool {
    assoc_get(s, k) is Some
}

/// Store `v` under `k`: overwrite the first pair with key `k`, or append a
/// new pair if `k` is absent. Pair order is preserved.
pub open spec fn assoc_put<K, V>(s: Seq<(K, V)>, k: K, v: V) -> Seq<(K, V)> {
    if assoc_index(s, k) >= 0 {
        s.update(assoc_index(s, k), (k, v))
    } else {
        s.push((k, v))
    }
}

/// Remove the first pair with key `k`, if any. Pair order is preserved.
pub open spec fn assoc_remove<K, V>(s: Seq<(K, V)>, k: K) -> Seq<(K, V)> {
    if assoc_index(s, k) >= 0 {
        s.remove(assoc_index(s, k))
    } else {
        s
    }
}

/// Whether no two pairs of `s` carry the same key.
pub open spec fn unique_keys<K, V>(s: Seq<(K, V)>) -> bool {
    forall|i: int, j: int| 0 <= i < j < s.len() ==> (#[trigger] s[i]).0 != (#[trigger] s[j]).0
}

/// `assoc_put` preserves key uniqueness.
pub proof fn lemma_assoc_put_unique<K, V>(s: Seq<(K, V)>, k: K, v: V)
    requires
        unique_keys(s),
    ensures
        unique_keys(assoc_put(s, k, v)),
{
    lemma_assoc_index(s, k);
}

/// `assoc_remove` preserves key uniqueness.
pub proof fn lemma_assoc_remove_unique<K, V>(s: Seq<(K, V)>, k: K)
    requires
        unique_keys(s),
    ensures
        unique_keys(assoc_remove(s, k)),
{
    lemma_assoc_index(s, k);
    if assoc_index(s, k) >= 0 {
        let t = s.remove(assoc_index(s, k));
        assert forall|i: int, j: int| 0 <= i < j < t.len() implies t[i].0 != t[j].0 by {
            let idx = assoc_index(s, k);
            let i0: int = if i < idx { i } else { i + 1 };
            let j0: int = if j < idx { j } else { j + 1 };
            assert(t[i] == s[i0]);
            assert(t[j] == s[j0]);
        }
    }
}

/// With unique keys, removing `k` removes every trace of it: a later lookup
/// of `k` finds nothing.
pub proof fn lemma_assoc_remove_absent<K, V>(s: Seq<(K, V)>, k: K)
    requires
        unique_keys(s),
    ensures
        !assoc_has(assoc_remove(s, k), k),
{
    lemma_assoc_index(s, k);
    let t = assoc_remove(s, k);
    lemma_assoc_index(t, k);
    let idx = assoc_index(s, k);
    if idx >= 0 && assoc_index(t, k) >= 0 {
        let j = assoc_index(t, k);
        let j0: int = if j < idx { j } else { j + 1 };
        assert(t[j] == s[j0]);
    }
}

/// `assoc_index` finds exactly the first occurrence of `k`.
pub proof fn lemma_assoc_index<K, V>(s: Seq<(K, V)>, k: K)
    ensures
        -1 <= assoc_index(s, k) < s.len(),
        assoc_index(s, k) >= 0 ==> s[assoc_index(s, k)].0 == k,
        assoc_index(s, k) >= 0 ==> forall|j: int| 0 <= j < assoc_index(s, k) ==> s[j].0 != k,
        assoc_index(s, k) == -1 ==> forall|j: int| 0 <= j < s.len() ==> s[j].0 != k,
        assoc_get(s, k) == (if assoc_index(s, k) >= 0 {
            Some(s[assoc_index(s, k)].1)
        } else {
            None::<V>
        }),
    decreases s.len(),
{
    if s.len() > 0 && s[0].0 != k {
        lemma_assoc_index(s.drop_first(), k);
        if assoc_index(s, k) >= 0 {
            assert forall|j: int| 0 <= j < assoc_index(s, k) implies s[j].0 != k by {
                if j >= 1 {
                    assert(s[j] == s.drop_first()[j - 1]);
                }
            }
        } else {
            assert forall|j: int| 0 <= j < s.len() implies s[j].0 != k by {
                if j >= 1 {
                    assert(s[j] == s.drop_first()[j - 1]);
                }
            }
        }
    }
}

} // verus!
