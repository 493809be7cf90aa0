//! Association lists at the specification level.
//!
//! Both registries of the library (the peer registry and the configuration's
//! server table) are modelled as sequences of key/value pairs with unique
//! keys; `assoc_lookup` is their common lookup function, and the lemmas tie a
//! linear scan to it.

use vstd::prelude::*;

verus! {

/// The value at the first pair whose key is `key`, if any.
pub open spec fn assoc_lookup<K, V>(ps: Seq<(K, V)>, key: K) -> Option<V>
    decreases ps.len(),
{
    if ps.len() == 0 {
        None
    } else if ps[0].0 == key {
        Some(ps[0].1)
    } else {
        assoc_lookup(ps.drop_first(), key)
    }
}

/// A scan that saw no match in `ps[..i]` and a match at `ps[i]` has found the
/// lookup's value.
pub proof fn lemma_assoc_lookup_found<K, V>(ps: Seq<(K, V)>, key: K, i: int)
    requires
        0 <= i < ps.len(),
        ps[i].0 == key,
        forall|j: int| 0 <= j < i ==> (#[trigger] ps[j]).0 != key,
    ensures
        assoc_lookup(ps, key) == Some(ps[i].1),
    decreases i,
{
    if i > 0 {
        assert(forall|j: int|
            0 <= j < i - 1 ==> (#[trigger] ps.drop_first()[j]).0 != key) by {
            assert(forall|j: int|
                0 <= j < i - 1 ==> ps.drop_first()[j] == (#[trigger] ps[j + 1]));
        }
        lemma_assoc_lookup_found(ps.drop_first(), key, i - 1);
    }
}

/// A scan that saw no match anywhere has shown the key absent.
pub proof fn lemma_assoc_lookup_none<K, V>(ps: Seq<(K, V)>, key: K)
    requires
        forall|j: int| 0 <= j < ps.len() ==> (#[trigger] ps[j]).0 != key,
    ensures
        assoc_lookup(ps, key) is None,
    decreases ps.len(),
{
    if ps.len() > 0 {
        assert(forall|j: int|
            0 <= j < ps.len() - 1 ==> (#[trigger] ps.drop_first()[j]).0 != key) by {
            assert(forall|j: int|
                0 <= j < ps.len() - 1 ==> ps.drop_first()[j] == (#[trigger] ps[j + 1]));
        }
        lemma_assoc_lookup_none(ps.drop_first(), key);
    }
}

} // verus!
