//! The container's algebraic laws, stated over the `Map` views that the
//! methods' contracts speak of.

use vstd::prelude::*;

use crate::key::MapKey;
use crate::value::JsonV;

verus! {

/// Inserting a value under a key and then looking the key up yields that
/// value.
pub proof fn lemma_insert_then_get<K: MapKey>(m: Map<K::V, JsonV<K>>, k: K::V, v: JsonV<K>)
    ensures
        m.insert(k, v).contains_key(k),
        m.insert(k, v)[k] == v,
{
}

/// Inserting twice under one key leaves the length unchanged between the
/// two inserts, and a lookup yields the second value: the first one is
/// unrecoverable.
pub proof fn lemma_insert_overwrites<K: MapKey>(
    m: Map<K::V, JsonV<K>>,
    k: K::V,
    v1: JsonV<K>,
    v2: JsonV<K>,
)
    ensures
        m.insert(k, v1).insert(k, v2) == m.insert(k, v2),
        m.insert(k, v1).insert(k, v2)[k] == v2,
        m.insert(k, v1).dom().finite() ==> m.insert(k, v1).insert(k, v2).len() == m.insert(
            k,
            v1,
        ).len(),
{
    assert(m.insert(k, v1).insert(k, v2) =~= m.insert(k, v2));
    assert(m.insert(k, v1).insert(k, v2).dom() =~= m.insert(k, v1).dom());
}

/// Removing a present key shrinks the map by exactly one entry and
/// unbinds the key; removing an absent key changes nothing.
pub proof fn lemma_remove_behaviour<K: MapKey>(m: Map<K::V, JsonV<K>>, k: K::V)
    requires
        m.dom().finite(),
    ensures
        m.contains_key(k) ==> m.remove(k).len() == m.len() - 1,
        !m.remove(k).contains_key(k),
        !m.contains_key(k) ==> m.remove(k) == m,
{
    if m.contains_key(k) {
        m.lemma_remove_key_len(k);
    } else {
        assert(m.remove(k) =~= m);
    }
}

} // verus!
