//! Finding the first place at which a key stands in a sequence.

use vstd::prelude::*;

verus! {

/// The first position at which `key` stands in `keys`, if it stands there
/// at all.
pub open spec fn first_index<K>(keys: Seq<K>, key: K) -> Option<int>
    decreases keys.len(),
{
    if keys.len() == 0 {
        None
    } else {
        match first_index(keys.drop_last(), key) {
            Some(i) => Some(i),
            None => if keys.last() == key {
                Some(keys.len() - 1)
            } else {
                None
            },
        }
    }
}

/// No key stands at two positions.
pub open spec fn distinct<K>(keys: Seq<K>) -> bool {
    forall|a: int, b: int| 0 <= a < b < keys.len() ==> keys[a] != keys[b]
}

/// `first_index` finds `key` exactly where it first stands, and nowhere
/// when it stands nowhere.
pub proof fn lemma_first_index<K>(keys: Seq<K>, key: K)
    ensures
        match first_index(keys, key) {
            Some(i) => 0 <= i < keys.len() && keys[i] == key && forall|k: int|
                0 <= k < i ==> keys[k] != key,
            None => forall|k: int| 0 <= k < keys.len() ==> keys[k] != key,
        },
    decreases keys.len(),
{
    if keys.len() > 0 {
        lemma_first_index(keys.drop_last(), key);
        match first_index(keys.drop_last(), key) {
            Some(i) => {
                assert(keys.drop_last()[i] == keys[i]);
                assert forall|k: int| 0 <= k < i implies keys[k] != key by {
                    assert(keys.drop_last()[k] == keys[k]);
                }
            },
            None => {
                assert forall|k: int| 0 <= k < keys.len() - 1 implies keys[k] != key by {
                    assert(keys.drop_last()[k] == keys[k]);
                }
            },
        }
    }
}

/// A position at which `key` stands, with no earlier one, is what
/// `first_index` finds.
pub proof fn lemma_first_index_is<K>(keys: Seq<K>, key: K, i: int)
    requires
        0 <= i < keys.len(),
        keys[i] == key,
        forall|k: int| 0 <= k < i ==> keys[k] != key,
    ensures
        first_index(keys, key) == Some(i),
{
    lemma_first_index(keys, key);
}

/// Where `key` stands nowhere, `first_index` finds nothing.
pub proof fn lemma_first_index_none<K>(keys: Seq<K>, key: K)
    requires
        forall|k: int| 0 <= k < keys.len() ==> keys[k] != key,
    ensures
        first_index(keys, key) is None,
{
    lemma_first_index(keys, key);
}

} // verus!
