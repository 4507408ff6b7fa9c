//! Sequences of records keyed by a string: uniqueness and lookup.

use vstd::prelude::*;

verus! {

/// No key occurs twice.
pub open spec fn unique(k: Seq<Seq<char>>) -> bool {
    forall|i: int, j: int| 0 <= i < k.len() && 0 <= j < k.len() && k[i] == k[j] ==> i == j
}

/// Position of `key` in `k`, or -1 where it is absent.
pub open spec fn index_of(k: Seq<Seq<char>>, key: Seq<char>) -> int {
    if k.contains(key) {
        choose|i: int| 0 <= i < k.len() && k[i] == key
    } else {
        -1
    }
}

/// Among unique keys, a position holding `key` is its index.
pub proof fn lemma_index_of(k: Seq<Seq<char>>, key: Seq<char>, i: int)
    requires
        unique(k),
        0 <= i < k.len(),
        k[i] == key,
    ensures
        index_of(k, key) == i,
{
    assert(k.contains(key));
}

/// Appending a key that is not there keeps the keys unique.
pub proof fn lemma_push_unique(k: Seq<Seq<char>>, key: Seq<char>)
    requires
        unique(k),
        !k.contains(key),
    ensures
        unique(k.push(key)),
{
    assert forall|i: int, j: int|
        0 <= i < k.push(key).len() && 0 <= j < k.push(key).len() && k.push(key)[i] == k.push(key)[j] implies i == j by {
        if i < k.len() && j == k.len() {
            assert(k.contains(key));
        }
        if j < k.len() && i == k.len() {
            assert(k.contains(key));
        }
    }
}

} // verus!
