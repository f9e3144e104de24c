//! Lookup of entries by key in sequences whose keys occur once.
use vstd::prelude::*;

verus! {

/// Position of the first `k` in `keys`, or `-1` when absent.
pub open spec fn first_index<K>(keys: Seq<K>, k: K) -> int
    decreases keys.len(),
{
    if keys.len() == 0 {
        -1
    } else {
        let r = first_index(keys.drop_last(), k);
        if r >= 0 {
            r
        } else if keys.last() == k {
            keys.len() - 1
        } else {
            -1
        }
    }
}

/// No key occurs twice.
pub open spec fn unique_keys<K>(keys: Seq<K>) -> bool {
    forall|i: int, j: int| 0 <= i < keys.len() && 0 <= j < keys.len() && i != j ==> keys[i] != keys[j]
}

pub proof fn lemma_first_index<K>(keys: Seq<K>, k: K)
    ensures
        -1 <= first_index(keys, k) < keys.len(),
        first_index(keys, k) == -1 <==> (forall|j: int| 0 <= j < keys.len() ==> keys[j] != k),
        first_index(keys, k) >= 0 ==> keys[first_index(keys, k)] == k,
        forall|j: int| 0 <= j < first_index(keys, k) ==> keys[j] != k,
    decreases keys.len(),
{
    if keys.len() > 0 {
        let t = keys.drop_last();
        lemma_first_index(t, k);
        assert forall|j: int| 0 <= j < t.len() implies keys[j] == t[j] by {}
        if first_index(t, k) < 0 && keys.last() != k {
            assert forall|j: int| 0 <= j < keys.len() implies keys[j] != k by {
                if j < t.len() {
                    assert(keys[j] == t[j]);
                }
            }
        }
    }
}

pub proof fn lemma_unique_push<K>(keys: Seq<K>, x: K)
    requires
        unique_keys(keys),
        first_index(keys, x) == -1,
    ensures
        unique_keys(keys.push(x)),
{
    lemma_first_index(keys, x);
    let s = keys.push(x);
    assert forall|i: int, j: int| 0 <= i < s.len() && 0 <= j < s.len() && i != j implies s[i] != s[j] by {
        if i < keys.len() && j < keys.len() {
            assert(s[i] == keys[i] && s[j] == keys[j]);
        } else if i < keys.len() {
            assert(keys[i] != x);
        } else {
            assert(keys[j] != x);
        }
    }
}

} // verus!
