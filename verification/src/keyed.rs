//! Lookup by name in association sequences, shared by the usage and
//! aggregation tables.

use vstd::prelude::*;

verus! {

/// The index of the first entry of `t` whose key is `key`, or -1.
pub open spec fn find_key<V>(t: Seq<(Seq<char>, V)>, key: Seq<char>) -> int
    decreases t.len(),
{
    if t.len() == 0 {
        -1
    } else if t[0].0 == key {
        0
    } else {
        let r = find_key(t.drop_first(), key);
        if r < 0 {
            -1
        } else {
            r + 1
        }
    }
}

/// `find_key` returns the first index holding `key`, or -1 when no entry
/// holds it.
pub proof fn lemma_find_key<V>(t: Seq<(Seq<char>, V)>, key: Seq<char>)
    ensures
        find_key(t, key) == -1 ==> forall|j: int| 0 <= j < t.len() ==> (#[trigger] t[j]).0 != key,
        find_key(t, key) >= 0 ==> 0 <= find_key(t, key) < t.len() && t[find_key(t, key)].0 == key
            && forall|j: int| 0 <= j < find_key(t, key) ==> (#[trigger] t[j]).0 != key,
    decreases t.len(),
{
    if t.len() > 0 && t[0].0 != key {
        lemma_find_key(t.drop_first(), key);
        let ft = find_key(t.drop_first(), key);
        if ft < 0 {
            assert forall|j: int| 0 <= j < t.len() implies (#[trigger] t[j]).0 != key by {
                if j > 0 {
                    assert(t.drop_first()[j - 1] == t[j]);
                }
            }
        } else {
            assert(t.drop_first()[ft] == t[ft + 1]);
            assert forall|j: int| 0 <= j < ft + 1 implies (#[trigger] t[j]).0 != key by {
                if j > 0 {
                    assert(t.drop_first()[j - 1] == t[j]);
                }
            }
        }
    }
}

} // verus!
