//! Anonymization of first-stage results: each response is labelled `A`,
//! `B`, `C`, ... by its position, and a label-to-model table records how to
//! resolve parsed labels back to model names.

use vstd::prelude::*;
use crate::models::Stage1Result;
use crate::ranking::response_prefix;

verus! {

/// The label alphabet, in assignment order.
pub open spec fn alphabet() -> Seq<char> {
    "ABCDEFGHIJKLMNOPQRSTUVWXYZ"@
}

/// The single letter assigned to position `i`.
pub open spec fn label_letter(i: int) -> char {
    alphabet()[i]
}

/// The full label key assigned to position `i`, e.g. `Response A` for 0.
pub open spec fn label_key(i: int) -> Seq<char> {
    response_prefix() + seq![label_letter(i)]
}

/// The letter for position `i` of the label alphabet.
fn letter_for(i: usize) -> (c: char)
    requires
        i < 26,
    ensures
        c == label_letter(i as int),
{
    proof {
        reveal_strlit("ABCDEFGHIJKLMNOPQRSTUVWXYZ");
    }
    "ABCDEFGHIJKLMNOPQRSTUVWXYZ".get_char(i)
}

/// The label key string for position `i`, e.g. `Response C` for 2.
pub fn label_string(i: usize) -> (r: String)
    requires
        i < 26,
    ensures
        r@ == label_key(i as int),
{
    proof {
        reveal_strlit("ABCDEFGHIJKLMNOPQRSTUVWXYZ");
        reveal_strlit("Response ");
    }
    let letter = "ABCDEFGHIJKLMNOPQRSTUVWXYZ".substring_char(i, i + 1);
    let r = String::from_str("Response ").concat(letter);
    proof {
        assert(letter@ =~= seq![label_letter(i as int)]);
        assert(r@ =~= label_key(i as int));
    }
    r
}

/// Builds the label-to-model table for the given first-stage results:
/// position `i` is labelled `label_key(i)` and maps to that result's model.
pub fn build_label_map(stage1_results: &Vec<Stage1Result>) -> (m: Vec<(String, String)>)
    requires
        stage1_results@.len() <= 26,
    ensures
        m@.len() == stage1_results@.len(),
        forall|i: int|
            0 <= i < m@.len() ==> (#[trigger] m@[i]).0@ == label_key(i) && m@[i].1@
                == stage1_results@[i].model@,
{
    let mut m: Vec<(String, String)> = Vec::new();
    let n = stage1_results.len();
    let mut i: usize = 0;
    while i < n
        invariant
            i <= n,
            n == stage1_results@.len(),
            n <= 26,
            m@.len() == i,
            forall|k: int|
                0 <= k < i ==> (#[trigger] m@[k]).0@ == label_key(k) && m@[k].1@
                    == stage1_results@[k].model@,
        decreases n - i,
    {
        let key = label_string(i);
        let model = stage1_results[i].model.clone();
        m.push((key, model));
        i = i + 1;
    }
    m
}

/// Label assignment is deterministic and bijective: the keys of a label
/// table are pairwise distinct, and when the underlying models are pairwise
/// distinct the table maps distinct labels to distinct models.
pub proof fn lemma_label_map_bijective(s1: Seq<Stage1Result>, t: Seq<(Seq<char>, Seq<char>)>)
    requires
        s1.len() <= 26,
        t.len() == s1.len(),
        forall|i: int| 0 <= i < t.len() ==> (#[trigger] t[i]).0 == label_key(i) && t[i].1
            == s1[i].model@,
        forall|i: int, j: int| 0 <= i < j < s1.len() ==> s1[i].model@ != s1[j].model@,
    ensures
        forall|i: int, j: int| 0 <= i < j < t.len() ==> (#[trigger] t[i]).0 != (#[trigger] t[j]).0,
        forall|i: int, j: int| 0 <= i < j < t.len() ==> (#[trigger] t[i]).1 != (#[trigger] t[j]).1,
{
    reveal_strlit("ABCDEFGHIJKLMNOPQRSTUVWXYZ");
    reveal_strlit("Response ");
    assert forall|i: int, j: int| 0 <= i < j < t.len() implies (#[trigger] t[i]).0 != (
    #[trigger] t[j]).0 by {
        assert(label_key(i)[9] == label_letter(i));
        assert(label_key(j)[9] == label_letter(j));
        assert(label_letter(i) != label_letter(j));
    }
}

} // verus!
