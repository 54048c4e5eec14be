//! The first element of a sequence that has a given property.

use vstd::prelude::*;

verus! {

/// The position of the first element of `s` of which `wanted` holds; the
/// length of `s` if it holds of none.
pub open spec fn first_index<T>(s: Seq<T>, wanted: spec_fn(T) -> bool) -> int
    decreases s.len(),
{
    if s.len() == 0 || wanted(s[0]) {
        0
    } else {
        1 + first_index(s.drop_first(), wanted)
    }
}

/// A position before which `wanted` holds of nothing, and at which it
/// holds or the sequence ends, is the first index.
pub proof fn lemma_first_index<T>(s: Seq<T>, wanted: spec_fn(T) -> bool, k: int)
    requires
        0 <= k <= s.len(),
        forall|j: int| 0 <= j < k ==> !wanted(s[j]),
        k < s.len() ==> wanted(s[k]),
    ensures
        first_index(s, wanted) == k,
    decreases k,
{
    if k > 0 {
        let rest = s.drop_first();
        assert forall|j: int| 0 <= j < k - 1 implies !wanted(rest[j]) by {
            assert(rest[j] == s[j + 1]);
        }
        lemma_first_index(rest, wanted, k - 1);
    }
}

/// The first index lies within the sequence or at its end; `wanted`
/// holds of nothing before it, and of the element at it if there is one.
pub proof fn lemma_first_index_bounds<T>(s: Seq<T>, wanted: spec_fn(T) -> bool)
    ensures
        0 <= first_index(s, wanted) <= s.len(),
        forall|j: int| 0 <= j < first_index(s, wanted) ==> !wanted(#[trigger] s[j]),
        first_index(s, wanted) < s.len() ==> wanted(s[first_index(s, wanted)]),
    decreases s.len(),
{
    if s.len() == 0 || wanted(s[0]) {
    } else {
        let rest = s.drop_first();
        lemma_first_index_bounds(rest, wanted);
        assert forall|j: int| 0 <= j < first_index(s, wanted) implies !wanted(#[trigger] s[j]) by {
            if j > 0 {
                assert(s[j] == rest[j - 1]);
            }
        }
    }
}

} // verus!
