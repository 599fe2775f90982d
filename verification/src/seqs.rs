//! Searching a sequence for the first element of a kind.

use vstd::prelude::*;

verus! {

/// The position of the first element that `pred` accepts, or the length of
/// `s` if there is none.
pub open spec fn first_where<T>(s: Seq<T>, pred: spec_fn(T) -> bool) -> int
    decreases s.len(),
{
    if s.len() == 0 {
        0
    } else if pred(s[0]) {
        0
    } else {
        1 + first_where(s.skip(1), pred)
    }
}

/// The position lies within the sequence or at its end, the element
/// there is accepted, and none before it is.
pub proof fn lemma_first_where<T>(s: Seq<T>, pred: spec_fn(T) -> bool)
    ensures
        0 <= first_where(s, pred) <= s.len(),
        first_where(s, pred) < s.len() ==> pred(s[first_where(s, pred)]),
        forall|j: int| 0 <= j < first_where(s, pred) ==> !pred(s[j]),
    decreases s.len(),
{
    if s.len() > 0 && !pred(s[0]) {
        lemma_first_where(s.skip(1), pred);
        assert forall|j: int| 0 <= j < first_where(s, pred) implies !pred(s[j]) by {
            if j > 0 {
                assert(s.skip(1)[j - 1] == s[j]);
            }
        }
    }
}

/// A position with an accepted element and none before it is the
/// first; so is the end, if no element is accepted.
pub proof fn lemma_first_where_is<T>(s: Seq<T>, pred: spec_fn(T) -> bool, k: int)
    requires
        0 <= k <= s.len(),
        forall|j: int| 0 <= j < k ==> !pred(s[j]),
        k < s.len() ==> pred(s[k]),
    ensures
        first_where(s, pred) == k,
{
    lemma_first_where(s, pred);
}

} // verus!
