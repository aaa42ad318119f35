//! The first element of a sequence that has a given property.

use vstd::prelude::*;

verus! {

/// The position of the first element of `s` of which `p` holds, or
/// `s.len()` where it holds of none.
pub open spec fn first_where<T>(s: Seq<T>, p: spec_fn(T) -> bool) -> int
    decreases s.len(),
{
    if s.len() == 0 || p(s.first()) {
        0
    } else {
        1 + first_where(s.drop_first(), p)
    }
}

/// `first_where` stays within `s`, passes over no element of which `p`
/// holds, and stops at one of which it does.
pub proof fn lemma_first_where<T>(s: Seq<T>, p: spec_fn(T) -> bool)
    ensures
        0 <= first_where(s, p) <= s.len(),
        forall|k: int| 0 <= k < first_where(s, p) ==> !p(#[trigger] s[k]),
        first_where(s, p) < s.len() ==> p(s[first_where(s, p)]),
    decreases s.len(),
{
    if s.len() == 0 || p(s.first()) {
    } else {
        let t = s.drop_first();
        lemma_first_where(t, p);
        assert forall|k: int| 0 <= k < first_where(s, p) implies !p(#[trigger] s[k]) by {
            if k > 0 {
                assert(s[k] == t[k - 1]);
            }
        }
    }
}

/// A position with no element of which `p` holds before it, and with such
/// an element at it or at the end of `s`, is what `first_where` gives.
pub proof fn lemma_first_where_is<T>(s: Seq<T>, p: spec_fn(T) -> bool, i: int)
    requires
        0 <= i <= s.len(),
        forall|k: int| 0 <= k < i ==> !p(#[trigger] s[k]),
        i < s.len() ==> p(s[i]),
    ensures
        first_where(s, p) == i,
    decreases s.len(),
{
    if s.len() == 0 || p(s.first()) {
        if i > 0 {
            assert(!p(s[0]));
        }
    } else {
        let t = s.drop_first();
        assert forall|k: int| 0 <= k < i - 1 implies !p(#[trigger] t[k]) by {
            assert(t[k] == s[k + 1]);
        }
        lemma_first_where_is(t, p, i - 1);
    }
}

} // verus!
