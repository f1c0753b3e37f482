//! Positions in sequences.
use vstd::prelude::*;

verus! {

/// Position of the first item that meets `p`, or the length of `s` where none does.
pub open spec fn first_index<T>(s: Seq<T>, p: spec_fn(T) -> bool) -> nat
    decreases s.len(),
{
    if s.len() == 0 {
        0
    } else if p(s[0]) {
        0
    } else {
        1 + first_index(s.skip(1), p)
    }
}

/// What [`first_index`] is: a position at which `p` holds, or the length, with no item before it
/// that meets `p`.
pub proof fn lemma_first_index<T>(s: Seq<T>, p: spec_fn(T) -> bool)
    ensures
        first_index(s, p) <= s.len(),
        first_index(s, p) < s.len() ==> p(s[first_index(s, p) as int]),
        forall|i: int| 0 <= i < first_index(s, p) ==> !p(#[trigger] s[i]),
    decreases s.len(),
{
    if s.len() > 0 && !p(s[0]) {
        let rest = s.skip(1);
        lemma_first_index(rest, p);
        assert forall|i: int| 0 <= i < first_index(s, p) implies !p(#[trigger] s[i]) by {
            if i > 0 {
                assert(rest[i - 1] == s[i]);
            }
        }
    }
}

/// A position at which `p` holds, with no such position before it, is the first.
pub proof fn lemma_first_index_is<T>(s: Seq<T>, p: spec_fn(T) -> bool, k: int)
    requires
        0 <= k <= s.len(),
        k < s.len() ==> p(s[k]),
        forall|i: int| 0 <= i < k ==> !p(#[trigger] s[i]),
    ensures
        first_index(s, p) == k,
{
    lemma_first_index(s, p);
    let m = first_index(s, p) as int;
    if m < k {
        assert(!p(s[m]));
    } else if k < m {
        assert(!p(s[k]));
    }
}

} // verus!
