//! Finding the first character of a kind in a sequence.

use vstd::prelude::*;

verus! {

/// The index of the first character of `s` for which `found` holds,
/// or `s.len()` where there is none.
pub open spec fn first_where(s: Seq<char>, found: spec_fn(char) -> bool) -> int
    decreases s.len(),
{
    if s.len() == 0 || found(s[0]) {
        0
    } else {
        1 + first_where(s.drop_first(), found)
    }
}

/// `first_where` lies within the sequence, nothing before it is of the kind,
/// and the character at it, where there is one, is.
pub proof fn lemma_first_where_bounds(s: Seq<char>, found: spec_fn(char) -> bool)
    ensures
        0 <= first_where(s, found) <= s.len(),
        forall|j: int| 0 <= j < first_where(s, found) ==> !found(#[trigger] s[j]),
        first_where(s, found) < s.len() ==> found(s[first_where(s, found)]),
    decreases s.len(),
{
    if s.len() == 0 || found(s[0]) {
    } else {
        let rest = s.drop_first();
        lemma_first_where_bounds(rest, found);
        let k = first_where(rest, found);
        assert forall|j: int| 0 <= j < first_where(s, found) implies !found(#[trigger] s[j]) by {
            if j > 0 {
                assert(s[j] == rest[j - 1]);
            }
        }
        if k < rest.len() {
            assert(rest[k] == s[k + 1]);
        }
    }
}

/// An index that nothing of the kind precedes, and that ends the sequence or
/// holds a character of the kind, is `first_where`.
pub proof fn lemma_first_where_is(s: Seq<char>, found: spec_fn(char) -> bool, at: int)
    requires
        0 <= at <= s.len(),
        forall|j: int| 0 <= j < at ==> !found(#[trigger] s[j]),
        at < s.len() ==> found(s[at]),
    ensures
        first_where(s, found) == at,
    decreases s.len(),
{
    if s.len() == 0 || found(s[0]) {
        if at > 0 {
            assert(!found(s[0]));
        }
    } else {
        let rest = s.drop_first();
        assert forall|j: int| 0 <= j < at - 1 implies !found(#[trigger] rest[j]) by {
            assert(rest[j] == s[j + 1]);
        }
        if at - 1 < rest.len() {
            assert(rest[at - 1] == s[at]);
        }
        lemma_first_where_is(rest, found, at - 1);
    }
}

} // verus!
