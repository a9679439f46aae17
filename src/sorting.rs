use vstd::prelude::*;

use itertools::Itertools;

verus! {

/// `a` comes no later than `b` in the lexicographic order of pairs.
pub open spec fn key_le(a: (i64, usize), b: (i64, usize)) -> bool {
    a.0 < b.0 || (a.0 == b.0 && a.1 <= b.1)
}

/// Relies on `itertools::Itertools::sorted`: the same items, in ascending
/// order (for tuples, the lexicographic order std documents).
#[verifier::external_body]
pub(crate) fn sorted_keys(keys: Vec<(i64, usize)>) -> (r: Vec<(i64, usize)>)
    ensures
        r@.to_multiset() == keys@.to_multiset(),
        forall|i: int, j: int| 0 <= i <= j < r@.len() ==> key_le(r@[i], r@[j]),
{
    keys.into_iter().sorted().collect()
}

} // verus!
