use itertools::Itertools;
use vstd::prelude::*;

verus! {

/// Relies on itertools' `sorted_unstable_by_key` (a `Vec` sorted with `sort_unstable_by_key`):
/// the same items, ascending by their first component; equal keys in no fixed order.
#[verifier::external_body]
pub(crate) fn sorted_by_first(items: Vec<(u64, u64)>) -> (r: Vec<(u64, u64)>)
    ensures
        r@.to_multiset() == items@.to_multiset(),
        forall|i: int, j: int| 0 <= i <= j < r@.len() ==> r@[i].0 <= r@[j].0,
{
    items.into_iter().sorted_unstable_by_key(|item| item.0).collect()
}

} // verus!
