//! The positions of all elements that a predicate accepts.

use crate::array::matcher::{accepts, applies_to, decides, rejects};
use vstd::prelude::*;

verus! {

/// `position` is one of `indexes`.
pub open spec fn is_listed(indexes: Seq<usize>, position: int) -> bool {
    exists|k: int| 0 <= k < indexes.len() && #[trigger] indexes[k] == position
}

/// `indexes` holds, in ascending order, positions of `values` whose elements
/// `matcher` accepts, and the element at every other position is rejected.
pub open spec fn are_all_matches<T, M: Fn(&T) -> bool>(
    matcher: M,
    values: Seq<T>,
    indexes: Seq<usize>,
) -> bool {
    &&& forall|k: int|
        0 <= k < indexes.len() ==> (#[trigger] indexes[k]) < values.len() && accepts(
            matcher,
            values[indexes[k] as int],
        )
    &&& forall|k: int, l: int| 0 <= k < l < indexes.len() ==> indexes[k] < indexes[l]
    &&& forall|j: int|
        0 <= j < values.len() && !is_listed(indexes, j) ==> rejects(matcher, #[trigger] values[j])
}

/// Under a predicate with one answer for each element, the positions listed
/// are exactly those of the elements it accepts.
pub proof fn lemma_all_matches_are_exact<T, M: Fn(&T) -> bool>(
    matcher: M,
    values: Seq<T>,
    indexes: Seq<usize>,
    j: int,
)
    requires
        decides(matcher, values),
        are_all_matches(matcher, values, indexes),
        0 <= j < values.len(),
    ensures
        is_listed(indexes, j) <==> accepts(matcher, values[j]),
{
}

/// Returns the positions of all elements of `values` that `matcher` accepts,
/// in ascending order.
///
/// Every element is tried once, from the left. Where none is accepted the
/// result is empty.
pub fn find_indexes<T, M: Fn(&T) -> bool>(values: &[T], matcher: M) -> (indexes: Vec<usize>)
    requires
        applies_to(matcher, values@),
    ensures
        are_all_matches(matcher, values@, indexes@),
{
    let mut indexes: Vec<usize> = Vec::with_capacity(values.len());
    let mut index: usize = 0;
    while index < values.len()
        invariant
            applies_to(matcher, values@),
            index <= values@.len(),
            are_all_matches(matcher, values@.take(index as int), indexes@),
        decreases values@.len() - index,
    {
        let ghost before = indexes@;
        let ghost next = values@.take(index + 1);
        if matcher(&values[index]) {
            indexes.push(index);
        }
        proof {
            assert forall|j: int| 0 <= j < next.len() && !is_listed(indexes@, j) implies rejects(
                matcher,
                #[trigger] next[j],
            ) by {
                if j < index {
                    if is_listed(before, j) {
                        let k = choose|k: int| 0 <= k < before.len() && #[trigger] before[k] == j;
                        assert(indexes@[k] == j);
                    }
                } else if indexes@.len() > before.len() {
                    assert(indexes@[before.len() as int] == j);
                }
            }
        }
        index += 1;
    }
    assert(values@.take(index as int) == values@);
    indexes
}

} // verus!
