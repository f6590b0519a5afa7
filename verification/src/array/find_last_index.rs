//! The position of the last element that a predicate accepts.

use crate::array::matcher::{accepts, applies_to, decides, rejects};
use vstd::prelude::*;

verus! {

/// `found` is the position of the last element of `values` that `matcher`
/// accepts, all elements after it being rejected; or it is `None`, all
/// elements being rejected.
pub open spec fn is_last_match<T, M: Fn(&T) -> bool>(
    matcher: M,
    values: Seq<T>,
    found: Option<usize>,
) -> bool {
    match found {
        Some(index) => {
            &&& index < values.len()
            &&& accepts(matcher, values[index as int])
            &&& forall|j: int| index < j < values.len() ==> rejects(matcher, #[trigger] values[j])
        },
        None => forall|j: int| 0 <= j < values.len() ==> rejects(matcher, #[trigger] values[j]),
    }
}

/// A predicate with one answer for each element has one last match.
pub proof fn lemma_last_match_is_unique<T, M: Fn(&T) -> bool>(
    matcher: M,
    values: Seq<T>,
    first: Option<usize>,
    second: Option<usize>,
)
    requires
        decides(matcher, values),
        is_last_match(matcher, values, first),
        is_last_match(matcher, values, second),
    ensures
        first == second,
{
}

/// Under a predicate with one answer for each element, a last match is found
/// exactly when some element is accepted.
pub proof fn lemma_last_match_is_found<T, M: Fn(&T) -> bool>(
    matcher: M,
    values: Seq<T>,
    found: Option<usize>,
)
    requires
        decides(matcher, values),
        is_last_match(matcher, values, found),
    ensures
        found is Some <==> exists|i: int| 0 <= i < values.len() && accepts(matcher, values[i]),
{
    if found is None {
        assert forall|i: int| 0 <= i < values.len() implies !accepts(matcher, values[i]) by {
            assert(rejects(matcher, values[i]));
        }
    }
}

/// Returns the position of the last element of `values` that `matcher`
/// accepts, or `None` where it accepts none.
///
/// The elements are tried from the left, every one of them.
pub fn find_last_index<T, M: Fn(&T) -> bool>(values: &[T], matcher: M) -> (found: Option<usize>)
    requires
        applies_to(matcher, values@),
    ensures
        is_last_match(matcher, values@, found),
{
    let mut last_found_at: usize = 0;
    let mut is_found = false;
    let mut index: usize = 0;
    while index < values.len()
        invariant
            applies_to(matcher, values@),
            index <= values@.len(),
            is_found ==> last_found_at < index && accepts(matcher, values@[last_found_at as int]),
            is_found ==> forall|j: int|
                last_found_at < j < index ==> rejects(matcher, #[trigger] values@[j]),
            !is_found ==> forall|j: int| 0 <= j < index ==> rejects(matcher, #[trigger] values@[j]),
        decreases values@.len() - index,
    {
        if matcher(&values[index]) {
            is_found = true;
            last_found_at = index;
        }
        index += 1;
    }
    if is_found {
        return Some(last_found_at);
    }
    None
}

} // verus!
