//! A vector of clones of one value.

use crate::array::model::{clone_preserves_value, lemma_clones_are_equal};
use vstd::prelude::*;

verus! {

/// Every element of `filled` is a clone of `value`, and there are `size` of
/// them.
pub open spec fn is_filled_with<T: Clone>(filled: Seq<T>, value: T, size: nat) -> bool {
    &&& filled.len() == size
    &&& forall|i: int| 0 <= i < size ==> cloned(value, #[trigger] filled[i])
}

/// Returns a vector of `size` elements, each a clone of `value`.
pub fn fill_value<T: Clone>(value: &T, size: usize) -> (filled: Vec<T>)
    ensures
        is_filled_with(filled@, *value, size as nat),
        clone_preserves_value::<T>() ==> filled@ == Seq::new(size as nat, |i: int| *value),
{
    let mut filled: Vec<T> = Vec::with_capacity(size);
    let mut count: usize = 0;
    while count < size
        invariant
            count <= size,
            is_filled_with(filled@, *value, count as nat),
        decreases size - count,
    {
        filled.push(value.clone());
        count += 1;
    }
    proof {
        if clone_preserves_value::<T>() {
            lemma_clones_are_equal(filled@, Seq::new(size as nat, |i: int| *value));
        }
    }
    filled
}

} // verus!
