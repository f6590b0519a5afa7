//! A vector of clones of a type's default value.

use crate::array::fill_value::{fill_value, is_filled_with};
use crate::array::model::clone_preserves_value;
use vstd::prelude::*;

verus! {

/// `value` is a value that `T::default()` may return.
pub open spec fn is_default<T: Default>(value: T) -> bool {
    call_ensures(T::default, (), value)
}

/// Returns a vector of `size` elements, each a clone of the default value of
/// `T`.
pub fn fill_default<T: Clone + Default>(size: usize) -> (filled: Vec<T>)
    ensures
        exists|value: T| is_default(value) && is_filled_with(filled@, value, size as nat),
        clone_preserves_value::<T>() ==> exists|value: T|
            is_default(value) && filled@ == Seq::new(size as nat, |i: int| value),
{
    let value = T::default();
    assert(is_default(value));
    fill_value(&value, size)
}

} // verus!
