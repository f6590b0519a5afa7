//! What the operations assume of an element type, and how a cloned sequence
//! relates to the sequence it was cloned from.

use vstd::prelude::*;
use vstd::std_specs::hash::obeys_key_model;

verus! {

/// Cloning a `T` always gives a value equal to the one that was cloned.
pub open spec fn clone_preserves_value<T: Clone>() -> bool {
    forall|original: T, copy: T| #[trigger] cloned(original, copy) ==> copy == original
}

/// `T` can be an element of the set operations: `==` on it agrees with
/// equality of values, equal values hash alike, and a clone equals its
/// original.
pub open spec fn obeys_set_model<T: Clone>() -> bool {
    obeys_key_model::<T>() && clone_preserves_value::<T>()
}

/// `copy` holds, position by position, a clone of each element of `original`.
pub open spec fn clones_of<T: Clone>(copy: Seq<T>, original: Seq<T>) -> bool {
    &&& copy.len() == original.len()
    &&& forall|i: int| 0 <= i < original.len() ==> cloned(original[i], #[trigger] copy[i])
}

/// Where cloning preserves values, a sequence of clones equals the sequence
/// it was cloned from.
pub proof fn lemma_clones_are_equal<T: Clone>(copy: Seq<T>, original: Seq<T>)
    requires
        clone_preserves_value::<T>(),
        clones_of(copy, original),
    ensures
        copy == original,
{
    assert(copy =~= original);
}

/// Clones `value`. Where cloning preserves values, the clone equals `value`.
pub(crate) fn faithful_clone<T: Clone>(value: &T) -> (copy: T)
    ensures
        cloned(*value, copy),
        clone_preserves_value::<T>() ==> copy == *value,
{
    let copy = value.clone();
    assert(cloned(*value, copy));
    copy
}

} // verus!
