//! Dropping elements from the end of a vector.

use vstd::prelude::*;

verus! {

/// What is left of `s` once its last `n` elements are gone: the first
/// `s.len() - n` elements, or nothing where `n` reaches the length.
pub open spec fn without_last<T>(s: Seq<T>, n: nat) -> Seq<T> {
    if n >= s.len() {
        Seq::empty()
    } else {
        s.take(s.len() - n)
    }
}

/// Without its last `n` elements a sequence is shorter by `n`, or empty,
/// and its elements are those that stood in the same places.
pub proof fn lemma_without_last<T>(s: Seq<T>, n: nat)
    ensures
        without_last(s, n).len() == if n <= s.len() {
            s.len() - n
        } else {
            0
        },
        forall|i: int|
            0 <= i < without_last(s, n).len() ==> #[trigger] without_last(s, n)[i] == s[i],
{
}

/// Removes the last `no_of_elements_to_drop` elements of `values` in place.
///
/// The survivors keep their order. Dropping nothing leaves the vector as it
/// is, and dropping as many elements as there are, or more, empties it.
pub fn drop_end<T>(values: &mut Vec<T>, no_of_elements_to_drop: usize)
    ensures
        final(values)@ == without_last(old(values)@, no_of_elements_to_drop as nat),
        no_of_elements_to_drop == 0 ==> final(values)@ == old(values)@,
        final(values)@.len() == if no_of_elements_to_drop <= old(values)@.len() {
            old(values)@.len() - no_of_elements_to_drop
        } else {
            0
        },
{
    if no_of_elements_to_drop == 0 {
        return;
    }
    let keep: usize = values.len().saturating_sub(no_of_elements_to_drop);
    values.truncate(keep);
}

} // verus!
