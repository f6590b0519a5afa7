//! Dropping elements from the start of a vector.

use crate::array::drop_end::without_last;
use vstd::prelude::*;

verus! {

/// What is left of `s` once its first `n` elements are gone: the elements
/// from position `n` on, or nothing where `n` reaches the length.
pub open spec fn without_first<T>(s: Seq<T>, n: nat) -> Seq<T> {
    if n >= s.len() {
        Seq::empty()
    } else {
        s.skip(n as int)
    }
}

/// Without its first `n` elements a sequence is shorter by `n`, or empty,
/// and its elements are those that stood `n` places further on.
pub proof fn lemma_without_first<T>(s: Seq<T>, n: nat)
    ensures
        without_first(s, n).len() == if n <= s.len() {
            s.len() - n
        } else {
            0
        },
        forall|i: int|
            0 <= i < without_first(s, n).len() ==> #[trigger] without_first(s, n)[i] == s[i + n],
{
}

/// Dropping from the start and dropping from the end do not get in each
/// other's way: in either order they leave the elements from position `n`
/// up to `m` before the end, or nothing where fewer than `n + m` elements are
/// there.
pub proof fn lemma_drop_both_ends<T>(s: Seq<T>, n: nat, m: nat)
    ensures
        without_last(without_first(s, n), m) == without_first(without_last(s, m), n),
        n + m <= s.len() ==> without_last(without_first(s, n), m) == s.subrange(
            n as int,
            s.len() - m,
        ),
        n + m >= s.len() ==> without_last(without_first(s, n), m) == Seq::<T>::empty(),
{
}

/// Removes the first `no_of_elements_to_drop` elements of `values` in place.
///
/// The survivors keep their order. Dropping nothing leaves the vector as it
/// is, and dropping as many elements as there are, or more, empties it.
pub fn drop_start<T>(values: &mut Vec<T>, no_of_elements_to_drop: usize)
    ensures
        final(values)@ == without_first(old(values)@, no_of_elements_to_drop as nat),
        no_of_elements_to_drop == 0 ==> final(values)@ == old(values)@,
        final(values)@.len() == if no_of_elements_to_drop <= old(values)@.len() {
            old(values)@.len() - no_of_elements_to_drop
        } else {
            0
        },
{
    if no_of_elements_to_drop == 0 {
        return;
    }
    if no_of_elements_to_drop >= values.len() {
        values.clear();
    } else {
        let rest = values.split_off(no_of_elements_to_drop);
        *values = rest;
    }
}

} // verus!
