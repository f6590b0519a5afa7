//! Laying nested containers out as one vector.

use crate::array::elements::{lists_of, AsElements};
use crate::array::model::{clone_preserves_value, clones_of, lemma_clones_are_equal};
use vstd::prelude::*;

verus! {

/// Returns clones of all elements of the containers in `nested`, one
/// container after the other, each in its own order.
///
/// The outer and the inner containers may each be a vector, a slice, an
/// array or a boxed slice, or a reference to one.
pub fn flatten<T: Clone, Outer, Inner>(nested: Outer) -> (flat: Vec<T>) where
    Outer: AsElements<Inner>,
    Inner: AsElements<T>,

    ensures
        clones_of(flat@, lists_of::<T, Inner>(nested.elements()).flatten()),
        clone_preserves_value::<T>() ==> flat@ == lists_of::<T, Inner>(
            nested.elements(),
        ).flatten(),
{
    let outer = nested.as_elements();
    let ghost lists = lists_of::<T, Inner>(outer@);
    let mut flat: Vec<T> = Vec::new();
    let mut at: usize = 0;
    while at < outer.len()
        invariant
            at <= outer@.len(),
            lists == lists_of::<T, Inner>(outer@),
            clones_of(flat@, lists.take(at as int).flatten()),
        decreases outer@.len() - at,
    {
        let inner = outer[at].as_elements();
        proof {
            lists.take(at as int).lemma_flatten_push(inner@);
            assert(lists.take(at + 1) == lists.take(at as int).push(inner@));
        }
        flat.extend_from_slice(inner);
        at += 1;
    }
    proof {
        assert(lists.take(at as int) == lists);
        if clone_preserves_value::<T>() {
            lemma_clones_are_equal(flat@, lists.flatten());
        }
    }
    flat
}

} // verus!
