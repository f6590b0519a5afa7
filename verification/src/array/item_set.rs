//! Sets of the items met so far.
//!
//! The set operations are written once, against [`ItemSet`], and run with
//! either of two hashers: the one of `std`, which resists inputs that were
//! chosen to collide, and the faster one of `ahash`.

use ahash::AHashSet;
use std::collections::HashSet;
use std::hash::Hash;
use vstd::prelude::*;
use vstd::std_specs::hash::obeys_key_model;

verus! {

/// A set that items can be added to and looked up in.
pub(crate) trait ItemSet<T>: Sized {
    /// The items in the set.
    spec fn items(&self) -> Set<T>;

    /// Makes an empty set with room for `capacity` items.
    fn with_room_for(capacity: usize) -> (set: Self)
        ensures
            set.items() == Set::<T>::empty(),
    ;

    /// Adds `item` and tells whether it was new to the set.
    fn record(&mut self, item: T) -> (fresh: bool)
        requires
            obeys_key_model::<T>(),
        ensures
            final(self).items() == old(self).items().insert(item),
            fresh == !old(self).items().contains(item),
    ;

    /// Tells whether `item` is in the set.
    fn holds(&self, item: &T) -> (found: bool)
        requires
            obeys_key_model::<T>(),
        ensures
            found == self.items().contains(*item),
    ;
}

impl<T: Eq + Hash> ItemSet<T> for HashSet<T> {
    open spec fn items(&self) -> Set<T> {
        self@
    }

    fn with_room_for(capacity: usize) -> (set: Self) {
        HashSet::with_capacity(capacity)
    }

    fn record(&mut self, item: T) -> (fresh: bool) {
        self.insert(item)
    }

    fn holds(&self, item: &T) -> (found: bool) {
        self.contains(item)
    }
}

/// The hasher builder of `ahash`, which its sets hash with. Nothing is known
/// of what a value of it holds.
#[verifier::external_type_specification]
#[verifier::external_body]
pub struct ExRandomState(ahash::RandomState);

/// Makes an empty set that hashes with `ahash`, by `AHashSet::with_capacity`,
/// and hands out the `HashSet` that the `AHashSet` wraps.
///
/// Taken on trust: the set holds nothing. As with `HashSet::with_capacity` of
/// `std`, the call needs memory for `capacity` items, and `ahash` asks the
/// operating system for random bytes to key its hashers with, once in a
/// process; where either is refused the call does not return.
#[verifier::external_body]
fn fast_set_with_capacity<T>(capacity: usize) -> (set: HashSet<T, ahash::RandomState>)
    ensures
        set@ == Set::<T>::empty(),
{
    AHashSet::with_capacity(capacity).into()
}

/// Adds `item` to a set that hashes with `ahash`, by the `HashSet::insert`
/// that an `AHashSet` passes its calls to.
///
/// Taken on trust: for an item type whose `==` and hash behave, the set then
/// holds `item` besides what it held, and the call returns whether `item`
/// was new. This is what `insert` does with any hasher that gives equal
/// items equal hashes, as the hashers built from one `ahash::RandomState`
/// do; `vstd` states it of the hasher of `std` alone.
#[verifier::external_body]
fn fast_set_insert<T: Eq + Hash>(set: &mut HashSet<T, ahash::RandomState>, item: T) -> (fresh: bool)
    ensures
        obeys_key_model::<T>() ==> final(set)@ == old(set)@.insert(item),
        obeys_key_model::<T>() ==> fresh == !old(set)@.contains(item),
{
    set.insert(item)
}

/// Looks `item` up in a set that hashes with `ahash`, by the
/// `HashSet::contains` that an `AHashSet` passes its calls to.
///
/// Taken on trust: for an item type whose `==` and hash behave, the call
/// returns whether the set holds `item`, on the same grounds as for
/// `fast_set_insert`.
#[verifier::external_body]
fn fast_set_contains<T: Eq + Hash>(set: &HashSet<T, ahash::RandomState>, item: &T) -> (found: bool)
    ensures
        obeys_key_model::<T>() ==> found == set@.contains(*item),
{
    set.contains(item)
}

impl<T: Eq + Hash> ItemSet<T> for HashSet<T, ahash::RandomState> {
    open spec fn items(&self) -> Set<T> {
        self@
    }

    fn with_room_for(capacity: usize) -> (set: Self) {
        fast_set_with_capacity(capacity)
    }

    fn record(&mut self, item: T) -> (fresh: bool) {
        fast_set_insert(self, item)
    }

    fn holds(&self, item: &T) -> (found: bool) {
        fast_set_contains(self, item)
    }
}

} // verus!
