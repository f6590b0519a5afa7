//! Removing repeated values from a vector.

use crate::array::item_set::ItemSet;
use crate::array::model::{faithful_clone, obeys_set_model};
use std::collections::HashSet;
use std::hash::Hash;
use vstd::prelude::*;

verus! {

/// The first occurrence of each value of `s`, in the order of `s`.
pub open spec fn first_occurrences<T>(s: Seq<T>) -> Seq<T>
    decreases s.len(),
{
    if s.len() == 0 {
        Seq::empty()
    } else if s.drop_last().contains(s.last()) {
        first_occurrences(s.drop_last())
    } else {
        first_occurrences(s.drop_last()).push(s.last())
    }
}

/// The first occurrences are the values of the sequence, each once: no
/// value is repeated among them, none is lost and none is new, so there are
/// as many as the sequence has distinct values.
pub proof fn lemma_first_occurrences_distinct<T>(s: Seq<T>)
    ensures
        first_occurrences(s).no_duplicates(),
        first_occurrences(s).to_set() == s.to_set(),
        first_occurrences(s).len() == s.to_set().len(),
    decreases s.len(),
{
    let kept = first_occurrences(s);
    if s.len() > 0 {
        let init = s.drop_last();
        let kept_init = first_occurrences(init);
        lemma_first_occurrences_distinct(init);
        assert(s == init.push(s.last()));
        init.lemma_push_to_set_commute(s.last());
        if !init.contains(s.last()) {
            assert(!kept_init.to_set().contains(s.last()));
            kept_init.lemma_push_to_set_commute(s.last());
        }
    }
    kept.unique_seq_to_set();
}

/// A sequence without repeated values is its own first occurrences.
pub proof fn lemma_first_occurrences_of_distinct<T>(s: Seq<T>)
    requires
        s.no_duplicates(),
    ensures
        first_occurrences(s) == s,
    decreases s.len(),
{
    if s.len() > 0 {
        let init = s.drop_last();
        lemma_first_occurrences_of_distinct(init);
        assert(!init.contains(s.last())) by {
            if init.contains(s.last()) {
                let i = choose|i: int| 0 <= i < init.len() && init[i] == s.last();
                assert(s[i] == s[s.len() - 1]);
            }
        }
    }
}

/// Taking the first occurrences a second time changes nothing.
pub proof fn lemma_first_occurrences_idempotent<T>(s: Seq<T>)
    ensures
        first_occurrences(first_occurrences(s)) == first_occurrences(s),
{
    lemma_first_occurrences_distinct(s);
    lemma_first_occurrences_of_distinct(first_occurrences(s));
}

/// The first occurrences stand in the order in which their values first
/// occur in the sequence.
pub proof fn lemma_first_occurrences_order<T>(s: Seq<T>, i: int, j: int)
    requires
        0 <= i < j < first_occurrences(s).len(),
    ensures
        s.index_of_first(first_occurrences(s)[i]) is Some,
        s.index_of_first(first_occurrences(s)[j]) is Some,
        s.index_of_first(first_occurrences(s)[i])->0 < s.index_of_first(first_occurrences(s)[j])->0,
    decreases s.len(),
{
    let kept = first_occurrences(s);
    let init = s.drop_last();
    let kept_init = first_occurrences(init);
    lemma_first_occurrences_distinct(s);
    lemma_first_occurrences_distinct(init);
    s.index_of_first_ensures(kept[i]);
    s.index_of_first_ensures(kept[j]);
    assert(kept_init.to_set().contains(kept[i]));
    init.index_of_first_ensures(kept[i]);
    let at = init.index_of_first(kept[i])->0;
    assert(s.index_of_first(kept[i])->0 == at) by {
        let found = s.index_of_first(kept[i])->0;
        if found < at {
            assert(init[found] == s[found]);
        }
    }
    if j < kept_init.len() {
        lemma_first_occurrences_order(init, i, j);
        init.index_of_first_ensures(kept[j]);
        let other = init.index_of_first(kept[j])->0;
        assert(s.index_of_first(kept[j])->0 == other) by {
            let found = s.index_of_first(kept[j])->0;
            if found < other {
                assert(init[found] == s[found]);
            }
        }
    } else {
        let found = s.index_of_first(kept[j])->0;
        if found < s.len() - 1 {
            assert(init[found] == s[found]);
        }
    }
}

/// What [`uniq`] and [`uniq_performant`] leave of one input is the same
/// vector: the hasher has no part in it.
pub proof fn lemma_uniq_variants_agree<T>(
    input: Seq<T>,
    by_uniq: Seq<T>,
    by_uniq_performant: Seq<T>,
)
    requires
        by_uniq == first_occurrences(input),
        by_uniq_performant == first_occurrences(input),
    ensures
        by_uniq == by_uniq_performant,
{
}

/// Keeps the first occurrence of each value, with the set `S` to remember
/// the values met.
fn uniq_with<T: Eq + Hash + Clone, S: ItemSet<T>>(values: &mut Vec<T>)
    requires
        obeys_set_model::<T>(),
    ensures
        final(values)@ == first_occurrences(old(values)@),
{
    let mut seen = S::with_room_for(values.len());
    let mut source: Vec<T> = Vec::new();
    std::mem::swap(values, &mut source);
    let ghost all = source@;
    for item in items: source
        invariant
            obeys_set_model::<T>(),
            items.seq() == all,
            seen.items() == all.take(items.index()).to_set(),
            values@ == first_occurrences(all.take(items.index())),
    {
        let ghost met = all.take(items.index());
        proof {
            met.lemma_push_to_set_commute(item);
            assert(all.take(items.index() + 1) == met.push(item));
            assert(met.push(item).drop_last() == met);
        }
        if seen.record(faithful_clone(&item)) {
            values.push(item);
        }
    }
    assert(all.take(all.len() as int) == all);
}

/// Removes from `values` every value that occurred earlier in it, keeping
/// the first occurrence of each in place and in order.
///
/// The values met are kept in a set that hashes each with the hasher of
/// `std`, which resists inputs that were chosen to collide.
pub fn uniq<T: Eq + Hash + Clone>(values: &mut Vec<T>)
    requires
        obeys_set_model::<T>(),
    ensures
        final(values)@ == first_occurrences(old(values)@),
        final(values)@.no_duplicates(),
        final(values)@.to_set() == old(values)@.to_set(),
        final(values)@.len() == old(values)@.to_set().len(),
{
    uniq_with::<T, HashSet<T>>(values);
    proof {
        lemma_first_occurrences_distinct(old(values)@);
    }
}

/// Removes from `values` every value that occurred earlier in it, as
/// [`uniq`] does and with the same result, hashing with the faster hasher of
/// `ahash`. It is meant for input that can be trusted not to aim at
/// collisions.
pub fn uniq_performant<T: Eq + Hash + Clone>(values: &mut Vec<T>)
    requires
        obeys_set_model::<T>(),
    ensures
        final(values)@ == first_occurrences(old(values)@),
        final(values)@.no_duplicates(),
        final(values)@.to_set() == old(values)@.to_set(),
        final(values)@.len() == old(values)@.to_set().len(),
{
    uniq_with::<T, HashSet<T, ahash::RandomState>>(values);
    proof {
        lemma_first_occurrences_distinct(old(values)@);
    }
}

} // verus!
