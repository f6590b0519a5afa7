//! The values of a vector that occur in none of several others.

use crate::array::elements::lists_of;
use crate::array::item_set::ItemSet;
use crate::array::model::{faithful_clone, obeys_set_model};
use std::collections::HashSet;
use std::hash::Hash;
use vstd::prelude::*;

verus! {

/// `value` occurs in at least one sequence of `lists`.
pub open spec fn occurs_in_any<T>(lists: Seq<Seq<T>>, value: T) -> bool {
    exists|i: int| 0 <= i < lists.len() && (#[trigger] lists[i]).contains(value)
}

/// The elements of `s` that occur in no sequence of `lists`, in the order of
/// `s`. An element that stays stays as often as it occurs in `s`.
pub open spec fn without_all<T>(s: Seq<T>, lists: Seq<Seq<T>>) -> Seq<T> {
    s.filter(|value: T| !occurs_in_any(lists, value))
}

/// What is kept occurs in the sequence it was taken from, and in none of
/// the others.
pub proof fn lemma_without_all_kept<T>(s: Seq<T>, lists: Seq<Seq<T>>, value: T)
    requires
        without_all(s, lists).contains(value),
    ensures
        s.contains(value),
        !occurs_in_any(lists, value),
{
    let keep = |value: T| !occurs_in_any(lists, value);
    let i = choose|i: int| 0 <= i < s.filter(keep).len() && s.filter(keep)[i] == value;
    s.lemma_filter_pred(keep, i);
    s.lemma_filter_contains_rev(keep, value);
}

/// Every element that is kept occurs in the sequence it was taken from, and
/// in none of the others.
proof fn lemma_without_all_each_kept<T>(s: Seq<T>, lists: Seq<Seq<T>>)
    ensures
        forall|i: int|
            0 <= i < without_all(s, lists).len() ==> s.contains(#[trigger] without_all(s, lists)[i])
                && !occurs_in_any(lists, without_all(s, lists)[i]),
{
    let kept = without_all(s, lists);
    assert forall|i: int| 0 <= i < kept.len() implies s.contains(#[trigger] kept[i])
        && !occurs_in_any(lists, kept[i]) by {
        lemma_without_all_kept(s, lists, kept[i]);
    }
}

/// What occurs in none of the others is kept.
pub proof fn lemma_without_all_keeps<T>(s: Seq<T>, lists: Seq<Seq<T>>, value: T)
    requires
        s.contains(value),
        !occurs_in_any(lists, value),
    ensures
        without_all(s, lists).contains(value),
{
    let keep = |value: T| !occurs_in_any(lists, value);
    let i = choose|i: int| 0 <= i < s.len() && s[i] == value;
    s.lemma_filter_contains(keep, i);
}

/// With no other sequences, everything is kept.
pub proof fn lemma_without_all_of_none<T>(s: Seq<T>, lists: Seq<Seq<T>>)
    requires
        lists.len() == 0,
    ensures
        without_all(s, lists) == s,
    decreases s.len(),
{
    let keep = |value: T| !occurs_in_any(lists, value);
    if s.len() == 0 {
        reveal(Seq::filter);
    } else {
        lemma_without_all_of_none(s.drop_last(), lists);
        s.drop_last().lemma_filter_push(s.last(), keep);
        assert(s.drop_last().push(s.last()) == s);
    }
}

/// The lengths of the sequences of `lists`, added up.
pub open spec fn summed_lengths<T>(lists: Seq<Seq<T>>) -> nat
    decreases lists.len(),
{
    if lists.len() == 0 {
        0
    } else {
        summed_lengths(lists.drop_last()) + lists.last().len()
    }
}

/// Returns the sum of the lengths of `others`, or `None` where the sum is
/// too large for a `usize`.
fn summed_length<T>(others: &Vec<&Vec<T>>) -> (total: Option<usize>)
    ensures
        total == if summed_lengths(lists_of::<T, &Vec<T>>(others@)) <= usize::MAX {
            Some(summed_lengths(lists_of::<T, &Vec<T>>(others@)) as usize)
        } else {
            None
        },
{
    let ghost lists = lists_of::<T, &Vec<T>>(others@);
    let mut total: usize = 0;
    let mut at: usize = 0;
    while at < others.len()
        invariant
            at <= others@.len(),
            lists == lists_of::<T, &Vec<T>>(others@),
            total == summed_lengths(lists.take(at as int)),
        decreases others@.len() - at,
    {
        assert(lists.take(at + 1).drop_last() == lists.take(at as int));
        match total.checked_add(others[at].len()) {
            Some(sum) => {
                total = sum;
            },
            None => {
                proof {
                    lemma_summed_lengths_grow(lists, at + 1);
                }
                return None;
            },
        }
        at += 1;
    }
    assert(lists.take(at as int) == lists);
    Some(total)
}

/// The first sequences of `lists` are together no longer than all of them.
proof fn lemma_summed_lengths_grow<T>(lists: Seq<Seq<T>>, n: int)
    requires
        0 <= n <= lists.len(),
    ensures
        summed_lengths(lists.take(n)) <= summed_lengths(lists),
    decreases lists.len() - n,
{
    if n < lists.len() {
        lemma_summed_lengths_grow(lists, n + 1);
        assert(lists.take(n + 1).drop_last() == lists.take(n));
    } else {
        assert(lists.take(n) == lists);
    }
}

/// The values that occur in any sequence of `lists`.
spec fn values_of<T>(lists: Seq<Seq<T>>) -> Set<T> {
    Set::new(|value: T| occurs_in_any(lists, value))
}

/// One more sequence adds its values to those of the others.
proof fn lemma_values_of_push<T>(lists: Seq<Seq<T>>, last: Seq<T>)
    ensures
        values_of(lists.push(last)) == values_of(lists).union(last.to_set()),
{
    let all = lists.push(last);
    assert forall|value: T| #[trigger]
        values_of(all).contains(value) <==> values_of(lists).union(last.to_set()).contains(
            value,
        ) by {
        if occurs_in_any(lists, value) {
            let i = choose|i: int| 0 <= i < lists.len() && (#[trigger] lists[i]).contains(value);
            assert(all[i] == lists[i]);
        }
        if last.contains(value) {
            assert(all[lists.len() as int] == last);
        }
        if occurs_in_any(all, value) {
            let i = choose|i: int| 0 <= i < all.len() && (#[trigger] all[i]).contains(value);
            if i < lists.len() {
                assert(all[i] == lists[i]);
            }
        }
    }
    assert(values_of(all) =~= values_of(lists).union(last.to_set()));
}

/// Gathers the values of all of `others` in a set `S`, made with room for as
/// many items as `others` hold together, or for none where that number is
/// too large for a `usize`.
fn gather<T: Eq + Hash + Clone, S: ItemSet<T>>(others: &Vec<&Vec<T>>) -> (excluded: S)
    requires
        obeys_set_model::<T>(),
    ensures
        excluded.items() == values_of(lists_of::<T, &Vec<T>>(others@)),
{
    let ghost lists = lists_of::<T, &Vec<T>>(others@);
    let capacity = match summed_length(others) {
        Some(total) => total,
        None => 0,
    };
    let mut excluded = S::with_room_for(capacity);
    let mut round: usize = 0;
    assert(values_of(lists.take(0)) =~= Set::<T>::empty());
    while round < others.len()
        invariant
            obeys_set_model::<T>(),
            lists == lists_of::<T, &Vec<T>>(others@),
            round <= others@.len(),
            excluded.items() == values_of(lists.take(round as int)),
        decreases others@.len() - round,
    {
        let list = others[round];
        let ghost before = excluded.items();
        let mut at: usize = 0;
        assert(before.union(list@.take(0).to_set()) =~= before);
        while at < list.len()
            invariant
                obeys_set_model::<T>(),
                at <= list@.len(),
                excluded.items() == before.union(list@.take(at as int).to_set()),
            decreases list@.len() - at,
        {
            let ghost met = list@.take(at as int);
            excluded.record(faithful_clone(&list[at]));
            proof {
                met.lemma_push_to_set_commute(list@[at as int]);
                assert(list@.take(at + 1) == met.push(list@[at as int]));
                assert(excluded.items() =~= before.union(list@.take(at + 1).to_set()));
            }
            at += 1;
        }
        proof {
            lemma_values_of_push(lists.take(round as int), list@);
            assert(list@.take(at as int) == list@);
            assert(lists.take(round + 1) == lists.take(round as int).push(list@));
        }
        round += 1;
    }
    assert(lists.take(round as int) == lists);
    excluded
}

/// Filters `to_compare` against the values of `others`, gathered in a set
/// `S`.
fn difference_with<T: Eq + Hash + Clone, S: ItemSet<T>>(
    to_compare: &Vec<T>,
    others: &Vec<&Vec<T>>,
) -> (kept: Vec<T>)
    requires
        obeys_set_model::<T>(),
    ensures
        kept@ == without_all(to_compare@, lists_of::<T, &Vec<T>>(others@)),
{
    let ghost lists = lists_of::<T, &Vec<T>>(others@);
    let ghost keep = |value: T| !occurs_in_any(lists, value);
    let excluded: S = gather(others);
    let mut kept: Vec<T> = Vec::new();
    let mut at: usize = 0;
    assert(to_compare@.take(0).filter(keep) == Seq::<T>::empty()) by {
        reveal(Seq::filter);
    }
    while at < to_compare.len()
        invariant
            obeys_set_model::<T>(),
            at <= to_compare@.len(),
            keep == |value: T| !occurs_in_any(lists, value),
            excluded.items() == values_of(lists),
            kept@ == to_compare@.take(at as int).filter(keep),
        decreases to_compare@.len() - at,
    {
        let item = &to_compare[at];
        proof {
            to_compare@.take(at as int).lemma_filter_push(*item, keep);
            assert(to_compare@.take(at + 1) == to_compare@.take(at as int).push(*item));
        }
        if !excluded.holds(item) {
            kept.push(faithful_clone(item));
        }
        at += 1;
    }
    assert(to_compare@.take(at as int) == to_compare@);
    kept
}

/// Returns, in their order, clones of the elements of `to_compare` that are
/// equal to no element of any vector of `others`.
///
/// Nothing is deduplicated: an element that stays stays as often as it
/// occurs. With no `others`, the result is a clone of `to_compare`.
///
/// The values to leave out are gathered in a set that hashes each with the
/// hasher of `std`, which resists inputs that were chosen to collide.
pub fn difference<T: Eq + Hash + Clone>(to_compare: &Vec<T>, others: &Vec<&Vec<T>>) -> (kept: Vec<
    T,
>)
    requires
        obeys_set_model::<T>(),
    ensures
        kept@ == without_all(to_compare@, lists_of::<T, &Vec<T>>(others@)),
        forall|i: int|
            0 <= i < kept@.len() ==> to_compare@.contains(#[trigger] kept@[i]) && !occurs_in_any(
                lists_of::<T, &Vec<T>>(others@),
                kept@[i],
            ),
        others@.len() == 0 ==> kept@ == to_compare@,
        to_compare@.len() == 0 ==> kept@.len() == 0,
{
    let kept = difference_with::<T, HashSet<T>>(to_compare, others);
    proof {
        lemma_without_all_each_kept(to_compare@, lists_of::<T, &Vec<T>>(others@));
        if others@.len() == 0 {
            lemma_without_all_of_none(to_compare@, lists_of::<T, &Vec<T>>(others@));
        }
    }
    kept
}

/// Returns what [`difference`] returns, hashing with the faster hasher of
/// `ahash`. It is meant for input that can be trusted not to aim at
/// collisions.
pub fn difference_performant<T: Eq + Hash + Clone>(
    to_compare: &Vec<T>,
    others: &Vec<&Vec<T>>,
) -> (kept: Vec<T>)
    requires
        obeys_set_model::<T>(),
    ensures
        kept@ == without_all(to_compare@, lists_of::<T, &Vec<T>>(others@)),
        forall|i: int|
            0 <= i < kept@.len() ==> to_compare@.contains(#[trigger] kept@[i]) && !occurs_in_any(
                lists_of::<T, &Vec<T>>(others@),
                kept@[i],
            ),
        others@.len() == 0 ==> kept@ == to_compare@,
        to_compare@.len() == 0 ==> kept@.len() == 0,
{
    let kept = difference_with::<T, HashSet<T, ahash::RandomState>>(to_compare, others);
    proof {
        lemma_without_all_each_kept(to_compare@, lists_of::<T, &Vec<T>>(others@));
        if others@.len() == 0 {
            lemma_without_all_of_none(to_compare@, lists_of::<T, &Vec<T>>(others@));
        }
    }
    kept
}

} // verus!
