//! The values that several sequences have in common.

use crate::array::elements::{lists_of, AsElements};
use crate::array::model::{faithful_clone, obeys_set_model};
use std::collections::{HashMap, HashSet};
use std::hash::Hash;
use vstd::prelude::*;
use vstd::seq_lib::{to_multiset_contains, to_multiset_len};
use vstd::std_specs::iter::IteratorSpec;

verus! {

/// `value` occurs at least once in every sequence of `lists`.
pub open spec fn occurs_in_all<T>(lists: Seq<Seq<T>>, value: T) -> bool {
    forall|i: int| 0 <= i < lists.len() ==> (#[trigger] lists[i]).contains(value)
}

/// The values that occur in every sequence of `lists`. No sequences at all
/// have nothing in common.
pub open spec fn common_elements<T>(lists: Seq<Seq<T>>) -> Set<T> {
    if lists.len() == 0 {
        Set::empty()
    } else {
        Set::new(|value: T| occurs_in_all(lists, value))
    }
}

/// In how many sequences of `lists` `value` occurs; several occurrences in
/// one sequence count once.
pub open spec fn membership_count<T>(lists: Seq<Seq<T>>, value: T) -> nat
    decreases lists.len(),
{
    if lists.len() == 0 {
        0
    } else {
        membership_count(lists.drop_last(), value) + if lists.last().contains(value) {
            1nat
        } else {
            0nat
        }
    }
}

/// A value occurs in at most as many sequences as there are, and in that
/// many exactly when it occurs in all of them.
pub proof fn lemma_membership_count_full<T>(lists: Seq<Seq<T>>, value: T)
    ensures
        membership_count(lists, value) <= lists.len(),
        membership_count(lists, value) == lists.len() <==> occurs_in_all(lists, value),
    decreases lists.len(),
{
    if lists.len() > 0 {
        let init = lists.drop_last();
        lemma_membership_count_full(init, value);
        if occurs_in_all(lists, value) {
            assert(occurs_in_all(init, value)) by {
                assert forall|i: int| 0 <= i < init.len() implies (#[trigger] init[i]).contains(
                    value,
                ) by {
                    assert(init[i] == lists[i]);
                }
            }
        }
        if membership_count(lists, value) == lists.len() {
            assert forall|i: int| 0 <= i < lists.len() implies (#[trigger] lists[i]).contains(
                value,
            ) by {
                if i < init.len() {
                    assert(init[i] == lists[i]);
                }
            }
        }
    }
}

/// A value is common to the sequences exactly when there is a sequence and
/// its membership count is the number of sequences.
pub proof fn lemma_common_elements_count<T>(lists: Seq<Seq<T>>, value: T)
    ensures
        common_elements(lists).contains(value) <==> lists.len() > 0 && membership_count(
            lists,
            value,
        ) == lists.len(),
{
    lemma_membership_count_full(lists, value);
}

/// What the sequences have in common does not depend on their order.
pub proof fn lemma_common_elements_permutation<T>(first: Seq<Seq<T>>, second: Seq<Seq<T>>)
    requires
        first.to_multiset() == second.to_multiset(),
    ensures
        common_elements(first) == common_elements(second),
{
    to_multiset_len(first);
    to_multiset_len(second);
    assert forall|value: T| occurs_in_all(first, value) == occurs_in_all(second, value) by {
        lemma_occurs_in_all_of_same_lists(first, second, value);
        lemma_occurs_in_all_of_same_lists(second, first, value);
    }
}

/// A value that occurs in all of `first` occurs in all of `second`, where
/// every sequence of `second` is one of `first`.
proof fn lemma_occurs_in_all_of_same_lists<T>(first: Seq<Seq<T>>, second: Seq<Seq<T>>, value: T)
    requires
        first.to_multiset() == second.to_multiset(),
    ensures
        occurs_in_all(first, value) ==> occurs_in_all(second, value),
{
    if occurs_in_all(first, value) {
        assert forall|i: int| 0 <= i < second.len() implies (#[trigger] second[i]).contains(
            value,
        ) by {
            to_multiset_contains(second, second[i]);
            to_multiset_contains(first, second[i]);
            assert(first.contains(second[i]));
        }
    }
}

/// Where one of the sequences is empty, nothing is common to them.
pub proof fn lemma_common_elements_with_empty<T>(lists: Seq<Seq<T>>, i: int)
    requires
        0 <= i < lists.len(),
        lists[i].len() == 0,
    ensures
        common_elements(lists) == Set::<T>::empty(),
{
    assert forall|value: T| !common_elements(lists).contains(value) by {
        assert(!lists[i].contains(value));
    }
}

/// Where all sequences are the same, its values are what they have in
/// common.
pub proof fn lemma_common_elements_of_identical<T>(lists: Seq<Seq<T>>, list: Seq<T>)
    requires
        lists.len() > 0,
        forall|i: int| 0 <= i < lists.len() ==> #[trigger] lists[i] == list,
    ensures
        common_elements(lists) == list.to_set(),
{
    assert forall|value: T| common_elements(lists).contains(value) == list.contains(value) by {
        assert(lists[0] == list);
    }
    assert(common_elements(lists) =~= list.to_set());
}

/// `count` holds the membership count in `lists` of every value that occurs
/// in them, with one more for the values of `current`, and no other value.
spec fn counts_match<T>(count: Map<T, usize>, lists: Seq<Seq<T>>, current: Set<T>) -> bool {
    forall|value: T|
        {
            let reached = membership_count(lists, value) + if current.contains(value) {
                1nat
            } else {
                0nat
            };
            &&& #[trigger] count.contains_key(value) <==> reached > 0
            &&& count.contains_key(value) ==> count[value] == reached
        }
}

/// Among the first `upto` entries of `pairs` there is one for `value` whose
/// count is `total`.
spec fn kept_before<T>(pairs: Seq<(&T, &usize)>, upto: int, total: usize, value: T) -> bool {
    exists|k: int| 0 <= k < upto && *(#[trigger] pairs[k]).0 == value && *pairs[k].1 == total
}

/// Counts one more sequence: adds one to the count of each value of
/// `sequence`, once for each value however often it occurs.
fn count_sequence<T: Clone + Eq + Hash>(
    count: &mut HashMap<T, usize>,
    sequence: &[T],
    Ghost(done): Ghost<Seq<Seq<T>>>,
)
    requires
        obeys_set_model::<T>(),
        done.len() < usize::MAX,
        counts_match(old(count)@, done, Set::empty()),
    ensures
        counts_match(final(count)@, done.push(sequence@), Set::empty()),
{
    let mut seen: HashSet<T> = HashSet::new();
    let mut at: usize = 0;
    while at < sequence.len()
        invariant
            obeys_set_model::<T>(),
            done.len() < usize::MAX,
            at <= sequence@.len(),
            seen@ == sequence@.take(at as int).to_set(),
            counts_match(count@, done, seen@),
        decreases sequence@.len() - at,
    {
        let item = &sequence[at];
        proof {
            lemma_membership_count_full(done, *item);
            sequence@.take(at as int).lemma_push_to_set_commute(*item);
            assert(sequence@.take(at + 1) == sequence@.take(at as int).push(*item));
        }
        if seen.insert(faithful_clone(item)) {
            let next: usize = match count.get(item) {
                Some(reached) => *reached + 1,
                None => 1,
            };
            count.insert(faithful_clone(item), next);
        }
        at += 1;
    }
    proof {
        let all = done.push(sequence@);
        assert(sequence@.take(at as int) == sequence@);
        assert(all.drop_last() == done);
        assert(forall|value: T| seen@.contains(value) <==> sequence@.contains(value));
    }
}

/// Returns the keys of `count` whose count is `total`, each once.
fn keys_counted<T: Clone + Eq + Hash>(count: &HashMap<T, usize>, total: usize) -> (keys: Vec<T>)
    requires
        obeys_set_model::<T>(),
    ensures
        keys@.no_duplicates(),
        forall|value: T| #[trigger]
            keys@.contains(value) <==> count@.contains_key(value) && count@[value] == total,
{
    let mut keys: Vec<T> = Vec::new();
    let ghost pairs = count.iter().remaining();
    let ghost mut visited: int = 0;
    for entry in entries: count.iter()
        invariant
            obeys_set_model::<T>(),
            entries.seq() == pairs,
            pairs == count.iter().remaining(),
            pairs.no_duplicates(),
            visited == entries.index(),
            keys@.no_duplicates(),
            forall|value: T| #[trigger]
                keys@.contains(value) <==> kept_before(pairs, entries.index(), total, value),
    {
        let (key, reached) = entry;
        let ghost kept = keys@;
        let ghost here = entries.index();
        if *reached == total {
            keys.push(faithful_clone(key));
            assert(!kept.contains(*key)) by {
                if kept_before(pairs, here, total, *key) {
                    let k = choose|k: int|
                        0 <= k < here && *(#[trigger] pairs[k]).0 == *key && *pairs[k].1 == total;
                    assert(pairs[k] == pairs[here]);
                }
            }
        }
        proof {
            assert(keys@ == if *reached == total {
                kept.push(*key)
            } else {
                kept
            });
            assert forall|value: T| #[trigger]
                keys@.contains(value) <==> kept_before(pairs, here + 1, total, value) by {
                if kept_before(pairs, here + 1, total, value) {
                    let k = choose|k: int|
                        0 <= k < here + 1 && *(#[trigger] pairs[k]).0 == value && *pairs[k].1
                            == total;
                    if k < here {
                        assert(kept.contains(value));
                        let at = choose|at: int| 0 <= at < kept.len() && kept[at] == value;
                        assert(keys@[at] == value);
                    } else {
                        assert(keys@.last() == value);
                    }
                }
                if keys@.contains(value) {
                    let at = choose|at: int| 0 <= at < keys@.len() && keys@[at] == value;
                    if at < kept.len() {
                        assert(kept.contains(value));
                        assert(kept_before(pairs, here, total, value));
                    } else {
                        assert(*pairs[here].0 == value);
                    }
                }
            }
            visited = visited + 1;
        }
    }
    proof {
        assert forall|value: T| #[trigger]
            keys@.contains(value) <==> count@.contains_key(value) && count@[value] == total by {
            if count@.contains_key(value) && count@[value] == total {
                assert(pairs.contains((&value, &count@[value])));
                let k = choose|k: int| 0 <= k < pairs.len() && pairs[k] == (&value, &count@[value]);
                assert(*pairs[k].0 == value);
            }
            if kept_before(pairs, visited, total, value) {
                let k = choose|k: int|
                    0 <= k < visited && *(#[trigger] pairs[k]).0 == value && *pairs[k].1 == total;
                assert(count@.contains_key(*pairs[k].0));
            }
        }
    }
    keys
}

/// Returns the values that occur in every one of `values`, each once, in no
/// particular order.
///
/// A value that occurs several times in one of the sequences counts once for
/// it. With no sequences at all, or with one that is empty, the result is
/// empty.
pub fn intersection<T, U>(values: &[U]) -> (common: Vec<T>) where
    U: AsElements<T>,
    T: Clone + Eq + Hash,

    requires
        obeys_set_model::<T>(),
    ensures
        common@.no_duplicates(),
        common@.to_set() == common_elements(lists_of::<T, U>(values@)),
        forall|i: int|
            0 <= i < common@.len() ==> membership_count(
                lists_of::<T, U>(values@),
                #[trigger] common@[i],
            ) == values@.len(),
        (exists|i: int| 0 <= i < values@.len() && (#[trigger] values@[i]).elements().len() == 0)
            ==> common@.len() == 0,
        values@.len() == 0 ==> common@.len() == 0,
{
    let ghost lists = lists_of::<T, U>(values@);
    let mut count: HashMap<T, usize> = HashMap::new();
    let mut round: usize = 0;
    while round < values.len()
        invariant
            obeys_set_model::<T>(),
            round <= values@.len(),
            lists == lists_of::<T, U>(values@),
            counts_match(count@, lists.take(round as int), Set::empty()),
        decreases values@.len() - round,
    {
        let sequence = values[round].as_elements();
        count_sequence(&mut count, sequence, Ghost(lists.take(round as int)));
        assert(lists.take(round + 1) == lists.take(round as int).push(sequence@));
        round += 1;
    }
    let common = keys_counted(&count, values.len());
    proof {
        assert(lists.take(round as int) == lists);
        assert forall|value: T|
            common@.to_set().contains(value) <==> common_elements(lists).contains(value) by {
            lemma_membership_count_full(lists, value);
            assert(common@.contains(value) <==> count@.contains_key(value) && count@[value]
                == values@.len());
        }
        assert forall|i: int| 0 <= i < common@.len() implies membership_count(
            lists,
            #[trigger] common@[i],
        ) == values@.len() by {
            assert(common@.contains(common@[i]));
        }
        if common@.len() > 0 {
            assert(common_elements(lists).contains(common@[0])) by {
                assert(common@.to_set().contains(common@[0]));
            }
            assert forall|i: int| 0 <= i < values@.len() implies (#[trigger] values@[i]).elements(
            ).len() > 0 by {
                assert(lists[i].contains(common@[0]));
            }
        }
    }
    common
}

} // verus!
