//! Removing the empty values from a vector.

use vstd::prelude::*;

verus! {

/// Values of which some count as empty: zero, `false`, a string or a vector
/// without elements, `None`, and `Some` of an empty value.
///
/// An implementation says in `spec_is_empty` which values count as empty,
/// and computes the same in `is_empty`.
pub trait IsEmpty {
    /// Whether `self` counts as empty.
    spec fn spec_is_empty(&self) -> bool;

    /// Tells whether `self` counts as empty.
    fn is_empty(&self) -> (empty: bool)
        ensures
            empty == self.spec_is_empty(),
    ;
}

impl IsEmpty for String {
    open spec fn spec_is_empty(&self) -> bool {
        self@.len() == 0
    }

    fn is_empty(&self) -> (empty: bool) {
        self.as_str().is_empty()
    }
}

impl IsEmpty for &str {
    open spec fn spec_is_empty(&self) -> bool {
        self@.len() == 0
    }

    fn is_empty(&self) -> (empty: bool) {
        str::is_empty(self)
    }
}

impl<T> IsEmpty for Vec<T> {
    open spec fn spec_is_empty(&self) -> bool {
        self@.len() == 0
    }

    fn is_empty(&self) -> (empty: bool) {
        self.len() == 0
    }
}

impl IsEmpty for bool {
    open spec fn spec_is_empty(&self) -> bool {
        !*self
    }

    fn is_empty(&self) -> (empty: bool) {
        !*self
    }
}

impl<T: IsEmpty> IsEmpty for Option<T> {
    open spec fn spec_is_empty(&self) -> bool {
        match self {
            None => true,
            Some(value) => value.spec_is_empty(),
        }
    }

    fn is_empty(&self) -> (empty: bool) {
        match self {
            None => true,
            Some(value) => value.is_empty(),
        }
    }
}

impl IsEmpty for i8 {
    open spec fn spec_is_empty(&self) -> bool {
        *self == 0
    }

    fn is_empty(&self) -> (empty: bool) {
        *self == 0
    }
}

impl IsEmpty for i16 {
    open spec fn spec_is_empty(&self) -> bool {
        *self == 0
    }

    fn is_empty(&self) -> (empty: bool) {
        *self == 0
    }
}

impl IsEmpty for i32 {
    open spec fn spec_is_empty(&self) -> bool {
        *self == 0
    }

    fn is_empty(&self) -> (empty: bool) {
        *self == 0
    }
}

impl IsEmpty for i64 {
    open spec fn spec_is_empty(&self) -> bool {
        *self == 0
    }

    fn is_empty(&self) -> (empty: bool) {
        *self == 0
    }
}

impl IsEmpty for i128 {
    open spec fn spec_is_empty(&self) -> bool {
        *self == 0
    }

    fn is_empty(&self) -> (empty: bool) {
        *self == 0
    }
}

impl IsEmpty for isize {
    open spec fn spec_is_empty(&self) -> bool {
        *self == 0
    }

    fn is_empty(&self) -> (empty: bool) {
        *self == 0
    }
}

impl IsEmpty for u8 {
    open spec fn spec_is_empty(&self) -> bool {
        *self == 0
    }

    fn is_empty(&self) -> (empty: bool) {
        *self == 0
    }
}

impl IsEmpty for u16 {
    open spec fn spec_is_empty(&self) -> bool {
        *self == 0
    }

    fn is_empty(&self) -> (empty: bool) {
        *self == 0
    }
}

impl IsEmpty for u32 {
    open spec fn spec_is_empty(&self) -> bool {
        *self == 0
    }

    fn is_empty(&self) -> (empty: bool) {
        *self == 0
    }
}

impl IsEmpty for u64 {
    open spec fn spec_is_empty(&self) -> bool {
        *self == 0
    }

    fn is_empty(&self) -> (empty: bool) {
        *self == 0
    }
}

impl IsEmpty for u128 {
    open spec fn spec_is_empty(&self) -> bool {
        *self == 0
    }

    fn is_empty(&self) -> (empty: bool) {
        *self == 0
    }
}

impl IsEmpty for usize {
    open spec fn spec_is_empty(&self) -> bool {
        *self == 0
    }

    fn is_empty(&self) -> (empty: bool) {
        *self == 0
    }
}

/// The elements of `s` that are not empty, in the order of `s`.
pub open spec fn without_empty<T: IsEmpty>(s: Seq<T>) -> Seq<T> {
    s.filter(|value: T| !value.spec_is_empty())
}

/// What is kept is not empty, and was in the sequence.
pub proof fn lemma_without_empty_kept<T: IsEmpty>(s: Seq<T>, value: T)
    requires
        without_empty(s).contains(value),
    ensures
        !value.spec_is_empty(),
        s.contains(value),
{
    let keep = |value: T| !value.spec_is_empty();
    let i = choose|i: int| 0 <= i < s.filter(keep).len() && s.filter(keep)[i] == value;
    s.lemma_filter_pred(keep, i);
    s.lemma_filter_contains_rev(keep, value);
}

/// What is not empty is kept.
pub proof fn lemma_without_empty_keeps<T: IsEmpty>(s: Seq<T>, value: T)
    requires
        s.contains(value),
        !value.spec_is_empty(),
    ensures
        without_empty(s).contains(value),
{
    let keep = |value: T| !value.spec_is_empty();
    let i = choose|i: int| 0 <= i < s.len() && s[i] == value;
    s.lemma_filter_contains(keep, i);
}

/// A sequence without empty elements is left as it is.
pub proof fn lemma_without_empty_of_full<T: IsEmpty>(s: Seq<T>)
    requires
        forall|i: int| 0 <= i < s.len() ==> !(#[trigger] s[i]).spec_is_empty(),
    ensures
        without_empty(s) == s,
    decreases s.len(),
{
    let keep = |value: T| !value.spec_is_empty();
    if s.len() == 0 {
        reveal(Seq::filter);
    } else {
        lemma_without_empty_of_full(s.drop_last());
        s.drop_last().lemma_filter_push(s.last(), keep);
        assert(s.drop_last().push(s.last()) == s);
    }
}

/// Removing the empty elements a second time changes nothing.
pub proof fn lemma_without_empty_idempotent<T: IsEmpty>(s: Seq<T>)
    ensures
        without_empty(without_empty(s)) == without_empty(s),
{
    let keep = |value: T| !value.spec_is_empty();
    let kept = without_empty(s);
    assert forall|i: int| 0 <= i < kept.len() implies !(#[trigger] kept[i]).spec_is_empty() by {
        s.lemma_filter_pred(keep, i);
    }
    lemma_without_empty_of_full(kept);
}

/// Removes from `values` every element that counts as empty, keeping the
/// others in place and in order.
pub fn compact<T: IsEmpty>(values: &mut Vec<T>)
    ensures
        final(values)@ == without_empty(old(values)@),
        forall|i: int|
            0 <= i < final(values)@.len() ==> !(#[trigger] final(values)@[i]).spec_is_empty(),
{
    let mut source: Vec<T> = Vec::new();
    std::mem::swap(values, &mut source);
    let ghost all = source@;
    let ghost keep = |value: T| !value.spec_is_empty();
    assert(all.take(0).filter(keep) == Seq::<T>::empty()) by {
        reveal(Seq::filter);
    }
    for item in items: source
        invariant
            items.seq() == all,
            keep == |value: T| !value.spec_is_empty(),
            values@ == all.take(items.index()).filter(keep),
    {
        proof {
            all.take(items.index()).lemma_filter_push(item, keep);
            assert(all.take(items.index() + 1) == all.take(items.index()).push(item));
        }
        if !item.is_empty() {
            values.push(item);
        }
    }
    proof {
        assert(all.take(all.len() as int) == all);
        assert forall|i: int| 0 <= i < values@.len() implies !(#[trigger] values@[i]).spec_is_empty(
        ) by {
            all.lemma_filter_pred(keep, i);
        }
    }
}

} // verus!
