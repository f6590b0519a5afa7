//! What a predicate says of the elements of a sequence.
//!
//! A predicate is any `Fn(&T) -> bool`. It is known by its contract alone:
//! which elements it may be called on, and which answers it may give.

use vstd::prelude::*;

verus! {

/// `matcher` may answer `true` for `value`.
pub open spec fn accepts<T, M: Fn(&T) -> bool>(matcher: M, value: T) -> bool {
    call_ensures(matcher, (&value,), true)
}

/// `matcher` may answer `false` for `value`.
pub open spec fn rejects<T, M: Fn(&T) -> bool>(matcher: M, value: T) -> bool {
    call_ensures(matcher, (&value,), false)
}

/// `matcher` may be called on every element of `values`.
pub open spec fn applies_to<T, M: Fn(&T) -> bool>(matcher: M, values: Seq<T>) -> bool {
    forall|i: int| 0 <= i < values.len() ==> call_requires(matcher, (&#[trigger] values[i],))
}

/// `matcher` has one answer for each element of `values`: none is both
/// accepted and rejected.
pub open spec fn decides<T, M: Fn(&T) -> bool>(matcher: M, values: Seq<T>) -> bool {
    forall|i: int|
        0 <= i < values.len() ==> !(accepts(matcher, #[trigger] values[i]) && rejects(
            matcher,
            values[i],
        ))
}

} // verus!
