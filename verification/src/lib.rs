//! Small, generic helpers for working with vectors and slices: chunking,
//! deduplication, set difference and intersection, compaction, flattening,
//! filling and searching by predicate.
//!
//! Every function carries a contract over the mathematical view of its
//! arguments. The contracts are proved; what is taken on trust is how a set
//! that hashes with `ahash` behaves, in three small functions of
//! `array::item_set`.

use vstd::prelude::*;

pub mod array;

verus! {

/// Returns the greeting `Hello, World!`.
pub fn hello_world() -> (greeting: String)
    ensures
        greeting@ == "Hello, World!"@,
{
    "Hello, World!".to_owned()
}

} // verus!
