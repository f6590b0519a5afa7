//! Splitting a slice into consecutive groups of a given size.

use crate::array::elements::lists_of;
use crate::array::model::{clone_preserves_value, clones_of, lemma_clones_are_equal};
use vstd::prelude::*;

verus! {

/// How many groups of at most `size` elements a sequence of length `len`
/// splits into: `len / size`, rounded up.
pub open spec fn chunk_count(len: nat, size: nat) -> nat {
    if size == 0 {
        0
    } else {
        ((len + size - 1) / (size as int)) as nat
    }
}

/// The `k`-th group of `s`: the elements from position `k * size` up to, and
/// without, position `(k + 1) * size`, or up to the end of `s` where that
/// comes first.
pub open spec fn chunk_at<T>(s: Seq<T>, size: nat, k: int) -> Seq<T> {
    s.subrange(
        k * size,
        if (k + 1) * size <= s.len() {
            (k + 1) * size
        } else {
            s.len() as int
        },
    )
}

/// The groups of at most `size` consecutive elements that `s` splits into.
pub open spec fn chunks_of<T>(s: Seq<T>, size: nat) -> Seq<Seq<T>> {
    Seq::new(chunk_count(s.len(), size), |k: int| chunk_at(s, size, k))
}

/// `chunks` holds, group by group, clones of the groups of `original`.
pub open spec fn clones_of_chunks<T: Clone>(chunks: Seq<Vec<T>>, original: Seq<Seq<T>>) -> bool {
    &&& chunks.len() == original.len()
    &&& forall|k: int| 0 <= k < original.len() ==> clones_of((#[trigger] chunks[k])@, original[k])
}

/// With `count - 1` full groups short of `len` elements and `count` groups
/// enough for them, `count` is the number of groups.
proof fn lemma_chunk_count_is(len: nat, size: nat, count: nat)
    requires
        size > 0,
        count > 0 ==> (count - 1) * size < len,
        len <= count * size,
    ensures
        chunk_count(len, size) == count,
{
    if count == 0 {
        assert((size - 1) / (size as int) == 0) by (nonlinear_arith)
            requires
                size > 0,
        ;
    } else {
        assert((len + size - 1) / (size as int) == count) by (nonlinear_arith)
            requires
                size > 0,
                (count - 1) * size < len,
                len <= count * size,
        ;
    }
}

/// The groups before the last start inside the sequence, one full group
/// apart.
proof fn lemma_chunk_bounds(len: nat, size: nat, k: int)
    requires
        size > 0,
        0 <= k < chunk_count(len, size),
    ensures
        k * size < len,
        (k + 1) * size == k * size + size,
        k + 1 < chunk_count(len, size) ==> (k + 1) * size < len,
        k + 1 == chunk_count(len, size) ==> len <= (k + 1) * size,
{
    let count = chunk_count(len, size);
    assert(k * size < len && (k + 1) * size == k * size + size && (k + 1 < count ==> (k + 1) * size
        < len) && (k + 1 == count ==> len <= (k + 1) * size)) by (nonlinear_arith)
        requires
            size > 0,
            0 <= k < count,
            count == (len + size - 1) / (size as int),
    ;
}

/// An empty sequence splits into no groups.
pub proof fn lemma_chunks_of_empty<T>(s: Seq<T>, size: nat)
    requires
        s.len() == 0,
    ensures
        chunks_of(s, size) == Seq::<Seq<T>>::empty(),
{
    if size > 0 {
        lemma_chunk_count_is(0, size, 0);
    }
}

/// A sequence that is not empty and no longer than `size` is one group.
pub proof fn lemma_chunks_of_short<T>(s: Seq<T>, size: nat)
    requires
        0 < s.len() <= size,
    ensures
        chunks_of(s, size) == seq![s],
{
    lemma_chunk_count_is(s.len(), size, 1);
    assert(chunk_at(s, size, 0) =~= s);
}

/// Every group but the last holds exactly `size` elements, and the last
/// holds at least one and at most `size`.
pub proof fn lemma_chunks_of_lengths<T>(s: Seq<T>, size: nat, k: int)
    requires
        size > 0,
        0 <= k < chunks_of(s, size).len(),
    ensures
        k + 1 < chunks_of(s, size).len() ==> chunks_of(s, size)[k].len() == size,
        k + 1 == chunks_of(s, size).len() ==> 0 < chunks_of(s, size)[k].len() <= size,
{
    lemma_chunk_bounds(s.len(), size, k);
}

/// The groups, one after the other, are the sequence that was split, so
/// their lengths add up to its length.
pub proof fn lemma_chunks_of_flatten<T>(s: Seq<T>, size: nat)
    requires
        size > 0,
    ensures
        chunks_of(s, size).flatten() == s,
        chunks_of(s, size).flatten().len() == s.len(),
{
    let groups = chunks_of(s, size);
    lemma_chunks_prefix(s, size, groups.len() as int);
    assert(groups.take(groups.len() as int) == groups);
    if groups.len() > 0 {
        lemma_chunk_bounds(s.len(), size, groups.len() - 1);
    } else {
        assert(s.len() == 0) by (nonlinear_arith)
            requires
                size > 0,
                (s.len() + size - 1) / (size as int) == 0,
        ;
    }
    groups.lemma_flatten_and_flatten_alt_are_equivalent();
}

/// The first `n` groups, one after the other, are the elements before the
/// `n`-th group.
proof fn lemma_chunks_prefix<T>(s: Seq<T>, size: nat, n: int)
    requires
        size > 0,
        0 <= n <= chunks_of(s, size).len(),
    ensures
        chunks_of(s, size).take(n).flatten_alt() == s.take(
            if n * size <= s.len() {
                n * size
            } else {
                s.len() as int
            },
        ),
    decreases n,
{
    let groups = chunks_of(s, size);
    if n > 0 {
        lemma_chunks_prefix(s, size, n - 1);
        lemma_chunk_bounds(s.len(), size, n - 1);
        assert(groups.take(n).drop_last() == groups.take(n - 1));
        assert(groups.take(n).flatten_alt() =~= s.take(
            if n * size <= s.len() {
                n * size
            } else {
                s.len() as int
            },
        ));
    }
}

/// Splits `array` into consecutive groups of `chunk_size` elements, cloning
/// each element into its group.
///
/// The groups keep the order of `array`; all of them hold `chunk_size`
/// elements but the last, which holds what is left. An empty `array` gives
/// no groups, and a `chunk_size` of at least the length of `array` gives one
/// group with everything. A `chunk_size` of zero is refused.
pub fn chunk<T: Clone>(array: &[T], chunk_size: usize) -> (result: Result<
    Vec<Vec<T>>,
    &'static str,
>)
    ensures
        result is Err <==> chunk_size == 0,
        result matches Err(message) ==> message@ == "chunk_size must be greater than 0"@,
        result matches Ok(chunks) ==> clones_of_chunks(
            chunks@,
            chunks_of(array@, chunk_size as nat),
        ),
        result matches Ok(chunks) ==> (clone_preserves_value::<T>() ==> lists_of::<T, Vec<T>>(
            chunks@,
        ) == chunks_of(array@, chunk_size as nat)),
        result matches Ok(chunks) ==> (array@.len() == 0 ==> chunks@.len() == 0),
        result matches Ok(chunks) ==> (0 < array@.len() <= chunk_size ==> chunks@.len() == 1
            && clones_of(chunks@[0]@, array@)),
        result matches Ok(chunks) ==> forall|k: int|
            0 <= k < chunks@.len() ==> 0 < (#[trigger] chunks@[k])@.len() <= chunk_size && (k + 1
                < chunks@.len() ==> chunks@[k]@.len() == chunk_size),
{
    if chunk_size == 0 {
        return Err("chunk_size must be greater than 0");
    }
    let len = array.len();
    let ghost size = chunk_size as nat;
    let groups: usize = if len == 0 {
        0
    } else {
        (len - 1) / chunk_size + 1
    };
    let mut chunks: Vec<Vec<T>> = Vec::with_capacity(groups);
    let mut start: usize = 0;
    let ghost mut reach: int = 0;
    assert(0 * size == 0);
    while start < len
        invariant
            chunk_size > 0,
            size == chunk_size,
            len == array@.len(),
            reach == chunks@.len() * size,
            start == if reach <= len {
                reach
            } else {
                len as int
            },
            chunks@.len() > 0 ==> reach - size < len,
            forall|k: int|
                0 <= k < chunks@.len() ==> clones_of(
                    (#[trigger] chunks@[k])@,
                    chunk_at(array@, size, k),
                ),
        decreases len - start,
    {
        let ghost filled = chunks@.len() as int;
        let end: usize = if len - start <= chunk_size {
            len
        } else {
            start + chunk_size
        };
        assert((filled + 1) * size == filled * size + size) by (nonlinear_arith);
        let mut group: Vec<T> = Vec::with_capacity(end - start);
        group.extend_from_slice(&array[start..end]);
        chunks.push(group);
        start = end;
        proof {
            reach = reach + size;
        }
    }
    proof {
        assert((chunks@.len() - 1) * size == reach - size) by (nonlinear_arith)
            requires
                reach == chunks@.len() * size,
        ;
        lemma_chunk_count_is(len as nat, size, chunks@.len());
        if len == 0 {
            lemma_chunks_of_empty(array@, size);
        } else if len <= chunk_size {
            lemma_chunks_of_short(array@, size);
        }
        if clone_preserves_value::<T>() {
            assert forall|k: int| 0 <= k < chunks@.len() implies lists_of::<T, Vec<T>>(chunks@)[k]
                == chunks_of(array@, size)[k] by {
                lemma_clones_are_equal(chunks@[k]@, chunk_at(array@, size, k));
            }
            assert(lists_of::<T, Vec<T>>(chunks@) =~= chunks_of(array@, size));
        }
        assert forall|k: int| 0 <= k < chunks@.len() implies 0 < (#[trigger] chunks@[k])@.len()
            <= chunk_size && (k + 1 < chunks@.len() ==> chunks@[k]@.len() == chunk_size) by {
            lemma_chunks_of_lengths(array@, size, k);
        }
    }
    Ok(chunks)
}

} // verus!
