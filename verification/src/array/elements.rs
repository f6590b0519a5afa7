//! Containers that can be read as one run of elements.

use vstd::prelude::*;

verus! {

/// A container whose contents can be borrowed as a slice.
///
/// Vectors, slices, arrays and boxed slices implement it, and so does a
/// reference to anything that does, so that nested containers of any of
/// these shapes can be handed to one function.
///
/// An implementation says in `elements` what the container holds, and
/// borrows the same in `as_elements`.
pub trait AsElements<T> {
    /// The elements the container holds, in order.
    spec fn elements(&self) -> Seq<T>;

    /// Borrows the contents as a slice.
    fn as_elements(&self) -> (slice: &[T])
        ensures
            slice@ == self.elements(),
    ;
}

impl<T> AsElements<T> for Vec<T> {
    open spec fn elements(&self) -> Seq<T> {
        self@
    }

    fn as_elements(&self) -> (slice: &[T]) {
        self.as_slice()
    }
}

impl<T> AsElements<T> for [T] {
    open spec fn elements(&self) -> Seq<T> {
        self@
    }

    fn as_elements(&self) -> (slice: &[T]) {
        self
    }
}

impl<T, const N: usize> AsElements<T> for [T; N] {
    open spec fn elements(&self) -> Seq<T> {
        self@
    }

    fn as_elements(&self) -> (slice: &[T]) {
        self
    }
}

impl<T> AsElements<T> for Box<[T]> {
    open spec fn elements(&self) -> Seq<T> {
        (**self)@
    }

    fn as_elements(&self) -> (slice: &[T]) {
        &**self
    }
}

impl<'a, T, U: AsElements<T> + ?Sized> AsElements<T> for &'a U {
    open spec fn elements(&self) -> Seq<T> {
        (**self).elements()
    }

    fn as_elements(&self) -> (slice: &[T]) {
        (**self).as_elements()
    }
}

/// The contents of each container of `containers`, in order.
pub open spec fn lists_of<T, U: AsElements<T>>(containers: Seq<U>) -> Seq<Seq<T>> {
    Seq::new(containers.len(), |i: int| containers[i].elements())
}

} // verus!
