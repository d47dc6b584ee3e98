//! The tagging wrapper: a `Bytes` buffer annotated, at compile time only,
//! with a marker type that names its semantic role.
//!
//! The marker never occupies storage and never takes part in equality or
//! in the textual form; it exists so that a buffer meant for one role (say,
//! a public key) cannot be passed where a buffer of another role (say, a
//! signature) is expected: the two wrappers are distinct static types, and
//! mixing them is refused by the type checker. There is no runtime check.

use vstd::prelude::*;

use crate::bytes::Bytes;

verus! {

use core::marker::PhantomData;

/// A `Bytes` buffer with a compile-time-only role marker `T`.
///
/// Its mathematical model (the view `@`) is the `Seq<u8>` of the wrapped
/// buffer's contents; the marker has no runtime representation.
pub struct TaggedBytes<T> {
    bytes: Bytes,
    label: PhantomData<T>,
}

impl<T> View for TaggedBytes<T> {
    type V = Seq<u8>;

    closed spec fn view(&self) -> Seq<u8> {
        self.bytes@
    }
}

impl<T> Default for TaggedBytes<T> {
    /// A wrapper around an empty buffer.
    fn default() -> (r: Self)
        ensures
            r@ == Seq::<u8>::empty(),
    {
        TaggedBytes { bytes: Bytes::new(), label: PhantomData }
    }
}

impl<T> TaggedBytes<T> {
    /// Wraps a buffer under the marker `T`; no copy. Unwrapping the result
    /// with `into_raw` gives back a buffer with the same contents.
    pub fn new(bytes: Bytes) -> (r: Self)
        ensures
            r@ == bytes@,
    {
        TaggedBytes { bytes, label: PhantomData }
    }

    /// Consumes the wrapper and returns the inner buffer; no copy.
    pub fn into_raw(self) -> (r: Bytes)
        ensures
            r@ == self@,
    {
        self.bytes
    }

    /// The current length in bytes.
    pub fn len(&self) -> (r: usize)
        ensures
            r == self@.len(),
    {
        self.bytes.len()
    }

    /// True iff the wrapped buffer holds no bytes.
    pub fn is_empty(&self) -> (r: bool)
        ensures
            r == (self@.len() == 0),
    {
        self.bytes.is_empty()
    }

    /// Borrows the wrapped bytes as a slice.
    pub fn as_slice(&self) -> (r: &[u8])
        ensures
            r@ == self@,
    {
        self.bytes.as_slice()
    }

    /// The byte at position `i`.
    pub fn get(&self, i: usize) -> (r: u8)
        requires
            i < self@.len(),
        ensures
            r == self@[i as int],
    {
        self.bytes.get(i)
    }

    /// Overwrites the byte at position `i` with `v`.
    pub fn set(&mut self, i: usize, v: u8)
        requires
            i < old(self)@.len(),
        ensures
            final(self)@ == old(self)@.update(i as int, v),
    {
        self.bytes.set(i, v);
    }
}

impl<T> Clone for TaggedBytes<T> {
    /// A new wrapper, under the same marker, with the same contents.
    fn clone(&self) -> (r: Self)
        ensures
            r@ == self@,
    {
        TaggedBytes { bytes: self.bytes.clone(), label: PhantomData }
    }
}

impl<T> PartialEq for TaggedBytes<T> {
    /// Equality delegates to the wrapped buffers; the marker plays no part.
    fn eq(&self, other: &TaggedBytes<T>) -> (r: bool) {
        self.bytes == other.bytes
    }
}

impl<T> vstd::std_specs::cmp::PartialEqSpecImpl for TaggedBytes<T> {
    open spec fn obeys_eq_spec() -> bool {
        true
    }

    open spec fn eq_spec(&self, other: &TaggedBytes<T>) -> bool {
        self@ == other@
    }
}

} // verus!
