//! The byte buffers of the `bytes` crate, as this library sees them.
//!
//! Nothing in this module is proved. Each item states what the `bytes` crate
//! is trusted to do, over the sequence of bytes that a buffer holds.

use bytes::{Bytes, BytesMut};
use vstd::prelude::*;

verus! {

/// `bytes::Bytes`, an immutable buffer. Declared as an opaque type: all that
/// is said of a value goes through `bytes_contents`.
#[verifier::external_type_specification]
#[verifier::external_body]
pub struct ExBytes(bytes::Bytes);

/// `bytes::BytesMut`, a growable buffer. Declared as an opaque type: all
/// that is said of a value goes through `buffer_contents`.
#[verifier::external_type_specification]
#[verifier::external_body]
pub struct ExBytesMut(bytes::BytesMut);

/// The bytes that a `Bytes` holds, in order: what its `Deref` to `[u8]`
/// shows.
pub uninterp spec fn bytes_contents(b: Bytes) -> Seq<u8>;

/// The bytes that a `BytesMut` holds, in order: what its `Deref` to `[u8]`
/// shows.
pub uninterp spec fn buffer_contents(b: BytesMut) -> Seq<u8>;

/// `Bytes::len`: the number of bytes that the buffer holds.
pub assume_specification[ Bytes::len ](b: &Bytes) -> (len: usize)
    ensures
        len == bytes_contents(*b).len(),
;

/// `Deref::deref` of `Bytes`: lends the buffer's bytes as a slice, all of
/// them and in order.
#[verifier::external_body]
pub(crate) fn bytes_slice(b: &Bytes) -> (s: &[u8])
    ensures
        s@ == bytes_contents(*b),
{
    std::ops::Deref::deref(b)
}

/// `BytesMut::zeroed`: a new buffer of `len` bytes, each of them 0. A length
/// above `isize::MAX` cannot be allocated and is left out.
pub assume_specification[ BytesMut::zeroed ](len: usize) -> (b: BytesMut)
    requires
        len <= isize::MAX,
    ensures
        buffer_contents(b) == Seq::new(len as nat, |i: int| 0u8),
;

/// `DerefMut::deref_mut` of `BytesMut`: lends the buffer's bytes as a
/// mutable slice, all of them and in order. When the loan ends the buffer
/// holds what the slice holds then.
#[verifier::external_body]
pub(crate) fn buffer_slice_mut(b: &mut BytesMut) -> (s: &mut [u8])
    ensures
        s@ == buffer_contents(*old(b)),
        buffer_contents(*final(b)) == final(s)@,
{
    std::ops::DerefMut::deref_mut(b)
}

/// `BytesMut::freeze`: turns the buffer into an immutable one that holds the
/// same bytes.
pub assume_specification[ BytesMut::freeze ](b: BytesMut) -> (frozen: Bytes)
    ensures
        bytes_contents(frozen) == buffer_contents(b),
;

} // verus!
