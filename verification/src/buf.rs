//! The `bytes` crate's buffers: `Bytes` (a shared, immutable byte string) and
//! `BytesMut` (a growable one), and what the library relies on of each.
//!
//! `bytes_of` and `buffered` name the byte string that such a value holds;
//! every contract in the library speaks of those. That memory may run out is
//! left unsaid, here as for `Vec`.

use bytes::{Buf, Bytes, BytesMut};
use vstd::prelude::*;

verus! {

/// `bytes::Bytes`, opaque: only `bytes_of` is known of a value.
#[verifier::external_type_specification]
#[verifier::external_body]
pub struct ExBytes(Bytes);

/// `bytes::BytesMut`, opaque: only `buffered` is known of a value.
#[verifier::external_type_specification]
#[verifier::external_body]
pub struct ExBytesMut(BytesMut);

/// The byte string that `b` holds.
pub uninterp spec fn bytes_of(b: Bytes) -> Seq<u8>;

/// The byte string that `b` holds.
pub uninterp spec fn buffered(b: BytesMut) -> Seq<u8>;

/// `Bytes::new`: an empty byte string.
#[verifier::external_body]
pub(crate) fn bytes_new() -> (b: Bytes)
    ensures
        bytes_of(b) == Seq::<u8>::empty(),
{
    Bytes::new()
}

/// `Bytes::from` on a vector: the vector's bytes.
#[verifier::external_body]
pub(crate) fn bytes_from_vec(v: Vec<u8>) -> (b: Bytes)
    ensures
        bytes_of(b) == v@,
{
    Bytes::from(v)
}

/// `Bytes::copy_from_slice`: a copy of the slice's bytes.
#[verifier::external_body]
pub(crate) fn bytes_copy(s: &[u8]) -> (b: Bytes)
    ensures
        bytes_of(b) == s@,
{
    Bytes::copy_from_slice(s)
}

/// `Bytes::clone`: another handle on the same bytes.
#[verifier::external_body]
pub(crate) fn bytes_clone(b: &Bytes) -> (r: Bytes)
    ensures
        bytes_of(r) == bytes_of(*b),
{
    b.clone()
}

/// `Bytes` dereferenced to a slice: its bytes.
#[verifier::external_body]
pub(crate) fn bytes_slice(b: &Bytes) -> (s: &[u8])
    ensures
        s@ == bytes_of(*b),
{
    b
}

/// `Bytes::slice` on `0..end`: the first `end` bytes. It panics where the
/// range is out of bounds.
#[verifier::external_body]
pub(crate) fn bytes_prefix(b: &Bytes, end: usize) -> (r: Bytes)
    requires
        end <= bytes_of(*b).len(),
    ensures
        bytes_of(r) == bytes_of(*b).take(end as int),
{
    b.slice(0..end)
}

/// `BytesMut` dereferenced to a slice: its bytes.
#[verifier::external_body]
pub(crate) fn buffer_slice(b: &BytesMut) -> (s: &[u8])
    ensures
        s@ == buffered(*b),
{
    b
}

/// `BytesMut::advance` (of the trait `Buf`): drops the first `n` bytes. It
/// panics where there are fewer.
#[verifier::external_body]
pub(crate) fn buffer_advance(b: &mut BytesMut, n: usize)
    requires
        n <= buffered(*old(b)).len(),
    ensures
        buffered(*final(b)) == buffered(*old(b)).skip(n as int),
{
    b.advance(n)
}

/// `BytesMut::split_to`: cuts the first `n` bytes off and returns them. It
/// panics where there are fewer.
#[verifier::external_body]
pub(crate) fn buffer_split_to(b: &mut BytesMut, n: usize) -> (r: BytesMut)
    requires
        n <= buffered(*old(b)).len(),
    ensures
        buffered(r) == buffered(*old(b)).take(n as int),
        buffered(*final(b)) == buffered(*old(b)).skip(n as int),
{
    b.split_to(n)
}

/// `BytesMut::freeze`: the same bytes, no longer growable.
#[verifier::external_body]
pub(crate) fn buffer_freeze(b: BytesMut) -> (r: Bytes)
    ensures
        bytes_of(r) == buffered(b),
{
    b.freeze()
}

/// `BytesMut::reserve`: makes room for `n` more bytes and changes no byte. It
/// panics where the new size is past what an allocation can hold.
#[verifier::external_body]
pub(crate) fn buffer_reserve(b: &mut BytesMut, n: usize)
    requires
        buffered(*old(b)).len() + n <= isize::MAX,
    ensures
        buffered(*final(b)) == buffered(*old(b)),
{
    b.reserve(n)
}

/// `BytesMut::extend_from_slice`: appends the slice's bytes. It panics where
/// the new size is past what an allocation can hold.
#[verifier::external_body]
pub(crate) fn buffer_extend(b: &mut BytesMut, s: &[u8])
    requires
        buffered(*old(b)).len() + s@.len() <= isize::MAX,
    ensures
        buffered(*final(b)) == buffered(*old(b)) + s@,
{
    b.extend_from_slice(s)
}

} // verus!
