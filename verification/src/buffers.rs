//! Byte buffers of the `bytes` crate, and what is relied on of them.
//!
//! A `Bytes` and a `BytesMut` are opaque here. Their contents are named by
//! [`bytes_of`] and [`buffer_of`], and every operation below is described by
//! what it does to those contents. None of the descriptions is proved: they
//! state what the crate documents.

use bytes::{BufMut, Bytes, BytesMut};
use vstd::prelude::*;

verus! {

#[verifier::external_type_specification]
#[verifier::external_body]
pub struct ExBytes(bytes::Bytes);

#[verifier::external_type_specification]
#[verifier::external_body]
pub struct ExBytesMut(bytes::BytesMut);

/// The bytes that a `Bytes` holds.
pub uninterp spec fn bytes_of(b: bytes::Bytes) -> Seq<u8>;

/// The bytes that a `BytesMut` holds.
pub uninterp spec fn buffer_of(b: bytes::BytesMut) -> Seq<u8>;

/// The four bytes of `n`, most significant first.
pub open spec fn be_bytes(n: u32) -> Seq<u8> {
    seq![
        (n / 0x100_0000) as u8,
        (n / 0x1_0000 % 0x100) as u8,
        (n / 0x100 % 0x100) as u8,
        (n % 0x100) as u8,
    ]
}

/// The number whose four bytes are `a`, `b`, `c`, `d`, most significant first.
pub open spec fn be_value(a: u8, b: u8, c: u8, d: u8) -> int {
    a * 0x100_0000 + b * 0x1_0000 + c * 0x100 + d
}

/// `BytesMut::with_capacity` makes an empty buffer. No allocation can exceed
/// `isize::MAX` bytes.
pub assume_specification[ bytes::BytesMut::with_capacity ](capacity: usize) -> (b: bytes::BytesMut)
    requires
        capacity <= isize::MAX,
    ensures
        buffer_of(b) == Seq::<u8>::empty(),
;

/// `BytesMut::new` makes an empty buffer.
pub assume_specification[ bytes::BytesMut::new ]() -> (b: bytes::BytesMut)
    ensures
        buffer_of(b) == Seq::<u8>::empty(),
;

/// `BytesMut::extend_from_slice` appends the slice. No buffer can exceed
/// `isize::MAX` bytes.
pub assume_specification[ bytes::BytesMut::extend_from_slice ](b: &mut bytes::BytesMut, extend: &[u8])
    requires
        buffer_of(*old(b)).len() + extend@.len() <= isize::MAX,
    ensures
        buffer_of(*final(b)) == buffer_of(*old(b)) + extend@,
;

/// `BytesMut::split_to` removes the first `at` bytes and returns them.
pub assume_specification[ bytes::BytesMut::split_to ](b: &mut bytes::BytesMut, at: usize) -> (r: bytes::BytesMut)
    requires
        at <= buffer_of(*old(b)).len(),
    ensures
        buffer_of(r) == buffer_of(*old(b)).take(at as int),
        buffer_of(*final(b)) == buffer_of(*old(b)).skip(at as int),
;

/// `BytesMut::freeze` keeps the contents.
pub assume_specification[ bytes::BytesMut::freeze ](b: bytes::BytesMut) -> (r: bytes::Bytes)
    ensures
        bytes_of(r) == buffer_of(b),
;

/// `Bytes::new` is empty.
pub assume_specification[ bytes::Bytes::new ]() -> (b: bytes::Bytes)
    ensures
        bytes_of(b) == Seq::<u8>::empty(),
;

/// `BufMut::put_u8` on a `BytesMut` appends one byte.
#[verifier::external_body]
pub(crate) fn put_u8(b: &mut BytesMut, n: u8)
    requires
        buffer_of(*old(b)).len() + 1 <= isize::MAX,
    ensures
        buffer_of(*final(b)) == buffer_of(*old(b)).push(n),
{
    b.put_u8(n)
}

/// `BufMut::put_u32` on a `BytesMut` appends the number's four bytes, most
/// significant first.
#[verifier::external_body]
pub(crate) fn put_u32(b: &mut BytesMut, n: u32)
    requires
        buffer_of(*old(b)).len() + 4 <= isize::MAX,
    ensures
        buffer_of(*final(b)) == buffer_of(*old(b)) + be_bytes(n),
{
    b.put_u32(n)
}

/// `BufMut::put_slice` on a `BytesMut` appends the slice.
#[verifier::external_body]
pub(crate) fn put_slice(b: &mut BytesMut, src: &[u8])
    requires
        buffer_of(*old(b)).len() + src@.len() <= isize::MAX,
    ensures
        buffer_of(*final(b)) == buffer_of(*old(b)) + src@,
{
    b.put_slice(src)
}

/// `Deref` of a `BytesMut` gives its contents.
#[verifier::external_body]
pub(crate) fn buffer_slice(b: &BytesMut) -> (s: &[u8])
    ensures
        s@ == buffer_of(*b),
{
    b
}

/// `Deref` of a `Bytes` gives its contents.
#[verifier::external_body]
pub(crate) fn bytes_slice(b: &Bytes) -> (s: &[u8])
    ensures
        s@ == bytes_of(*b),
{
    b
}

/// `Bytes::from` a vector keeps the vector's bytes.
#[verifier::external_body]
pub(crate) fn bytes_from_vec(v: Vec<u8>) -> (b: Bytes)
    ensures
        bytes_of(b) == v@,
{
    Bytes::from(v)
}

/// The four bytes of a number denote that number.
pub proof fn lemma_be_bytes(n: u32)
    ensures
        be_value(be_bytes(n)[0], be_bytes(n)[1], be_bytes(n)[2], be_bytes(n)[3]) == n,
{
    assert(n / 0x100_0000 < 0x100);
    assert(n == 0x100_0000 * (n / 0x100_0000) + 0x1_0000 * (n / 0x1_0000 % 0x100) + 0x100 * (n
        / 0x100 % 0x100) + n % 0x100) by (bit_vector);
}

} // verus!
