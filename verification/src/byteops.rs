//! Trusted boundary around the `bytes` crate.
//!
//! The rest of the library reasons about a `Bytes` or `BytesMut` value only
//! through its abstract contents, a sequence of bytes. Each wrapper below
//! states, over those contents, what one call into the `bytes` crate does.
use vstd::prelude::*;

verus! {

#[verifier::external_type_specification]
#[verifier::external_body]
pub struct ExBytes(bytes::Bytes);

#[verifier::external_type_specification]
#[verifier::external_body]
pub struct ExBytesMut(bytes::BytesMut);

/// The bytes held by a `bytes::Bytes` handle, in order.
pub uninterp spec fn bytes_view(b: bytes::Bytes) -> Seq<u8>;

/// The bytes held by a `bytes::BytesMut` buffer, in order.
pub uninterp spec fn bm_view(b: bytes::BytesMut) -> Seq<u8>;

/// Relies on `Bytes::len`: the number of bytes in the handle.
#[verifier::external_body]
pub fn bytes_len(b: &bytes::Bytes) -> (r: usize)
    ensures
        r == bytes_view(*b).len(),
{
    b.len()
}

/// Relies on `<Bytes as Deref>::deref` and slice indexing: the byte at `i`.
#[verifier::external_body]
pub fn bytes_at(b: &bytes::Bytes, i: usize) -> (r: u8)
    requires
        i < bytes_view(*b).len(),
    ensures
        r == bytes_view(*b)[i as int],
{
    b[i]
}

/// Relies on `Bytes::slice`: a zero-copy handle onto `start..end` of the
/// same backing memory.
#[verifier::external_body]
pub fn bytes_slice(b: &bytes::Bytes, start: usize, end: usize) -> (r: bytes::Bytes)
    requires
        start <= end <= bytes_view(*b).len(),
    ensures
        bytes_view(r) == bytes_view(*b).subrange(start as int, end as int),
{
    b.slice(start..end)
}

/// Relies on `<Bytes as Clone>::clone`: a new handle to the same bytes.
pub assume_specification[ <bytes::Bytes as Clone>::clone ](b: &bytes::Bytes) -> (r: bytes::Bytes)
    ensures
        bytes_view(r) == bytes_view(*b),
;

/// Relies on `<Bytes as From<Vec<u8>>>::from`: a handle over exactly the
/// vector's bytes.
#[verifier::external_body]
pub fn bytes_from_vec(v: Vec<u8>) -> (r: bytes::Bytes)
    ensures
        bytes_view(r) == v@,
{
    bytes::Bytes::from(v)
}

/// Relies on `<Bytes as Deref>::deref` and `[u8]::to_vec`: a copy of the
/// bytes as a plain vector.
#[verifier::external_body]
pub fn bytes_to_vec(b: &bytes::Bytes) -> (r: Vec<u8>)
    ensures
        r@ == bytes_view(*b),
{
    b.to_vec()
}

/// Relies on `<Bytes as PartialEq>::eq`: equality of the byte contents.
#[verifier::external_body]
pub fn bytes_equal(a: &bytes::Bytes, b: &bytes::Bytes) -> (r: bool)
    ensures
        r == (bytes_view(*a) == bytes_view(*b)),
{
    a == b
}

/// Relies on `BytesMut::len`: the number of bytes in the buffer.
#[verifier::external_body]
pub fn bm_len(b: &bytes::BytesMut) -> (r: usize)
    ensures
        r == bm_view(*b).len(),
{
    b.len()
}

/// Relies on `<BytesMut as Deref>::deref` and slice indexing: the byte at `i`.
#[verifier::external_body]
pub fn bm_at(b: &bytes::BytesMut, i: usize) -> (r: u8)
    requires
        i < bm_view(*b).len(),
    ensures
        r == bm_view(*b)[i as int],
{
    b[i]
}

/// Relies on `BytesMut::split_to`: removes and returns the first `at` bytes,
/// leaving the rest, without copying payload memory.
#[verifier::external_body]
pub fn bm_split_to(b: &mut bytes::BytesMut, at: usize) -> (r: bytes::BytesMut)
    requires
        at <= bm_view(*old(b)).len(),
    ensures
        bm_view(r) == bm_view(*old(b)).take(at as int),
        bm_view(*final(b)) == bm_view(*old(b)).skip(at as int),
{
    b.split_to(at)
}

/// Relies on `BytesMut::freeze`: converts the buffer into an immutable,
/// cheaply sliceable handle over the same bytes.
#[verifier::external_body]
pub fn bm_freeze(b: bytes::BytesMut) -> (r: bytes::Bytes)
    ensures
        bytes_view(r) == bm_view(b),
{
    b.freeze()
}

/// Relies on `BytesMut::extend_from_slice`: appends one byte.
#[verifier::external_body]
pub fn bm_push_byte(b: &mut bytes::BytesMut, v: u8)
    ensures
        bm_view(*final(b)) == bm_view(*old(b)).push(v),
{
    b.extend_from_slice(&[v])
}

/// Relies on `BytesMut::extend_from_slice`: appends the slice's bytes.
#[verifier::external_body]
pub fn bm_push_slice(b: &mut bytes::BytesMut, src: &[u8])
    ensures
        bm_view(*final(b)) == bm_view(*old(b)) + src@,
{
    b.extend_from_slice(src)
}

/// Relies on `BytesMut::extend_from_slice` and `<Bytes as Deref>::deref`:
/// appends the bytes behind the handle.
#[verifier::external_body]
pub fn bm_push_bytes(b: &mut bytes::BytesMut, src: &bytes::Bytes)
    ensures
        bm_view(*final(b)) == bm_view(*old(b)) + bytes_view(*src),
{
    b.extend_from_slice(src)
}

} // verus!
