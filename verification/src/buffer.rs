//! The receive buffer: `bytes::BytesMut` behind a narrow trusted
//! interface.
//!
//! The buffer's abstract contents are named by [`buf_bytes`], a
//! sequence of the bytes currently held, oldest first. Each wrapper
//! states, over that name, what the corresponding `BytesMut` method
//! does according to the `bytes` crate's documentation: appending
//! extends the sequence, `advance` drops a prefix, `split_to` moves a
//! prefix out. Everything that parses or decides works on the plain
//! `&[u8]` view obtained from [`buf_slice`].

use vstd::prelude::*;

verus! {

/// `bytes::BytesMut`, declared so that it can stand in signatures
/// and fields; its contents are visible only through [`buf_bytes`].
#[verifier::external_type_specification]
#[verifier::external_body]
pub struct ExBytesMut(bytes::BytesMut);

/// The bytes a `BytesMut` currently holds, oldest first.
pub uninterp spec fn buf_bytes(b: bytes::BytesMut) -> Seq<u8>;

/// Relies on `BytesMut::with_capacity`: the new buffer contains no
/// data, whatever its capacity.
#[verifier::external_body]
pub(crate) fn buf_with_capacity(capacity: usize) -> (r: bytes::BytesMut)
    ensures
        buf_bytes(r) == Seq::<u8>::empty(),
{
    bytes::BytesMut::with_capacity(capacity)
}

/// Relies on `BytesMut::len`: the number of bytes contained.
#[verifier::external_body]
pub(crate) fn buf_len(b: &bytes::BytesMut) -> (r: usize)
    ensures
        r == buf_bytes(*b).len(),
{
    b.len()
}

/// Relies on `BytesMut`'s `AsRef<[u8]>`: a view of exactly the bytes
/// held.
#[verifier::external_body]
pub(crate) fn buf_slice(b: &bytes::BytesMut) -> (r: &[u8])
    ensures
        r@ == buf_bytes(*b),
{
    b.as_ref()
}

/// Relies on `BytesMut::extend_from_slice`: appends the slice to the
/// buffer. The length bound keeps the reallocation inside the
/// documented panic-free range.
#[verifier::external_body]
pub(crate) fn buf_extend(b: &mut bytes::BytesMut, data: &[u8])
    requires
        buf_bytes(*old(b)).len() + data@.len() <= isize::MAX,
    ensures
        buf_bytes(*final(b)) == buf_bytes(*old(b)) + data@,
{
    b.extend_from_slice(data)
}

/// Relies on `bytes::Buf::advance` for `BytesMut`: discards the first
/// `n` bytes. Panics only past the end, which the precondition rules
/// out.
#[verifier::external_body]
pub(crate) fn buf_advance(b: &mut bytes::BytesMut, n: usize)
    requires
        n <= buf_bytes(*old(b)).len(),
    ensures
        buf_bytes(*final(b)) == buf_bytes(*old(b)).skip(n as int),
{
    bytes::Buf::advance(b, n)
}

/// Relies on `BytesMut::split_to`: afterwards the buffer holds the
/// bytes from `n` on and the returned buffer holds the first `n`.
/// Panics only past the end, which the precondition rules out.
#[verifier::external_body]
pub(crate) fn buf_split_to(b: &mut bytes::BytesMut, n: usize) -> (r: bytes::BytesMut)
    requires
        n <= buf_bytes(*old(b)).len(),
    ensures
        buf_bytes(r) == buf_bytes(*old(b)).take(n as int),
        buf_bytes(*final(b)) == buf_bytes(*old(b)).skip(n as int),
{
    b.split_to(n)
}

} // verus!
