//! Shared byte buffers: what the store asks of `bytes::Bytes`.

use bytes::Bytes;
use vstd::prelude::*;

verus! {

/// `bytes::Bytes`, a cheaply shared run of bytes. Its contents are [`bytes_of`].
#[verifier::external_type_specification]
#[verifier::external_body]
pub struct ExBytes(bytes::Bytes);

/// The bytes that a buffer holds.
pub uninterp spec fn bytes_of(b: Bytes) -> Seq<u8>;

/// The bytes of a buffer that may not be there.
pub open spec fn bytes_if_any(b: Option<Bytes>) -> Option<Seq<u8>> {
    match b {
        Some(b) => Some(bytes_of(b)),
        None => None,
    }
}

/// `Bytes::from(Vec<u8>)`: the buffer holds the bytes of the vector.
#[verifier::external_body]
pub(crate) fn share(v: Vec<u8>) -> (b: Bytes)
    ensures
        bytes_of(b) == v@,
{
    Bytes::from(v)
}

/// `Bytes::slice`: the buffer that holds the bytes from `start` up to `end`. Out of
/// range it panics, so the range has to lie inside.
#[verifier::external_body]
pub(crate) fn slice_of(b: &Bytes, start: usize, end: usize) -> (r: Bytes)
    requires
        start <= end <= bytes_of(*b).len(),
    ensures
        bytes_of(r) == bytes_of(*b).subrange(start as int, end as int),
{
    b.slice(start..end)
}

/// `Bytes::deref`: the buffer's bytes as a slice.
#[verifier::external_body]
pub(crate) fn as_slice(b: &Bytes) -> (s: &[u8])
    ensures
        s@ == bytes_of(*b),
{
    b
}

/// `Bytes::clone`: a second handle on the same bytes.
#[verifier::external_body]
pub(crate) fn share_again(b: &Bytes) -> (r: Bytes)
    ensures
        bytes_of(r) == bytes_of(*b),
{
    b.clone()
}

} // verus!
