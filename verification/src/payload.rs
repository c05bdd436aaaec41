//! Shared byte buffers: [`bytes::Bytes`] and what the library relies on of it.

use bytes::Bytes;
use vstd::prelude::*;

verus! {

/// [`bytes::Bytes`], a reference-counted view of a byte buffer.
#[verifier::external_type_specification]
#[verifier::external_body]
pub struct ExBytes(bytes::Bytes);

/// The bytes that a buffer shows.
pub uninterp spec fn payload_bytes(buffer: bytes::Bytes) -> Seq<u8>;

/// `Bytes::copy_from_slice`: a buffer that shows the given bytes.
pub assume_specification[ bytes::Bytes::copy_from_slice ](data: &[u8]) -> (r: bytes::Bytes)
    ensures
        payload_bytes(r) == data@,
;

/// `Bytes::deref`: the bytes that the buffer shows, borrowed.
#[verifier::external_body]
pub(crate) fn payload_slice(buffer: &Bytes) -> (r: &[u8])
    ensures
        r@ == payload_bytes(*buffer),
{
    &buffer[..]
}

/// `Bytes::from` on a vector: the buffer shows the vector's bytes.
#[verifier::external_body]
pub(crate) fn payload_from_vec(data: Vec<u8>) -> (r: Bytes)
    ensures
        payload_bytes(r) == data@,
{
    Bytes::from(data)
}

/// `Bytes::slice`: a buffer that shows the bytes from `start` up to `end`. The call
/// panics unless `start <= end` and `end` is within the buffer.
#[verifier::external_body]
pub(crate) fn payload_subrange(buffer: &Bytes, start: usize, end: usize) -> (r: Bytes)
    requires
        start <= end <= payload_bytes(*buffer).len(),
    ensures
        payload_bytes(r) == payload_bytes(*buffer).subrange(start as int, end as int),
{
    buffer.slice(start..end)
}

} // verus!
