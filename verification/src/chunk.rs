//! Pieces of a body as they travel between the store and its callers.

use bytes::Bytes;
use vstd::prelude::*;

verus! {

/// `bytes::Bytes`, a cheaply shared byte string.
#[verifier::external_type_specification]
#[verifier::external_body]
pub struct ExBytes(Bytes);

/// The bytes that a `Bytes` holds.
pub uninterp spec fn bytes_content(b: Bytes) -> Seq<u8>;

/// `Bytes::copy_from_slice` makes a new `Bytes` that holds a copy of the slice.
#[verifier::external_body]
pub(crate) fn copy_from_slice(data: &[u8]) -> (b: Bytes)
    ensures
        bytes_content(b) == data@,
{
    Bytes::copy_from_slice(data)
}

/// `Bytes::from` takes over a vector: the result holds its elements in order.
#[verifier::external_body]
pub(crate) fn from_vec(data: Vec<u8>) -> (b: Bytes)
    ensures
        bytes_content(b) == data@,
{
    Bytes::from(data)
}

/// `Bytes::as_ref` lends what the `Bytes` holds as a slice.
#[verifier::external_body]
pub(crate) fn as_slice(b: &Bytes) -> (data: &[u8])
    ensures
        data@ == bytes_content(*b),
{
    b.as_ref()
}

} // verus!
