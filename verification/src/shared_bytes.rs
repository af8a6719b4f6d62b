//! Byte buffers that are cheap to share.

use vstd::prelude::*;

verus! {

/// `bytes::Bytes`: an immutable buffer of bytes.
#[verifier::external_type_specification]
#[verifier::external_body]
pub struct ExBytes(bytes::Bytes);

/// The bytes in a buffer.
pub uninterp spec fn bytes_in(b: bytes::Bytes) -> Seq<u8>;

/// `Bytes::from` a vector: the buffer holds what the vector held.
#[verifier::external_body]
pub(crate) fn share(data: Vec<u8>) -> (b: bytes::Bytes)
    ensures
        bytes_in(b) == data@,
{
    bytes::Bytes::from(data)
}

/// `Bytes::len`: the number of bytes in the buffer.
#[verifier::external_body]
pub(crate) fn shared_len(b: &bytes::Bytes) -> (n: usize)
    ensures
        n == bytes_in(*b).len(),
{
    b.len()
}

/// `Bytes::clone`: a second handle on the same bytes.
pub assume_specification[ <bytes::Bytes as Clone>::clone ](b: &bytes::Bytes) -> (c: bytes::Bytes)
    ensures
        bytes_in(c) == bytes_in(*b),
;

/// `Bytes` as a slice, copied to a vector: the bytes in the buffer.
#[verifier::external_body]
pub(crate) fn unshare(b: &bytes::Bytes) -> (data: Vec<u8>)
    ensures
        data@ == bytes_in(*b),
{
    b.to_vec()
}

} // verus!
