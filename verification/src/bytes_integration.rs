//! Reference-counted byte buffers from the `bytes` crate.
//!
//! Frame bodies and binary packet fields are carried as `bytes::Bytes`
//! values, so slicing a frame out of a receive buffer shares the
//! allocation instead of copying it. The type is opaque to verification;
//! [`bytes_view`] names its contents, and each operation the codec uses is
//! declared here with the contract its source shows.

use vstd::prelude::*;

verus! {

#[verifier::external_type_specification]
#[verifier::external_body]
pub struct ExBytes(bytes::Bytes);

/// The byte contents of a `bytes::Bytes` buffer.
pub uninterp spec fn bytes_view(b: bytes::Bytes) -> Seq<u8>;

/// Relies on `Bytes::copy_from_slice`: the new buffer holds a copy of
/// `data`.
#[verifier::external_body]
pub fn bytes_copy_from_slice(data: &[u8]) -> (r: bytes::Bytes)
    ensures
        bytes_view(r) == data@,
{
    bytes::Bytes::copy_from_slice(data)
}

/// Relies on `Bytes::len`: the length of the contents.
#[verifier::external_body]
pub fn bytes_len(b: &bytes::Bytes) -> (r: usize)
    ensures
        r == bytes_view(*b).len(),
{
    b.len()
}

/// Relies on `<Bytes as AsRef<[u8]>>::as_ref`: a borrowed view of the
/// contents.
#[verifier::external_body]
pub fn bytes_as_slice(b: &bytes::Bytes) -> (r: &[u8])
    ensures
        r@ == bytes_view(*b),
{
    b.as_ref()
}

/// Relies on `Bytes::slice`: a second handle onto the given subrange of
/// the same allocation, without copying.
#[verifier::external_body]
pub fn bytes_slice_range(b: &bytes::Bytes, start: usize, end: usize) -> (r: bytes::Bytes)
    requires
        start <= end,
        end <= bytes_view(*b).len(),
    ensures
        bytes_view(r) == bytes_view(*b).subrange(start as int, end as int),
{
    b.slice(start..end)
}

/// Relies on `<Bytes as Clone>::clone`: a cheap second handle to the same
/// contents.
#[verifier::external_body]
pub fn bytes_clone(b: &bytes::Bytes) -> (r: bytes::Bytes)
    ensures
        bytes_view(r) == bytes_view(*b),
{
    b.clone()
}

} // verus!
