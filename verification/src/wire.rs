//! The boundary to the `bytes` crate: statements serialize into `Bytes`
//! buffers, which the transport writes out.
use vstd::prelude::*;

verus! {

/// The byte buffer type of the `bytes` crate, opaque to this crate.
#[verifier::external_type_specification]
#[verifier::external_body]
pub struct ExBytes(bytes::Bytes);

/// The bytes a `Bytes` buffer holds.
pub uninterp spec fn bytes_contents(b: bytes::Bytes) -> Seq<u8>;

/// Relies on `bytes::Bytes::from`: the buffer holds exactly the bytes of
/// the vector.
#[verifier::external_body]
pub fn bytes_from_vec(v: Vec<u8>) -> (b: bytes::Bytes)
    ensures
        bytes_contents(b) == v@,
{
    bytes::Bytes::from(v)
}

/// Relies on `<Bytes as AsRef<[u8]>>::as_ref`: a view of exactly the bytes
/// the buffer holds.
#[verifier::external_body]
pub fn bytes_as_slice(b: &bytes::Bytes) -> (s: &[u8])
    ensures
        s@ == bytes_contents(*b),
{
    b.as_ref()
}

} // verus!
