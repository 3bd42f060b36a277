//! The growable byte buffer that holds undelimited stream bytes, from the `bytes` crate.
use bytes::BytesMut;
use vstd::prelude::*;

verus! {

#[verifier::external_type_specification]
#[verifier::external_body]
pub struct ExBytesMut(BytesMut);

/// The bytes that a `BytesMut` holds, in order.
pub uninterp spec fn buffer_bytes(b: BytesMut) -> Seq<u8>;

/// Relies on `BytesMut::new`: a buffer that holds no bytes.
#[verifier::external_body]
pub(crate) fn buffer_new() -> (r: BytesMut)
    ensures
        buffer_bytes(r) == Seq::<u8>::empty(),
{
    BytesMut::new()
}

/// Relies on `BytesMut::extend_from_slice`: appends `chunk`. It panics when the new length
/// overflows `usize`, and `Vec` refuses a capacity above `isize::MAX`; `requires` keeps the
/// new length within that. Growth may double the capacity, which for a buffer that large no
/// allocator can have provided in the first place.
#[verifier::external_body]
pub(crate) fn buffer_extend(b: &mut BytesMut, chunk: &[u8])
    requires
        buffer_bytes(*old(b)).len() + chunk@.len() <= isize::MAX,
    ensures
        buffer_bytes(*final(b)) == buffer_bytes(*old(b)) + chunk@,
{
    b.extend_from_slice(chunk)
}

/// Relies on `BytesMut::split_to`: returns bytes `[0, at)` and keeps `[at, len)`. It panics
/// when `at` exceeds the length, which `requires` rules out.
#[verifier::external_body]
pub(crate) fn buffer_split_to(b: &mut BytesMut, at: usize) -> (r: BytesMut)
    requires
        at <= buffer_bytes(*old(b)).len(),
    ensures
        buffer_bytes(r) == buffer_bytes(*old(b)).subrange(0, at as int),
        buffer_bytes(*final(b)) == buffer_bytes(*old(b)).subrange(
            at as int,
            buffer_bytes(*old(b)).len() as int,
        ),
{
    b.split_to(at)
}

/// Relies on `BytesMut::truncate`: keeps the first `len` bytes, and has no effect when `len`
/// is not below the length.
#[verifier::external_body]
pub(crate) fn buffer_truncate(b: &mut BytesMut, len: usize)
    ensures
        len <= buffer_bytes(*old(b)).len() ==> buffer_bytes(*final(b)) == buffer_bytes(
            *old(b),
        ).subrange(0, len as int),
        len > buffer_bytes(*old(b)).len() ==> buffer_bytes(*final(b)) == buffer_bytes(*old(b)),
{
    b.truncate(len)
}

/// Relies on `Deref` for `BytesMut`: the slice of the bytes it holds.
#[verifier::external_body]
pub(crate) fn buffer_as_slice(b: &BytesMut) -> (r: &[u8])
    ensures
        r@ == buffer_bytes(*b),
{
    b
}

} // verus!
