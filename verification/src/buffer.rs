//! The shared, immutable byte buffer that messages are decoded from and that
//! carries their payloads.

use bytes::Bytes;
use vstd::prelude::*;

verus! {

/// `bytes::Bytes`, a cheaply cloneable view into a shared run of bytes.
#[verifier::external_type_specification]
#[verifier::external_body]
pub struct ExBytes(bytes::Bytes);

/// The bytes that a buffer holds, in order.
pub uninterp spec fn contents(buffer: Bytes) -> Seq<u8>;

/// `Bytes::len` returns the number of bytes that the buffer holds.
pub assume_specification[ Bytes::len ](buffer: &Bytes) -> (n: usize)
    ensures
        n == contents(*buffer).len(),
;

/// `Bytes::slice` returns a buffer that holds the bytes from `begin` up to,
/// not including, `end`; it panics unless `begin <= end <= len`.
pub assume_specification[ Bytes::slice ](buffer: &Bytes, begin: usize, end: usize) -> (part: Bytes)
    requires
        begin <= end <= contents(*buffer).len(),
    ensures
        contents(part) == contents(*buffer).subrange(begin as int, end as int),
;

/// `Bytes::split_off` leaves the bytes before `at` in the buffer and returns
/// the bytes from `at` on; it panics if `at` is beyond the length.
pub assume_specification[ Bytes::split_off ](buffer: &mut Bytes, at: usize) -> (tail: Bytes)
    requires
        at <= contents(*old(buffer)).len(),
    ensures
        contents(*final(buffer)) == contents(*old(buffer)).subrange(0, at as int),
        contents(tail) == contents(*old(buffer)).subrange(
            at as int,
            contents(*old(buffer)).len() as int,
        ),
;

/// `AsRef<[u8]>` of `Bytes`: the slice shows exactly the bytes that the buffer holds.
#[verifier::external_body]
pub(crate) fn as_slice(buffer: &Bytes) -> (bytes: &[u8])
    ensures
        bytes@ == contents(*buffer),
{
    buffer.as_ref()
}

/// `Clone` of `Bytes`: the clone holds the same bytes.
pub assume_specification[ <Bytes as Clone>::clone ](buffer: &Bytes) -> (copy: Bytes)
    ensures
        contents(copy) == contents(*buffer),
;

} // verus!
