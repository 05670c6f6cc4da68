//! Fixed-width big-endian integers as they stand on the wire, and the guarded
//! conversions between wire-width and host-width integers.

use crate::error::MessageError;
use byteorder::{BigEndian, ByteOrder};
use vstd::prelude::*;
use vstd::slice::slice_subrange;

verus! {

/// The four bytes that carry `value`, most significant byte first.
pub open spec fn be_u32_bytes(value: u32) -> Seq<u8> {
    seq![
        (value / 0x100_0000) as u8,
        (value / 0x1_0000 % 0x100) as u8,
        (value / 0x100 % 0x100) as u8,
        (value % 0x100) as u8,
    ]
}

/// The number carried by the first four bytes of `bytes`, most significant byte first.
pub open spec fn be_u32_value(bytes: Seq<u8>) -> u32
    recommends
        bytes.len() >= 4,
{
    (bytes[0] * 0x100_0000 + bytes[1] * 0x1_0000 + bytes[2] * 0x100 + bytes[3]) as u32
}

/// The two bytes that carry `value`, most significant byte first.
pub open spec fn be_u16_bytes(value: u16) -> Seq<u8> {
    seq![(value / 0x100) as u8, (value % 0x100) as u8]
}

/// The number carried by the first two bytes of `bytes`, most significant byte first.
pub open spec fn be_u16_value(bytes: Seq<u8>) -> u16
    recommends
        bytes.len() >= 2,
{
    (bytes[0] * 0x100 + bytes[1]) as u16
}

/// Reading back the bytes of a 32-bit number gives the number.
pub proof fn lemma_be_u32_value_of_bytes(value: u32)
    ensures
        be_u32_bytes(value).len() == 4,
        be_u32_value(be_u32_bytes(value)) == value,
{
}

/// Writing the number read from four bytes gives the same four bytes.
pub proof fn lemma_be_u32_bytes_of_value(bytes: Seq<u8>)
    requires
        bytes.len() >= 4,
    ensures
        be_u32_bytes(be_u32_value(bytes)) == bytes.subrange(0, 4),
{
    lemma_base_256_digits(bytes[0] as int, bytes[1] as int, bytes[2] as int, bytes[3] as int);
    assert(be_u32_bytes(be_u32_value(bytes)) =~= bytes.subrange(0, 4));
}

/// The four base-256 digits of a number can be read back from it by division.
proof fn lemma_base_256_digits(b0: int, b1: int, b2: int, b3: int)
    requires
        0 <= b0 < 0x100,
        0 <= b1 < 0x100,
        0 <= b2 < 0x100,
        0 <= b3 < 0x100,
    ensures
        ({
            let v = b0 * 0x100_0000 + b1 * 0x1_0000 + b2 * 0x100 + b3;
            &&& 0 <= v <= u32::MAX
            &&& v / 0x100_0000 == b0
            &&& v / 0x1_0000 % 0x100 == b1
            &&& v / 0x100 % 0x100 == b2
            &&& v % 0x100 == b3
        }),
{
    let v = b0 * 0x100_0000 + b1 * 0x1_0000 + b2 * 0x100 + b3;
    assert(v / 0x100_0000 == b0);
    assert(v / 0x1_0000 == b0 * 0x100 + b1);
    assert(v / 0x100 == b0 * 0x1_0000 + b1 * 0x100 + b2);
}

/// Reading back the bytes of a 16-bit number gives the number.
pub proof fn lemma_be_u16_value_of_bytes(value: u16)
    ensures
        be_u16_bytes(value).len() == 2,
        be_u16_value(be_u16_bytes(value)) == value,
{
}

/// Writing the number read from two bytes gives the same two bytes.
pub proof fn lemma_be_u16_bytes_of_value(bytes: Seq<u8>)
    requires
        bytes.len() >= 2,
    ensures
        be_u16_bytes(be_u16_value(bytes)) == bytes.subrange(0, 2),
{
    assert(be_u16_bytes(be_u16_value(bytes)) =~= bytes.subrange(0, 2));
}

/// `nom::be_u32`: with fewer than four bytes of input it reports that more are
/// needed; otherwise it succeeds with the big-endian number made of the first
/// four bytes. Success is handed on as `Some`, anything else as `None`.
#[verifier::external_body]
fn nom_be_u32(input: &[u8]) -> (parsed: Option<u32>)
    ensures
        parsed == if input@.len() >= 4 {
            Some(be_u32_value(input@))
        } else {
            None
        },
{
    match nom::be_u32(input) {
        nom::IResult::Done(_, value) => Some(value),
        nom::IResult::Error(_) => None,
        nom::IResult::Incomplete(_) => None,
    }
}

/// `nom::be_u16`: with fewer than two bytes of input it reports that more are
/// needed; otherwise it succeeds with the big-endian number made of the first
/// two bytes. Success is handed on as `Some`, anything else as `None`.
#[verifier::external_body]
fn nom_be_u16(input: &[u8]) -> (parsed: Option<u16>)
    ensures
        parsed == if input@.len() >= 2 {
            Some(be_u16_value(input@))
        } else {
            None
        },
{
    match nom::be_u16(input) {
        nom::IResult::Done(_, value) => Some(value),
        nom::IResult::Error(_) => None,
        nom::IResult::Incomplete(_) => None,
    }
}

/// `nom::be_u8`: on empty input it reports that more is needed; otherwise it
/// succeeds with the first byte. Success is handed on as `Some`, anything else
/// as `None`.
#[verifier::external_body]
fn nom_be_u8(input: &[u8]) -> (parsed: Option<u8>)
    ensures
        parsed == if input@.len() >= 1 {
            Some(input@[0])
        } else {
            None
        },
{
    match nom::be_u8(input) {
        nom::IResult::Done(_, value) => Some(value),
        nom::IResult::Error(_) => None,
        nom::IResult::Incomplete(_) => None,
    }
}

/// `byteorder::BigEndian::write_u32` on a buffer of four bytes: it fills the
/// buffer with the number's bytes, most significant first.
#[verifier::external_body]
fn byteorder_u32(value: u32) -> (bytes: [u8; 4])
    ensures
        bytes@ == be_u32_bytes(value),
{
    let mut bytes = [0u8; 4];
    BigEndian::write_u32(&mut bytes, value);
    bytes
}

/// `byteorder::BigEndian::write_u16` on a buffer of two bytes: it fills the
/// buffer with the number's bytes, most significant first.
#[verifier::external_body]
fn byteorder_u16(value: u16) -> (bytes: [u8; 2])
    ensures
        bytes@ == be_u16_bytes(value),
{
    let mut bytes = [0u8; 2];
    BigEndian::write_u16(&mut bytes, value);
    bytes
}

/// Reads the big-endian 32-bit number that starts at `at`, if four bytes are there.
pub fn read_u32(bytes: &[u8], at: usize) -> (r: Option<u32>)
    ensures
        r == if at + 4 <= bytes@.len() {
            Some(be_u32_value(bytes@.subrange(at as int, at + 4)))
        } else {
            None
        },
{
    if at > bytes.len() {
        return None;
    }
    let rest = slice_subrange(bytes, at, bytes.len());
    let parsed = nom_be_u32(rest);
    proof {
        if at + 4 <= bytes@.len() {
            assert(be_u32_value(rest@) == be_u32_value(bytes@.subrange(at as int, at + 4)));
        }
    }
    parsed
}

/// Reads the big-endian 16-bit number that starts at `at`, if two bytes are there.
pub fn read_u16(bytes: &[u8], at: usize) -> (r: Option<u16>)
    ensures
        r == if at + 2 <= bytes@.len() {
            Some(be_u16_value(bytes@.subrange(at as int, at + 2)))
        } else {
            None
        },
{
    if at > bytes.len() {
        return None;
    }
    let rest = slice_subrange(bytes, at, bytes.len());
    let parsed = nom_be_u16(rest);
    proof {
        if at + 2 <= bytes@.len() {
            assert(be_u16_value(rest@) == be_u16_value(bytes@.subrange(at as int, at + 2)));
        }
    }
    parsed
}

/// Reads the byte at `at`, if there is one.
pub fn read_u8(bytes: &[u8], at: usize) -> (r: Option<u8>)
    ensures
        r == if at < bytes@.len() {
            Some(bytes@[at as int])
        } else {
            None
        },
{
    if at > bytes.len() {
        return None;
    }
    nom_be_u8(slice_subrange(bytes, at, bytes.len()))
}

/// Appends the four big-endian bytes of `value`.
pub fn write_u32(out: &mut Vec<u8>, value: u32)
    ensures
        final(out)@ == old(out)@ + be_u32_bytes(value),
{
    let bytes = byteorder_u32(value);
    out.push(bytes[0]);
    out.push(bytes[1]);
    out.push(bytes[2]);
    out.push(bytes[3]);
    assert(out@ =~= old(out)@ + be_u32_bytes(value));
}

/// Appends the two big-endian bytes of `value`.
pub fn write_u16(out: &mut Vec<u8>, value: u16)
    ensures
        final(out)@ == old(out)@ + be_u16_bytes(value),
{
    let bytes = byteorder_u16(value);
    out.push(bytes[0]);
    out.push(bytes[1]);
    assert(out@ =~= old(out)@ + be_u16_bytes(value));
}

/// Appends every byte of `bytes`.
pub fn write_all(out: &mut Vec<u8>, bytes: &[u8])
    ensures
        final(out)@ == old(out)@ + bytes@,
{
    let mut i: usize = 0;
    while i < bytes.len()
        invariant
            i <= bytes@.len(),
            out@ == old(out)@ + bytes@.subrange(0, i as int),
        decreases bytes@.len() - i,
    {
        out.push(bytes[i]);
        i += 1;
        assert(out@ =~= old(out)@ + bytes@.subrange(0, i as int));
    }
    assert(bytes@.subrange(0, i as int) =~= bytes@);
}

/// Converts a wire-width number to a host index, or reports that the host's
/// index width cannot hold it.
pub fn u32_to_usize(value: u32) -> (r: Result<usize, MessageError>)
    ensures
        r == if value <= usize::MAX {
            Ok::<usize, MessageError>(value as usize)
        } else {
            Err(MessageError::LengthOutOfRange)
        },
{
    if value as u64 <= usize::MAX as u64 {
        Ok(value as usize)
    } else {
        Err(MessageError::LengthOutOfRange)
    }
}

/// Converts a host length to a wire-width number, or reports that 32 bits
/// cannot hold it.
pub fn usize_to_u32(value: usize) -> (r: Result<u32, MessageError>)
    ensures
        r == if value <= u32::MAX {
            Ok::<u32, MessageError>(value as u32)
        } else {
            Err(MessageError::LengthOutOfRange)
        },
{
    if value as u64 <= u32::MAX as u64 {
        Ok(value as u32)
    } else {
        Err(MessageError::LengthOutOfRange)
    }
}

} // verus!
