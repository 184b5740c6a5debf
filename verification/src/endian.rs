//! Little-endian integers: what their bytes mean, and the calls that read and
//! write them.

use byteorder::{LittleEndian, WriteBytesExt};
use vstd::prelude::*;

verus! {

/// The unsigned 16-bit integer whose little-endian bytes are `bytes[0]` and
/// `bytes[1]`.
pub open spec fn u16_from_le(bytes: Seq<u8>) -> u16
    recommends
        bytes.len() == 2,
{
    (bytes[0] as int + 256 * (bytes[1] as int)) as u16
}

/// The unsigned 32-bit integer whose little-endian bytes are `bytes[0]` to
/// `bytes[3]`.
pub open spec fn u32_from_le(bytes: Seq<u8>) -> u32
    recommends
        bytes.len() == 4,
{
    (bytes[0] as int + 256 * (bytes[1] as int) + 65536 * (bytes[2] as int) + 16777216 * (
    bytes[3] as int)) as u32
}

/// The signed 16-bit integer whose little-endian two's complement bytes are
/// `bytes[0]` and `bytes[1]`.
pub open spec fn i16_from_le(bytes: Seq<u8>) -> i16
    recommends
        bytes.len() == 2,
{
    let unsigned = bytes[0] as int + 256 * (bytes[1] as int);
    if unsigned < 32768 {
        unsigned as i16
    } else {
        (unsigned - 65536) as i16
    }
}

/// The two little-endian bytes of an unsigned 16-bit integer.
pub open spec fn u16_le_bytes(value: u16) -> Seq<u8> {
    seq![(value as int % 256) as u8, (value as int / 256) as u8]
}

/// The four little-endian bytes of an unsigned 32-bit integer.
pub open spec fn u32_le_bytes(value: u32) -> Seq<u8> {
    seq![
        (value as int % 256) as u8,
        (value as int / 256 % 256) as u8,
        (value as int / 65536 % 256) as u8,
        (value as int / 16777216) as u8,
    ]
}

/// The two little-endian bytes of a signed 16-bit integer in two's
/// complement.
pub open spec fn i16_le_bytes(value: i16) -> Seq<u8> {
    let unsigned = if value >= 0 {
        value as int
    } else {
        value as int + 65536
    };
    seq![(unsigned % 256) as u8, (unsigned / 256) as u8]
}

/// Reads the unsigned 16-bit integer stored least significant byte first at
/// `at`.
pub fn read_u16_le(bytes: &[u8], at: usize) -> (value: u16)
    requires
        at + 2 <= bytes.len(),
    ensures
        value == u16_from_le(bytes@.subrange(at as int, at + 2)),
{
    let low: u16 = bytes[at] as u16;
    let high: u16 = bytes[at + 1] as u16;
    low + 256 * high
}

/// Reads the unsigned 32-bit integer stored least significant byte first at
/// `at`.
pub fn read_u32_le(bytes: &[u8], at: usize) -> (value: u32)
    requires
        at + 4 <= bytes.len(),
    ensures
        value == u32_from_le(bytes@.subrange(at as int, at + 4)),
{
    let b0: u32 = bytes[at] as u32;
    let b1: u32 = bytes[at + 1] as u32;
    let b2: u32 = bytes[at + 2] as u32;
    let b3: u32 = bytes[at + 3] as u32;
    b0 + 256 * b1 + 65536 * b2 + 16777216 * b3
}

/// Reads the signed 16-bit integer stored in two's complement, least
/// significant byte first, at `at`.
pub fn read_i16_le(bytes: &[u8], at: usize) -> (value: i16)
    requires
        at + 2 <= bytes.len(),
    ensures
        value == i16_from_le(bytes@.subrange(at as int, at + 2)),
{
    let low: i32 = bytes[at] as i32;
    let high: i32 = bytes[at + 1] as i32;
    let unsigned: i32 = low + 256 * high;
    if unsigned < 32768 {
        unsigned as i16
    } else {
        (unsigned - 65536) as i16
    }
}

/// `WriteBytesExt::write_u16::<LittleEndian>` of byteorder on a byte vector:
/// it puts the value's two little-endian bytes in a buffer and hands that to
/// `write_all`, which for a `Vec<u8>` appends them and cannot fail.
#[verifier::external_body]
pub(crate) fn write_u16_le(writer: &mut Vec<u8>, value: u16)
    ensures
        final(writer)@ == old(writer)@ + u16_le_bytes(value),
{
    let _ = writer.write_u16::<LittleEndian>(value);
}

/// `WriteBytesExt::write_u32::<LittleEndian>` of byteorder on a byte vector:
/// it puts the value's four little-endian bytes in a buffer and hands that to
/// `write_all`, which for a `Vec<u8>` appends them and cannot fail.
#[verifier::external_body]
pub(crate) fn write_u32_le(writer: &mut Vec<u8>, value: u32)
    ensures
        final(writer)@ == old(writer)@ + u32_le_bytes(value),
{
    let _ = writer.write_u32::<LittleEndian>(value);
}

/// `WriteBytesExt::write_i16::<LittleEndian>` of byteorder on a byte vector:
/// it casts the value to `u16`, puts the two little-endian bytes in a buffer
/// and hands that to `write_all`, which for a `Vec<u8>` appends them and
/// cannot fail.
#[verifier::external_body]
pub(crate) fn write_i16_le(writer: &mut Vec<u8>, value: i16)
    ensures
        final(writer)@ == old(writer)@ + i16_le_bytes(value),
{
    let _ = writer.write_i16::<LittleEndian>(value);
}

/// Reading back the bytes written for an unsigned 16-bit integer gives the
/// integer.
pub proof fn lemma_u16_le_round_trip(value: u16)
    ensures
        u16_le_bytes(value).len() == 2,
        u16_from_le(u16_le_bytes(value)) == value,
{
}

/// Writing the integer read from two bytes gives the two bytes.
pub proof fn lemma_u16_le_bytes_of_value(bytes: Seq<u8>)
    requires
        bytes.len() == 2,
    ensures
        u16_le_bytes(u16_from_le(bytes)) == bytes,
{
    assert(u16_le_bytes(u16_from_le(bytes)) =~= bytes);
}

/// Reading back the bytes written for an unsigned 32-bit integer gives the
/// integer.
pub proof fn lemma_u32_le_round_trip(value: u32)
    ensures
        u32_le_bytes(value).len() == 4,
        u32_from_le(u32_le_bytes(value)) == value,
{
    let v = value as int;
    let b0 = v % 256;
    let b1 = v / 256 % 256;
    let b2 = v / 65536 % 256;
    let b3 = v / 16777216;
    assert(v / 256 == 256 * (v / 65536) + b1);
    assert(v / 65536 == 256 * b3 + b2);
    assert(v == b0 + 256 * b1 + 65536 * b2 + 16777216 * b3);
}

/// Writing the integer read from four bytes gives the four bytes.
pub proof fn lemma_u32_le_bytes_of_value(bytes: Seq<u8>)
    requires
        bytes.len() == 4,
    ensures
        u32_le_bytes(u32_from_le(bytes)) == bytes,
{
    let b0 = bytes[0] as int;
    let b1 = bytes[1] as int;
    let b2 = bytes[2] as int;
    let b3 = bytes[3] as int;
    let value = b0 + 256 * b1 + 65536 * b2 + 16777216 * b3;
    assert(value == 256 * (b1 + 256 * b2 + 65536 * b3) + b0);
    assert(value / 256 == b1 + 256 * b2 + 65536 * b3);
    assert(value == 65536 * (b2 + 256 * b3) + (b0 + 256 * b1));
    assert(value / 65536 == b2 + 256 * b3);
    assert(value == 16777216 * b3 + (b0 + 256 * b1 + 65536 * b2));
    assert(value / 16777216 == b3);
    assert(u32_from_le(bytes) as int == value);
    assert(u32_le_bytes(u32_from_le(bytes)) =~= bytes);
}

/// Reading back the bytes written for a signed 16-bit integer gives the
/// integer.
pub proof fn lemma_i16_le_round_trip(value: i16)
    ensures
        i16_le_bytes(value).len() == 2,
        i16_from_le(i16_le_bytes(value)) == value,
{
}

/// Writing the signed integer read from two bytes gives the two bytes.
pub proof fn lemma_i16_le_bytes_of_value(bytes: Seq<u8>)
    requires
        bytes.len() == 2,
    ensures
        i16_le_bytes(i16_from_le(bytes)) == bytes,
{
    assert(i16_le_bytes(i16_from_le(bytes)) =~= bytes);
}

} // verus!
