//! Big-endian integers on the wire.

use byteorder::{BigEndian, ByteOrder, WriteBytesExt};
use vstd::prelude::*;

verus! {

/// The 16-bit value whose big-endian representation is `hi` followed by `lo`.
pub open spec fn spec_u16_from_be(hi: u8, lo: u8) -> u16 {
    (hi as int * 256 + lo as int) as u16
}

/// The big-endian representation of a 16-bit value, most significant byte first.
pub open spec fn spec_u16_to_be(val: u16) -> Seq<u8> {
    seq![(val / 256) as u8, (val % 256) as u8]
}

/// The 32-bit value whose big-endian representation is `b0`, `b1`, `b2`, `b3`.
pub open spec fn spec_u32_from_be(b0: u8, b1: u8, b2: u8, b3: u8) -> u32 {
    (((b0 as int * 256 + b1 as int) * 256 + b2 as int) * 256 + b3 as int) as u32
}

/// The big-endian representation of a 32-bit value, most significant byte first.
pub open spec fn spec_u32_to_be(val: u32) -> Seq<u8> {
    seq![
        (val / 0x100_0000) as u8,
        (val / 0x1_0000 % 256) as u8,
        (val / 0x100 % 256) as u8,
        (val % 256) as u8,
    ]
}

/// Reading back the bytes written for a 16-bit value yields that value.
pub proof fn lemma_u16_be_round_trip(val: u16)
    ensures
        spec_u16_to_be(val).len() == 2,
        spec_u16_from_be(spec_u16_to_be(val)[0], spec_u16_to_be(val)[1]) == val,
{
}

/// Writing the value read from two bytes yields those two bytes.
pub proof fn lemma_u16_be_bytes_round_trip(hi: u8, lo: u8)
    ensures
        spec_u16_to_be(spec_u16_from_be(hi, lo)) == seq![hi, lo],
{
    assert(spec_u16_to_be(spec_u16_from_be(hi, lo)) =~= seq![hi, lo]);
}

/// Reading back the bytes written for a 32-bit value yields that value.
pub proof fn lemma_u32_be_round_trip(val: u32)
    ensures
        spec_u32_to_be(val).len() == 4,
        spec_u32_from_be(
            spec_u32_to_be(val)[0],
            spec_u32_to_be(val)[1],
            spec_u32_to_be(val)[2],
            spec_u32_to_be(val)[3],
        ) == val,
{
}

/// Writing the value read from four bytes yields those four bytes.
pub proof fn lemma_u32_be_bytes_round_trip(b0: u8, b1: u8, b2: u8, b3: u8)
    ensures
        spec_u32_to_be(spec_u32_from_be(b0, b1, b2, b3)) == seq![b0, b1, b2, b3],
{
    let w1: int = b0 as int * 256 + b1 as int;
    let w2: int = w1 * 256 + b2 as int;
    let w3: int = w2 * 256 + b3 as int;
    assert(w3 / 256 == w2 && w3 % 256 == b3 as int);
    assert(w2 / 256 == w1 && w2 % 256 == b2 as int);
    assert(w1 / 256 == b0 as int && w1 % 256 == b1 as int);
    assert(w3 / 0x100 == w2);
    assert(w3 / 0x1_0000 == w1);
    assert(w3 / 0x100_0000 == b0 as int);
    assert(spec_u32_to_be(spec_u32_from_be(b0, b1, b2, b3)) =~= seq![b0, b1, b2, b3]);
}

/// Trusted: `byteorder::BigEndian::read_u16`, which interprets the first two
/// bytes of `buf` as a big-endian integer and panics on a shorter buffer.
#[verifier::external_body]
pub(crate) fn read_u16_be(buf: &[u8]) -> (val: u16)
    requires
        buf@.len() >= 2,
    ensures
        val == spec_u16_from_be(buf@[0], buf@[1]),
{
    BigEndian::read_u16(buf)
}

/// Trusted: `byteorder::BigEndian::read_u32`, which interprets the first four
/// bytes of `buf` as a big-endian integer and panics on a shorter buffer.
#[verifier::external_body]
pub(crate) fn read_u32_be(buf: &[u8]) -> (val: u32)
    requires
        buf@.len() >= 4,
    ensures
        val == spec_u32_from_be(buf@[0], buf@[1], buf@[2], buf@[3]),
{
    BigEndian::read_u32(buf)
}

/// Trusted: `byteorder::WriteBytesExt::write_u16` with `BigEndian` on a
/// `Vec<u8>`, which appends the two bytes of `val`, most significant first.
/// Writing to a vector never reports an error.
#[verifier::external_body]
pub(crate) fn write_u16_be(buf: &mut Vec<u8>, val: u16)
    ensures
        final(buf)@ == old(buf)@ + spec_u16_to_be(val),
{
    buf.write_u16::<BigEndian>(val).unwrap()
}

/// Trusted: `byteorder::WriteBytesExt::write_u32` with `BigEndian` on a
/// `Vec<u8>`, which appends the four bytes of `val`, most significant first.
/// Writing to a vector never reports an error.
#[verifier::external_body]
pub(crate) fn write_u32_be(buf: &mut Vec<u8>, val: u32)
    ensures
        final(buf)@ == old(buf)@ + spec_u32_to_be(val),
{
    buf.write_u32::<BigEndian>(val).unwrap()
}

} // verus!
