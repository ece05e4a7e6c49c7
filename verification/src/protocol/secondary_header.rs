//! The optional eight-byte secondary header: two big-endian 32-bit time
//! fields, back to back.

use super::error::PacketError;
use super::wire::{
    lemma_u32_be_bytes_round_trip, lemma_u32_be_round_trip, read_u32_be, spec_u32_from_be,
    spec_u32_to_be, write_u32_be,
};
use vstd::prelude::*;

verus! {

/// Number of bytes of a secondary header.
pub const SECONDARY_HEADER_SIZE: usize = 8;

/// The decoded fields of a secondary header.
#[derive(Clone, Copy, Debug, PartialEq, Eq, Structural)]
pub struct SecondaryHeader {
    pub time_week: u32,
    pub time_ms: u32,
}

impl SecondaryHeader {
    /// The header that the first eight bytes of `buf` encode.
    pub open spec fn spec_from_buffer(buf: Seq<u8>) -> Result<SecondaryHeader, PacketError> {
        if buf.len() < 8 {
            Err(PacketError::BufferTooShort)
        } else {
            Ok(
                SecondaryHeader {
                    time_week: spec_u32_from_be(buf[0], buf[1], buf[2], buf[3]),
                    time_ms: spec_u32_from_be(buf[4], buf[5], buf[6], buf[7]),
                },
            )
        }
    }

    /// The eight bytes that encode this header.
    pub open spec fn spec_get_buffer(&self) -> Seq<u8> {
        spec_u32_to_be(self.time_week) + spec_u32_to_be(self.time_ms)
    }

    /// Decodes the header held in the first eight bytes of `buf`. Fails with
    /// `BufferTooShort` on a shorter buffer, and on no other.
    pub fn from_buffer(buf: &[u8]) -> (res: Result<SecondaryHeader, PacketError>)
        ensures
            res == Self::spec_from_buffer(buf@),
            res is Ok <==> buf@.len() >= 8,
    {
        if buf.len() < SECONDARY_HEADER_SIZE {
            return Err(PacketError::BufferTooShort);
        }
        let time_week: u32 = read_u32_be(&buf[0..4]);
        let time_ms: u32 = read_u32_be(&buf[4..8]);

        Ok(SecondaryHeader { time_week, time_ms })
    }

    /// Encodes this header into its eight bytes.
    pub fn get_buffer(&self) -> (buf: Vec<u8>)
        ensures
            buf@ == self.spec_get_buffer(),
            buf@.len() == 8,
    {
        let mut buf: Vec<u8> = Vec::with_capacity(SECONDARY_HEADER_SIZE);

        write_u32_be(&mut buf, self.time_week);
        write_u32_be(&mut buf, self.time_ms);

        buf
    }
}

/// Decoding the bytes that encode a secondary header yields that header.
pub proof fn lemma_secondary_decode_encode(header: SecondaryHeader)
    ensures
        SecondaryHeader::spec_from_buffer(header.spec_get_buffer()) == Ok::<
            SecondaryHeader,
            PacketError,
        >(header),
{
    let buf = header.spec_get_buffer();
    let week = spec_u32_to_be(header.time_week);
    let ms = spec_u32_to_be(header.time_ms);
    lemma_u32_be_round_trip(header.time_week);
    lemma_u32_be_round_trip(header.time_ms);
    assert(buf.len() == 8);
    assert(buf[0] == week[0] && buf[1] == week[1] && buf[2] == week[2] && buf[3] == week[3]);
    assert(buf[4] == ms[0] && buf[5] == ms[1] && buf[6] == ms[2] && buf[7] == ms[3]);
}

/// Every eight bytes decode to a secondary header, and encoding that header
/// yields the same eight bytes.
pub proof fn lemma_secondary_encode_decode(buf: Seq<u8>)
    requires
        buf.len() == 8,
    ensures
        SecondaryHeader::spec_from_buffer(buf) matches Ok(header) && header.spec_get_buffer()
            == buf,
{
    lemma_u32_be_bytes_round_trip(buf[0], buf[1], buf[2], buf[3]);
    lemma_u32_be_bytes_round_trip(buf[4], buf[5], buf[6], buf[7]);
    let header = SecondaryHeader::spec_from_buffer(buf)->Ok_0;
    assert(header.spec_get_buffer() =~= buf);
}

} // verus!
