//! The fixed six-byte primary header: three big-endian 16-bit words, the first
//! two of them bit-packed.
//!
//! | word | bits    | field                   |
//! |------|---------|-------------------------|
//! | 0    | 15..=13 | version number          |
//! | 0    | 12      | packet type             |
//! | 0    | 11      | secondary header flag   |
//! | 0    | 10..=0  | APID                    |
//! | 1    | 15..=14 | sequence flags          |
//! | 1    | 13..=0  | sequence counter        |
//! | 2    | 15..=0  | data length, minus one  |

use super::error::PacketError;
use super::wire::{
    lemma_u16_be_bytes_round_trip, lemma_u16_be_round_trip, read_u16_be, spec_u16_from_be,
    spec_u16_to_be, write_u16_be,
};
use vstd::prelude::*;

verus! {

/// Number of bytes of a primary header.
pub const PRIMARY_HEADER_SIZE: usize = 6;

const VERSION_NO_MASK: u16 = 0xE000;

const PKT_TYPE_MASK: u16 = 0x1000;

const SEC_HDR_FLAG_MASK: u16 = 0x0800;

const APID_MASK: u16 = 0x07FF;

const SEQ_FLAGS_MASK: u16 = 0xC000;

const SEQ_COUNT_MASK: u16 = 0x3FFF;

/// Direction of a packet.
#[derive(Clone, Copy, Debug, PartialEq, Eq, Structural)]
pub enum PktType {
    Telemetry,
    Telecommand,
}

impl PktType {
    /// The code that stands for this type on the wire.
    pub open spec fn spec_code(self) -> u8 {
        match self {
            PktType::Telemetry => 0,
            PktType::Telecommand => 1,
        }
    }

    /// The type that a wire code stands for, if any.
    pub open spec fn spec_from_code(code: u8) -> Result<PktType, PacketError> {
        if code == 0 {
            Ok(PktType::Telemetry)
        } else if code == 1 {
            Ok(PktType::Telecommand)
        } else {
            Err(PacketError::MalformedHeader)
        }
    }

    /// The code that stands for this type on the wire.
    pub fn code(self) -> (code: u8)
        ensures
            code == self.spec_code(),
    {
        match self {
            PktType::Telemetry => 0,
            PktType::Telecommand => 1,
        }
    }

    /// The type that `code` stands for; `MalformedHeader` for any code but 0
    /// and 1.
    pub fn from_code(code: u8) -> (res: Result<PktType, PacketError>)
        ensures
            res == Self::spec_from_code(code),
    {
        match code {
            0 => Ok(PktType::Telemetry),
            1 => Ok(PktType::Telecommand),
            _ => Err(PacketError::MalformedHeader),
        }
    }
}

/// Bits 15 to 13 of the first header word.
pub open spec fn spec_version_number(word: u16) -> u8 {
    (word >> 13) as u8
}

/// The packet type that bit 12 of the first header word stands for.
pub open spec fn spec_packet_type(word: u16) -> PktType {
    if (word >> 12) & 1 == 1 {
        PktType::Telecommand
    } else {
        PktType::Telemetry
    }
}

/// Bit 11 of the first header word.
pub open spec fn spec_secondary_header_flag(word: u16) -> bool {
    (word >> 11) & 1 == 1
}

/// Bits 10 to 0 of the first header word.
pub open spec fn spec_apid(word: u16) -> u16 {
    word & 0x07FF
}

/// Bits 15 and 14 of the second header word.
pub open spec fn spec_sequence_flags(word: u16) -> u8 {
    (word >> 14) as u8
}

/// Bits 13 to 0 of the second header word.
pub open spec fn spec_sequence_counter(word: u16) -> u16 {
    word & 0x3FFF
}

/// The version number held in the first header word.
pub fn get_version_number(val: u16) -> (version: u8)
    ensures
        version == spec_version_number(val),
        version < 8,
{
    let field: u16 = (val & VERSION_NO_MASK) >> 13;
    assert(field == val >> 13 && field < 8) by (bit_vector)
        requires
            field == (val & 0xE000) >> 13,
    ;
    field as u8
}

/// The packet type held in the first header word. The code read is checked
/// against the defined codes; a single bit is always one of the two, so this
/// never fails.
pub fn get_packet_type(val: u16) -> (res: Result<PktType, PacketError>)
    ensures
        res == Ok::<PktType, PacketError>(spec_packet_type(val)),
{
    let field: u16 = (val & PKT_TYPE_MASK) >> 12;
    assert(field == (val >> 12) & 1 && field < 2) by (bit_vector)
        requires
            field == (val & 0x1000) >> 12,
    ;
    PktType::from_code(field as u8)
}

/// The secondary header flag held in the first header word.
pub fn get_secondary_header_flag(val: u16) -> (flag: bool)
    ensures
        flag == spec_secondary_header_flag(val),
{
    let field: u16 = (val & SEC_HDR_FLAG_MASK) >> 11;
    assert((field != 0) == ((val >> 11) & 1 == 1)) by (bit_vector)
        requires
            field == (val & 0x0800) >> 11,
    ;
    field != 0
}

/// The APID held in the first header word.
pub fn get_apid(val: u16) -> (apid: u16)
    ensures
        apid == spec_apid(val),
        apid < 2048,
{
    let field: u16 = val & APID_MASK;
    assert(field < 2048) by (bit_vector)
        requires
            field == val & 0x07FF,
    ;
    field
}

/// The sequence flags held in the second header word.
pub fn get_sequence_flags(val: u16) -> (flags: u8)
    ensures
        flags == spec_sequence_flags(val),
        flags < 4,
{
    let field: u16 = (val & SEQ_FLAGS_MASK) >> 14;
    assert(field == val >> 14 && field < 4) by (bit_vector)
        requires
            field == (val & 0xC000) >> 14,
    ;
    field as u8
}

/// The sequence counter held in the second header word.
pub fn get_sequence_counter(val: u16) -> (counter: u16)
    ensures
        counter == spec_sequence_counter(val),
        counter < 16384,
{
    let field: u16 = val & SEQ_COUNT_MASK;
    assert(field < 16384) by (bit_vector)
        requires
            field == val & 0x3FFF,
    ;
    field
}

/// The decoded fields of a primary header.
#[derive(Clone, Copy, Debug, PartialEq, Eq, Structural)]
pub struct PrimaryHeader {
    pub version_number: u8,
    pub packet_type: PktType,
    pub secondary_header_flag: bool,
    pub apid: u16,
    pub sequence_flags: u8,
    pub sequence_counter: u16,
    /// Number of bytes of the data field that follows the header, minus one.
    pub data_length: u16,
}

/// The first header word that holds the given fields. A field wider than its
/// place spills into the bits above it.
pub open spec fn spec_first_word(version: u8, packet_type: PktType, flag: bool, apid: u16) -> u16 {
    ((version as u16) << 13) | ((packet_type.spec_code() as u16) << 12) | ((if flag {
        1u16
    } else {
        0u16
    }) << 11) | apid
}

/// The second header word that holds the given fields. A field wider than its
/// place spills into the bits above it.
pub open spec fn spec_second_word(flags: u8, counter: u16) -> u16 {
    ((flags as u16) << 14) | counter
}

impl PrimaryHeader {
    /// Every field lies within the range that its place in the header holds.
    pub open spec fn wf(&self) -> bool {
        &&& self.version_number < 8
        &&& self.apid < 2048
        &&& self.sequence_flags < 4
        &&& self.sequence_counter < 16384
    }

    /// Number of bytes of the data field that this header announces.
    pub open spec fn spec_data_field_len(&self) -> int {
        self.data_length as int + 1
    }

    /// The header that the first six bytes of `buf` encode.
    pub open spec fn spec_from_buffer(buf: Seq<u8>) -> Result<PrimaryHeader, PacketError> {
        if buf.len() < 6 {
            Err(PacketError::BufferTooShort)
        } else {
            let first = spec_u16_from_be(buf[0], buf[1]);
            let second = spec_u16_from_be(buf[2], buf[3]);
            Ok(
                PrimaryHeader {
                    version_number: spec_version_number(first),
                    packet_type: spec_packet_type(first),
                    secondary_header_flag: spec_secondary_header_flag(first),
                    apid: spec_apid(first),
                    sequence_flags: spec_sequence_flags(second),
                    sequence_counter: spec_sequence_counter(second),
                    data_length: spec_u16_from_be(buf[4], buf[5]),
                },
            )
        }
    }

    /// The six bytes that encode this header.
    pub open spec fn spec_get_buffer(&self) -> Seq<u8> {
        spec_u16_to_be(
            spec_first_word(
                self.version_number,
                self.packet_type,
                self.secondary_header_flag,
                self.apid,
            ),
        ) + spec_u16_to_be(spec_second_word(self.sequence_flags, self.sequence_counter))
            + spec_u16_to_be(self.data_length)
    }

    /// Decodes the header held in the first six bytes of `buf`. Fails with
    /// `BufferTooShort` on a shorter buffer, and on no other.
    pub fn from_buffer(buf: &[u8]) -> (res: Result<PrimaryHeader, PacketError>)
        ensures
            res == Self::spec_from_buffer(buf@),
            res matches Ok(header) ==> header.wf(),
    {
        if buf.len() < PRIMARY_HEADER_SIZE {
            return Err(PacketError::BufferTooShort);
        }
        let val: u16 = read_u16_be(&buf[0..2]);
        let version_number: u8 = get_version_number(val);
        let packet_type: PktType = match get_packet_type(val) {
            Ok(packet_type) => packet_type,
            Err(e) => {
                return Err(e);
            },
        };
        let secondary_header_flag: bool = get_secondary_header_flag(val);
        let apid: u16 = get_apid(val);

        let val: u16 = read_u16_be(&buf[2..4]);
        let sequence_flags: u8 = get_sequence_flags(val);
        let sequence_counter: u16 = get_sequence_counter(val);

        let data_length: u16 = read_u16_be(&buf[4..6]);

        Ok(
            PrimaryHeader {
                version_number,
                packet_type,
                secondary_header_flag,
                apid,
                sequence_flags,
                sequence_counter,
                data_length,
            },
        )
    }

    /// Encodes this header into its six bytes.
    pub fn get_buffer(&self) -> (buf: Vec<u8>)
        ensures
            buf@ == self.spec_get_buffer(),
            buf@.len() == 6,
    {
        let mut buf: Vec<u8> = Vec::with_capacity(PRIMARY_HEADER_SIZE);

        let mut val: u16 = (self.version_number as u16) << 13;
        val |= (self.packet_type.code() as u16) << 12;
        val |= (if self.secondary_header_flag {
            1u16
        } else {
            0u16
        }) << 11;
        val |= self.apid;
        write_u16_be(&mut buf, val);

        val = (self.sequence_flags as u16) << 14;
        val |= self.sequence_counter;
        write_u16_be(&mut buf, val);

        write_u16_be(&mut buf, self.data_length);

        buf
    }
}

proof fn lemma_first_word_fields(version: u8, code: u8, flag: bool, apid: u16)
    by (bit_vector)
    requires
        version < 8,
        code < 2,
        apid < 2048,
    ensures
        ({
            let word = ((version as u16) << 13) | ((code as u16) << 12) | ((if flag {
                1u16
            } else {
                0u16
            }) << 11) | apid;
            &&& (word >> 13) as u8 == version
            &&& ((word >> 12) & 1 == 1) == (code == 1)
            &&& ((word >> 11) & 1 == 1) == flag
            &&& word & 0x07FF == apid
        }),
{
}

proof fn lemma_second_word_fields(flags: u8, counter: u16)
    by (bit_vector)
    requires
        flags < 4,
        counter < 16384,
    ensures
        (((flags as u16) << 14) | counter) >> 14 == flags,
        (((flags as u16) << 14) | counter) & 0x3FFF == counter,
{
}

proof fn lemma_first_word_rebuilt(word: u16)
    by (bit_vector)
    ensures
        ((((word >> 13) as u8) as u16) << 13) | ((if (word >> 12) & 1 == 1 {
            1u16
        } else {
            0u16
        }) << 12) | ((if (word >> 11) & 1 == 1 {
            1u16
        } else {
            0u16
        }) << 11) | (word & 0x07FF) == word,
        ((word >> 13) as u8) < 8,
        (word & 0x07FF) < 2048,
{
}

proof fn lemma_second_word_rebuilt(word: u16)
    by (bit_vector)
    ensures
        ((((word >> 14) as u8) as u16) << 14) | (word & 0x3FFF) == word,
        ((word >> 14) as u8) < 4,
        (word & 0x3FFF) < 16384,
{
}

/// Decoding the bytes that encode a well-formed header yields that header.
pub proof fn lemma_decode_encode(header: PrimaryHeader)
    requires
        header.wf(),
    ensures
        PrimaryHeader::spec_from_buffer(header.spec_get_buffer()) == Ok::<
            PrimaryHeader,
            PacketError,
        >(header),
{
    let first = spec_first_word(
        header.version_number,
        header.packet_type,
        header.secondary_header_flag,
        header.apid,
    );
    let second = spec_second_word(header.sequence_flags, header.sequence_counter);
    let buf = header.spec_get_buffer();
    lemma_u16_be_round_trip(first);
    lemma_u16_be_round_trip(second);
    lemma_u16_be_round_trip(header.data_length);
    assert(buf.len() == 6);
    assert(buf[0] == spec_u16_to_be(first)[0] && buf[1] == spec_u16_to_be(first)[1]);
    assert(buf[2] == spec_u16_to_be(second)[0] && buf[3] == spec_u16_to_be(second)[1]);
    assert(buf[4] == spec_u16_to_be(header.data_length)[0] && buf[5] == spec_u16_to_be(
        header.data_length,
    )[1]);
    lemma_first_word_fields(
        header.version_number,
        header.packet_type.spec_code(),
        header.secondary_header_flag,
        header.apid,
    );
    lemma_second_word_fields(header.sequence_flags, header.sequence_counter);
}

/// Every six bytes decode to a well-formed header, and encoding that header
/// yields the same six bytes.
pub proof fn lemma_encode_decode(buf: Seq<u8>)
    requires
        buf.len() == 6,
    ensures
        PrimaryHeader::spec_from_buffer(buf) matches Ok(header) && header.wf()
            && header.spec_get_buffer() == buf,
{
    let first = spec_u16_from_be(buf[0], buf[1]);
    let second = spec_u16_from_be(buf[2], buf[3]);
    lemma_first_word_rebuilt(first);
    lemma_second_word_rebuilt(second);
    lemma_u16_be_bytes_round_trip(buf[0], buf[1]);
    lemma_u16_be_bytes_round_trip(buf[2], buf[3]);
    lemma_u16_be_bytes_round_trip(buf[4], buf[5]);
    let header = PrimaryHeader::spec_from_buffer(buf)->Ok_0;
    assert(header.spec_get_buffer() =~= buf);
}

} // verus!
