//! A whole packet: primary header, optional secondary header, optional user
//! data and the checksum that closes the data field.
//!
//! On the wire a packet is two buffers: the six header bytes, and the data
//! field, whose last two bytes are the checksum of everything before them.

use super::error::PacketError;
use super::hasher::{
    append_checksum, append_partial_checksum, compute_partial, is_valid,
    lemma_appended_checksum_is_valid, lemma_compute_partial_concat, lemma_valid_iff_own_bytes,
    spec_checksum, spec_is_valid, INITIAL_VALUE,
};
use super::primary_header::{lemma_decode_encode, lemma_encode_decode, PrimaryHeader};
use super::secondary_header::{
    lemma_secondary_decode_encode, lemma_secondary_encode_decode, SecondaryHeader,
    SECONDARY_HEADER_SIZE,
};
use super::user_data_field::UserDataField;
use super::wire::{lemma_u16_be_round_trip, read_u16_be, spec_u16_from_be, spec_u16_to_be};
use vstd::prelude::*;

verus! {

/// Number of bytes of the checksum that closes a data field.
pub const CHECKSUM_SIZE: usize = 2;

/// A decoded packet.
#[derive(Clone, Debug, PartialEq, Eq)]
pub struct Packet {
    pub pri_header: PrimaryHeader,
    pub sec_header: Option<SecondaryHeader>,
    pub user_data: Option<UserDataField>,
    pub checksum: u16,
}

/// What a packet holds, with its user data as a sequence of bytes.
pub ghost struct PacketView {
    pub pri_header: PrimaryHeader,
    pub sec_header: Option<SecondaryHeader>,
    pub user_data: Option<Seq<u8>>,
    pub checksum: u16,
}

impl View for Packet {
    type V = PacketView;

    open spec fn view(&self) -> PacketView {
        PacketView {
            pri_header: self.pri_header,
            sec_header: self.sec_header,
            user_data: match self.user_data {
                Some(data) => Some(data@),
                None => None,
            },
            checksum: self.checksum,
        }
    }
}

/// The bytes that an optional secondary header takes: eight, or none.
pub open spec fn spec_secondary_bytes(sec_header: Option<SecondaryHeader>) -> Seq<u8> {
    match sec_header {
        Some(header) => header.spec_get_buffer(),
        None => Seq::empty(),
    }
}

/// The bytes that optional user data takes.
pub open spec fn spec_user_bytes(user_data: Option<Seq<u8>>) -> Seq<u8> {
    match user_data {
        Some(data) => data,
        None => Seq::empty(),
    }
}

impl PacketView {
    /// The data field without its checksum: secondary header, then user data.
    pub open spec fn spec_content(&self) -> Seq<u8> {
        spec_secondary_bytes(self.sec_header) + spec_user_bytes(self.user_data)
    }

    /// Everything that the checksum covers: primary header, then content.
    pub open spec fn spec_covered(&self) -> Seq<u8> {
        self.pri_header.spec_get_buffer() + self.spec_content()
    }

    /// The packet as one buffer: what the checksum covers, then the checksum.
    pub open spec fn spec_into_buffer(&self) -> Seq<u8> {
        self.spec_covered() + spec_u16_to_be(spec_checksum(self.spec_covered()))
    }

    /// The packet as header bytes and data field.
    pub open spec fn spec_into_buffers(&self) -> (Seq<u8>, Seq<u8>) {
        (
            self.pri_header.spec_get_buffer(),
            self.spec_content() + spec_u16_to_be(spec_checksum(self.spec_covered())),
        )
    }

    /// The packet composed of the given parts, with a fresh checksum.
    pub open spec fn spec_new(
        pri_header: PrimaryHeader,
        sec_header: Option<SecondaryHeader>,
        user_data: Option<Seq<u8>>,
    ) -> PacketView {
        PacketView {
            pri_header,
            sec_header,
            user_data,
            checksum: spec_checksum(
                pri_header.spec_get_buffer() + spec_secondary_bytes(sec_header) + spec_user_bytes(
                    user_data,
                ),
            ),
        }
    }

    /// The parts agree with each other: the header's fields are in range, a
    /// secondary header is present exactly when the header flags one, user
    /// data that is present is not empty, the header announces the length of
    /// the data field, and the checksum is that of the bytes it covers.
    pub open spec fn wf(&self) -> bool {
        &&& self.pri_header.wf()
        &&& self.sec_header is Some <==> self.pri_header.secondary_header_flag
        &&& self.user_data matches Some(data) ==> data.len() > 0
        &&& self.pri_header.spec_data_field_len() == self.spec_content().len() + 2
        &&& self.checksum == spec_checksum(self.spec_covered())
    }
}

/// Number of bytes of the data field that come before the user data,
/// according to the header's secondary header flag.
pub open spec fn spec_user_data_start(pri_header: PrimaryHeader) -> int {
    if pri_header.secondary_header_flag {
        8
    } else {
        0
    }
}

/// Whether the data field that a header announces has room for the secondary
/// header, if the header flags one, and for the checksum after it.
pub open spec fn spec_has_room(pri_header: PrimaryHeader) -> bool {
    pri_header.spec_data_field_len() >= spec_user_data_start(pri_header) + 2
}

/// The packet that a header buffer and a data field decode to.
///
/// The header is decoded from the first six bytes of `header`. The data field
/// must hold the two bytes of a checksum and, if flagged, the eight bytes of
/// a secondary header. The checksum over both buffers as given must be the
/// valid value. The secondary header is read from the start of the data field
/// and the checksum from its end. What lies between the two is the user data,
/// absent if there is nothing between them.
pub open spec fn spec_from_buffers(header: Seq<u8>, data: Seq<u8>) -> Result<
    PacketView,
    PacketError,
> {
    match PrimaryHeader::spec_from_buffer(header) {
        Err(e) => Err(e),
        Ok(pri_header) => {
            let start = spec_user_data_start(pri_header);
            let end = data.len() - 2;
            if data.len() < 2 || data.len() < start {
                Err(PacketError::BufferTooShort)
            } else if !spec_is_valid(spec_checksum(header + data)) {
                Err(PacketError::ChecksumMismatch)
            } else {
                Ok(
                    PacketView {
                        pri_header,
                        sec_header: if pri_header.secondary_header_flag {
                            Some(SecondaryHeader::spec_from_buffer(data.subrange(0, 8))->Ok_0)
                        } else {
                            None
                        },
                        user_data: if end > start {
                            Some(data.subrange(start, end))
                        } else {
                            None
                        },
                        checksum: spec_u16_from_be(data[end], data[end + 1]),
                    },
                )
            }
        },
    }
}

/// A decoding result with the packet, if any, replaced by its view.
pub open spec fn spec_result_view(res: Result<Packet, PacketError>) -> Result<
    PacketView,
    PacketError,
> {
    match res {
        Ok(packet) => Ok(packet@),
        Err(e) => Err(e),
    }
}

impl Packet {
    /// Composes a packet of the given parts and computes its checksum over
    /// the primary header, the secondary header and the user data, in that
    /// order.
    pub fn new(
        pri_header: PrimaryHeader,
        sec_header: Option<SecondaryHeader>,
        user_data: Option<UserDataField>,
    ) -> (packet: Packet)
        ensures
            packet.pri_header == pri_header,
            packet.sec_header == sec_header,
            packet.user_data == user_data,
            packet@ == PacketView::spec_new(pri_header, sec_header, packet@.user_data),
    {
        let pri_buf: Vec<u8> = pri_header.get_buffer();
        let mut checksum: u16 = compute_partial(INITIAL_VALUE, pri_buf.as_slice());
        let ghost mut covered: Seq<u8> = pri_buf@;

        if let Some(header) = &sec_header {
            let sec_buf: Vec<u8> = header.get_buffer();
            checksum = compute_partial(checksum, sec_buf.as_slice());
            proof {
                lemma_compute_partial_concat(INITIAL_VALUE, covered, sec_buf@);
                covered = covered + sec_buf@;
            }
        }
        assert(covered =~= pri_buf@ + spec_secondary_bytes(sec_header));

        if let Some(data) = &user_data {
            let data_buf: Vec<u8> = data.get_buffer();
            checksum = compute_partial(checksum, data_buf.as_slice());
            proof {
                lemma_compute_partial_concat(INITIAL_VALUE, covered, data_buf@);
                covered = covered + data_buf@;
            }
        }

        let packet = Packet { pri_header, sec_header, user_data, checksum };
        assert(covered =~= pri_buf@ + spec_secondary_bytes(sec_header) + spec_user_bytes(
            packet@.user_data,
        ));
        packet
    }

    /// Decodes a packet from its header bytes and its data field.
    ///
    /// Fails with `BufferTooShort` if `header_buf` holds fewer than six bytes,
    /// or `data_buf` fewer than the two of a checksum, or fewer than the eight
    /// of the secondary header that the header flags. Fails otherwise with
    /// `ChecksumMismatch` if the checksum over both buffers is not the valid
    /// value.
    pub fn from_buffers(header_buf: &[u8], data_buf: &[u8]) -> (res: Result<Packet, PacketError>)
        ensures
            spec_result_view(res) == spec_from_buffers(header_buf@, data_buf@),
    {
        let pri_header: PrimaryHeader = match PrimaryHeader::from_buffer(header_buf) {
            Ok(pri_header) => pri_header,
            Err(e) => {
                return Err(e);
            },
        };

        let has_sec_header: bool = pri_header.secondary_header_flag;
        if data_buf.len() < CHECKSUM_SIZE || (has_sec_header && data_buf.len()
            < SECONDARY_HEADER_SIZE) {
            return Err(PacketError::BufferTooShort);
        }
        let has_user_data: bool = if has_sec_header {
            data_buf.len() > SECONDARY_HEADER_SIZE + CHECKSUM_SIZE
        } else {
            data_buf.len() > CHECKSUM_SIZE
        };

        // The end of the data field: the last two bytes are the checksum.
        let end: usize = data_buf.len() - CHECKSUM_SIZE;

        let (sec_header, user_data): (Option<SecondaryHeader>, Option<UserDataField>) = match (
            has_sec_header,
            has_user_data,
        ) {
            (true, true) => {
                let header = SecondaryHeader::from_buffer(&data_buf[0..SECONDARY_HEADER_SIZE]);
                let data = UserDataField::from_buffer(&data_buf[SECONDARY_HEADER_SIZE..end]);
                (header.ok(), Some(data))
            },
            (true, false) => {
                let header = SecondaryHeader::from_buffer(&data_buf[0..SECONDARY_HEADER_SIZE]);
                (header.ok(), None)
            },
            (false, true) => {
                let data = UserDataField::from_buffer(&data_buf[0..end]);
                (None, Some(data))
            },
            (false, false) => (None, None),
        };

        // The checksum runs over header and data field, its own bytes included.
        let checksum: u16 = compute_partial(INITIAL_VALUE, header_buf);
        let checksum: u16 = compute_partial(checksum, data_buf);
        proof {
            lemma_compute_partial_concat(INITIAL_VALUE, header_buf@, data_buf@);
        }
        if !is_valid(checksum) {
            return Err(PacketError::ChecksumMismatch);
        }
        let checksum: u16 = read_u16_be(&data_buf[end..data_buf.len()]);

        Ok(Packet { pri_header, sec_header, user_data, checksum })
    }

    /// Encodes the packet as one buffer: primary header, secondary header,
    /// user data, and the checksum of all of these.
    pub fn into_buffer(self) -> (buf: Vec<u8>)
        ensures
            buf@ == self@.spec_into_buffer(),
    {
        let mut buf: Vec<u8> = self.pri_header.get_buffer();

        if let Some(header) = self.sec_header {
            let mut sec_buf: Vec<u8> = header.get_buffer();
            buf.append(&mut sec_buf);
        }
        if let Some(data) = self.user_data {
            let mut data_buf: Vec<u8> = data.get_buffer();
            buf.append(&mut data_buf);
        }
        assert(buf@ =~= self@.spec_covered());

        append_checksum(&mut buf);

        buf
    }

    /// Encodes the packet as header bytes and data field. The checksum is
    /// carried from the header over to the data field, and is the same as the
    /// checksum over one buffer that holds both.
    pub fn into_buffers(self) -> (bufs: (Vec<u8>, Vec<u8>))
        ensures
            (bufs.0@, bufs.1@) == self@.spec_into_buffers(),
    {
        let header: Vec<u8> = self.pri_header.get_buffer();
        let checksum: u16 = compute_partial(INITIAL_VALUE, header.as_slice());

        let mut buf: Vec<u8> = Vec::new();
        if let Some(header) = self.sec_header {
            let mut sec_buf: Vec<u8> = header.get_buffer();
            buf.append(&mut sec_buf);
        }
        if let Some(data) = self.user_data {
            let mut data_buf: Vec<u8> = data.get_buffer();
            buf.append(&mut data_buf);
        }
        assert(buf@ =~= self@.spec_content());
        proof {
            lemma_compute_partial_concat(INITIAL_VALUE, header@, buf@);
        }

        append_partial_checksum(checksum, &mut buf);

        (header, buf)
    }
}

/// In a data field that decodes, the two bytes after the covered part are the
/// checksum of the covered part.
proof fn lemma_trailing_bytes_are_checksum(header: Seq<u8>, data: Seq<u8>)
    requires
        data.len() >= 2,
    ensures
        spec_is_valid(spec_checksum(header + data)) <==> data.subrange(
            data.len() - 2,
            data.len() as int,
        ) == spec_u16_to_be(spec_checksum(header + data.subrange(0, data.len() - 2))),
{
    let end = data.len() - 2;
    let covered = header + data.subrange(0, end);
    let tail = seq![data[end], data[end + 1]];
    assert(tail =~= data.subrange(end, data.len() as int));
    assert(header + data =~= covered + tail);
    lemma_compute_partial_concat(INITIAL_VALUE, covered, tail);
    lemma_valid_iff_own_bytes(spec_checksum(covered), data[end], data[end + 1]);
}

/// Encoding a decoded packet yields the two buffers it was decoded from,
/// provided that the data field's checksum came after its secondary header,
/// not over it. The decoded packet then holds the checksum of the bytes it
/// covers, and is well-formed if the data field has the length that the
/// header announces.
pub proof fn lemma_from_buffers_into_buffers(header: Seq<u8>, data: Seq<u8>)
    requires
        header.len() == 6,
        spec_from_buffers(header, data) is Ok,
        data.len() >= spec_user_data_start(spec_from_buffers(header, data)->Ok_0.pri_header) + 2,
    ensures
        spec_from_buffers(header, data)->Ok_0.spec_into_buffers() == (header, data),
        spec_from_buffers(header, data)->Ok_0.checksum == spec_checksum(
            spec_from_buffers(header, data)->Ok_0.spec_covered(),
        ),
        data.len() == spec_from_buffers(header, data)->Ok_0.pri_header.spec_data_field_len()
            ==> spec_from_buffers(header, data)->Ok_0.wf(),
{
    let packet = spec_from_buffers(header, data)->Ok_0;
    let start = spec_user_data_start(packet.pri_header);
    let end = data.len() - 2;
    lemma_encode_decode(header);
    if packet.pri_header.secondary_header_flag {
        lemma_secondary_encode_decode(data.subrange(0, 8));
    }
    assert(packet.spec_content() =~= data.subrange(0, end));
    lemma_trailing_bytes_are_checksum(header, data);
    let crc = spec_checksum(packet.spec_covered());
    assert(data.subrange(end, data.len() as int)[0] == data[end]);
    assert(data.subrange(end, data.len() as int)[1] == data[end + 1]);
    lemma_u16_be_round_trip(crc);
    assert(packet.spec_into_buffers().1 =~= data);
}

/// Decoding the two buffers that encode a packet yields that packet, with the
/// checksum of the bytes it covers, provided that the header's fields are in
/// range, a secondary header is present exactly when the header flags one,
/// and user data that is present is not empty.
pub proof fn lemma_into_buffers_from_buffers(packet: PacketView)
    requires
        packet.pri_header.wf(),
        packet.sec_header is Some <==> packet.pri_header.secondary_header_flag,
        packet.user_data matches Some(data) ==> data.len() > 0,
    ensures
        spec_from_buffers(packet.spec_into_buffers().0, packet.spec_into_buffers().1) == Ok::<
            PacketView,
            PacketError,
        >(
            PacketView::spec_new(packet.pri_header, packet.sec_header, packet.user_data),
        ),
{
    let header = packet.spec_into_buffers().0;
    let data = packet.spec_into_buffers().1;
    let content = packet.spec_content();
    let crc = spec_checksum(packet.spec_covered());
    let end = data.len() - 2;
    lemma_decode_encode(packet.pri_header);
    lemma_u16_be_round_trip(crc);
    assert(header + data =~= packet.spec_covered() + spec_u16_to_be(crc));
    lemma_appended_checksum_is_valid(INITIAL_VALUE, packet.spec_covered());
    assert(data[end] == spec_u16_to_be(crc)[0] && data[end + 1] == spec_u16_to_be(crc)[1]);
    match packet.sec_header {
        Some(sec_header) => {
            lemma_secondary_decode_encode(sec_header);
            assert(data.subrange(0, 8) =~= sec_header.spec_get_buffer());
        },
        None => {},
    }
    let start = spec_user_data_start(packet.pri_header);
    assert(spec_secondary_bytes(packet.sec_header).len() == start);
    assert(end == content.len());
    match packet.user_data {
        Some(user_data) => {
            assert(data.subrange(start, end) =~= user_data);
        },
        None => {},
    }
    assert(packet.spec_covered() =~= packet.pri_header.spec_get_buffer() + spec_secondary_bytes(
        packet.sec_header,
    ) + spec_user_bytes(packet.user_data));
}

/// The packet as one buffer is its header bytes followed by its data field.
pub proof fn lemma_into_buffer_joins_buffers(packet: PacketView)
    ensures
        packet.spec_into_buffer() == packet.spec_into_buffers().0 + packet.spec_into_buffers().1,
{
    assert(packet.spec_into_buffer() =~= packet.spec_into_buffers().0
        + packet.spec_into_buffers().1);
}

/// A data field that differs from one that decodes, and only in its two
/// checksum bytes, fails to decode with a checksum mismatch.
pub proof fn lemma_changed_checksum_rejected(header: Seq<u8>, data: Seq<u8>, changed: Seq<u8>)
    requires
        spec_from_buffers(header, data) is Ok,
        changed.len() == data.len(),
        changed.subrange(0, changed.len() - 2) == data.subrange(0, data.len() - 2),
        changed != data,
    ensures
        spec_from_buffers(header, changed) == Err::<PacketView, PacketError>(
            PacketError::ChecksumMismatch,
        ),
{
    let end = data.len() - 2;
    lemma_trailing_bytes_are_checksum(header, data);
    lemma_trailing_bytes_are_checksum(header, changed);
    if spec_is_valid(spec_checksum(header + changed)) {
        assert(changed =~= changed.subrange(0, end) + changed.subrange(end, changed.len() as int));
        assert(data =~= data.subrange(0, end) + data.subrange(end, data.len() as int));
        assert(false);
    }
}

proof fn lemma_bit_flip_changes(byte: u8, bit: u8)
    by (bit_vector)
    requires
        bit < 8,
    ensures
        byte ^ (1u8 << bit) != byte,
{
}

/// Flipping any one bit of the two checksum bytes of a data field that
/// decodes makes it fail to decode with a checksum mismatch.
pub proof fn lemma_flipped_checksum_bit_rejected(
    header: Seq<u8>,
    data: Seq<u8>,
    index: int,
    bit: u8,
)
    requires
        spec_from_buffers(header, data) is Ok,
        data.len() - 2 <= index < data.len(),
        bit < 8,
    ensures
        spec_from_buffers(header, data.update(index, data[index] ^ (1u8 << bit))) == Err::<
            PacketView,
            PacketError,
        >(PacketError::ChecksumMismatch),
{
    let changed = data.update(index, data[index] ^ (1u8 << bit));
    lemma_bit_flip_changes(data[index], bit);
    assert(changed[index] != data[index]);
    assert(changed.subrange(0, changed.len() - 2) =~= data.subrange(0, data.len() - 2));
    lemma_changed_checksum_rejected(header, data, changed);
}

} // verus!
