use space_packets::{
    Packet, PacketError, PktType, PrimaryHeader, SecondaryHeader, UserDataField,
};

const SP1_HEADER: [u8; 6] = [0x08, 0x73, 0xC1, 0x23, 0x00, 0x0F];
const SP1_BODY: [u8; 16] = [
    0x00, 0x00, 0x12, 0x34, 0x00, 0xAB, 0xCD, 0xEF, 0xA5, 0xA5, 0x5A, 0x5A, 0xC3, 0x3C, 0xC1,
    0xF8,
];

const SP2_HEADER: [u8; 6] = [0x17, 0x54, 0xC6, 0x82, 0x00, 0x04];
const SP2_BODY: [u8; 5] = [0x01, 0x02, 0x00, 0x2D, 0xDD];

fn sp1_primary_header() -> PrimaryHeader {
    PrimaryHeader {
        version_number: 0,
        packet_type: PktType::Telemetry,
        secondary_header_flag: true,
        apid: 0x0073,
        sequence_flags: 0x03,
        sequence_counter: 0x0123,
        data_length: 0x000F,
    }
}

fn sp2_primary_header() -> PrimaryHeader {
    PrimaryHeader {
        version_number: 0,
        packet_type: PktType::Telecommand,
        secondary_header_flag: false,
        apid: 0x0754,
        sequence_flags: 0x03,
        sequence_counter: 0x0682,
        data_length: 0x0004,
    }
}

#[test]
fn packet_test_sp1() {
    let pkt = Packet::from_buffers(&SP1_HEADER, &SP1_BODY).unwrap();

    assert_eq!(pkt.pri_header.version_number, 0);
    assert_eq!(pkt.pri_header.packet_type, PktType::Telemetry);
    assert_eq!(pkt.pri_header.secondary_header_flag, true);
    assert_eq!(pkt.pri_header.apid, 0x0073);
    assert_eq!(pkt.pri_header.sequence_flags, 0x03);
    assert_eq!(pkt.pri_header.sequence_counter, 0x0123);
    assert_eq!(pkt.pri_header.data_length, 0x000F);

    let sec_header = pkt.sec_header.unwrap();
    assert_eq!(sec_header.time_week, 0x00001234);
    assert_eq!(sec_header.time_ms, 0x00ABCDEF);

    let data_field = pkt.user_data.unwrap();
    assert_eq!(data_field.data, [0xA5, 0xA5, 0x5A, 0x5A, 0xC3, 0x3C]);

    assert_eq!(pkt.checksum, 0xC1F8);
}

#[test]
fn packet_test_sp2() {
    let pkt = Packet::from_buffers(&SP2_HEADER, &SP2_BODY).unwrap();

    assert_eq!(pkt.pri_header.version_number, 0);
    assert_eq!(pkt.pri_header.packet_type, PktType::Telecommand);
    assert_eq!(pkt.pri_header.secondary_header_flag, false);
    assert_eq!(pkt.pri_header.apid, 0x0754);
    assert_eq!(pkt.pri_header.sequence_flags, 0x03);
    assert_eq!(pkt.pri_header.sequence_counter, 0x0682);
    assert_eq!(pkt.pri_header.data_length, 0x0004);

    assert!(pkt.sec_header.is_none());

    let data_field = pkt.user_data.unwrap();
    assert_eq!(data_field.data, [0x01, 0x02, 0x00]);

    assert_eq!(pkt.checksum, 0x2DDD);
}

#[test]
fn packet_new_computes_checksum() {
    let pkt = Packet::new(
        sp1_primary_header(),
        Some(SecondaryHeader { time_week: 0x1234, time_ms: 0x00AB_CDEF }),
        Some(UserDataField::from_buffer(&[0xA5, 0xA5, 0x5A, 0x5A, 0xC3, 0x3C])),
    );
    assert_eq!(pkt.checksum, 0xC1F8);
    assert_eq!(pkt.pri_header, sp1_primary_header());
    assert_eq!(pkt, Packet::from_buffers(&SP1_HEADER, &SP1_BODY).unwrap());

    let pkt = Packet::new(
        sp2_primary_header(),
        None,
        Some(UserDataField::from_buffer(&[0x01, 0x02, 0x00])),
    );
    assert_eq!(pkt.checksum, 0x2DDD);
    assert_eq!(pkt, Packet::from_buffers(&SP2_HEADER, &SP2_BODY).unwrap());
}

#[test]
fn packet_into_buffer() {
    let pkt = Packet::from_buffers(&SP1_HEADER, &SP1_BODY).unwrap();
    let mut expected: Vec<u8> = SP1_HEADER.to_vec();
    expected.extend_from_slice(&SP1_BODY);
    assert_eq!(pkt.into_buffer(), expected);

    let pkt = Packet::from_buffers(&SP2_HEADER, &SP2_BODY).unwrap();
    let mut expected: Vec<u8> = SP2_HEADER.to_vec();
    expected.extend_from_slice(&SP2_BODY);
    assert_eq!(pkt.into_buffer(), expected);
}

#[test]
fn packet_into_buffers() {
    let pkt = Packet::from_buffers(&SP1_HEADER, &SP1_BODY).unwrap();
    let (header, data) = pkt.into_buffers();
    assert_eq!(header, SP1_HEADER);
    assert_eq!(data, SP1_BODY);

    let pkt = Packet::from_buffers(&SP2_HEADER, &SP2_BODY).unwrap();
    let (header, data) = pkt.into_buffers();
    assert_eq!(header, SP2_HEADER);
    assert_eq!(data, SP2_BODY);
}

#[test]
fn packet_into_buffer_ignores_stored_checksum() {
    let mut pkt = Packet::from_buffers(&SP2_HEADER, &SP2_BODY).unwrap();
    pkt.checksum = 0;
    let (header, data) = pkt.clone().into_buffers();
    assert_eq!(header, SP2_HEADER);
    assert_eq!(data, SP2_BODY);
    assert_eq!(&pkt.into_buffer()[9..], &[0x2D, 0xDD]);
}

#[test]
fn packet_with_secondary_header_and_no_user_data() {
    let pri_header = PrimaryHeader { data_length: 9, ..sp1_primary_header() };
    let sec_header = SecondaryHeader { time_week: 7, time_ms: 9 };
    let pkt = Packet::new(pri_header, Some(sec_header), None);
    let (header, data) = pkt.clone().into_buffers();
    assert_eq!(data.len(), 10);
    assert_eq!(&data[..8], &[0, 0, 0, 7, 0, 0, 0, 9]);

    let decoded = Packet::from_buffers(&header, &data).unwrap();
    assert_eq!(decoded.sec_header, Some(sec_header));
    assert!(decoded.user_data.is_none());
    assert_eq!(decoded, pkt);
}

#[test]
fn packet_with_checksum_only() {
    let pri_header = PrimaryHeader { data_length: 1, ..sp2_primary_header() };
    let pkt = Packet::new(pri_header, None, None);
    let (header, data) = pkt.clone().into_buffers();
    assert_eq!(data.len(), 2);
    assert_eq!(data, pkt.checksum.to_be_bytes());

    let decoded = Packet::from_buffers(&header, &data).unwrap();
    assert!(decoded.sec_header.is_none());
    assert!(decoded.user_data.is_none());
    assert_eq!(decoded, pkt);
}

#[test]
fn packet_header_too_short() {
    assert_eq!(
        Packet::from_buffers(&SP1_HEADER[..5], &SP1_BODY),
        Err(PacketError::BufferTooShort)
    );
    assert_eq!(Packet::from_buffers(&[], &SP1_BODY), Err(PacketError::BufferTooShort));
}

#[test]
fn packet_data_too_short_for_checksum() {
    assert_eq!(Packet::from_buffers(&SP2_HEADER, &[]), Err(PacketError::BufferTooShort));
    assert_eq!(
        Packet::from_buffers(&SP2_HEADER, &[0x2D]),
        Err(PacketError::BufferTooShort)
    );
}

#[test]
fn packet_data_too_short_for_secondary_header() {
    assert_eq!(Packet::from_buffers(&SP1_HEADER, &[]), Err(PacketError::BufferTooShort));
    assert_eq!(
        Packet::from_buffers(&SP1_HEADER, &SP1_BODY[..2]),
        Err(PacketError::BufferTooShort)
    );
    assert_eq!(
        Packet::from_buffers(&SP1_HEADER, &SP1_BODY[..7]),
        Err(PacketError::BufferTooShort)
    );
    assert_eq!(
        Packet::from_buffers(&SP1_HEADER, &SP1_BODY[..8]),
        Err(PacketError::ChecksumMismatch)
    );
    assert_eq!(
        Packet::from_buffers(&SP1_HEADER, &SP1_BODY[..10]),
        Err(PacketError::ChecksumMismatch)
    );
}

#[test]
fn packet_checksum_over_the_secondary_header() {
    // Eight bytes of data field under a header that flags a secondary header:
    // the checksum is read from the last two of them.
    let header: [u8; 6] = [0x08, 0x73, 0xC1, 0x23, 0x00, 0x07];
    let data: [u8; 8] = [1, 2, 3, 4, 5, 6, 0xEF, 0xA2];
    let pkt = Packet::from_buffers(&header, &data).unwrap();
    assert_eq!(
        pkt.sec_header,
        Some(SecondaryHeader { time_week: 0x0102_0304, time_ms: 0x0506_EFA2 })
    );
    assert!(pkt.user_data.is_none());
    assert_eq!(pkt.checksum, 0xEFA2);

    let header: [u8; 6] = [0x08, 0x73, 0xC1, 0x23, 0x00, 0x08];
    let data: [u8; 9] = [1, 2, 3, 4, 5, 6, 7, 0x07, 0xE4];
    let pkt = Packet::from_buffers(&header, &data).unwrap();
    assert_eq!(
        pkt.sec_header,
        Some(SecondaryHeader { time_week: 0x0102_0304, time_ms: 0x0506_0707 })
    );
    assert!(pkt.user_data.is_none());
    assert_eq!(pkt.checksum, 0x07E4);
}

#[test]
fn packet_checksum_bit_flips_are_rejected() {
    let mut index: usize = SP1_BODY.len() - 2;
    while index < SP1_BODY.len() {
        let mut bit: u32 = 0;
        while bit < 8 {
            let mut body: [u8; 16] = SP1_BODY;
            body[index] ^= 1u8 << bit;
            assert_eq!(
                Packet::from_buffers(&SP1_HEADER, &body),
                Err(PacketError::ChecksumMismatch)
            );
            bit += 1;
        }
        index += 1;
    }
    let mut index: usize = SP2_BODY.len() - 2;
    while index < SP2_BODY.len() {
        let mut bit: u32 = 0;
        while bit < 8 {
            let mut body: [u8; 5] = SP2_BODY;
            body[index] ^= 1u8 << bit;
            assert_eq!(
                Packet::from_buffers(&SP2_HEADER, &body),
                Err(PacketError::ChecksumMismatch)
            );
            bit += 1;
        }
        index += 1;
    }
}

#[test]
fn packet_any_other_checksum_is_rejected() {
    let mut candidate: u32 = 0;
    while candidate <= 0xFFFF {
        let mut body: [u8; 5] = SP2_BODY;
        body[3] = (candidate >> 8) as u8;
        body[4] = candidate as u8;
        let res = Packet::from_buffers(&SP2_HEADER, &body);
        if candidate == 0x2DDD {
            assert!(res.is_ok());
        } else {
            assert_eq!(res, Err(PacketError::ChecksumMismatch));
        }
        candidate += 1;
    }
}

#[test]
fn packet_corrupted_payload_is_rejected() {
    let mut body: [u8; 16] = SP1_BODY;
    body[9] ^= 0x40;
    assert_eq!(
        Packet::from_buffers(&SP1_HEADER, &body),
        Err(PacketError::ChecksumMismatch)
    );
    let mut header: [u8; 6] = SP1_HEADER;
    header[1] ^= 0x01;
    assert_eq!(
        Packet::from_buffers(&header, &SP1_BODY),
        Err(PacketError::ChecksumMismatch)
    );
}

#[test]
fn packet_largest_data_field() {
    let payload: Vec<u8> = (0..65534u32).map(|i| (i % 251) as u8).collect();
    let pri_header = PrimaryHeader { data_length: 0xFFFF, ..sp2_primary_header() };
    let pkt = Packet::new(pri_header, None, Some(UserDataField::from_buffer(&payload)));
    let (header, data) = pkt.clone().into_buffers();
    assert_eq!(header.len(), 6);
    assert_eq!(data.len(), 65536);
    let decoded = Packet::from_buffers(&header, &data).unwrap();
    assert_eq!(decoded.user_data.as_ref().unwrap().data, payload);
    assert_eq!(decoded, pkt);
}
