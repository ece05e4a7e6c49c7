use space_packets::protocol::hasher::{
    append_checksum, append_partial_checksum, compute_partial, is_valid, INITIAL_VALUE,
    POLYNOMIAL, VALID_VALUE,
};

const SP1_COVERED: [u8; 20] = [
    0x08, 0x73, 0xC1, 0x23, 0x00, 0x0F, 0x00, 0x00, 0x12, 0x34, 0x00, 0xAB, 0xCD, 0xEF, 0xA5, 0xA5,
    0x5A, 0x5A, 0xC3, 0x3C,
];
const SP2_COVERED: [u8; 9] = [0x17, 0x54, 0xC6, 0x82, 0x00, 0x04, 0x01, 0x02, 0x00];

#[test]
fn checksum_constants() {
    assert_eq!(INITIAL_VALUE, 0xFFFF);
    assert_eq!(VALID_VALUE, 0);
    assert_eq!(POLYNOMIAL, 0x1021);
}

#[test]
fn checksum_of_nothing_is_the_initial_value() {
    assert_eq!(compute_partial(INITIAL_VALUE, &[]), 0xFFFF);
    assert_eq!(compute_partial(0x1234, &[]), 0x1234);
}

#[test]
fn checksum_of_one_byte() {
    assert_eq!(compute_partial(0, &[0x00]), 0x0000);
    assert_eq!(compute_partial(0, &[0x01]), 0x1021);
    assert_eq!(compute_partial(0, &[0x80]), 0x9188);
    assert_eq!(compute_partial(INITIAL_VALUE, &[0x00]), 0xE1F0);
}

#[test]
fn checksum_check_value() {
    assert_eq!(compute_partial(INITIAL_VALUE, b"123456789"), 0x29B1);
}

#[test]
fn checksum_of_worked_frames() {
    assert_eq!(compute_partial(INITIAL_VALUE, &SP1_COVERED), 0xC1F8);
    assert_eq!(compute_partial(INITIAL_VALUE, &SP2_COVERED), 0x2DDD);
}

#[test]
fn checksum_is_incremental() {
    let whole: u16 = compute_partial(INITIAL_VALUE, &SP1_COVERED);
    let mut cut: usize = 0;
    while cut <= SP1_COVERED.len() {
        let head: u16 = compute_partial(INITIAL_VALUE, &SP1_COVERED[..cut]);
        assert_eq!(compute_partial(head, &SP1_COVERED[cut..]), whole);
        cut += 1;
    }
}

#[test]
fn checksum_over_frame_with_checksum_is_valid() {
    let mut frame: Vec<u8> = SP1_COVERED.to_vec();
    frame.extend_from_slice(&[0xC1, 0xF8]);
    assert!(is_valid(compute_partial(INITIAL_VALUE, &frame)));
    let mut frame: Vec<u8> = SP2_COVERED.to_vec();
    frame.extend_from_slice(&[0x2D, 0xDD]);
    assert!(is_valid(compute_partial(INITIAL_VALUE, &frame)));
}

#[test]
fn only_one_checksum_is_valid() {
    let register: u16 = compute_partial(INITIAL_VALUE, &SP2_COVERED);
    let mut candidate: u32 = 0;
    while candidate <= 0xFFFF {
        let bytes: [u8; 2] = [(candidate >> 8) as u8, candidate as u8];
        let valid: bool = is_valid(compute_partial(register, &bytes));
        assert_eq!(valid, candidate == 0x2DDD);
        candidate += 1;
    }
}

#[test]
fn is_valid_only_for_zero() {
    assert!(is_valid(0));
    assert!(!is_valid(1));
    assert!(!is_valid(0xFFFF));
}

#[test]
fn append_checksum_appends_big_endian() {
    let mut buf: Vec<u8> = SP1_COVERED.to_vec();
    append_checksum(&mut buf);
    assert_eq!(buf.len(), 22);
    assert_eq!(&buf[..20], &SP1_COVERED);
    assert_eq!(&buf[20..], &[0xC1, 0xF8]);

    let mut empty: Vec<u8> = Vec::new();
    append_checksum(&mut empty);
    assert_eq!(empty, vec![0xFF, 0xFF]);
}

#[test]
fn append_partial_checksum_continues_the_register() {
    let head: u16 = compute_partial(INITIAL_VALUE, &SP2_COVERED[..6]);
    let mut buf: Vec<u8> = SP2_COVERED[6..].to_vec();
    append_partial_checksum(head, &mut buf);
    assert_eq!(buf, vec![0x01, 0x02, 0x00, 0x2D, 0xDD]);
}
