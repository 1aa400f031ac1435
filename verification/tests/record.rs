use anchordb::error::AnchorError;
use anchordb::record::{FileHeader, RecordHeader, FILE_HEADER_SIZE, RECORD_HEADER_SIZE};
use anchordb::types::Priority;

#[test]
fn test_record_header_serialization() {
    let header = RecordHeader {
        record_type: 0x01,
        id: 1234,
        timestamp: 1709123456789,
        session_id: 99,
        data_type: 0x01,
        priority: Priority::Important,
        tags_len: 12,
        data_length: 1024,
        crc32: 0xABCDEF01,
    };

    let bytes = header.to_bytes();
    assert_eq!(bytes.len(), RECORD_HEADER_SIZE);

    let decoded = RecordHeader::from_bytes(&bytes);
    assert_eq!(header, decoded);
}

#[test]
fn record_header_body_len() {
    let mut h = RecordHeader::from_bytes(&[0u8; RECORD_HEADER_SIZE]);
    h.tags_len = u16::MAX;
    h.data_length = u32::MAX;
    assert_eq!(h.body_len(), u16::MAX as u64 + u32::MAX as u64);
}

#[test]
fn test_file_header_serialization() {
    let mut header = FileHeader::new(1);
    header.record_count = 10;
    header.total_records = 15;
    header.data_size = 1024;
    header.next_id = 16;

    let bytes = header.to_bytes();
    let decoded = FileHeader::from_bytes(&bytes).expect("Failed to deserialize");

    assert_eq!(header, decoded);
}

#[test]
fn test_file_header_checksum_mismatch() {
    let mut header = FileHeader::new(1);
    let mut bytes = header.to_bytes();

    // Corrupt the data size
    bytes[24] = bytes[24].wrapping_add(1);

    let result = FileHeader::from_bytes(&bytes);
    assert!(matches!(result, Err(AnchorError::ChecksumMismatch)));
}

#[test]
fn test_file_header_magic_mismatch() {
    let mut header = FileHeader::new(1);
    let mut bytes = header.to_bytes();

    // Corrupt magic bytes
    bytes[0] = b'B';

    let result = FileHeader::from_bytes(&bytes);
    assert!(matches!(result, Err(AnchorError::InvalidMagic)));
}

#[test]
fn record_header_layout_is_little_endian() {
    let header = RecordHeader {
        record_type: 0x02,
        id: 0x0102030405060708,
        timestamp: 9,
        session_id: 10,
        data_type: 0x00,
        priority: Priority::Critical,
        tags_len: 0x0a0b,
        data_length: 0x01020304,
        crc32: 0xdeadbeef,
    };
    let b = header.to_bytes();
    assert_eq!(b[0], 0x02);
    assert_eq!(&b[1..9], &[8, 7, 6, 5, 4, 3, 2, 1]);
    assert_eq!(b[9], 9);
    assert_eq!(b[17], 10);
    assert_eq!(b[25], 0x00);
    assert_eq!(b[26], 0x03);
    assert_eq!(&b[27..29], &[0x0b, 0x0a]);
    assert_eq!(&b[29..33], &[4, 3, 2, 1]);
    assert_eq!(&b[33..37], &[0xef, 0xbe, 0xad, 0xde]);
}

#[test]
fn file_header_new_defaults() {
    let h = FileHeader::new(7);
    assert_eq!(h.magic, *b"ACDB");
    assert_eq!(h.version, 7);
    assert_eq!(h.flags, 0);
    assert_eq!(h.record_count, 0);
    assert_eq!(h.total_records, 0);
    assert_eq!(h.data_size, 0);
    assert_eq!(h.next_id, 1);
    assert_eq!(h.checksum, 0);
}

#[test]
fn file_header_checksum_is_crc32_of_first_40_bytes() {
    let mut h = FileHeader::new(1);
    let bytes = h.to_bytes();
    // CRC-32 (IEEE) of "ACDB", version 1, and zeroed fields with next_id 1.
    assert_eq!(h.checksum, 0x0eb4bed2);
    assert_eq!(&bytes[40..44], &0x0eb4bed2u32.to_le_bytes());
    assert!(bytes[44..FILE_HEADER_SIZE].iter().all(|b| *b == 0));
    assert_eq!(&bytes[0..4], b"ACDB");
}

#[test]
fn file_header_from_bytes_with_crc_checks_given_checksum() {
    let mut h = FileHeader::new(1);
    let bytes = h.to_bytes();
    assert!(matches!(FileHeader::from_bytes_with_crc(&bytes, h.checksum), Ok(_)));
    assert!(matches!(
        FileHeader::from_bytes_with_crc(&bytes, h.checksum ^ 1),
        Err(AnchorError::ChecksumMismatch)
    ));
    let mut bad = bytes;
    bad[3] = 0;
    assert!(matches!(FileHeader::from_bytes_with_crc(&bad, h.checksum), Err(AnchorError::InvalidMagic)));
}

#[test]
fn file_header_reserved_bytes_are_ignored() {
    let mut h = FileHeader::new(1);
    let mut bytes = h.to_bytes();
    bytes[50] = 0xff;
    let decoded = FileHeader::from_bytes(&bytes).expect("reserved bytes are not checked");
    assert_eq!(decoded, h);
}
