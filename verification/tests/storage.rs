use anchordb::error::AnchorError;
use anchordb::index::Index;
use anchordb::record::{FileHeader, RecordHeader, FILE_HEADER_SIZE, RECORD_HEADER_SIZE};
use anchordb::storage::{check_file_header, check_record_header, encode_record, scan_records, split_record_body};
use anchordb::types::{DataType, Priority, RECORD_TYPE_DATA, RECORD_TYPE_TOMBSTONE, VERSION};

fn header_image() -> Vec<u8> {
    FileHeader::new(VERSION).to_bytes().to_vec()
}

#[test]
fn encode_record_frames_tags_and_payload() {
    let rec = encode_record(RECORD_TYPE_DATA, 1, 5, 1, Priority::Important, b"ab", b"hello");
    assert_eq!(rec.len(), RECORD_HEADER_SIZE + 2 + 5);
    let mut hb = [0u8; RECORD_HEADER_SIZE];
    hb.copy_from_slice(&rec[..RECORD_HEADER_SIZE]);
    let h = RecordHeader::from_bytes(&hb);
    assert_eq!(h.id, 1);
    assert_eq!(h.timestamp, 5);
    assert_eq!(h.session_id, 0);
    assert_eq!(h.tags_len, 2);
    assert_eq!(h.data_length, 5);
    assert_eq!(h.priority, Priority::Important);
    // CRC-32 (IEEE) of the tags followed by the payload.
    assert_eq!(h.crc32, 0x05a367e5);
    assert_eq!(&rec[RECORD_HEADER_SIZE..], b"abhello");
}

#[test]
fn read_path_checks_length_and_checksum() {
    let rec = encode_record(RECORD_TYPE_DATA, 1, 5, 1, Priority::Normal, b"ab", b"hello");
    let mut hb = [0u8; RECORD_HEADER_SIZE];
    hb.copy_from_slice(&rec[..RECORD_HEADER_SIZE]);
    assert!(matches!(check_record_header(&hb, 4), Err(AnchorError::DataCorrupted)));
    let h = check_record_header(&hb, 5).expect("length matches");
    let (tags, data) = split_record_body(&h, &rec[RECORD_HEADER_SIZE..]).expect("checksum matches");
    assert_eq!(tags, b"ab".to_vec());
    assert_eq!(data, b"hello".to_vec());
    let mut body = rec[RECORD_HEADER_SIZE..].to_vec();
    body[3] ^= 1;
    assert!(matches!(split_record_body(&h, &body), Err(AnchorError::ChecksumMismatch)));
    let mut bad = hb;
    bad[26] = 7;
    assert!(matches!(check_record_header(&bad, 5), Err(AnchorError::DataCorrupted)));
}

#[test]
fn scan_rebuilds_index() {
    let mut file = header_image();
    let first = file.len() as u64;
    file.extend(encode_record(RECORD_TYPE_DATA, 1, 10, 1, Priority::Normal, b"", b"one"));
    let second = file.len() as u64;
    file.extend(encode_record(RECORD_TYPE_DATA, 2, 11, 0, Priority::Critical, b"", b"two"));
    file.extend(encode_record(RECORD_TYPE_TOMBSTONE, 1, 12, 0, Priority::Normal, b"", b""));
    file.extend(encode_record(0x03, 9, 13, 0, Priority::Normal, b"", b"summary"));
    let mut idx = Index::new();
    let rep = scan_records(&file, &mut idx).expect("scans");
    assert!(!rep.truncated);
    assert_eq!(rep.valid_len, file.len() as u64);
    assert_eq!(rep.latest_id, 9);
    assert_eq!(idx.len(), 1);
    assert!(!idx.contains(1));
    let e = idx.get(2).expect("entry 2");
    assert_eq!(e.offset, second);
    assert_eq!(e.data_length, 3);
    assert_eq!(e.data_type, DataType::Bytes);
    assert_eq!(e.priority, Priority::Critical);
    assert_eq!(e.timestamp, 11);
    assert!(first < second);
}

#[test]
fn scan_stops_at_torn_tail() {
    let mut file = header_image();
    file.extend(encode_record(RECORD_TYPE_DATA, 1, 10, 1, Priority::Normal, b"", b"one"));
    let good = file.len() as u64;
    let rec = encode_record(RECORD_TYPE_DATA, 2, 11, 1, Priority::Normal, b"", b"two");
    file.extend_from_slice(&rec[..rec.len() - 1]);
    let mut idx = Index::new();
    let rep = scan_records(&file, &mut idx).expect("scans");
    assert!(rep.truncated);
    assert_eq!(rep.valid_len, good);
    assert_eq!(rep.latest_id, 1);
    assert_eq!(idx.len(), 1);

    // A few bytes that do not make a header are torn too.
    let mut short = file[..good as usize].to_vec();
    short.extend_from_slice(&[1, 2, 3]);
    let mut idx2 = Index::new();
    let rep2 = scan_records(&short, &mut idx2).expect("scans");
    assert!(rep2.truncated);
    assert_eq!(rep2.valid_len, good);
}

#[test]
fn scan_stops_at_checksum_mismatch() {
    let mut file = header_image();
    let first = file.len() as u64;
    let mut rec = encode_record(RECORD_TYPE_DATA, 1, 10, 1, Priority::Normal, b"", b"one");
    let last = rec.len() - 1;
    rec[last] ^= 0xff;
    file.extend(rec);
    file.extend(encode_record(RECORD_TYPE_DATA, 2, 11, 1, Priority::Normal, b"", b"two"));
    let mut idx = Index::new();
    let rep = scan_records(&file, &mut idx).expect("scans");
    assert!(rep.truncated);
    assert_eq!(rep.valid_len, first);
    assert_eq!(rep.latest_id, 0);
    assert!(idx.is_empty());
}

#[test]
fn scan_reports_bad_priority() {
    let mut file = header_image();
    let mut rec = encode_record(RECORD_TYPE_DATA, 1, 10, 1, Priority::Normal, b"", b"one");
    rec[26] = 0x10;
    file.extend(rec);
    let mut idx = Index::new();
    assert!(matches!(scan_records(&file, &mut idx), Err(AnchorError::DataCorrupted)));
}

#[test]
fn scan_of_short_file_finds_nothing() {
    let mut idx = Index::new();
    let rep = scan_records(&[0u8; 10], &mut idx).expect("no scan");
    assert_eq!(rep.latest_id, 0);
    assert!(!rep.truncated);
    assert_eq!(rep.valid_len, 10);
    let rep = scan_records(&header_image(), &mut idx).expect("empty store");
    assert_eq!(rep.valid_len, FILE_HEADER_SIZE as u64);
    assert!(idx.is_empty());
}

#[test]
fn file_header_check() {
    let mut h = FileHeader::new(VERSION);
    let ok = h.to_bytes();
    assert!(check_file_header(&ok).is_ok());
    let mut other = FileHeader::new(2);
    let v2 = other.to_bytes();
    assert!(matches!(check_file_header(&v2), Err(AnchorError::InvalidVersion)));
    let mut bad = ok;
    bad[1] = b'X';
    assert!(matches!(check_file_header(&bad), Err(AnchorError::InvalidMagic)));
    let mut bad = ok;
    bad[10] ^= 1;
    assert!(matches!(check_file_header(&bad), Err(AnchorError::ChecksumMismatch)));
}
