use anchordb::index::{Index, IndexEntry, INDEX_ENTRY_SIZE};
use anchordb::types::{DataType, Priority};

fn entry(offset: u64) -> IndexEntry {
    IndexEntry {
        offset,
        data_length: 5,
        data_type: DataType::Str,
        record_type: 1,
        session_id: 0,
        timestamp: 1000 + offset,
        priority: Priority::Important,
    }
}

#[test]
fn index_insert_get_remove() {
    let mut idx = Index::new();
    assert!(idx.is_empty());
    assert_eq!(idx.len(), 0);
    idx.insert(1, entry(64));
    idx.insert(2, entry(100));
    assert_eq!(idx.len(), 2);
    assert!(!idx.is_empty());
    assert!(idx.contains(1));
    assert_eq!(idx.get(2), Some(&entry(100)));
    assert_eq!(idx.get(3), None);
    idx.insert(1, entry(200));
    assert_eq!(idx.get(1), Some(&entry(200)));
    assert_eq!(idx.len(), 2);
    assert_eq!(idx.remove(1), Some(entry(200)));
    assert_eq!(idx.remove(1), None);
    assert!(!idx.contains(1));
    let mut keys = idx.keys();
    keys.sort();
    assert_eq!(keys, vec![2]);
    let d = Index::default();
    assert!(d.is_empty());
}

#[test]
fn index_file_round_trip() {
    let mut idx = Index::new();
    idx.insert(1, entry(64));
    idx.insert(2, entry(100));
    idx.insert(3, entry(150));
    let bytes = idx.encode_file(3, 999);
    assert_eq!(bytes.len(), 24 + 3 * INDEX_ENTRY_SIZE);
    assert_eq!(INDEX_ENTRY_SIZE, 39);
    assert_eq!(&bytes[0..8], &3u64.to_le_bytes());
    assert_eq!(&bytes[8..16], &999u64.to_le_bytes());
    assert_eq!(&bytes[16..24], &3u64.to_le_bytes());
    let (back, latest, max_offset) = Index::decode_file(&bytes).expect("decodes");
    assert_eq!(latest, 3);
    assert_eq!(max_offset, 999);
    assert_eq!(back.len(), 3);
    for id in 1..=3 {
        assert_eq!(back.get(id), idx.get(id));
    }
}

#[test]
fn index_file_decode_rejects_short_input() {
    assert!(Index::decode_file(&[0u8; 23]).is_none());
    let mut bytes = vec![0u8; 24];
    bytes[16] = 1; // one entry announced, none present
    assert!(Index::decode_file(&bytes).is_none());
    bytes.extend_from_slice(&[0u8; 38]);
    assert!(Index::decode_file(&bytes).is_none());
    bytes.push(0);
    let (idx, _, _) = Index::decode_file(&bytes).expect("one whole entry");
    assert_eq!(idx.len(), 1);
}

#[test]
fn index_file_unknown_kind_and_priority_default() {
    let mut bytes = vec![0u8; 24];
    bytes[16] = 1;
    let mut e = vec![0u8; 39];
    e[0] = 5; // id
    e[20] = 9; // data type byte that encodes no kind
    e[21] = 9; // priority byte that encodes no priority
    bytes.extend_from_slice(&e);
    let (idx, _, _) = Index::decode_file(&bytes).expect("decodes");
    let got = idx.get(5).expect("entry 5");
    assert_eq!(got.data_type, DataType::Bytes);
    assert_eq!(got.priority, Priority::Normal);
}

#[test]
fn index_file_later_entry_wins() {
    let mut bytes = vec![0u8; 24];
    bytes[16] = 2;
    for off in [10u8, 20u8] {
        let mut e = vec![0u8; 39];
        e[0] = 7;
        e[8] = off;
        bytes.extend_from_slice(&e);
    }
    let (idx, _, _) = Index::decode_file(&bytes).expect("decodes");
    assert_eq!(idx.len(), 1);
    assert_eq!(idx.get(7).unwrap().offset, 20);
}
