use anchordb::db::{memory_record_from, DbState};
use anchordb::error::AnchorError;
use anchordb::index::Index;
use anchordb::record::{FileHeader, RECORD_HEADER_SIZE};
use anchordb::storage::{check_record_header, split_record_body};
use anchordb::tags::encode_tags;
use anchordb::text::text_from_utf8;
use anchordb::types::{AnchorData, DataType, MemoryRecord, Priority, VERSION};

/// A store kept in a byte vector, driven the way the file-backed store is.
struct MemStore {
    file: Vec<u8>,
    state: DbState,
}

impl MemStore {
    fn create() -> MemStore {
        let file = FileHeader::new(VERSION).to_bytes().to_vec();
        MemStore::reopen(file)
    }

    fn reopen(mut file: Vec<u8>) -> MemStore {
        let (state, rep) = DbState::recover(&file).expect("recovers");
        file.truncate(rep.valid_len as usize);
        MemStore { file, state }
    }

    fn save_with_opts(&mut self, data: &[u8], dt: DataType, p: Priority, tags: &[u8]) -> u64 {
        let pending = self.state.prepare_save(data, dt, p, tags, 1000).expect("fits");
        assert_eq!(pending.offset(), self.file.len() as u64);
        self.file.extend_from_slice(pending.bytes());
        self.state.commit_save(pending)
    }

    fn save(&mut self, s: &str) -> u64 {
        self.save_with_opts(s.as_bytes(), DataType::Str, Priority::default(), &[])
    }

    fn read(&self, id: u64) -> Option<(Vec<u8>, Vec<u8>)> {
        let e = self.state.entry(id)?;
        let o = e.offset as usize;
        let mut hb = [0u8; RECORD_HEADER_SIZE];
        hb.copy_from_slice(&self.file[o..o + RECORD_HEADER_SIZE]);
        let h = check_record_header(&hb, e.data_length).expect("header");
        let start = o + RECORD_HEADER_SIZE;
        let end = start + h.tags_len as usize + h.data_length as usize;
        Some(split_record_body(&h, &self.file[start..end]).expect("body"))
    }

    fn load(&self, id: u64) -> Option<Option<String>> {
        self.read(id).map(|(_, data)| text_from_utf8(&data))
    }

    fn fetch(&self, id: u64) -> Option<MemoryRecord> {
        let e = self.state.entry(id)?;
        let (tags, data) = self.read(id)?;
        Some(memory_record_from(id, &e, &tags, &data).expect("decodes"))
    }

    fn delete(&mut self, id: u64) -> bool {
        match self.state.delete(id, 2000) {
            Some(bytes) => {
                self.file.extend(bytes);
                true
            }
            None => false,
        }
    }
}

#[test]
fn state_saves_and_loads() {
    let mut db = MemStore::create();
    let id1 = db.save("hello");
    let id2 = db.save("world");
    assert_eq!(id1, 1);
    assert_eq!(id2, 2);
    assert_eq!(db.load(id1), Some(Some("hello".to_string())));
    assert_eq!(db.load(id2), Some(Some("world".to_string())));
    assert_eq!(db.load(999), None);
    let id3 = db.save("");
    assert_eq!(db.load(id3), Some(Some(String::new())));
}

#[test]
fn state_counts_and_keys() {
    let mut db = MemStore::create();
    assert!(db.state.is_empty());
    assert_eq!(db.state.len(), 0);
    assert!(db.state.keys().is_empty());
    assert!(!db.state.contains(1));
    let a = db.save("alpha");
    let b = db.save("beta");
    let c = db.save("gamma");
    assert!(!db.state.is_empty());
    assert_eq!(db.state.len(), 3);
    assert!(db.state.contains(a) && db.state.contains(b) && db.state.contains(c));
    assert!(!db.state.contains(999));
    let mut keys = db.state.keys();
    keys.sort();
    assert_eq!(keys, vec![a, b, c]);
}

#[test]
fn state_reopen_keeps_records_and_ids() {
    let mut db = MemStore::create();
    db.save("alpha");
    db.save("beta");
    db.save("gamma");
    let mut db2 = MemStore::reopen(db.file.clone());
    assert_eq!(db2.load(1), Some(Some("alpha".to_string())));
    assert_eq!(db2.load(3), Some(Some("gamma".to_string())));
    assert_eq!(db2.state.next_id(), 4);
    let id4 = db2.save("delta");
    assert_eq!(id4, 4);
    assert_eq!(db2.load(id4), Some(Some("delta".to_string())));
}

#[test]
fn state_delete_persists_across_reopen() {
    let mut db = MemStore::create();
    let id = db.save("to-be-deleted");
    db.save("survivor");
    assert!(db.delete(id));
    assert!(!db.state.contains(id));
    assert_eq!(db.load(id), None);
    assert!(!db.delete(id));
    let db2 = MemStore::reopen(db.file.clone());
    assert!(!db2.state.contains(id));
    assert_eq!(db2.load(2), Some(Some("survivor".to_string())));
    // Deleted ids are not handed out again.
    assert_eq!(db2.state.next_id(), 3);
}

#[test]
fn state_round_trips_priority_kind_and_tags() {
    let mut db = MemStore::create();
    let id = db.save_with_opts(&[0, 1, 2], DataType::Bytes, Priority::Critical, &[]);
    let tags = vec!["src/foo.rs".to_string(), "lines:10-20".to_string()];
    let id2 = db.save_with_opts(b"body", DataType::Str, Priority::Important, &encode_tags(&tags));
    let db2 = MemStore::reopen(db.file.clone());
    let rec = db2.fetch(id).expect("record exists");
    assert_eq!(rec.priority, Priority::Critical);
    assert_eq!(rec.data, AnchorData::Bytes(vec![0, 1, 2]));
    assert!(rec.tags.is_empty());
    let rec2 = db2.fetch(id2).expect("record exists");
    assert_eq!(rec2.tags, tags);
    assert_eq!(rec2.data, AnchorData::Str("body".to_string()));
    assert_eq!(rec2.priority, Priority::Important);
    assert_eq!(rec2.timestamp, 1000);
}

#[test]
fn state_load_of_non_utf8_payload_is_refused() {
    let mut db = MemStore::create();
    let id = db.save_with_opts(&[0xff, 0xfe, 0xfd], DataType::Bytes, Priority::Normal, &[]);
    assert_eq!(db.load(id), Some(None));
}

#[test]
fn state_recovery_cuts_torn_tail() {
    let mut db = MemStore::create();
    db.save("kept");
    let good = db.file.len();
    db.save("torn");
    let mut file = db.file.clone();
    file.truncate(file.len() - 2);
    let db2 = MemStore::reopen(file);
    assert_eq!(db2.file.len(), good);
    assert_eq!(db2.state.file_len(), good as u64);
    assert_eq!(db2.load(1), Some(Some("kept".to_string())));
    assert_eq!(db2.load(2), None);
    assert_eq!(db2.state.next_id(), 2);
}

#[test]
fn state_recovery_refuses_exhausted_ids() {
    let mut file = FileHeader::new(VERSION).to_bytes().to_vec();
    file.extend(anchordb::storage::encode_record(1, u64::MAX, 0, 0, Priority::Normal, &[], b"x"));
    assert!(matches!(DbState::recover(&file), Err(AnchorError::DataCorrupted)));
}

#[test]
fn state_index_file_matches_state() {
    let mut db = MemStore::create();
    db.save("a");
    db.save("b");
    db.delete(1);
    let bytes = db.state.index_file_bytes(db.file.len() as u64);
    let (idx, latest, max_offset) = Index::decode_file(&bytes).expect("decodes");
    assert_eq!(latest, 2);
    assert_eq!(max_offset, db.file.len() as u64);
    assert_eq!(idx.len(), 1);
    assert_eq!(idx.get(2).copied(), db.state.entry(2));
}

#[test]
fn memory_record_decoding_errors() {
    let mut db = MemStore::create();
    let id = db.save_with_opts(&[0xff], DataType::Json, Priority::Normal, &[]);
    let e = db.state.entry(id).unwrap();
    assert_eq!(memory_record_from(id, &e, &[], &[0xff]).err(), Some("payload is not valid utf-8"));
    assert_eq!(memory_record_from(id, &e, &[5], b"{}").err(), Some("truncated tag length"));
    let rec = memory_record_from(id, &e, &[], b"{}").expect("json text");
    assert_eq!(rec.data, AnchorData::Json("{}".to_string()));
}

#[test]
fn prepare_save_refuses_oversized_tags() {
    let db = MemStore::create();
    let tags = vec![0u8; 0x10000];
    assert!(db.state.prepare_save(b"x", DataType::Str, Priority::Normal, &tags, 0).is_none());
}
