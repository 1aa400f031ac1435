//! The state of an open store: the index of live records and the next id,
//! kept in step with the image of the store file that recovery would read.
//!
//! Every change is worked out here and handed to the caller as the bytes
//! to append to the file; the state tracks the image those appends build.

use vstd::prelude::*;
use crate::checksum::crc32_ieee;
use crate::error::AnchorError;
use crate::index::{Index, IndexEntry};
use crate::record::{lemma_file_header_layout, spec_file_header_bytes, FileHeader, RecordHeader, FILE_HEADER_SIZE, RECORD_HEADER_SIZE};
use crate::storage::{
    encode_record, scan_records, spec_scan_file, spec_scan_from, spec_entries_valid, spec_entry_valid,
    spec_framed_header, spec_record_image, spec_entry_for, spec_read_record,
    spec_apply_record, spec_max_id, spec_record_len, lemma_scan_extend, lemma_scan_truncate,
    lemma_scan_at_least, lemma_scan_entries_valid, lemma_entries_valid_extend, lemma_appended_record,
    ScanReport, ScanStop,
};
use crate::tags::{decode_tags, spec_decode_tags, spec_fault_message};
use crate::text::text_from_utf8;
use crate::types::{AnchorData, DataType, MemoryRecord, Priority, RECORD_TYPE_DATA, RECORD_TYPE_TOMBSTONE};
use vstd::utf8::valid_utf8;

verus! {

/// The state of an open store.
pub struct DbState {
    index: Index,
    next_id: u64,
    file_len: u64,
    image: Ghost<Seq<u8>>,
}

/// A data record worked out for saving, to be appended to the file and
/// then committed.
pub struct PendingSave {
    id: u64,
    entry: IndexEntry,
    bytes: Vec<u8>,
    header: Ghost<RecordHeader>,
    tags: Ghost<Seq<u8>>,
    data: Ghost<Seq<u8>>,
    base: Ghost<Seq<u8>>,
}

impl PendingSave {
    pub closed spec fn spec_id(&self) -> u64 {
        self.id
    }

    pub closed spec fn spec_entry(&self) -> IndexEntry {
        self.entry
    }

    pub closed spec fn spec_bytes(&self) -> Seq<u8> {
        self.bytes@
    }

    pub closed spec fn spec_header(&self) -> RecordHeader {
        self.header@
    }

    pub closed spec fn spec_tags(&self) -> Seq<u8> {
        self.tags@
    }

    pub closed spec fn spec_data(&self) -> Seq<u8> {
        self.data@
    }

    /// The file image the record was worked out for.
    pub closed spec fn spec_base(&self) -> Seq<u8> {
        self.base@
    }

    /// The record is a data record framed over its tags and payload, to go at the end of its base image.
    pub open spec fn wf(&self) -> bool {
        let h = self.spec_header();
        &&& h.tags_len == self.spec_tags().len()
        &&& h.data_length == self.spec_data().len()
        &&& h.crc32 == crc32_ieee(self.spec_tags() + self.spec_data())
        &&& h.id == self.spec_id()
        &&& self.spec_id() < u64::MAX
        &&& h.record_type == RECORD_TYPE_DATA
        &&& self.spec_bytes() == spec_record_image(h, self.spec_tags(), self.spec_data())
        &&& self.spec_entry() == spec_entry_for(h, self.spec_base().len() as int)
        &&& self.spec_base().len() + self.spec_bytes().len() <= u64::MAX
    }

    /// The bytes to append to the file.
    pub fn bytes(&self) -> (b: &[u8])
        ensures
            b@ == self.spec_bytes(),
    {
        self.bytes.as_slice()
    }

    /// The id the record is saved under.
    pub fn id(&self) -> (id: u64)
        ensures
            id == self.spec_id(),
    {
        self.id
    }

    /// The offset at which the record is to be appended.
    pub fn offset(&self) -> (o: u64)
        ensures
            o == self.spec_entry().offset,
    {
        self.entry.offset
    }
}

impl DbState {
    /// The image of the store file the state stands for.
    pub closed spec fn spec_image(&self) -> Seq<u8> {
        self.image@
    }

    /// The live records: id to index entry.
    pub closed spec fn spec_entries(&self) -> Map<u64, IndexEntry> {
        self.index@
    }

    /// The id the next saved record gets.
    pub closed spec fn spec_next_id(&self) -> u64 {
        self.next_id
    }

    /// The latest id handed out: the next id less one, 0 when it is 0.
    pub open spec fn spec_latest_id(&self) -> u64 {
        if self.spec_next_id() == 0 { 0u64 } else { (self.spec_next_id() - 1) as u64 }
    }

    /// The length of the file image.
    pub closed spec fn spec_file_len(&self) -> u64 {
        self.file_len
    }

    /// The state agrees with its file image: recovery reads the image to
    /// its end and finds exactly these live records, the largest id it
    /// sees is the one before the next id, and every entry points at an
    /// intact data record with its id.
    pub open spec fn wf(&self) -> bool {
        &&& self.spec_image().len() == self.spec_file_len()
        &&& self.spec_image().len() >= FILE_HEADER_SIZE
        &&& self.spec_next_id() >= 1
        &&& spec_scan_file(self.spec_image(), Map::empty()) == (
            ScanStop::End,
            self.spec_image().len(),
            self.spec_entries(),
            (self.spec_next_id() - 1) as u64,
        )
        &&& spec_entries_valid(self.spec_image(), self.spec_entries())
        &&& forall|k: u64| #[trigger] self.spec_entries().contains_key(k) ==> k < self.spec_next_id()
    }

    /// The id the next saved record gets.
    pub fn next_id(&self) -> (n: u64)
        ensures
            n == self.spec_next_id(),
    {
        self.next_id
    }

    /// The length of the file image, where the next record goes.
    pub fn file_len(&self) -> (n: u64)
        ensures
            n == self.spec_file_len(),
    {
        self.file_len
    }

    /// The index entry of a live record.
    pub fn entry(&self, id: u64) -> (r: Option<IndexEntry>)
        ensures
            match r {
                Some(e) => self.spec_entries().contains_key(id) && e == self.spec_entries()[id],
                None => !self.spec_entries().contains_key(id),
            },
    {
        match self.index.get(id) {
            Some(e) => Some(*e),
            None => None,
        }
    }

    /// Whether `id` has a live record.
    pub fn contains(&self, id: u64) -> (r: bool)
        ensures
            r == self.spec_entries().contains_key(id),
    {
        self.index.contains(id)
    }

    /// Number of live records.
    pub fn len(&self) -> (n: usize)
        ensures
            n == self.spec_entries().len(),
    {
        self.index.len()
    }

    /// Whether there are no live records.
    pub fn is_empty(&self) -> (r: bool)
        ensures
            r == (self.spec_entries().len() == 0),
    {
        self.index.is_empty()
    }

    /// The ids of the live records, each once, in no particular order.
    pub fn keys(&self) -> (ks: Vec<u64>)
        ensures
            ks@.no_duplicates(),
            ks@.to_set() == self.spec_entries().dom(),
            ks@.len() == self.spec_entries().len(),
    {
        self.index.keys()
    }

    /// The index file saved on close: the latest id handed out (the next id
    /// less one, 0 when none was) and the data file length, then the entries.
    pub fn index_file_bytes(&self, max_offset: u64) -> (out: Vec<u8>)
        ensures
            exists|ids: Seq<u64>|
                {
                    &&& ids.no_duplicates()
                    &&& ids.to_set() == self.spec_entries().dom()
                    &&& ids.len() == self.spec_entries().len()
                    &&& #[trigger] crate::index::spec_index_file_bytes(ids, self.spec_entries(), self.spec_latest_id(), max_offset) == out@
                },
            crate::index::spec_decode_index_file(out@) == Some((self.spec_entries(), self.spec_latest_id(), max_offset)),
    {
        let latest = self.next_id.saturating_sub(1);
        assert(latest == self.spec_latest_id());
        let out = self.index.encode_file(latest, max_offset);
        proof {
            let ids = choose|ids: Seq<u64>|
                {
                    &&& ids.no_duplicates()
                    &&& ids.to_set() == self.index@.dom()
                    &&& ids.len() == self.index@.len()
                    &&& #[trigger] crate::index::spec_index_file_bytes(ids, self.index@, latest, max_offset) == out@
                };
            assert(crate::index::spec_index_file_bytes(ids, self.spec_entries(), self.spec_latest_id(), max_offset) == out@);
        }
        out
    }

    /// Recovers the state of a store from the whole image of its file (at
    /// least its 64-byte header). The records are scanned from byte 64;
    /// a torn record and everything after it are left out of the state's
    /// image (the report says where the file is to be cut). A header whose
    /// priority byte encodes no priority, or a record id of `u64::MAX`
    /// (which leaves no next id), is `DataCorrupted`.
    pub fn recover(file: &[u8]) -> (r: Result<(DbState, ScanReport), AnchorError>)
        requires
            file@.len() >= FILE_HEADER_SIZE,
        ensures
            ({
                let (stop, at, idx, latest) = spec_scan_file(file@, Map::empty());
                match r {
                    Ok((s, rep)) => {
                        &&& s.wf()
                        &&& stop != ScanStop::BadPriority
                        &&& latest < u64::MAX
                        &&& rep.truncated == (stop == ScanStop::Torn)
                        &&& rep.valid_len == at
                        &&& rep.latest_id == latest
                        &&& s.spec_image() == file@.take(at as int)
                        &&& s.spec_entries() == idx
                        &&& s.spec_next_id() == latest + 1
                    },
                    Err(e) => e == AnchorError::DataCorrupted && (stop == ScanStop::BadPriority || latest == u64::MAX),
                }
            }),
    {
        let mut index = Index::new();
        let rep = match scan_records(file, &mut index) {
            Ok(rep) => rep,
            Err(e) => return Err(e),
        };
        if rep.latest_id == u64::MAX {
            return Err(AnchorError::DataCorrupted);
        }
        let ghost empty = Map::<u64, IndexEntry>::empty();
        let ghost image = file@.take(rep.valid_len as int);
        proof {
            let start = FILE_HEADER_SIZE as nat;
            lemma_scan_at_least(file@, start, empty, 0);
            if rep.truncated {
                lemma_scan_truncate(file@, start, empty, 0);
            } else {
                assert(image =~= file@);
            }
            assert(spec_entries_valid(image, empty));
            lemma_scan_entries_valid(image, start, empty, 0);
        }
        let s = DbState { index, next_id: rep.latest_id + 1, file_len: rep.valid_len, image: Ghost(image) };
        Ok((s, rep))
    }

    /// Works out the data record that saving a payload appends: the next
    /// id, the given timestamp, session id 0. `None` when the tags do not
    /// fit a `u16` length, the payload a `u32` length, the ids are used up,
    /// or the file would outgrow `u64` offsets.
    pub fn prepare_save(
        &self,
        data: &[u8],
        data_type: DataType,
        priority: Priority,
        tags: &[u8],
        timestamp: u64,
    ) -> (r: Option<PendingSave>)
        requires
            self.wf(),
        ensures
            r is None <==> (tags@.len() > u16::MAX || data@.len() > u32::MAX || self.spec_next_id() == u64::MAX
                || self.spec_file_len() + RECORD_HEADER_SIZE + tags@.len() + data@.len() > u64::MAX),
            r matches Some(p) ==> {
                &&& p.wf()
                &&& p.spec_base() == self.spec_image()
                &&& p.spec_id() == self.spec_next_id()
                &&& p.spec_tags() == tags@
                &&& p.spec_data() == data@
                &&& p.spec_header() == spec_framed_header(RECORD_TYPE_DATA, self.spec_next_id(), timestamp, data_type.spec_to_u8(), priority, tags@, data@)
                &&& p.spec_entry() == spec_entry_for(p.spec_header(), self.spec_file_len() as int)
                &&& p.spec_entry().offset == self.spec_file_len()
                &&& p.spec_entry().data_length == data@.len()
                &&& p.spec_entry().data_type == data_type
                &&& p.spec_entry().record_type == 0x01
                &&& p.spec_entry().session_id == 0
                &&& p.spec_entry().timestamp == timestamp
                &&& p.spec_entry().priority == priority
                &&& p.spec_header().timestamp == timestamp
                &&& p.spec_header().priority == priority
                &&& p.spec_header().id == self.spec_next_id()
                &&& p.spec_bytes().len() == 37 + tags@.len() + data@.len()
                &&& p.spec_bytes()[0] == 0x01
                &&& p.spec_bytes().subrange(1, 9) == vstd::bytes::spec_u64_to_le_bytes(self.spec_next_id())
                &&& p.spec_bytes().subrange(9, 17) == vstd::bytes::spec_u64_to_le_bytes(timestamp)
                &&& (data_type == DataType::Bytes ==> p.spec_bytes()[25] == 0)
                &&& (data_type == DataType::Str ==> p.spec_bytes()[25] == 1)
                &&& (data_type == DataType::Json ==> p.spec_bytes()[25] == 2)
                &&& (priority == Priority::Ephemeral ==> p.spec_bytes()[26] == 0)
                &&& (priority == Priority::Normal ==> p.spec_bytes()[26] == 1)
                &&& (priority == Priority::Important ==> p.spec_bytes()[26] == 2)
                &&& (priority == Priority::Critical ==> p.spec_bytes()[26] == 3)
                &&& p.spec_bytes().subrange(37, 37 + tags@.len() as int) == tags@
                &&& p.spec_bytes().subrange(37 + tags@.len() as int, p.spec_bytes().len() as int) == data@
            },
    {
        if tags.len() > 0xffff || data.len() > 0xffff_ffff || self.next_id == u64::MAX {
            return None;
        }
        let room = u64::MAX - self.file_len;
        let need: u64 = RECORD_HEADER_SIZE as u64 + tags.len() as u64 + data.len() as u64;
        if need > room {
            return None;
        }
        let id = self.next_id;
        let dt = data_type.to_u8();
        let bytes = encode_record(RECORD_TYPE_DATA, id, timestamp, dt, priority, tags, data);
        let ghost header = spec_framed_header(RECORD_TYPE_DATA, id, timestamp, dt, priority, tags@, data@);
        proof {
            crate::record::lemma_record_header_round_trip(header);
            crate::storage::lemma_record_image_layout(RECORD_TYPE_DATA, id, timestamp, dt, priority, tags@, data@);
            crate::storage::lemma_entry_for_fields(header, self.file_len as int);
            crate::types::lemma_data_type_bytes(data_type, dt);
        }
        let entry = IndexEntry {
            offset: self.file_len,
            data_length: data.len() as u32,
            data_type: match DataType::from_u8(dt) {
                Some(d) => d,
                None => DataType::Bytes,
            },
            record_type: RECORD_TYPE_DATA,
            session_id: 0,
            timestamp,
            priority,
        };
        Some(PendingSave {
            id,
            entry,
            bytes,
            header: Ghost(header),
            tags: Ghost(tags@),
            data: Ghost(data@),
            base: Ghost(self.image@),
        })
    }

    /// Commits a saved record once its bytes are appended: the image grows
    /// by them, the record's id gets its entry, the next id moves on, and
    /// the record reads back as the tags and payload it was made from; no
    /// other record reads differently.
    pub fn commit_save(&mut self, p: PendingSave) -> (id: u64)
        requires
            old(self).wf(),
            p.wf(),
            p.spec_base() == old(self).spec_image(),
            p.spec_id() == old(self).spec_next_id(),
        ensures
            final(self).wf(),
            id == p.spec_id(),
            final(self).spec_image() == old(self).spec_image() + p.spec_bytes(),
            final(self).spec_entries() == old(self).spec_entries().insert(id, p.spec_entry()),
            final(self).spec_next_id() == old(self).spec_next_id() + 1,
            spec_read_record(final(self).spec_image(), final(self).spec_entries()[id]) == Some((p.spec_tags(), p.spec_data())),
            forall|k: u64| #[trigger] old(self).spec_entries().contains_key(k) ==>
                spec_read_record(final(self).spec_image(), final(self).spec_entries()[k]) == spec_read_record(old(self).spec_image(), old(self).spec_entries()[k]),
    {
        let ghost old_image = self.image@;
        let ghost old_entries = self.index@;
        let ghost latest = (self.next_id - 1) as u64;
        let ghost h = p.header@;
        let ghost new_image = old_image + p.bytes@;
        let id = p.id;
        self.index.insert(id, p.entry);
        self.next_id = self.next_id + 1;
        self.file_len = self.file_len + p.bytes.len() as u64;
        self.image = Ghost(new_image);
        proof {
            let start = FILE_HEADER_SIZE as nat;
            let empty = Map::<u64, IndexEntry>::empty();
            assert(new_image.subrange(0, old_image.len() as int) =~= old_image);
            lemma_scan_extend(old_image, new_image, start, empty, 0);
            lemma_appended_record(old_image, h, p.tags@, p.data@);
            let off = old_image.len() as nat;
            let next = (off + spec_record_len(h)) as nat;
            assert(next == new_image.len());
            assert(spec_scan_from(new_image, next, spec_apply_record(old_entries, h, off as int), spec_max_id(latest, h.id))
                == (ScanStop::End, next, spec_apply_record(old_entries, h, off as int), spec_max_id(latest, h.id)));
            assert(spec_apply_record(old_entries, h, off as int) =~= self.index@);
            lemma_entries_valid_extend(old_image, new_image, old_entries);
            assert(spec_entries_valid(new_image, self.index@)) by {
                assert forall|k: u64| #[trigger] self.index@.contains_key(k) implies spec_entry_valid(new_image, k, self.index@[k]) by {
                    if k != id {
                        assert(old_entries.contains_key(k));
                    } else {
                        assert(p.entry.offset as int == off as int);
                    }
                }
            }
            assert forall|k: u64| #[trigger] old_entries.contains_key(k) implies
                spec_read_record(new_image, self.index@[k]) == spec_read_record(old_image, old_entries[k]) by {
                assert(k != id);
            }
        }
        id
    }

    /// Deletes a record by appending a tombstone: `None`, with nothing
    /// changed, when the id has no live record; otherwise its entry goes
    /// and the tombstone's bytes (record type 2, empty tags and payload,
    /// data type 0, priority `Normal`) are returned to be appended.
    pub fn delete(&mut self, id: u64, timestamp: u64) -> (r: Option<Vec<u8>>)
        requires
            old(self).wf(),
            old(self).spec_file_len() + RECORD_HEADER_SIZE <= u64::MAX,
        ensures
            final(self).wf(),
            match r {
                None => {
                    &&& !old(self).spec_entries().contains_key(id)
                    &&& final(self).spec_image() == old(self).spec_image()
                    &&& final(self).spec_entries() == old(self).spec_entries()
                    &&& final(self).spec_next_id() == old(self).spec_next_id()
                },
                Some(bytes) => {
                    let h = spec_framed_header(RECORD_TYPE_TOMBSTONE, id, timestamp, 0, Priority::Normal, Seq::empty(), Seq::empty());
                    &&& old(self).spec_entries().contains_key(id)
                    &&& bytes@ == spec_record_image(h, Seq::empty(), Seq::empty())
                    &&& bytes@.len() == 37
                    &&& bytes@[0] == 0x02
                    &&& bytes@.subrange(1, 9) == vstd::bytes::spec_u64_to_le_bytes(id)
                    &&& bytes@.subrange(9, 17) == vstd::bytes::spec_u64_to_le_bytes(timestamp)
                    &&& final(self).spec_image() == old(self).spec_image() + bytes@
                    &&& final(self).spec_entries() == old(self).spec_entries().remove(id)
                    &&& final(self).spec_next_id() == old(self).spec_next_id()
                },
            },
            forall|k: u64| #[trigger] final(self).spec_entries().contains_key(k) ==>
                spec_read_record(final(self).spec_image(), final(self).spec_entries()[k]) == spec_read_record(old(self).spec_image(), old(self).spec_entries()[k]),
    {
        if !self.index.contains(id) {
            return None;
        }
        let ghost old_image = self.image@;
        let ghost old_entries = self.index@;
        let ghost latest = (self.next_id - 1) as u64;
        let empty_bytes: Vec<u8> = Vec::new();
        let bytes = encode_record(RECORD_TYPE_TOMBSTONE, id, timestamp, 0, Priority::Normal, empty_bytes.as_slice(), empty_bytes.as_slice());
        let ghost h = spec_framed_header(RECORD_TYPE_TOMBSTONE, id, timestamp, 0, Priority::Normal, empty_bytes@, empty_bytes@);
        proof {
            crate::record::lemma_record_header_round_trip(h);
            assert(empty_bytes@ =~= Seq::<u8>::empty());
            crate::storage::lemma_record_image_layout(RECORD_TYPE_TOMBSTONE, id, timestamp, 0, Priority::Normal, empty_bytes@, empty_bytes@);
        }
        let ghost new_image = old_image + bytes@;
        self.index.remove(id);
        self.file_len = self.file_len + bytes.len() as u64;
        self.image = Ghost(new_image);
        proof {
            let start = FILE_HEADER_SIZE as nat;
            let empty = Map::<u64, IndexEntry>::empty();
            assert(new_image.subrange(0, old_image.len() as int) =~= old_image);
            lemma_scan_extend(old_image, new_image, start, empty, 0);
            lemma_appended_record(old_image, h, empty_bytes@, empty_bytes@);
            let off = old_image.len() as nat;
            let next = (off + spec_record_len(h)) as nat;
            assert(next == new_image.len());
            assert(spec_max_id(latest, h.id) == latest);
            assert(spec_scan_from(new_image, next, spec_apply_record(old_entries, h, off as int), spec_max_id(latest, h.id))
                == (ScanStop::End, next, spec_apply_record(old_entries, h, off as int), latest));
            assert(spec_apply_record(old_entries, h, off as int) =~= self.index@);
            lemma_entries_valid_extend(old_image, new_image, old_entries);
            assert(spec_entries_valid(new_image, self.index@)) by {
                assert forall|k: u64| #[trigger] self.index@.contains_key(k) implies spec_entry_valid(new_image, k, self.index@[k]) by {
                    assert(old_entries.contains_key(k));
                }
            }
            assert forall|k: u64| #[trigger] self.index@.contains_key(k) implies
                spec_read_record(new_image, self.index@[k]) == spec_read_record(old_image, old_entries[k]) by {
                assert(old_entries.contains_key(k));
            }
        }
        Some(bytes)
    }
}

/// A fresh store, a file header and nothing after it, holds no records and
/// hands out ids from 1.
pub proof fn lemma_fresh_store(h: FileHeader)
    ensures
        spec_scan_file(spec_file_header_bytes(h), Map::empty())
            == (ScanStop::End, FILE_HEADER_SIZE as nat, Map::<u64, IndexEntry>::empty(), 0u64),
{
    lemma_file_header_layout(h);
}

/// Reopening a store finds what was left in it: recovery reads the image of
/// a well-formed state to its end without cutting anything, finds exactly
/// its live records, and takes up the ids where the state left them.
pub proof fn lemma_reopen(s: DbState)
    requires
        s.wf(),
    ensures
        ({
            let (stop, at, idx, latest) = spec_scan_file(s.spec_image(), Map::empty());
            &&& stop == ScanStop::End
            &&& at == s.spec_image().len()
            &&& idx == s.spec_entries()
            &&& latest < u64::MAX
            &&& latest + 1 == s.spec_next_id()
        }),
{
}

/// A stored memory rebuilt from its index entry and the tags and payload
/// read back for it: the tags must decode (else the tag fault's message),
/// and a text payload must be UTF-8 (else "payload is not valid utf-8").
pub fn memory_record_from(id: u64, entry: &IndexEntry, tags_bytes: &[u8], data_bytes: &[u8]) -> (r: Result<MemoryRecord, &'static str>)
    ensures
        match spec_decode_tags(tags_bytes@) {
            Err(f) => r matches Err(m) && m@ == spec_fault_message(f),
            Ok(tags) => match entry.data_type {
                DataType::Bytes => r matches Ok(rec) && rec.tags.deep_view() == tags
                    && rec.data == AnchorData::Bytes(rec.data->Bytes_0) && rec.data->Bytes_0@ == data_bytes@,
                _ => if valid_utf8(data_bytes@) {
                    r matches Ok(rec) && rec.tags.deep_view() == tags && rec.data.spec_data_type() == entry.data_type
                        && rec.data.spec_bytes() == data_bytes@
                } else {
                    r matches Err(m) && m@ == "payload is not valid utf-8"@
                },
            },
        },
        r matches Ok(rec) ==> rec.id == id && rec.priority == entry.priority && rec.timestamp == entry.timestamp,
{
    let tags = match decode_tags(tags_bytes) {
        Ok(t) => t,
        Err(m) => return Err(m),
    };
    let data = match entry.data_type {
        DataType::Bytes => AnchorData::Bytes(vstd::slice::slice_to_vec(data_bytes)),
        DataType::Str => match text_from_utf8(data_bytes) {
            Some(s) => AnchorData::Str(s),
            None => return Err("payload is not valid utf-8"),
        },
        DataType::Json => match text_from_utf8(data_bytes) {
            Some(s) => AnchorData::Json(s),
            None => return Err("payload is not valid utf-8"),
        },
    };
    Ok(MemoryRecord::from_parts(id, tags, data, entry.priority, entry.timestamp))
}

} // verus!
