//! Framing of records in the store file and recovery by scanning it.
//!
//! The file is a 64-byte file header followed by records, each a record
//! header, the tags bytes and the payload bytes; the header's CRC32 covers
//! the tags and payload together. Recovery walks the records from byte 64
//! and stops at the first one that is cut short or fails its checksum,
//! which the caller then truncates away.

use vstd::prelude::*;
use vstd::bytes::{spec_u16_to_le_bytes, spec_u32_to_le_bytes, spec_u64_to_le_bytes, spec_u64_from_le_bytes, lemma_auto_spec_u64_to_from_le_bytes};
use crate::bytes::push_bytes;
use crate::checksum::{crc32, crc32_ieee};
use crate::error::AnchorError;
use crate::index::{Index, IndexEntry};
use crate::record::{
    record_header_from_slice, spec_header_priority_ok, spec_parse_record_header,
    spec_record_header_bytes, lemma_record_header_round_trip, lemma_record_header_offsets, FileHeader, RecordHeader,
    spec_decode_file_header, FILE_HEADER_SIZE, RECORD_HEADER_SIZE,
};
use crate::types::{DataType, Priority, RECORD_TYPE_DATA, RECORD_TYPE_TOMBSTONE, VERSION};

verus! {

/// The image of one record: its header, then the tags, then the payload.
pub open spec fn spec_record_image(h: RecordHeader, tags: Seq<u8>, data: Seq<u8>) -> Seq<u8> {
    spec_record_header_bytes(h) + tags + data
}

/// The header a record with these fields is framed with; its checksum
/// covers the tags followed by the payload.
pub open spec fn spec_framed_header(
    record_type: u8,
    id: u64,
    timestamp: u64,
    data_type: u8,
    priority: Priority,
    tags: Seq<u8>,
    data: Seq<u8>,
) -> RecordHeader {
    RecordHeader {
        record_type,
        id,
        timestamp,
        session_id: 0,
        data_type,
        priority,
        tags_len: tags.len() as u16,
        data_length: data.len() as u32,
        crc32: crc32_ieee(tags + data),
    }
}

/// Number of bytes a record with this header takes in the file.
pub open spec fn spec_record_len(h: RecordHeader) -> int {
    RECORD_HEADER_SIZE + h.tags_len + h.data_length
}

/// What the scan finds at an offset of the file.
pub enum RecordCheck {
    /// A whole record whose checksum matches.
    Intact(RecordHeader),
    /// A record cut short by the end of the file, or failing its checksum.
    Torn,
    /// A record header whose priority byte encodes no priority.
    BadPriority,
}

/// The record check at offset `off`.
pub open spec fn spec_check_record(file: Seq<u8>, off: int) -> RecordCheck {
    if off + RECORD_HEADER_SIZE > file.len() {
        RecordCheck::Torn
    } else {
        match spec_parse_record_header(file.subrange(off, off + RECORD_HEADER_SIZE)) {
            None => RecordCheck::BadPriority,
            Some(h) => {
                let end = off + spec_record_len(h);
                if end > file.len() {
                    RecordCheck::Torn
                } else if crc32_ieee(file.subrange(off + RECORD_HEADER_SIZE, end)) != h.crc32 {
                    RecordCheck::Torn
                } else {
                    RecordCheck::Intact(h)
                }
            },
        }
    }
}

/// The index entry a data record at `off` gets.
pub open spec fn spec_entry_for(h: RecordHeader, off: int) -> IndexEntry {
    IndexEntry {
        offset: off as u64,
        data_length: h.data_length,
        data_type: match DataType::spec_from_u8(h.data_type) {
            Some(d) => d,
            None => DataType::Bytes,
        },
        record_type: h.record_type,
        session_id: h.session_id,
        timestamp: h.timestamp,
        priority: h.priority,
    }
}

/// The index after an intact record at `off`: a tombstone removes its id,
/// a data record sets its id's entry, any other record type changes nothing.
pub open spec fn spec_apply_record(idx: Map<u64, IndexEntry>, h: RecordHeader, off: int) -> Map<u64, IndexEntry> {
    if h.record_type == RECORD_TYPE_TOMBSTONE {
        idx.remove(h.id)
    } else if h.record_type == RECORD_TYPE_DATA {
        idx.insert(h.id, spec_entry_for(h, off))
    } else {
        idx
    }
}

/// The larger of two ids.
pub open spec fn spec_max_id(a: u64, b: u64) -> u64 {
    if a < b { b } else { a }
}

/// Why a scan stopped.
#[derive(Debug, Clone, Copy, PartialEq, Eq, Structural)]
pub enum ScanStop {
    /// It reached the end of the file exactly.
    End,
    /// It met a torn record, which is to be truncated away.
    Torn,
    /// It met a header whose priority byte encodes no priority.
    BadPriority,
}

/// The scan from offset `off`: why it stopped, where, the index it built
/// and the largest id it saw.
pub open spec fn spec_scan_from(file: Seq<u8>, off: nat, idx: Map<u64, IndexEntry>, latest: u64) -> (ScanStop, nat, Map<u64, IndexEntry>, u64)
    decreases file.len() - off,
{
    if off >= file.len() {
        (ScanStop::End, off, idx, latest)
    } else {
        match spec_check_record(file, off as int) {
            RecordCheck::Torn => (ScanStop::Torn, off, idx, latest),
            RecordCheck::BadPriority => (ScanStop::BadPriority, off, idx, latest),
            RecordCheck::Intact(h) => spec_scan_from(
                file,
                (off + spec_record_len(h)) as nat,
                spec_apply_record(idx, h, off as int),
                spec_max_id(latest, h.id),
            ),
        }
    }
}

/// The scan of a whole store file, starting after its header; a file
/// shorter than the header is not scanned.
pub open spec fn spec_scan_file(file: Seq<u8>, idx: Map<u64, IndexEntry>) -> (ScanStop, nat, Map<u64, IndexEntry>, u64) {
    if file.len() < FILE_HEADER_SIZE {
        (ScanStop::End, file.len(), idx, 0u64)
    } else {
        spec_scan_from(file, FILE_HEADER_SIZE as nat, idx, 0u64)
    }
}

/// Whether `e` is the index entry of record `id` as the file holds it: an
/// intact data record with that id at the entry's offset.
pub open spec fn spec_entry_valid(file: Seq<u8>, id: u64, e: IndexEntry) -> bool {
    match spec_check_record(file, e.offset as int) {
        RecordCheck::Intact(h) => h.id == id && h.record_type == RECORD_TYPE_DATA && spec_entry_for(h, e.offset as int) == e,
        _ => false,
    }
}

/// Whether every entry of `idx` is valid in `file`.
pub open spec fn spec_entries_valid(file: Seq<u8>, idx: Map<u64, IndexEntry>) -> bool {
    forall|k: u64| #[trigger] idx.contains_key(k) ==> spec_entry_valid(file, k, idx[k])
}

/// The tags and payload of the record an index entry points to, as the
/// read path returns them; `None` when no intact record lies there.
pub open spec fn spec_read_record(file: Seq<u8>, e: IndexEntry) -> Option<(Seq<u8>, Seq<u8>)> {
    match spec_check_record(file, e.offset as int) {
        RecordCheck::Intact(h) => {
            let o = e.offset as int;
            let t = o + RECORD_HEADER_SIZE + h.tags_len;
            Some((file.subrange(o + RECORD_HEADER_SIZE, t), file.subrange(t, o + spec_record_len(h))))
        },
        _ => None,
    }
}

/// An intact record stays intact, with the same header, in any file that
/// agrees with this one on the record's bytes.
pub proof fn lemma_check_record_stable(a: Seq<u8>, b: Seq<u8>, o: int)
    requires
        0 <= o,
        spec_check_record(a, o) is Intact,
        o + spec_record_len(spec_check_record(a, o)->Intact_0) <= b.len(),
        forall|i: int| o <= i < o + spec_record_len(spec_check_record(a, o)->Intact_0) ==> a[i] == b[i],
    ensures
        spec_check_record(b, o) == spec_check_record(a, o),
        forall|e: IndexEntry| e.offset as int == o ==> #[trigger] spec_read_record(b, e) == spec_read_record(a, e),
{
    let h = spec_check_record(a, o)->Intact_0;
    let end = o + spec_record_len(h);
    assert(a.subrange(o, o + 37) =~= b.subrange(o, o + 37));
    assert(a.subrange(o + 37, end) =~= b.subrange(o + 37, end));
    let t = o + 37 + h.tags_len;
    assert(a.subrange(o + 37, t) =~= b.subrange(o + 37, t));
    assert(a.subrange(t, end) =~= b.subrange(t, end));
}

/// The scan never goes back.
pub proof fn lemma_scan_at_least(file: Seq<u8>, off: nat, idx: Map<u64, IndexEntry>, latest: u64)
    ensures
        spec_scan_from(file, off, idx, latest).1 >= off,
        spec_scan_from(file, off, idx, latest).0 == ScanStop::End ==> spec_scan_from(file, off, idx, latest).1 == if off >= file.len() { off } else { file.len() },
        spec_scan_from(file, off, idx, latest).0 != ScanStop::End ==> spec_scan_from(file, off, idx, latest).1 < file.len(),
    decreases file.len() - off,
{
    if off < file.len() {
        match spec_check_record(file, off as int) {
            RecordCheck::Intact(h) => {
                lemma_scan_at_least(file, (off + spec_record_len(h)) as nat, spec_apply_record(idx, h, off as int), spec_max_id(latest, h.id));
            },
            _ => {},
        }
    }
}

/// A scan that reads a file to its end goes on, in any longer file that
/// starts with it, from that end with what it had built.
pub proof fn lemma_scan_extend(a: Seq<u8>, b: Seq<u8>, off: nat, idx: Map<u64, IndexEntry>, latest: u64)
    requires
        a.len() <= b.len(),
        b.subrange(0, a.len() as int) == a,
        off <= a.len(),
        spec_scan_from(a, off, idx, latest).0 == ScanStop::End,
    ensures
        spec_scan_from(b, off, idx, latest) == spec_scan_from(b, a.len(), spec_scan_from(a, off, idx, latest).2, spec_scan_from(a, off, idx, latest).3),
    decreases a.len() - off,
{
    if off < a.len() {
        match spec_check_record(a, off as int) {
            RecordCheck::Intact(h) => {
                assert forall|i: int| off <= i < off + spec_record_len(h) implies a[i] == b[i] by {
                    assert(b.subrange(0, a.len() as int)[i] == b[i]);
                }
                lemma_check_record_stable(a, b, off as int);
                lemma_scan_at_least(a, (off + spec_record_len(h)) as nat, spec_apply_record(idx, h, off as int), spec_max_id(latest, h.id));
                lemma_scan_extend(a, b, (off + spec_record_len(h)) as nat, spec_apply_record(idx, h, off as int), spec_max_id(latest, h.id));
            },
            _ => {},
        }
    }
}

/// A scan that stops at a torn record reads the file cut there to its end,
/// with the same result.
pub proof fn lemma_scan_truncate(a: Seq<u8>, off: nat, idx: Map<u64, IndexEntry>, latest: u64)
    requires
        off <= a.len(),
        spec_scan_from(a, off, idx, latest).0 == ScanStop::Torn,
    ensures
        ({
            let (stop, at, idx2, latest2) = spec_scan_from(a, off, idx, latest);
            spec_scan_from(a.take(at as int), off, idx, latest) == (ScanStop::End, at, idx2, latest2)
        }),
    decreases a.len() - off,
{
    let at = spec_scan_from(a, off, idx, latest).1;
    lemma_scan_at_least(a, off, idx, latest);
    let c = a.take(at as int);
    match spec_check_record(a, off as int) {
        RecordCheck::Intact(h) => {
            let next = (off + spec_record_len(h)) as nat;
            lemma_scan_at_least(a, next, spec_apply_record(idx, h, off as int), spec_max_id(latest, h.id));
            assert forall|i: int| off <= i < off + spec_record_len(h) implies a[i] == c[i] by {}
            lemma_check_record_stable(a, c, off as int);
            lemma_scan_truncate(a, next, spec_apply_record(idx, h, off as int), spec_max_id(latest, h.id));
            let c2 = a.take(spec_scan_from(a, next, spec_apply_record(idx, h, off as int), spec_max_id(latest, h.id)).1 as int);
            assert(c2 == c);
        },
        _ => {},
    }
}

/// What the scan builds keeps pointing at intact data records, and never
/// holds an id above the largest id it saw.
pub proof fn lemma_scan_entries_valid(file: Seq<u8>, off: nat, idx: Map<u64, IndexEntry>, latest: u64)
    requires
        spec_entries_valid(file, idx),
        forall|k: u64| #[trigger] idx.contains_key(k) ==> k <= latest,
        file.len() <= u64::MAX,
    ensures
        ({
            let (stop, at, idx2, latest2) = spec_scan_from(file, off, idx, latest);
            &&& spec_entries_valid(file, idx2)
            &&& forall|k: u64| #[trigger] idx2.contains_key(k) ==> k <= latest2
            &&& latest <= latest2
        }),
    decreases file.len() - off,
{
    if off < file.len() {
        match spec_check_record(file, off as int) {
            RecordCheck::Intact(h) => {
                let idx1 = spec_apply_record(idx, h, off as int);
                let l1 = spec_max_id(latest, h.id);
                assert(spec_entries_valid(file, idx1)) by {
                    assert forall|k: u64| #[trigger] idx1.contains_key(k) implies spec_entry_valid(file, k, idx1[k]) by {
                        if h.record_type == RECORD_TYPE_DATA && k == h.id {
                            assert(idx1[k] == spec_entry_for(h, off as int));
                            assert((off as u64) as int == off as int);
                        } else {
                            assert(idx.contains_key(k));
                        }
                    }
                }
                assert forall|k: u64| #[trigger] idx1.contains_key(k) implies k <= l1 by {
                    if !(h.record_type == RECORD_TYPE_DATA && k == h.id) {
                        assert(idx.contains_key(k));
                    }
                }
                lemma_scan_entries_valid(file, (off + spec_record_len(h)) as nat, idx1, l1);
            },
            _ => {},
        }
    }
}

/// Entries valid in a file stay valid, reading the same bytes, in any
/// longer file that starts with it.
pub proof fn lemma_entries_valid_extend(a: Seq<u8>, b: Seq<u8>, idx: Map<u64, IndexEntry>)
    requires
        spec_entries_valid(a, idx),
        a.len() <= b.len(),
        b.subrange(0, a.len() as int) == a,
    ensures
        spec_entries_valid(b, idx),
        forall|k: u64| #[trigger] idx.contains_key(k) ==> spec_read_record(b, idx[k]) == spec_read_record(a, idx[k]),
{
    assert forall|k: u64| #[trigger] idx.contains_key(k) implies spec_entry_valid(b, k, idx[k]) && spec_read_record(b, idx[k]) == spec_read_record(a, idx[k]) by {
        let e = idx[k];
        let o = e.offset as int;
        let h = spec_check_record(a, o)->Intact_0;
        assert forall|i: int| o <= i < o + spec_record_len(h) implies a[i] == b[i] by {
            assert(b.subrange(0, a.len() as int)[i] == b[i]);
        }
        lemma_check_record_stable(a, b, o);
    }
}

/// A framed record appended to a file is intact at the offset where it
/// starts, and reads back as its tags and payload.
pub proof fn lemma_appended_record(file: Seq<u8>, h: RecordHeader, tags: Seq<u8>, data: Seq<u8>)
    requires
        file.len() <= u64::MAX,
        h.tags_len == tags.len(),
        h.data_length == data.len(),
        h.crc32 == crc32_ieee(tags + data),
    ensures
        spec_check_record(file + spec_record_image(h, tags, data), file.len() as int) == RecordCheck::Intact(h),
        spec_record_len(h) == spec_record_image(h, tags, data).len(),
        spec_read_record(file + spec_record_image(h, tags, data), spec_entry_for(h, file.len() as int)) == Some((tags, data)),
{
    lemma_record_header_round_trip(h);
    let img = spec_record_image(h, tags, data);
    let b = file + img;
    let o = file.len() as int;
    assert(b.subrange(o, o + 37) =~= spec_record_header_bytes(h));
    assert(b.subrange(o + 37, o + spec_record_len(h)) =~= tags + data);
    assert(b.subrange(o + 37, o + 37 + h.tags_len) =~= tags);
    assert(b.subrange(o + 37 + h.tags_len, o + spec_record_len(h)) =~= data);
    assert(spec_entry_for(h, o).offset as int == o);
}

/// How the read path sees a valid entry: the header image at its offset has
/// a valid priority byte and decodes to a header with the recorded payload
/// length, the body after it passes the header's checksum, and splitting
/// the body gives what `spec_read_record` says the record holds.
pub proof fn lemma_read_path(file: Seq<u8>, id: u64, e: IndexEntry)
    requires
        spec_entry_valid(file, id, e),
    ensures
        ({
            let o = e.offset as int;
            let hb = file.subrange(o, o + RECORD_HEADER_SIZE);
            let h = spec_parse_record_header(hb)->0;
            let body = file.subrange(o + RECORD_HEADER_SIZE, o + spec_record_len(h));
            &&& hb.len() == RECORD_HEADER_SIZE
            &&& spec_header_priority_ok(hb)
            &&& spec_parse_record_header(hb) is Some
            &&& h.data_length == e.data_length
            &&& h.id == id
            &&& o + spec_record_len(h) <= file.len()
            &&& body.len() == h.tags_len + h.data_length
            &&& crc32_ieee(body) == h.crc32
            &&& spec_read_record(file, e) == Some((body.subrange(0, h.tags_len as int), body.subrange(h.tags_len as int, body.len() as int)))
        }),
{
    let o = e.offset as int;
    let hb = file.subrange(o, o + RECORD_HEADER_SIZE);
    let h = spec_parse_record_header(hb)->0;
    let body = file.subrange(o + RECORD_HEADER_SIZE, o + spec_record_len(h));
    let t = o + RECORD_HEADER_SIZE + h.tags_len;
    assert(body.subrange(0, h.tags_len as int) =~= file.subrange(o + RECORD_HEADER_SIZE, t));
    assert(body.subrange(h.tags_len as int, body.len() as int) =~= file.subrange(t, o + spec_record_len(h)));
}

/// A framed record header keeps every field it is given: the record type,
/// id, timestamp and data-type byte unchanged, session id 0, the priority
/// unchanged, the lengths of the tags and payload, and the CRC32 of the tags
/// followed by the payload.
pub proof fn lemma_framed_header_fields(
    record_type: u8,
    id: u64,
    timestamp: u64,
    data_type: u8,
    priority: Priority,
    tags: Seq<u8>,
    data: Seq<u8>,
)
    requires
        tags.len() <= u16::MAX,
        data.len() <= u32::MAX,
    ensures
        ({
            let h = spec_framed_header(record_type, id, timestamp, data_type, priority, tags, data);
            &&& h.record_type == record_type
            &&& h.id == id
            &&& h.timestamp == timestamp
            &&& h.session_id == 0
            &&& h.data_type == data_type
            &&& h.priority == priority
            &&& h.tags_len == tags.len()
            &&& h.data_length == data.len()
            &&& h.crc32 == crc32_ieee(tags + data)
        }),
{
}

/// The image of a framed record, byte by byte: record type at 0, id at 1..9,
/// timestamp at 9..17, session id 0 at 17..25, data-type byte at 25,
/// priority byte at 26, lengths at 27..33, checksum at 33..37, then the tags
/// and then the payload.
pub proof fn lemma_record_image_layout(
    record_type: u8,
    id: u64,
    timestamp: u64,
    data_type: u8,
    priority: Priority,
    tags: Seq<u8>,
    data: Seq<u8>,
)
    requires
        tags.len() <= u16::MAX,
        data.len() <= u32::MAX,
    ensures
        ({
            let img = spec_record_image(spec_framed_header(record_type, id, timestamp, data_type, priority, tags, data), tags, data);
            &&& img.len() == 37 + tags.len() as int + data.len()
            &&& img[0] == record_type
            &&& img.subrange(1, 9) == spec_u64_to_le_bytes(id)
            &&& img.subrange(9, 17) == spec_u64_to_le_bytes(timestamp)
            &&& img.subrange(17, 25) == spec_u64_to_le_bytes(0)
            &&& img[25] == data_type
            &&& (priority == Priority::Ephemeral ==> img[26] == 0)
            &&& (priority == Priority::Normal ==> img[26] == 1)
            &&& (priority == Priority::Important ==> img[26] == 2)
            &&& (priority == Priority::Critical ==> img[26] == 3)
            &&& img.subrange(27, 29) == spec_u16_to_le_bytes(tags.len() as u16)
            &&& img.subrange(29, 33) == spec_u32_to_le_bytes(data.len() as u32)
            &&& img.subrange(33, 37) == spec_u32_to_le_bytes(crc32_ieee(tags + data))
            &&& img.subrange(37, 37 + tags.len() as int) == tags
            &&& img.subrange(37 + tags.len() as int, img.len() as int) == data
        }),
{
    let h = spec_framed_header(record_type, id, timestamp, data_type, priority, tags, data);
    lemma_record_header_offsets(h);
    let hb = spec_record_header_bytes(h);
    let img = spec_record_image(h, tags, data);
    assert(img.subrange(0, 37) =~= hb);
    assert(img.subrange(1, 9) =~= hb.subrange(1, 9));
    assert(img.subrange(9, 17) =~= hb.subrange(9, 17));
    assert(img.subrange(17, 25) =~= hb.subrange(17, 25));
    assert(img.subrange(27, 29) =~= hb.subrange(27, 29));
    assert(img.subrange(29, 33) =~= hb.subrange(29, 33));
    assert(img.subrange(33, 37) =~= hb.subrange(33, 37));
    assert(img.subrange(37, 37 + tags.len() as int) =~= tags);
    assert(img.subrange(37 + tags.len() as int, img.len() as int) =~= data);
}

/// The index entry a data record gets carries the header's fields: its
/// offset, payload length, record type, session id, timestamp and priority
/// as they are, and the kind its data-type byte encodes (0 Bytes, 1 Str,
/// 2 Json, any other byte Bytes).
pub proof fn lemma_entry_for_fields(h: RecordHeader, off: int)
    requires
        0 <= off <= u64::MAX,
    ensures
        ({
            let e = spec_entry_for(h, off);
            &&& e.offset == off
            &&& e.data_length == h.data_length
            &&& e.record_type == h.record_type
            &&& e.session_id == h.session_id
            &&& e.timestamp == h.timestamp
            &&& e.priority == h.priority
            &&& (h.data_type == 0 ==> e.data_type == DataType::Bytes)
            &&& (h.data_type == 1 ==> e.data_type == DataType::Str)
            &&& (h.data_type == 2 ==> e.data_type == DataType::Json)
            &&& (h.data_type > 2 ==> e.data_type == DataType::Bytes)
        }),
{
}

/// What one intact record does to the index: a record of type 0x02
/// (tombstone) removes its id, a record of type 0x01 (data) sets its id to
/// the entry for its header and offset, and a record of any other type
/// changes nothing.
pub proof fn lemma_apply_record_cases(idx: Map<u64, IndexEntry>, h: RecordHeader, off: int)
    ensures
        h.record_type == 0x02 ==> spec_apply_record(idx, h, off) == idx.remove(h.id),
        h.record_type == 0x01 ==> spec_apply_record(idx, h, off) == idx.insert(h.id, spec_entry_for(h, off)),
        h.record_type != 0x01 && h.record_type != 0x02 ==> spec_apply_record(idx, h, off) == idx,
{
}

/// A live entry of the index carries what the record header at its offset
/// says, read straight from the file's bytes: the record type byte is 0x01,
/// the id, the timestamp and the payload length are those stored there, the
/// priority is the one its priority byte encodes, and the kind is the one
/// its data-type byte encodes (an unknown byte reading as Bytes).
pub proof fn lemma_entry_valid_fields(file: Seq<u8>, id: u64, e: IndexEntry)
    requires
        spec_entry_valid(file, id, e),
    ensures
        ({
            let o = e.offset as int;
            &&& o + 37 <= file.len()
            &&& file[o] == 0x01
            &&& e.record_type == 0x01
            &&& spec_u64_from_le_bytes(file.subrange(o + 1, o + 9)) == id
            &&& spec_u64_from_le_bytes(file.subrange(o + 9, o + 17)) == e.timestamp
            &&& (file[o + 26] == 0 ==> e.priority == Priority::Ephemeral)
            &&& (file[o + 26] == 1 ==> e.priority == Priority::Normal)
            &&& (file[o + 26] == 2 ==> e.priority == Priority::Important)
            &&& (file[o + 26] == 3 ==> e.priority == Priority::Critical)
            &&& (file[o + 25] == 1 ==> e.data_type == DataType::Str)
            &&& (file[o + 25] == 2 ==> e.data_type == DataType::Json)
            &&& (file[o + 25] != 1 && file[o + 25] != 2 ==> e.data_type == DataType::Bytes)
        }),
{
    let o = e.offset as int;
    let hb = file.subrange(o, o + 37);
    let h = spec_parse_record_header(hb)->0;
    crate::record::lemma_record_header_bytes_round_trip(hb);
    lemma_record_header_offsets(h);
    lemma_auto_spec_u64_to_from_le_bytes();
    assert(hb[0] == file[o]);
    assert(hb[25] == file[o + 25]);
    assert(hb[26] == file[o + 26]);
    assert(hb.subrange(1, 9) =~= file.subrange(o + 1, o + 9));
    assert(hb.subrange(9, 17) =~= file.subrange(o + 9, o + 17));
}

/// What recovery reports of a scan.
#[derive(Debug, Clone, Copy, PartialEq, Eq, Structural)]
pub struct ScanReport {
    /// Largest record id seen, tombstones included; 0 when there is none.
    pub latest_id: u64,
    /// Length of the intact part of the file.
    pub valid_len: u64,
    /// Whether the file holds a torn record at `valid_len`, to be cut off.
    pub truncated: bool,
}

/// Encodes a record: header (session id 0, checksum over tags then
/// payload), tags, payload.
pub fn encode_record(
    record_type: u8,
    id: u64,
    timestamp: u64,
    data_type: u8,
    priority: Priority,
    tags: &[u8],
    data: &[u8],
) -> (bytes: Vec<u8>)
    requires
        tags@.len() <= u16::MAX,
        data@.len() <= u32::MAX,
    ensures
        bytes@ == spec_record_image(
            spec_framed_header(record_type, id, timestamp, data_type, priority, tags@, data@),
            tags@,
            data@,
        ),
{
    let mut body: Vec<u8> = Vec::new();
    push_bytes(&mut body, tags);
    push_bytes(&mut body, data);
    let checksum = crc32(body.as_slice());
    let header = RecordHeader {
        record_type,
        id,
        timestamp,
        session_id: 0,
        data_type,
        priority,
        tags_len: tags.len() as u16,
        data_length: data.len() as u32,
        crc32: checksum,
    };
    let head = header.to_bytes();
    let mut bytes: Vec<u8> = Vec::new();
    push_bytes(&mut bytes, head.as_slice());
    push_bytes(&mut bytes, tags);
    push_bytes(&mut bytes, data);
    assert(bytes@ =~= spec_record_image(header, tags@, data@));
    bytes
}

/// Checks a record header read back at an index entry's offset: `DataCorrupted`
/// when its priority byte encodes no priority or its payload length is not
/// the one the index recorded.
pub fn check_record_header(buf: &[u8; RECORD_HEADER_SIZE], data_length: u32) -> (r: Result<RecordHeader, AnchorError>)
    ensures
        match r {
            Ok(h) => spec_parse_record_header(buf@) == Some(h) && h.data_length == data_length,
            Err(e) => e == AnchorError::DataCorrupted && match spec_parse_record_header(buf@) {
                Some(h) => h.data_length != data_length,
                None => true,
            },
        },
{
    if buf[26] > 0x03 {
        return Err(AnchorError::DataCorrupted);
    }
    let h = RecordHeader::from_bytes(buf);
    if h.data_length != data_length {
        return Err(AnchorError::DataCorrupted);
    }
    Ok(h)
}

/// Splits a record's body (its tags then its payload) after checking it
/// against the checksum `computed` over it: `ChecksumMismatch` when the
/// header's checksum differs.
pub fn split_record_body_with_crc(h: &RecordHeader, body: &[u8], computed: u32) -> (r: Result<(Vec<u8>, Vec<u8>), AnchorError>)
    requires
        body@.len() == h.tags_len + h.data_length,
    ensures
        match r {
            Ok((tags, data)) => computed == h.crc32
                && tags@ == body@.subrange(0, h.tags_len as int)
                && data@ == body@.subrange(h.tags_len as int, body@.len() as int),
            Err(e) => computed != h.crc32 && e == AnchorError::ChecksumMismatch,
        },
{
    if computed != h.crc32 {
        return Err(AnchorError::ChecksumMismatch);
    }
    let t = h.tags_len as usize;
    let tags = vstd::slice::slice_to_vec(vstd::slice::slice_subrange(body, 0, t));
    let data = vstd::slice::slice_to_vec(vstd::slice::slice_subrange(body, t, body.len()));
    Ok((tags, data))
}

/// Splits a record's body (its tags then its payload) after checking its
/// CRC32 against the header: `ChecksumMismatch` when they differ.
pub fn split_record_body(h: &RecordHeader, body: &[u8]) -> (r: Result<(Vec<u8>, Vec<u8>), AnchorError>)
    requires
        body@.len() == h.tags_len + h.data_length,
    ensures
        match r {
            Ok((tags, data)) => crc32_ieee(body@) == h.crc32
                && tags@ == body@.subrange(0, h.tags_len as int)
                && data@ == body@.subrange(h.tags_len as int, body@.len() as int),
            Err(e) => crc32_ieee(body@) != h.crc32 && e == AnchorError::ChecksumMismatch,
        },
{
    let computed = crc32(body);
    split_record_body_with_crc(h, body, computed)
}

/// Checks the file header the store file starts with: it must decode
/// (`InvalidMagic`, `ChecksumMismatch`) and be of the supported version
/// (`InvalidVersion`).
pub fn check_file_header(buf: &[u8; FILE_HEADER_SIZE]) -> (r: Result<FileHeader, AnchorError>)
    ensures
        match spec_decode_file_header(buf@) {
            Ok(h) => if h.version == VERSION {
                r == Ok::<FileHeader, AnchorError>(h)
            } else {
                r == Err::<FileHeader, AnchorError>(AnchorError::InvalidVersion)
            },
            Err(e) => r == Err::<FileHeader, AnchorError>(e),
        },
{
    match FileHeader::from_bytes(buf) {
        Ok(h) => {
            if h.version != VERSION {
                Err(AnchorError::InvalidVersion)
            } else {
                Ok(h)
            }
        },
        Err(e) => Err(e),
    }
}

/// Rebuilds the index by scanning the records of a whole store file image
/// from byte 64 on. It stops at the end of the file, or at the first record
/// that is cut short or fails its checksum (reported as `truncated`, the
/// intact part ending there); a header whose priority byte encodes no
/// priority is `DataCorrupted`. A file shorter than its header is not
/// scanned. Tombstones remove their id, data records set their id's entry.
pub fn scan_records(file: &[u8], index: &mut Index) -> (r: Result<ScanReport, AnchorError>)
    ensures
        ({
            let (stop, at, idx, latest) = spec_scan_file(file@, old(index)@);
            match r {
                Ok(rep) => {
                    &&& stop != ScanStop::BadPriority
                    &&& rep.truncated == (stop == ScanStop::Torn)
                    &&& rep.valid_len == at
                    &&& rep.latest_id == latest
                    &&& final(index)@ == idx
                },
                Err(e) => stop == ScanStop::BadPriority && e == AnchorError::DataCorrupted,
            }
        }),
{
    let len = file.len();
    if len < FILE_HEADER_SIZE {
        return Ok(ScanReport { latest_id: 0, valid_len: len as u64, truncated: false });
    }
    let ghost start = old(index)@;
    let mut off: usize = FILE_HEADER_SIZE;
    let mut latest: u64 = 0;
    while off < len
        invariant
            len == file.len(),
            file@.len() == len,
            FILE_HEADER_SIZE <= off <= len,
            start == old(index)@,
            spec_scan_file(file@, start) == spec_scan_from(file@, off as nat, index@, latest),
        decreases len - off,
    {
        if len - off < RECORD_HEADER_SIZE {
            assert(spec_check_record(file@, off as int) == RecordCheck::Torn);
            assert(spec_scan_from(file@, off as nat, index@, latest) == (ScanStop::Torn, off as nat, index@, latest));
            return Ok(ScanReport { latest_id: latest, valid_len: off as u64, truncated: true });
        }
        let head = vstd::slice::slice_subrange(file, off, off + RECORD_HEADER_SIZE);
        if head[26] > 0x03 {
            assert(spec_parse_record_header(head@) is None);
            assert(spec_check_record(file@, off as int) == RecordCheck::BadPriority);
            assert(spec_scan_from(file@, off as nat, index@, latest).0 == ScanStop::BadPriority);
            return Err(AnchorError::DataCorrupted);
        }
        let h = record_header_from_slice(head);
        let body_len64: u64 = h.tags_len as u64 + h.data_length as u64;
        let body_start = off + RECORD_HEADER_SIZE;
        if body_len64 > (len - body_start) as u64 {
            return Ok(ScanReport { latest_id: latest, valid_len: off as u64, truncated: true });
        }
        let body_len = body_len64 as usize;
        let body = vstd::slice::slice_subrange(file, body_start, body_start + body_len);
        if crc32(body) != h.crc32 {
            return Ok(ScanReport { latest_id: latest, valid_len: off as u64, truncated: true });
        }
        proof {
            assert(spec_check_record(file@, off as int) == RecordCheck::Intact(h));
        }
        if h.id > latest {
            latest = h.id;
        }
        if h.record_type == RECORD_TYPE_TOMBSTONE {
            index.remove(h.id);
        } else if h.record_type == RECORD_TYPE_DATA {
            let data_type = match DataType::from_u8(h.data_type) {
                Some(d) => d,
                None => DataType::Bytes,
            };
            index.insert(
                h.id,
                IndexEntry {
                    offset: off as u64,
                    data_length: h.data_length,
                    data_type,
                    record_type: h.record_type,
                    session_id: h.session_id,
                    timestamp: h.timestamp,
                    priority: h.priority,
                },
            );
        }
        off = body_start + body_len;
    }
    Ok(ScanReport { latest_id: latest, valid_len: off as u64, truncated: false })
}

} // verus!
