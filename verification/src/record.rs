//! Binary layouts of the record header and of the file header.

use vstd::prelude::*;
use vstd::bytes::*;
use crate::bytes::{push_u16_le, push_u32_le, push_u64_le, read_u16_le, read_u32_le, read_u64_le, vec_to_array};
use crate::checksum::{crc32, crc32_ieee};
use crate::error::AnchorError;
use crate::types::{
    Priority, MAGIC_BYTES, FIELD_CRC32_SIZE, FIELD_DATA_LENGTH_SIZE, FIELD_DATA_TYPE_SIZE, FIELD_ID_SIZE,
    FIELD_PRIORITY_SIZE, FIELD_RECORD_TYPE_SIZE, FIELD_SESSION_ID_SIZE, FIELD_TAGS_LEN_SIZE,
    FIELD_TIMESTAMP_SIZE,
};

verus! {

pub const RECORD_HEADER_SIZE: usize = FIELD_RECORD_TYPE_SIZE + FIELD_ID_SIZE + FIELD_TIMESTAMP_SIZE
    + FIELD_SESSION_ID_SIZE + FIELD_DATA_TYPE_SIZE + FIELD_PRIORITY_SIZE + FIELD_TAGS_LEN_SIZE
    + FIELD_DATA_LENGTH_SIZE + FIELD_CRC32_SIZE;

/// Fixed-size header that precedes every record in the store file.
#[derive(Debug, Clone, PartialEq, Eq, Structural)]
pub struct RecordHeader {
    pub record_type: u8,
    pub id: u64,
    pub timestamp: u64,
    pub session_id: u64,
    pub data_type: u8,
    pub priority: Priority,
    pub tags_len: u16,
    pub data_length: u32,
    pub crc32: u32,
}

/// The record header layout, little-endian:
///
/// ```text
/// Offset  Size  Field
/// 0       1     record_type
/// 1       8     id
/// 9       8     timestamp
/// 17      8     session_id
/// 25      1     data_type
/// 26      1     priority
/// 27      2     tags_len
/// 29      4     data_length
/// 33      4     crc32 (of the tags and payload that follow the header)
/// ```
pub open spec fn spec_record_header_bytes(h: RecordHeader) -> Seq<u8> {
    seq![h.record_type] + spec_u64_to_le_bytes(h.id) + spec_u64_to_le_bytes(h.timestamp)
        + spec_u64_to_le_bytes(h.session_id) + seq![h.data_type, h.priority.spec_to_u8()]
        + spec_u16_to_le_bytes(h.tags_len) + spec_u32_to_le_bytes(h.data_length)
        + spec_u32_to_le_bytes(h.crc32)
}

/// Whether the priority byte of a header image encodes a priority.
pub open spec fn spec_header_priority_ok(b: Seq<u8>) -> bool {
    b[26] <= 0x03
}

/// The header a byte image holds; `None` when its priority byte encodes no priority.
pub open spec fn spec_parse_record_header(b: Seq<u8>) -> Option<RecordHeader> {
    match Priority::spec_from_u8(b[26]) {
        Some(priority) => Some(
            RecordHeader {
                record_type: b[0],
                id: spec_u64_from_le_bytes(b.subrange(1, 9)),
                timestamp: spec_u64_from_le_bytes(b.subrange(9, 17)),
                session_id: spec_u64_from_le_bytes(b.subrange(17, 25)),
                data_type: b[25],
                priority,
                tags_len: spec_u16_from_le_bytes(b.subrange(27, 29)),
                data_length: spec_u32_from_le_bytes(b.subrange(29, 33)),
                crc32: spec_u32_from_le_bytes(b.subrange(33, 37)),
            },
        ),
        None => None,
    }
}

/// Each field of a record header image lies at its fixed offset, little-endian:
/// record type at 0, id at 1..9, timestamp at 9..17, session id at 17..25,
/// data type at 25, priority at 26, tags length at 27..29, payload length at
/// 29..33, checksum at 33..37.
pub proof fn lemma_record_header_offsets(h: RecordHeader)
    ensures
        ({
            let b = spec_record_header_bytes(h);
            &&& b.len() == 37
            &&& b[0] == h.record_type
            &&& b.subrange(1, 9) == spec_u64_to_le_bytes(h.id)
            &&& b.subrange(9, 17) == spec_u64_to_le_bytes(h.timestamp)
            &&& b.subrange(17, 25) == spec_u64_to_le_bytes(h.session_id)
            &&& b[25] == h.data_type
            &&& (h.priority == Priority::Ephemeral ==> b[26] == 0)
            &&& (h.priority == Priority::Normal ==> b[26] == 1)
            &&& (h.priority == Priority::Important ==> b[26] == 2)
            &&& (h.priority == Priority::Critical ==> b[26] == 3)
            &&& b.subrange(27, 29) == spec_u16_to_le_bytes(h.tags_len)
            &&& b.subrange(29, 33) == spec_u32_to_le_bytes(h.data_length)
            &&& b.subrange(33, 37) == spec_u32_to_le_bytes(h.crc32)
        }),
{
    lemma_auto_spec_u16_to_from_le_bytes();
    lemma_auto_spec_u32_to_from_le_bytes();
    lemma_auto_spec_u64_to_from_le_bytes();
    let b = spec_record_header_bytes(h);
    assert(b.subrange(1, 9) =~= spec_u64_to_le_bytes(h.id));
    assert(b.subrange(9, 17) =~= spec_u64_to_le_bytes(h.timestamp));
    assert(b.subrange(17, 25) =~= spec_u64_to_le_bytes(h.session_id));
    assert(b.subrange(27, 29) =~= spec_u16_to_le_bytes(h.tags_len));
    assert(b.subrange(29, 33) =~= spec_u32_to_le_bytes(h.data_length));
    assert(b.subrange(33, 37) =~= spec_u32_to_le_bytes(h.crc32));
}

/// Decoding the image of a header gives the header back.
pub proof fn lemma_record_header_round_trip(h: RecordHeader)
    ensures
        spec_record_header_bytes(h).len() == RECORD_HEADER_SIZE,
        spec_header_priority_ok(spec_record_header_bytes(h)),
        spec_parse_record_header(spec_record_header_bytes(h)) == Some(h),
{
    lemma_auto_spec_u16_to_from_le_bytes();
    lemma_auto_spec_u32_to_from_le_bytes();
    lemma_auto_spec_u64_to_from_le_bytes();
    let b = spec_record_header_bytes(h);
    assert(b.subrange(1, 9) =~= spec_u64_to_le_bytes(h.id));
    assert(b.subrange(9, 17) =~= spec_u64_to_le_bytes(h.timestamp));
    assert(b.subrange(17, 25) =~= spec_u64_to_le_bytes(h.session_id));
    assert(b.subrange(27, 29) =~= spec_u16_to_le_bytes(h.tags_len));
    assert(b.subrange(29, 33) =~= spec_u32_to_le_bytes(h.data_length));
    assert(b.subrange(33, 37) =~= spec_u32_to_le_bytes(h.crc32));
    assert(b[26] == h.priority.spec_to_u8());
}

/// Encoding the header a valid image holds gives the image back.
pub proof fn lemma_record_header_bytes_round_trip(b: Seq<u8>)
    requires
        b.len() == RECORD_HEADER_SIZE,
        spec_header_priority_ok(b),
    ensures
        spec_parse_record_header(b) is Some,
        spec_record_header_bytes(spec_parse_record_header(b)->0) == b,
{
    lemma_auto_spec_u16_to_from_le_bytes();
    lemma_auto_spec_u32_to_from_le_bytes();
    lemma_auto_spec_u64_to_from_le_bytes();
    let h = spec_parse_record_header(b)->0;
    assert(spec_record_header_bytes(h) =~= b.subrange(0, 1) + b.subrange(1, 9) + b.subrange(9, 17)
        + b.subrange(17, 25) + b.subrange(25, 27) + b.subrange(27, 29) + b.subrange(29, 33)
        + b.subrange(33, 37));
    assert(b =~= b.subrange(0, 1) + b.subrange(1, 9) + b.subrange(9, 17) + b.subrange(17, 25)
        + b.subrange(25, 27) + b.subrange(27, 29) + b.subrange(29, 33) + b.subrange(33, 37));
}

impl RecordHeader {
    /// Encodes the header in its fixed little-endian layout.
    pub fn to_bytes(&self) -> (buf: [u8; RECORD_HEADER_SIZE])
        ensures
            buf@ == spec_record_header_bytes(*self),
    {
        let mut v: Vec<u8> = Vec::new();
        v.push(self.record_type);
        push_u64_le(&mut v, self.id);
        push_u64_le(&mut v, self.timestamp);
        push_u64_le(&mut v, self.session_id);
        v.push(self.data_type);
        v.push(self.priority.to_u8());
        push_u16_le(&mut v, self.tags_len);
        push_u32_le(&mut v, self.data_length);
        push_u32_le(&mut v, self.crc32);
        proof {
            lemma_record_header_round_trip(*self);
            assert(v@ =~= spec_record_header_bytes(*self));
        }
        vec_to_array::<RECORD_HEADER_SIZE>(&v)
    }

    /// Number of bytes after the header that the record's tags and payload take.
    pub fn body_len(&self) -> (n: u64)
        ensures
            n == self.tags_len + self.data_length,
    {
        self.tags_len as u64 + self.data_length as u64
    }

    /// Decodes a header image. The priority byte must encode a priority.
    pub fn from_bytes(buf: &[u8; RECORD_HEADER_SIZE]) -> (h: RecordHeader)
        requires
            spec_header_priority_ok(buf@),
        ensures
            spec_parse_record_header(buf@) == Some(h),
    {
        record_header_from_slice(buf.as_slice())
    }
}

/// Decodes the header image held by a 37-byte slice whose priority byte
/// encodes a priority.
pub fn record_header_from_slice(s: &[u8]) -> (h: RecordHeader)
    requires
        s@.len() == RECORD_HEADER_SIZE,
        spec_header_priority_ok(s@),
    ensures
        spec_parse_record_header(s@) == Some(h),
{
    let record_type = s[0];
    let id = read_u64_le(s, 1);
    let timestamp = read_u64_le(s, 9);
    let session_id = read_u64_le(s, 17);
    let data_type = s[25];
    let priority = match Priority::from_u8(s[26]) {
        Some(p) => p,
        None => Priority::Normal,
    };
    let tags_len = read_u16_le(s, 27);
    let data_length = read_u32_le(s, 29);
    let crc32 = read_u32_le(s, 33);
    RecordHeader {
        record_type,
        id,
        timestamp,
        session_id,
        data_type,
        priority,
        tags_len,
        data_length,
        crc32,
    }
}

pub const FILE_MAGIC_SIZE: usize = 4;
pub const FILE_VERSION_SIZE: usize = 2;
pub const FILE_FLAGS_SIZE: usize = 2;
pub const FILE_RECORD_COUNT_SIZE: usize = 8;
pub const FILE_TOTAL_RECORDS_SIZE: usize = 8;
pub const FILE_DATA_SIZE_SIZE: usize = 8;
pub const FILE_NEXT_ID_SIZE: usize = 8;
pub const FILE_CHECKSUM_SIZE: usize = 4;
pub const FILE_HEADER_SIZE: usize = 64;

/// Number of header bytes the header checksum covers.
pub const FILE_CHECKSUMMED_SIZE: usize = 40;

/// Header at the start of the store file.
#[derive(Debug, Clone, PartialEq, Eq)]
pub struct FileHeader {
    pub magic: [u8; 4],
    pub version: u16,
    pub flags: u16,
    pub record_count: u64,
    pub total_records: u64,
    pub data_size: u64,
    pub next_id: u64,
    pub checksum: u32,
}

/// The magic bytes as a sequence.
pub open spec fn spec_magic() -> Seq<u8> {
    seq![0x41u8, 0x43u8, 0x44u8, 0x42u8]
}

/// The first 40 bytes of the file header image: every field but the checksum.
pub open spec fn spec_file_header_prefix(h: FileHeader) -> Seq<u8> {
    h.magic@ + spec_u16_to_le_bytes(h.version) + spec_u16_to_le_bytes(h.flags)
        + spec_u64_to_le_bytes(h.record_count) + spec_u64_to_le_bytes(h.total_records)
        + spec_u64_to_le_bytes(h.data_size) + spec_u64_to_le_bytes(h.next_id)
}

/// The 64-byte file header image: the prefix, the checksum, then 20 reserved zero bytes.
pub open spec fn spec_file_header_bytes(h: FileHeader) -> Seq<u8> {
    spec_file_header_prefix(h) + spec_u32_to_le_bytes(h.checksum) + Seq::new(20, |i: int| 0u8)
}

/// The fields a 64-byte image holds, whatever they are.
pub open spec fn spec_file_header_fields(b: Seq<u8>) -> FileHeader {
    FileHeader {
        magic: [b[0], b[1], b[2], b[3]],
        version: spec_u16_from_le_bytes(b.subrange(4, 6)),
        flags: spec_u16_from_le_bytes(b.subrange(6, 8)),
        record_count: spec_u64_from_le_bytes(b.subrange(8, 16)),
        total_records: spec_u64_from_le_bytes(b.subrange(16, 24)),
        data_size: spec_u64_from_le_bytes(b.subrange(24, 32)),
        next_id: spec_u64_from_le_bytes(b.subrange(32, 40)),
        checksum: spec_u32_from_le_bytes(b.subrange(40, 44)),
    }
}

/// What decoding a header image yields, given the checksum computed over its
/// first 40 bytes: wrong magic first, then a checksum that does not match.
pub open spec fn spec_decode_file_header_with(b: Seq<u8>, computed: u32) -> Result<FileHeader, AnchorError> {
    if b.subrange(0, 4) != spec_magic() {
        Err(AnchorError::InvalidMagic)
    } else if computed != spec_file_header_fields(b).checksum {
        Err(AnchorError::ChecksumMismatch)
    } else {
        Ok(spec_file_header_fields(b))
    }
}

/// What decoding a header image yields.
pub open spec fn spec_decode_file_header(b: Seq<u8>) -> Result<FileHeader, AnchorError> {
    spec_decode_file_header_with(b, crc32_ieee(b.subrange(0, 40)))
}

/// The header with its checksum set over its other fields.
pub open spec fn spec_sealed(h: FileHeader) -> FileHeader {
    FileHeader { checksum: crc32_ieee(spec_file_header_prefix(h)), ..h }
}

/// Each field of a file header image lies at its fixed offset,
/// little-endian: magic at 0..4, version at 4..6, flags at 6..8, record
/// count at 8..16, total records at 16..24, data size at 24..32, next id at
/// 32..40, checksum at 40..44, zeros at 44..64. Decoding reads the fields
/// back from those offsets.
pub proof fn lemma_file_header_offsets(h: FileHeader, b: Seq<u8>)
    ensures
        ({
            let e = spec_file_header_bytes(h);
            &&& e.len() == 64
            &&& e.subrange(0, 4) == h.magic@
            &&& e.subrange(4, 6) == spec_u16_to_le_bytes(h.version)
            &&& e.subrange(6, 8) == spec_u16_to_le_bytes(h.flags)
            &&& e.subrange(8, 16) == spec_u64_to_le_bytes(h.record_count)
            &&& e.subrange(16, 24) == spec_u64_to_le_bytes(h.total_records)
            &&& e.subrange(24, 32) == spec_u64_to_le_bytes(h.data_size)
            &&& e.subrange(32, 40) == spec_u64_to_le_bytes(h.next_id)
            &&& e.subrange(40, 44) == spec_u32_to_le_bytes(h.checksum)
            &&& forall|i: int| 44 <= i < 64 ==> e[i] == 0
        }),
        b.len() == 64 ==> {
            let f = spec_file_header_fields(b);
            &&& f.magic@ == b.subrange(0, 4)
            &&& spec_u16_to_le_bytes(f.version) == b.subrange(4, 6)
            &&& spec_u16_to_le_bytes(f.flags) == b.subrange(6, 8)
            &&& spec_u64_to_le_bytes(f.record_count) == b.subrange(8, 16)
            &&& spec_u64_to_le_bytes(f.total_records) == b.subrange(16, 24)
            &&& spec_u64_to_le_bytes(f.data_size) == b.subrange(24, 32)
            &&& spec_u64_to_le_bytes(f.next_id) == b.subrange(32, 40)
            &&& spec_u32_to_le_bytes(f.checksum) == b.subrange(40, 44)
        },
{
    lemma_auto_spec_u16_to_from_le_bytes();
    lemma_auto_spec_u32_to_from_le_bytes();
    lemma_auto_spec_u64_to_from_le_bytes();
    let e = spec_file_header_bytes(h);
    assert(e.subrange(0, 4) =~= h.magic@);
    assert(e.subrange(4, 6) =~= spec_u16_to_le_bytes(h.version));
    assert(e.subrange(6, 8) =~= spec_u16_to_le_bytes(h.flags));
    assert(e.subrange(8, 16) =~= spec_u64_to_le_bytes(h.record_count));
    assert(e.subrange(16, 24) =~= spec_u64_to_le_bytes(h.total_records));
    assert(e.subrange(24, 32) =~= spec_u64_to_le_bytes(h.data_size));
    assert(e.subrange(32, 40) =~= spec_u64_to_le_bytes(h.next_id));
    assert(e.subrange(40, 44) =~= spec_u32_to_le_bytes(h.checksum));
    if b.len() == 64 {
        let f = spec_file_header_fields(b);
        assert(f.magic@ =~= b.subrange(0, 4));
    }
}

/// The prefix and the fields of a header image agree both ways.
pub proof fn lemma_file_header_layout(h: FileHeader)
    ensures
        spec_file_header_prefix(h).len() == FILE_CHECKSUMMED_SIZE,
        spec_file_header_bytes(h).len() == FILE_HEADER_SIZE,
        spec_file_header_bytes(h).subrange(0, 40) == spec_file_header_prefix(h),
        spec_file_header_fields(spec_file_header_bytes(h)) == h,
{
    lemma_auto_spec_u16_to_from_le_bytes();
    lemma_auto_spec_u32_to_from_le_bytes();
    lemma_auto_spec_u64_to_from_le_bytes();
    let b = spec_file_header_bytes(h);
    assert(b.subrange(0, 40) =~= spec_file_header_prefix(h));
    assert(b.subrange(4, 6) =~= spec_u16_to_le_bytes(h.version));
    assert(b.subrange(6, 8) =~= spec_u16_to_le_bytes(h.flags));
    assert(b.subrange(8, 16) =~= spec_u64_to_le_bytes(h.record_count));
    assert(b.subrange(16, 24) =~= spec_u64_to_le_bytes(h.total_records));
    assert(b.subrange(24, 32) =~= spec_u64_to_le_bytes(h.data_size));
    assert(b.subrange(32, 40) =~= spec_u64_to_le_bytes(h.next_id));
    assert(b.subrange(40, 44) =~= spec_u32_to_le_bytes(h.checksum));
    let f = spec_file_header_fields(b);
    assert(f.magic@ =~= h.magic@);
    assert(f.magic == h.magic);
}

/// A header written by `to_bytes` decodes back to itself: the magic is kept
/// and the checksum it was sealed with matches its other fields.
pub proof fn lemma_file_header_round_trip(h: FileHeader)
    requires
        h.magic@ == spec_magic(),
    ensures
        spec_decode_file_header(spec_file_header_bytes(spec_sealed(h))) == Ok::<FileHeader, AnchorError>(spec_sealed(h)),
{
    let s = spec_sealed(h);
    lemma_file_header_layout(s);
    let b = spec_file_header_bytes(s);
    assert(b.subrange(0, 4) =~= spec_magic());
    assert(spec_file_header_prefix(s) =~= spec_file_header_prefix(h));
}

/// Whether the first four bytes are the magic bytes.
fn magic_matches(s: &[u8]) -> (r: bool)
    requires
        s@.len() >= 4,
    ensures
        r == (s@.subrange(0, 4) == spec_magic()),
{
    let r = s[0] == MAGIC_BYTES[0] && s[1] == MAGIC_BYTES[1] && s[2] == MAGIC_BYTES[2] && s[3] == MAGIC_BYTES[3];
    if r {
        assert(s@.subrange(0, 4) =~= spec_magic());
    } else {
        assert(s@.subrange(0, 4) != spec_magic()) by {
            if s@.subrange(0, 4) == spec_magic() {
                assert(s@[0] == s@.subrange(0, 4)[0]);
                assert(s@[1] == s@.subrange(0, 4)[1]);
                assert(s@[2] == s@.subrange(0, 4)[2]);
                assert(s@[3] == s@.subrange(0, 4)[3]);
            }
        }
    }
    r
}

impl FileHeader {
    /// A fresh header of the given version: no records, next id 1, checksum 0.
    pub fn new(version: u16) -> (h: FileHeader)
        ensures
            h.magic@ == spec_magic(),
            h.version == version,
            h.flags == 0,
            h.record_count == 0,
            h.total_records == 0,
            h.data_size == 0,
            h.next_id == 1,
            h.checksum == 0,
    {
        FileHeader {
            magic: MAGIC_BYTES,
            version,
            flags: 0,
            record_count: 0,
            total_records: 0,
            data_size: 0,
            next_id: 1,
            checksum: 0,
        }
    }

    /// The 40 checksummed bytes of the header.
    fn prefix_bytes(&self) -> (v: Vec<u8>)
        ensures
            v@ == spec_file_header_prefix(*self),
    {
        let mut v: Vec<u8> = Vec::new();
        v.push(self.magic[0]);
        v.push(self.magic[1]);
        v.push(self.magic[2]);
        v.push(self.magic[3]);
        push_u16_le(&mut v, self.version);
        push_u16_le(&mut v, self.flags);
        push_u64_le(&mut v, self.record_count);
        push_u64_le(&mut v, self.total_records);
        push_u64_le(&mut v, self.data_size);
        push_u64_le(&mut v, self.next_id);
        assert(v@ =~= spec_file_header_prefix(*self));
        v
    }

    /// CRC32 over the first 40 bytes of the header.
    fn calculate_checksum(&self) -> (c: u32)
        ensures
            c == crc32_ieee(spec_file_header_prefix(*self)),
    {
        let v = self.prefix_bytes();
        crc32(v.as_slice())
    }

    /// Seals the header with its checksum and encodes it; bytes 44..64 are zero.
    pub fn to_bytes(&mut self) -> (buf: [u8; FILE_HEADER_SIZE])
        ensures
            *final(self) == spec_sealed(*old(self)),
            buf@ == spec_file_header_bytes(*final(self)),
    {
        self.checksum = self.calculate_checksum();
        let mut v = self.prefix_bytes();
        push_u32_le(&mut v, self.checksum);
        let mut i: usize = 0;
        while i < 20
            invariant
                i <= 20,
                v@ == spec_file_header_prefix(*self) + spec_u32_to_le_bytes(self.checksum) + Seq::new(i as nat, |j: int| 0u8),
            decreases 20 - i,
        {
            v.push(0u8);
            i = i + 1;
            assert(v@ =~= spec_file_header_prefix(*self) + spec_u32_to_le_bytes(self.checksum) + Seq::new(i as nat, |j: int| 0u8));
        }
        proof {
            lemma_file_header_layout(*self);
        }
        vec_to_array::<FILE_HEADER_SIZE>(&v)
    }

    /// Decodes a header image, given the CRC32 computed over its first 40
    /// bytes: `InvalidMagic` when the magic bytes differ, else
    /// `ChecksumMismatch` when the stored checksum differs from `computed`.
    pub fn from_bytes_with_crc(buf: &[u8; FILE_HEADER_SIZE], computed: u32) -> (r: Result<FileHeader, AnchorError>)
        ensures
            r == spec_decode_file_header_with(buf@, computed),
    {
        let s = buf.as_slice();
        if !magic_matches(s) {
            return Err(AnchorError::InvalidMagic);
        }
        let magic = [s[0], s[1], s[2], s[3]];
        let header = FileHeader {
            magic,
            version: read_u16_le(s, 4),
            flags: read_u16_le(s, 6),
            record_count: read_u64_le(s, 8),
            total_records: read_u64_le(s, 16),
            data_size: read_u64_le(s, 24),
            next_id: read_u64_le(s, 32),
            checksum: read_u32_le(s, 40),
        };
        assert(header.magic@ =~= spec_file_header_fields(buf@).magic@);
        if computed != header.checksum {
            return Err(AnchorError::ChecksumMismatch);
        }
        Ok(header)
    }

    /// Decodes a header image, checking the magic bytes and then the checksum.
    pub fn from_bytes(buf: &[u8; FILE_HEADER_SIZE]) -> (r: Result<FileHeader, AnchorError>)
        ensures
            r == spec_decode_file_header(buf@),
    {
        let s = buf.as_slice();
        if !magic_matches(s) {
            return Err(AnchorError::InvalidMagic);
        }
        let computed = crc32(vstd::slice::slice_subrange(s, 0, FILE_CHECKSUMMED_SIZE));
        FileHeader::from_bytes_with_crc(buf, computed)
    }
}

} // verus!
