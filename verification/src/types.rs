//! Shared constants and the value types of the store: priorities, payload
//! kinds, payloads and the memory records handed to and from callers.

use vstd::prelude::*;
use vstd::utf8::encode_utf8;

verus! {

/// Magic bytes ("ACDB") that open every store file.
pub const MAGIC_BYTES: [u8; 4] = [0x41u8, 0x43u8, 0x44u8, 0x42u8];

/// File format version.
pub const VERSION: u16 = 1;

/// Field sizes of the binary layouts.
pub const FIELD_ID_SIZE: usize = 8;
pub const FIELD_OFFSET_SIZE: usize = 8;
pub const FIELD_TIMESTAMP_SIZE: usize = 8;
pub const FIELD_SESSION_ID_SIZE: usize = 8;
pub const FIELD_DATA_LENGTH_SIZE: usize = 4;
pub const FIELD_TAGS_LEN_SIZE: usize = 2;
pub const FIELD_CRC32_SIZE: usize = 4;
pub const FIELD_DATA_TYPE_SIZE: usize = 1;
pub const FIELD_RECORD_TYPE_SIZE: usize = 1;
pub const FIELD_PRIORITY_SIZE: usize = 1;

/// Record types.
pub const RECORD_TYPE_DATA: u8 = 0x01;
pub const RECORD_TYPE_TOMBSTONE: u8 = 0x02;
pub const RECORD_TYPE_SUMMARY: u8 = 0x03;
pub const RECORD_TYPE_SNAPSHOT: u8 = 0x04;
pub const RECORD_TYPE_SCRATCHPAD: u8 = 0x05;

/// Priority level of a stored memory.
#[derive(Debug, Clone, Copy, PartialEq, Eq, Structural)]
pub enum Priority {
    Ephemeral,
    Normal,
    Important,
    Critical,
}

impl Priority {
    /// The byte that encodes this priority.
    pub open spec fn spec_to_u8(self) -> u8 {
        match self {
            Priority::Ephemeral => 0x00,
            Priority::Normal => 0x01,
            Priority::Important => 0x02,
            Priority::Critical => 0x03,
        }
    }

    /// The priority a byte encodes, if any.
    pub open spec fn spec_from_u8(value: u8) -> Option<Priority> {
        if value == 0x00 {
            Some(Priority::Ephemeral)
        } else if value == 0x01 {
            Some(Priority::Normal)
        } else if value == 0x02 {
            Some(Priority::Important)
        } else if value == 0x03 {
            Some(Priority::Critical)
        } else {
            None
        }
    }

    /// Encodes the priority as its byte.
    pub fn to_u8(self) -> (b: u8)
        ensures
            b == self.spec_to_u8(),
            Priority::spec_from_u8(b) == Some(self),
    {
        match self {
            Priority::Ephemeral => 0x00,
            Priority::Normal => 0x01,
            Priority::Important => 0x02,
            Priority::Critical => 0x03,
        }
    }

    /// Decodes a priority byte; `None` for a byte that encodes none.
    pub fn from_u8(value: u8) -> (p: Option<Priority>)
        ensures
            p == Priority::spec_from_u8(value),
            p is Some <==> value <= 0x03,
            p matches Some(q) ==> q.spec_to_u8() == value,
    {
        if value == 0x00 {
            Some(Priority::Ephemeral)
        } else if value == 0x01 {
            Some(Priority::Normal)
        } else if value == 0x02 {
            Some(Priority::Important)
        } else if value == 0x03 {
            Some(Priority::Critical)
        } else {
            None
        }
    }
}

impl Default for Priority {
    fn default() -> (p: Priority)
        ensures
            p == Priority::Normal,
    {
        Priority::Normal
    }
}

impl TryFrom<u8> for Priority {
    type Error = ();

    fn try_from(value: u8) -> (r: Result<Priority, ()>) {
        match Priority::from_u8(value) {
            Some(p) => Ok(p),
            None => Err(()),
        }
    }
}

impl vstd::std_specs::convert::TryFromSpecImpl<u8> for Priority {
    open spec fn obeys_try_from_spec() -> bool {
        true
    }

    open spec fn try_from_spec(value: u8) -> Result<Priority, ()> {
        match Priority::spec_from_u8(value) {
            Some(p) => Ok(p),
            None => Err(()),
        }
    }
}

/// Kind of payload a record carries.
#[derive(Debug, Clone, Copy, PartialEq, Eq, Structural)]
pub enum DataType {
    Bytes,
    Str,
    Json,
}

impl DataType {
    /// The byte that encodes this kind.
    pub open spec fn spec_to_u8(self) -> u8 {
        match self {
            DataType::Bytes => 0x00,
            DataType::Str => 0x01,
            DataType::Json => 0x02,
        }
    }

    /// The kind a byte encodes, if any.
    pub open spec fn spec_from_u8(value: u8) -> Option<DataType> {
        if value == 0x00 {
            Some(DataType::Bytes)
        } else if value == 0x01 {
            Some(DataType::Str)
        } else if value == 0x02 {
            Some(DataType::Json)
        } else {
            None
        }
    }

    /// Encodes the kind as its byte.
    pub fn to_u8(self) -> (b: u8)
        ensures
            b == self.spec_to_u8(),
            DataType::spec_from_u8(b) == Some(self),
    {
        match self {
            DataType::Bytes => 0x00,
            DataType::Str => 0x01,
            DataType::Json => 0x02,
        }
    }

    /// Decodes a kind byte; `None` for a byte that encodes none.
    pub fn from_u8(value: u8) -> (d: Option<DataType>)
        ensures
            d == DataType::spec_from_u8(value),
            d is Some <==> value <= 0x02,
            d matches Some(k) ==> k.spec_to_u8() == value,
    {
        if value == 0x00 {
            Some(DataType::Bytes)
        } else if value == 0x01 {
            Some(DataType::Str)
        } else if value == 0x02 {
            Some(DataType::Json)
        } else {
            None
        }
    }
}

impl TryFrom<u8> for DataType {
    type Error = ();

    fn try_from(value: u8) -> (r: Result<DataType, ()>) {
        match DataType::from_u8(value) {
            Some(d) => Ok(d),
            None => Err(()),
        }
    }
}

impl vstd::std_specs::convert::TryFromSpecImpl<u8> for DataType {
    open spec fn obeys_try_from_spec() -> bool {
        true
    }

    open spec fn try_from_spec(value: u8) -> Result<DataType, ()> {
        match DataType::spec_from_u8(value) {
            Some(d) => Ok(d),
            None => Err(()),
        }
    }
}

/// The priority bytes: 0 Ephemeral, 1 Normal, 2 Important, 3 Critical, and
/// no other byte encodes a priority; encoding then decoding gives the
/// priority back.
pub proof fn lemma_priority_bytes(p: Priority, b: u8)
    ensures
        p == Priority::Ephemeral <==> p.spec_to_u8() == 0,
        p == Priority::Normal <==> p.spec_to_u8() == 1,
        p == Priority::Important <==> p.spec_to_u8() == 2,
        p == Priority::Critical <==> p.spec_to_u8() == 3,
        Priority::spec_from_u8(p.spec_to_u8()) == Some(p),
        b == 0 ==> Priority::spec_from_u8(b) == Some(Priority::Ephemeral),
        b == 1 ==> Priority::spec_from_u8(b) == Some(Priority::Normal),
        b == 2 ==> Priority::spec_from_u8(b) == Some(Priority::Important),
        b == 3 ==> Priority::spec_from_u8(b) == Some(Priority::Critical),
        b > 3 ==> Priority::spec_from_u8(b) is None,
{
}

/// The data-type bytes: 0 Bytes, 1 Str, 2 Json, and no other byte encodes
/// a kind; encoding then decoding gives the kind back.
pub proof fn lemma_data_type_bytes(d: DataType, b: u8)
    ensures
        d == DataType::Bytes <==> d.spec_to_u8() == 0,
        d == DataType::Str <==> d.spec_to_u8() == 1,
        d == DataType::Json <==> d.spec_to_u8() == 2,
        DataType::spec_from_u8(d.spec_to_u8()) == Some(d),
        b == 0 ==> DataType::spec_from_u8(b) == Some(DataType::Bytes),
        b == 1 ==> DataType::spec_from_u8(b) == Some(DataType::Str),
        b == 2 ==> DataType::spec_from_u8(b) == Some(DataType::Json),
        b > 2 ==> DataType::spec_from_u8(b) is None,
{
}

/// A payload together with its kind.
#[derive(Debug, Clone, PartialEq, Eq)]
pub enum AnchorData {
    Bytes(Vec<u8>),
    Str(String),
    Json(String),
}

impl AnchorData {
    /// The kind of the payload.
    pub open spec fn spec_data_type(self) -> DataType {
        match self {
            AnchorData::Bytes(_) => DataType::Bytes,
            AnchorData::Str(_) => DataType::Str,
            AnchorData::Json(_) => DataType::Json,
        }
    }

    /// The bytes the payload is stored as: raw bytes as they are, text as UTF-8.
    pub open spec fn spec_bytes(self) -> Seq<u8> {
        match self {
            AnchorData::Bytes(b) => b@,
            AnchorData::Str(s) => encode_utf8(s@),
            AnchorData::Json(j) => encode_utf8(j@),
        }
    }

    pub fn data_type(&self) -> (d: DataType)
        ensures
            d == self.spec_data_type(),
    {
        match self {
            AnchorData::Bytes(_) => DataType::Bytes,
            AnchorData::Str(_) => DataType::Str,
            AnchorData::Json(_) => DataType::Json,
        }
    }

    /// Returns the bytes for storage.
    pub fn as_bytes(&self) -> (b: &[u8])
        ensures
            b@ == self.spec_bytes(),
    {
        match self {
            AnchorData::Bytes(b) => b.as_slice(),
            AnchorData::Str(s) => s.as_str().as_bytes(),
            AnchorData::Json(j) => j.as_str().as_bytes(),
        }
    }
}

/// Input for writing a memory; id and timestamp are assigned by the store.
pub struct MemoryInput {
    pub tags: Vec<String>,
    pub data: AnchorData,
    pub priority: Priority,
}

/// A memory as read back from the store, with every field populated.
pub struct MemoryRecord {
    pub id: u64,
    pub tags: Vec<String>,
    pub data: AnchorData,
    pub priority: Priority,
    pub timestamp: u64,
}

impl MemoryRecord {
    /// Builds a record from its five fields.
    pub fn from_parts(
        id: u64,
        tags: Vec<String>,
        data: AnchorData,
        priority: Priority,
        timestamp: u64,
    ) -> (r: MemoryRecord)
        ensures
            r.id == id,
            r.tags == tags,
            r.data == data,
            r.priority == priority,
            r.timestamp == timestamp,
    {
        MemoryRecord { id, tags, data, priority, timestamp }
    }
}

} // verus!
