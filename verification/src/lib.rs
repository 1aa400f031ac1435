//! An append-only memory store: records framed in a binary file with CRC32
//! checks, an in-memory index by id, and recovery by scanning the file.
//!
//! - `types`: constants, priorities, payload kinds, payloads, memory records.
//! - `record`: the record header and file header layouts.
//! - `tags`: the encoding of a memory's tags.
//! - `index`: the index of live records and the index file layout.
//! - `storage`: record framing, the read path and the recovery scan.
//! - `db`: the state of an open store, kept in step with its file image.

pub mod bytes;
pub mod checksum;
pub mod db;
pub mod error;
pub mod index;
pub mod record;
pub mod storage;
pub mod tags;
pub mod text;
pub mod types;
