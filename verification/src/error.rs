//! The errors the store reports.

use vstd::prelude::*;

verus! {

/// Errors of the store's file format and records.
#[derive(Debug)]
pub enum AnchorError {
    /// File not having expected magic bytes
    InvalidMagic,
    /// File format version is unsupported or mismatched
    InvalidVersion,
    /// Data integrity check (CRC32) failed
    ChecksumMismatch,
    /// Record is corrupted/malformed
    DataCorrupted,
    /// Record with the specified ID was not found
    RecordNotFound,
    /// An I/O failure, described by its message
    Io(String),
}

} // verus!
