//! Decoder for the NTFS USN change journal (update sequence number records,
//! version 2 layout).
//!
//! The journal is a sequence of fixed-size pages; each page holds zero or
//! more variable-length records. This crate decodes single records from raw
//! bytes, scans one page at a time, and iterates lazily over a whole journal
//! held in memory, yielding records in on-disk order. The surrounding I/O
//! (opening files, pulling pages from an arbitrary seekable source) is left
//! to the caller, which feeds plain byte buffers in.

pub mod bytes;
pub mod chunk;
pub mod journal;
pub mod laws;
pub mod name;
pub mod record;

use vstd::prelude::*;

verus! {

/// Failures of the decoder and of the journal session protocol.
#[derive(Clone, Copy, Debug, PartialEq, Eq, Structural)]
pub enum UsnError {
    /// The bytes at hand cannot hold a record: too few for a header, a
    /// declared length that is shorter than the header or runs past the
    /// available bytes, or a file-name span outside the record.
    Truncated,
    /// The record's major version is not 2.
    UnsupportedVersion,
    /// A parser handle was asked for a second records iterator.
    AlreadyUsed,
}

} // verus!
