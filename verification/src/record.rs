//! The USN record, version 2: its on-disk layout and its decoder.
//!
//! A record starts with a 60-byte little-endian header; bytes 56..60 give
//! the byte length and offset, within the record, of the UTF-16 file name.

use crate::UsnError;
use crate::bytes::{le16, le32, le64, read_le16, read_le32, read_le64};
use crate::name::{name_units, read_name_units, utf16_lossy, decode_utf16_lossy};
use vstd::prelude::*;

verus! {

/// Bytes in the fixed part of a version-2 record, up through the file-name
/// length and offset fields.
pub const HEADER_LEN: usize = 60;

/// An NTFS master-file-table reference: an entry slot and the generation
/// ("sequence") of its reuse.
#[derive(Clone, Copy, Debug, PartialEq, Eq, Structural)]
pub struct FileReference {
    pub entry: u64,
    pub sequence: u64,
}

/// The reference packed into a raw on-disk 64-bit value: the low 48 bits
/// are the entry, the high 16 the sequence.
pub open spec fn fileref_of(raw: u64) -> FileReference {
    FileReference { entry: raw & 0xFFFF_FFFF_FFFF, sequence: raw >> 48 }
}

/// Splits a raw 64-bit file reference into entry and sequence.
pub fn split_fileref(raw: u64) -> (r: FileReference)
    ensures
        r == fileref_of(raw),
{
    FileReference { entry: raw & 0xFFFF_FFFF_FFFF, sequence: raw >> 48 }
}

/// One decoded version-2 USN record.
#[derive(Clone, Debug, PartialEq)]
pub struct UsnRecordV2 {
    /// Total on-disk length of the record, name included.
    pub record_length: u32,
    pub major_version: u16,
    pub minor_version: u16,
    /// The changed file or directory.
    pub file_reference: FileReference,
    /// The directory holding it.
    pub parent_reference: FileReference,
    /// The record's offset/identifier within the journal.
    pub usn: u64,
    /// Windows FILETIME of the change, kept raw.
    pub timestamp: u64,
    /// Bitflags describing the kinds of change, kept raw.
    pub reason: u32,
    /// Bitflags describing the originator of the change, kept raw.
    pub source_info: u32,
    pub security_id: u32,
    /// Bitflags of the file's attributes, kept raw.
    pub file_attributes: u32,
    /// Byte length of the on-disk name field.
    pub file_name_length: u16,
    /// Byte offset of the name field within the record.
    pub file_name_offset: u16,
    /// The name, decoded from little-endian UTF-16.
    pub file_name: String,
}

/// The mathematical image of a decoded record.
#[verifier::ext_equal]
pub ghost struct RecordModel {
    pub record_length: u32,
    pub major_version: u16,
    pub minor_version: u16,
    pub file_reference: FileReference,
    pub parent_reference: FileReference,
    pub usn: u64,
    pub timestamp: u64,
    pub reason: u32,
    pub source_info: u32,
    pub security_id: u32,
    pub file_attributes: u32,
    pub file_name_length: u16,
    pub file_name_offset: u16,
    pub file_name: Seq<char>,
}

impl View for UsnRecordV2 {
    type V = RecordModel;

    open spec fn view(&self) -> RecordModel {
        RecordModel {
            record_length: self.record_length,
            major_version: self.major_version,
            minor_version: self.minor_version,
            file_reference: self.file_reference,
            parent_reference: self.parent_reference,
            usn: self.usn,
            timestamp: self.timestamp,
            reason: self.reason,
            source_info: self.source_info,
            security_id: self.security_id,
            file_attributes: self.file_attributes,
            file_name_length: self.file_name_length,
            file_name_offset: self.file_name_offset,
            file_name: self.file_name@,
        }
    }
}

/// The record whose header starts at byte `pos`: every field read from its
/// documented little-endian position, the name decoded from the span the
/// header declares.
pub open spec fn spec_fields(b: Seq<u8>, pos: int) -> RecordModel {
    RecordModel {
        record_length: le32(b, pos),
        major_version: le16(b, pos + 4),
        minor_version: le16(b, pos + 6),
        file_reference: fileref_of(le64(b, pos + 8)),
        parent_reference: fileref_of(le64(b, pos + 16)),
        usn: le64(b, pos + 24),
        timestamp: le64(b, pos + 32),
        reason: le32(b, pos + 40),
        source_info: le32(b, pos + 44),
        security_id: le32(b, pos + 48),
        file_attributes: le32(b, pos + 52),
        file_name_length: le16(b, pos + 56),
        file_name_offset: le16(b, pos + 58),
        file_name: utf16_lossy(
            name_units(b, pos + le16(b, pos + 58), le16(b, pos + 56) as int / 2),
        ),
    }
}

/// What decoding one candidate record at `pos`, with bytes available up to
/// `end`, must return: the fields when the header fits, the version is 2,
/// the declared length covers at least the header and stays within `end`,
/// and the name span lies within the record; otherwise the error that the
/// first failing check calls for.
pub open spec fn spec_decode(b: Seq<u8>, end: int, pos: int) -> Result<RecordModel, UsnError> {
    if pos + HEADER_LEN > end {
        Err(UsnError::Truncated)
    } else if le16(b, pos + 4) != 2 {
        Err(UsnError::UnsupportedVersion)
    } else if le32(b, pos) < HEADER_LEN || pos + le32(b, pos) > end {
        Err(UsnError::Truncated)
    } else if le16(b, pos + 58) + le16(b, pos + 56) > le32(b, pos) {
        Err(UsnError::Truncated)
    } else {
        Ok(spec_fields(b, pos))
    }
}

/// Decodes one candidate record at `pos`, reading no byte at or past `end`.
/// The caller advances by the returned record's `record_length`.
pub fn decode_record(data: &Vec<u8>, end: usize, pos: usize) -> (r: Result<UsnRecordV2, UsnError>)
    requires
        pos <= end,
        end <= data@.len(),
    ensures
        (match spec_decode(data@, end as int, pos as int) {
            Ok(m) => r is Ok && r->Ok_0@ == m,
            Err(e) => r is Err && r->Err_0 == e,
        }),
{
    let bn: usize = data.len();
    if end - pos < HEADER_LEN {
        return Err(UsnError::Truncated);
    }
    let major = read_le16(data, pos + 4);
    if major != 2 {
        return Err(UsnError::UnsupportedVersion);
    }
    let record_length = read_le32(data, pos);
    if record_length < HEADER_LEN as u32 {
        return Err(UsnError::Truncated);
    }
    if record_length as usize > end - pos {
        return Err(UsnError::Truncated);
    }
    let file_name_length = read_le16(data, pos + 56);
    let file_name_offset = read_le16(data, pos + 58);
    if file_name_offset as usize + file_name_length as usize > record_length as usize {
        return Err(UsnError::Truncated);
    }
    let units = read_name_units(data, pos + file_name_offset as usize,
        file_name_length as usize / 2);
    let file_name = decode_utf16_lossy(&units);
    let rec = UsnRecordV2 {
        record_length,
        major_version: major,
        minor_version: read_le16(data, pos + 6),
        file_reference: split_fileref(read_le64(data, pos + 8)),
        parent_reference: split_fileref(read_le64(data, pos + 16)),
        usn: read_le64(data, pos + 24),
        timestamp: read_le64(data, pos + 32),
        reason: read_le32(data, pos + 40),
        source_info: read_le32(data, pos + 44),
        security_id: read_le32(data, pos + 48),
        file_attributes: read_le32(data, pos + 52),
        file_name_length,
        file_name_offset,
        file_name,
    };
    proof {
        assert(rec@ =~= spec_fields(data@, pos as int));
    }
    Ok(rec)
}

} // verus!
