//! Scanning one page of the journal: successive records from the start of
//! the page until its padding, a zero-length sentinel, or a malformed
//! record ends it.

use crate::UsnError;
use crate::bytes::{le16, le32};
use crate::record::{HEADER_LEN, RecordModel, UsnRecordV2, spec_fields, spec_decode, decode_record};
use vstd::prelude::*;

verus! {

/// A decoded record together with where it came from: `source` is the
/// caller's label for the byte source, `offset` the byte position of the
/// record's header within it.
#[derive(Clone, Debug, PartialEq)]
pub struct UsnEntry {
    pub source: String,
    pub offset: u64,
    pub record: UsnRecordV2,
}

/// A record at its byte offset.
#[verifier::ext_equal]
pub ghost struct RecAt {
    pub offset: int,
    pub rec: RecordModel,
}

impl View for UsnEntry {
    type V = RecAt;

    open spec fn view(&self) -> RecAt {
        RecAt { offset: self.offset as int, rec: self.record@ }
    }
}

/// What scanning part of a page yields: the records found, in on-disk
/// order, and whether the scan stopped on a record of an unsupported
/// version (which is fatal to the whole journal scan).
#[verifier::ext_equal]
pub ghost struct ScanModel {
    pub entries: Seq<RecAt>,
    pub fatal: bool,
}

/// The records found from `pos` on, reading no byte at or past `end`.
/// Scanning stops, quietly, when too few bytes are left for a header, when
/// a zero `record_length` marks the early end of the page, or when a
/// record is truncated or oversized (the rest of the page is abandoned);
/// it stops fatally on a record whose version is not 2.
pub open spec fn spec_scan(b: Seq<u8>, end: int, pos: int) -> ScanModel
    decreases end - pos,
{
    if pos + HEADER_LEN > end {
        ScanModel { entries: Seq::empty(), fatal: false }
    } else if le32(b, pos) == 0 {
        ScanModel { entries: Seq::empty(), fatal: false }
    } else if le16(b, pos + 4) != 2 {
        ScanModel { entries: Seq::empty(), fatal: true }
    } else if le32(b, pos) < HEADER_LEN || pos + le32(b, pos) > end {
        ScanModel { entries: Seq::empty(), fatal: false }
    } else if le16(b, pos + 58) + le16(b, pos + 56) > le32(b, pos) {
        ScanModel { entries: Seq::empty(), fatal: false }
    } else {
        let rest = spec_scan(b, end, pos + le32(b, pos));
        ScanModel {
            entries: seq![RecAt { offset: pos, rec: spec_fields(b, pos) }] + rest.entries,
            fatal: rest.fatal,
        }
    }
}

/// Scans the page bytes `[pos, end)` of `data` and returns the records
/// found, each labeled with `source` and its offset within `data`, and
/// whether the scan ended on an unsupported record version.
pub fn scan_chunk(data: &Vec<u8>, end: usize, pos: usize, source: &String) -> (r: (
    Vec<UsnEntry>,
    bool,
))
    requires
        pos <= end,
        end <= data@.len(),
    ensures
        ({
            let m = spec_scan(data@, end as int, pos as int);
            &&& r.0@.map_values(|e: UsnEntry| e@) == m.entries
            &&& forall|i: int| 0 <= i < r.0@.len() ==> (#[trigger] r.0@[i]).source@ == source@
            &&& r.1 == m.fatal
        }),
{
    let bn: usize = data.len();
    let ghost full = spec_scan(data@, end as int, pos as int);
    let mut out: Vec<UsnEntry> = Vec::new();
    let mut p: usize = pos;
    let mut fatal: bool = false;
    let mut done: bool = false;
    proof {
        assert(out@.map_values(|e: UsnEntry| e@) =~= Seq::<RecAt>::empty());
        assert(full.entries =~= out@.map_values(|e: UsnEntry| e@) + spec_scan(
            data@,
            end as int,
            p as int,
        ).entries);
    }
    while !done
        invariant
            pos <= p,
            p <= end,
            end <= data@.len(),
            data@.len() <= usize::MAX,
            forall|i: int|
                0 <= i < out@.len() ==> (#[trigger] out@[i]).source@ == source@,
            !done ==> fatal == false,
            !done ==> full.entries == out@.map_values(|e: UsnEntry| e@) + spec_scan(
                data@,
                end as int,
                p as int,
            ).entries,
            !done ==> full.fatal == spec_scan(data@, end as int, p as int).fatal,
            done ==> full.entries == out@.map_values(|e: UsnEntry| e@),
            done ==> full.fatal == fatal,
        decreases end - p + (if done { 0int } else { 1int }),
    {
        let ghost here = spec_scan(data@, end as int, p as int);
        if end - p < HEADER_LEN {
            done = true;
        } else {
            let rl_peek = crate::bytes::read_le32(data, p);
            if rl_peek == 0 {
                done = true;
            } else {
                match decode_record(data, end, p) {
                    Ok(rec) => {
                        let rl = rec.record_length as usize;
                        proof {
                            assert(spec_decode(data@, end as int, p as int) is Ok);
                            assert(rec@ == spec_fields(data@, p as int));
                            assert(here.entries == seq![
                                RecAt { offset: p as int, rec: spec_fields(data@, p as int) },
                            ] + spec_scan(data@, end as int, p as int + rl).entries);
                        }
                        let entry = UsnEntry {
                            source: source.clone(),
                            offset: p as u64,
                            record: rec,
                        };
                        proof {
                            assert(entry@ == RecAt {
                                offset: p as int,
                                rec: spec_fields(data@, p as int),
                            });
                        }
                        out.push(entry);
                        p = p + rl;
                        proof {
                            assert(out@.map_values(|e: UsnEntry| e@) =~= out@.drop_last()
                                .map_values(|e: UsnEntry| e@).push(entry@));
                            assert(full.entries =~= out@.map_values(|e: UsnEntry| e@) + spec_scan(
                                data@,
                                end as int,
                                p as int,
                            ).entries);
                        }
                    },
                    Err(UsnError::UnsupportedVersion) => {
                        proof {
                            assert(spec_decode(data@, end as int, p as int) == Err::<
                                RecordModel,
                                UsnError,
                            >(UsnError::UnsupportedVersion));
                            assert(le16(data@, p as int + 4) != 2);
                        }
                        fatal = true;
                        done = true;
                    },
                    Err(_) => {
                        proof {
                            assert(spec_decode(data@, end as int, p as int) is Err);
                        }
                        done = true;
                    },
                }
            }
        }
    }
    (out, fatal)
}

} // verus!
