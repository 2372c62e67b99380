//! Laws of the scan, proved over the same spec functions that the decoder,
//! the page scanner and the iterator are specified with.

use crate::bytes::{le16, le32};
use crate::chunk::{RecAt, ScanModel, spec_scan};
use crate::journal::spec_journal;
use crate::name::name_units;
use crate::record::{HEADER_LEN, spec_fields};
use vstd::prelude::*;

verus! {

/// True when `x` is a whole number of `p`s.
pub open spec fn is_multiple_of(x: int, p: int) -> bool {
    exists|k: int| x == #[trigger] (k * p)
}

/// Within one page, records are found at strictly increasing offsets, each
/// lying between the scan's start and the page's end.
pub proof fn lemma_scan_offsets(b: Seq<u8>, end: int, pos: int)
    ensures
        ({
            let es = spec_scan(b, end, pos).entries;
            &&& forall|i: int|
                0 <= i < es.len() ==> pos <= (#[trigger] es[i]).offset && es[i].offset
                    + HEADER_LEN <= end
            &&& forall|i: int, j: int|
                0 <= i < j < es.len() ==> es[i].offset < es[j].offset
        }),
    decreases end - pos,
{
    if pos + HEADER_LEN > end {
    } else if le32(b, pos) == 0 {
    } else if le16(b, pos + 4) != 2 {
    } else if le32(b, pos) < HEADER_LEN || pos + le32(b, pos) > end {
    } else if le16(b, pos + 58) + le16(b, pos + 56) > le32(b, pos) {
    } else {
        let rl = le32(b, pos) as int;
        lemma_scan_offsets(b, end, pos + rl);
        let es = spec_scan(b, end, pos).entries;
        let rest = spec_scan(b, end, pos + rl).entries;
        assert(es.len() == 1 + rest.len());
        assert(es[0].offset == pos);
        assert(forall|i: int| 1 <= i < es.len() ==> #[trigger] es[i] == rest[i - 1]);
    }
}

/// Order preservation: a whole scan yields records at strictly increasing
/// offsets, every one of them at or past the scan's starting page and
/// wholly before the end of the source.
pub proof fn lemma_order_preservation(b: Seq<u8>, page: int, start: int)
    ensures
        ({
            let es = spec_journal(b, page, start).entries;
            &&& forall|i: int|
                0 <= i < es.len() ==> start <= (#[trigger] es[i]).offset && es[i].offset
                    + HEADER_LEN <= b.len()
            &&& forall|i: int, j: int|
                0 <= i < j < es.len() ==> es[i].offset < es[j].offset
        }),
    decreases b.len() - start,
{
    if page < 1 || start < 0 || start >= b.len() {
    } else {
        let end = if start + page <= b.len() {
            start + page
        } else {
            b.len() as int
        };
        let s = spec_scan(b, end, start);
        lemma_scan_offsets(b, end, start);
        if s.fatal {
        } else if start + page >= b.len() {
        } else {
            lemma_order_preservation(b, page, start + page);
            let es = spec_journal(b, page, start).entries;
            let rest = spec_journal(b, page, start + page).entries;
            assert(es.len() == s.entries.len() + rest.len());
            assert(forall|i: int|
                0 <= i < s.entries.len() ==> #[trigger] es[i] == s.entries[i]);
            assert(forall|i: int|
                s.entries.len() <= i < es.len() ==> #[trigger] es[i] == rest[i
                    - s.entries.len()]);
        }
    }
}

/// Two byte sources that agree up to `end` carry the same code units in
/// any name span below `end`.
proof fn lemma_units_agree(b1: Seq<u8>, b2: Seq<u8>, start: int, count: int, end: int)
    requires
        0 <= start,
        0 <= count,
        start + 2 * count <= end,
        forall|k: int| 0 <= k < end ==> b1[k] == b2[k],
    ensures
        name_units(b1, start, count) == name_units(b2, start, count),
{
    assert forall|j: int| 0 <= j < count implies name_units(b1, start, count)[j] == name_units(
        b2,
        start,
        count,
    )[j] by {
        assert(b1[start + 2 * j] == b2[start + 2 * j]);
        assert(b1[start + 2 * j + 1] == b2[start + 2 * j + 1]);
    }
    assert(name_units(b1, start, count) =~= name_units(b2, start, count));
}

/// A page scan reads no byte at or past its `end`: two sources that agree
/// below `end` scan alike.
proof fn lemma_scan_agree(b1: Seq<u8>, b2: Seq<u8>, end: int, pos: int)
    requires
        0 <= pos,
        end <= b1.len(),
        end <= b2.len(),
        forall|k: int| 0 <= k < end ==> b1[k] == b2[k],
    ensures
        spec_scan(b1, end, pos) == spec_scan(b2, end, pos),
    decreases end - pos,
{
    if pos + HEADER_LEN > end {
        assert(spec_scan(b1, end, pos) =~= spec_scan(b2, end, pos));
    } else {
        assert forall|k: int| pos <= k < end implies b1[k] == b2[k] by {}
        assert(le32(b1, pos) == le32(b2, pos));
        assert(le16(b1, pos + 4) == le16(b2, pos + 4));
        assert(le16(b1, pos + 56) == le16(b2, pos + 56));
        assert(le16(b1, pos + 58) == le16(b2, pos + 58));
        if le32(b1, pos) == 0 {
            assert(spec_scan(b1, end, pos) =~= spec_scan(b2, end, pos));
        } else if le16(b1, pos + 4) != 2 {
            assert(spec_scan(b1, end, pos) =~= spec_scan(b2, end, pos));
        } else if le32(b1, pos) < HEADER_LEN || pos + le32(b1, pos) > end {
            assert(spec_scan(b1, end, pos) =~= spec_scan(b2, end, pos));
        } else if le16(b1, pos + 58) + le16(b1, pos + 56) > le32(b1, pos) {
            assert(spec_scan(b1, end, pos) =~= spec_scan(b2, end, pos));
        } else {
            let rl = le32(b1, pos) as int;
            let fno = le16(b1, pos + 58) as int;
            let fnl = le16(b1, pos + 56) as int;
            lemma_units_agree(b1, b2, pos + fno, fnl / 2, end);
            assert(spec_fields(b1, pos) =~= spec_fields(b2, pos));
            lemma_scan_agree(b1, b2, end, pos + rl);
            assert(spec_scan(b1, end, pos) =~= spec_scan(b2, end, pos));
        }
    }
}

/// Once fewer bytes than a header remain past `start`, the rest of the
/// scan finds nothing and ends quietly, however many pages it spans.
proof fn lemma_journal_tail_short(b: Seq<u8>, page: int, start: int)
    requires
        b.len() - start < HEADER_LEN,
    ensures
        spec_journal(b, page, start) == (ScanModel {
            entries: Seq::<RecAt>::empty(),
            fatal: false,
        }),
    decreases b.len() - start,
{
    if page < 1 || start < 0 || start >= b.len() {
        assert(spec_journal(b, page, start) =~= ScanModel {
            entries: Seq::<RecAt>::empty(),
            fatal: false,
        });
    } else {
        let end = if start + page <= b.len() {
            start + page
        } else {
            b.len() as int
        };
        assert(start + HEADER_LEN > end);
        if start + page >= b.len() {
        } else {
            lemma_journal_tail_short(b, page, start + page);
        }
        assert(spec_journal(b, page, start) =~= ScanModel {
            entries: Seq::<RecAt>::empty(),
            fatal: false,
        });
    }
}

/// Appending `tail` to a source whose length `start` has not yet reached,
/// where whole pages tile the distance between them, changes nothing about
/// the scan from `start` as long as the tail cannot hold a header.
proof fn lemma_journal_append(b: Seq<u8>, tail: Seq<u8>, page: int, start: int)
    requires
        page >= 1,
        0 <= start <= b.len(),
        is_multiple_of(b.len() - start, page),
        tail.len() < HEADER_LEN,
    ensures
        spec_journal(b + tail, page, start) == spec_journal(b, page, start),
    decreases b.len() - start,
{
    let b2 = b + tail;
    if start >= b.len() {
        lemma_journal_tail_short(b2, page, start);
        assert(spec_journal(b, page, start) =~= ScanModel {
            entries: Seq::<RecAt>::empty(),
            fatal: false,
        });
    } else {
        let k = choose|k: int| b.len() - start == #[trigger] (k * page);
        assert(k >= 1) by (nonlinear_arith)
            requires
                b.len() - start == k * page,
                b.len() - start > 0,
                page >= 1,
        {}
        assert(b.len() - start >= page) by (nonlinear_arith)
            requires
                b.len() - start == k * page,
                k >= 1,
                page >= 1,
        {}
        let end = start + page;
        assert(end <= b.len());
        assert(end <= b2.len());
        assert forall|j: int| 0 <= j < end implies b2[j] == b[j] by {}
        lemma_scan_agree(b2, b, end, start);
        assert(b.len() - (start + page) == (k - 1) * page) by (nonlinear_arith)
            requires
                b.len() - start == k * page,
        {}
        lemma_journal_append(b, tail, page, start + page);
        if start + page >= b.len() {
            if start + page >= b2.len() {
                assert(spec_journal(b2, page, start) =~= spec_journal(b, page, start));
            } else {
                lemma_journal_tail_short(b2, page, start + page);
                assert(spec_journal(b2, page, start) =~= spec_journal(b, page, start));
            }
        } else {
            assert(spec_journal(b2, page, start) =~= spec_journal(b, page, start));
        }
    }
}

/// Truncation resilience: a journal whose page-aligned body is followed by
/// a partial trailer too short to hold a record header yields exactly the
/// records of the body, and the trailing bytes surface no failure.
pub proof fn lemma_truncation_resilience(b: Seq<u8>, tail: Seq<u8>, page: int)
    requires
        page >= 1,
        is_multiple_of(b.len() as int, page),
        tail.len() < HEADER_LEN,
    ensures
        spec_journal(b + tail, page, 0).entries == spec_journal(b, page, 0).entries,
        spec_journal(b + tail, page, 0).fatal == spec_journal(b, page, 0).fatal,
{
    lemma_journal_append(b, tail, page, 0);
}

/// A complete version-2 record, valid against the whole source, sits at
/// `pos`.
pub open spec fn valid_record_at(b: Seq<u8>, pos: int) -> bool {
    &&& 0 <= pos
    &&& pos + HEADER_LEN <= b.len()
    &&& le16(b, pos + 4) == 2
    &&& le32(b, pos) >= HEADER_LEN
    &&& pos + le32(b, pos) <= b.len()
    &&& le16(b, pos + 58) + le16(b, pos + 56) <= le32(b, pos)
}

/// No multiple of `page` falls strictly inside the span of `rl` bytes at
/// `pos`: a record of that span straddles no page boundary.
pub open spec fn fits_in_page(page: int, pos: int, rl: int) -> bool {
    forall|k: int| !(pos < #[trigger] (k * page) && k * page < pos + rl)
}

/// Valid records tile the source back to back from `pos` to its very end,
/// and none of them straddles a boundary between `page`-sized pages.
pub open spec fn packed_from(b: Seq<u8>, page: int, pos: int) -> bool
    decreases b.len() - pos,
{
    if pos == b.len() {
        true
    } else if pos < b.len() && valid_record_at(b, pos) && le32(b, pos) >= HEADER_LEN && pos
        + le32(b, pos) <= b.len() && fits_in_page(page, pos, le32(b, pos) as int) {
        packed_from(b, page, pos + le32(b, pos))
    } else {
        false
    }
}

/// The records of the tiling that start before `end`, each at its offset.
pub open spec fn packed_upto(b: Seq<u8>, pos: int, end: int) -> Seq<RecAt>
    decreases b.len() - pos,
{
    if pos < end && pos < b.len() && valid_record_at(b, pos) && le32(b, pos) >= HEADER_LEN && pos
        + le32(b, pos) <= b.len() {
        seq![RecAt { offset: pos, rec: spec_fields(b, pos) }] + packed_upto(
            b,
            pos + le32(b, pos),
            end,
        )
    } else {
        Seq::empty()
    }
}

/// Scanning one page of a packed source finds exactly the records of the
/// tiling that start inside it, and nothing in it is fatal.
proof fn lemma_scan_packed(b: Seq<u8>, page: int, pos: int, end: int)
    requires
        page >= 1,
        packed_from(b, page, pos),
        0 <= pos <= end,
        end <= b.len(),
        end == b.len() || is_multiple_of(end, page),
    ensures
        spec_scan(b, end, pos).fatal == false,
        spec_scan(b, end, pos).entries == packed_upto(b, pos, end),
    decreases b.len() - pos,
{
    if pos == b.len() {
        assert(spec_scan(b, end, pos).entries =~= packed_upto(b, pos, end));
    } else if pos == end {
        assert(spec_scan(b, end, pos).entries =~= packed_upto(b, pos, end));
    } else {
        let rl = le32(b, pos) as int;
        if pos + rl > end {
            assert(end != b.len());
            let ke = choose|k: int| end == #[trigger] (k * page);
            assert(!(pos < ke * page && ke * page < pos + rl));
            assert(false);
        }
        lemma_scan_packed(b, page, pos + rl, end);
        assert(spec_scan(b, end, pos).entries =~= packed_upto(b, pos, end));
    }
}

/// The tiling can be cut at any page boundary `mid`: the walk passes
/// through `mid` exactly, and its records split into those before and
/// those after.
proof fn lemma_packed_split(b: Seq<u8>, page: int, pos: int, mid: int)
    requires
        page >= 1,
        packed_from(b, page, pos),
        0 <= pos <= mid <= b.len(),
        mid == b.len() || is_multiple_of(mid, page),
    ensures
        packed_from(b, page, mid),
        packed_upto(b, pos, b.len() as int) == packed_upto(b, pos, mid) + packed_upto(
            b,
            mid,
            b.len() as int,
        ),
    decreases b.len() - pos,
{
    if pos == b.len() {
        assert(packed_upto(b, pos, b.len() as int) =~= packed_upto(b, pos, mid) + packed_upto(
            b,
            mid,
            b.len() as int,
        ));
    } else if pos == mid {
        assert(packed_upto(b, pos, mid) =~= Seq::<RecAt>::empty());
        assert(packed_upto(b, pos, b.len() as int) =~= packed_upto(b, pos, mid) + packed_upto(
            b,
            mid,
            b.len() as int,
        ));
    } else {
        let rl = le32(b, pos) as int;
        if pos + rl > mid {
            assert(mid != b.len());
            let km = choose|k: int| mid == #[trigger] (k * page);
            assert(!(pos < km * page && km * page < pos + rl));
            assert(false);
        }
        lemma_packed_split(b, page, pos + rl, mid);
        assert(packed_upto(b, pos, b.len() as int) =~= packed_upto(b, pos, mid) + packed_upto(
            b,
            mid,
            b.len() as int,
        ));
    }
}

/// A packed source is decoded in full: the whole scan is the tiling's
/// record list, in layout order, and nothing in it is fatal.
pub proof fn lemma_journal_yields_layout(b: Seq<u8>, page: int, start: int)
    requires
        page >= 1,
        0 <= start <= b.len(),
        is_multiple_of(start, page),
        packed_from(b, page, start),
    ensures
        spec_journal(b, page, start).fatal == false,
        spec_journal(b, page, start).entries == packed_upto(b, start, b.len() as int),
    decreases b.len() - start,
{
    if start >= b.len() {
        assert(spec_journal(b, page, start).entries =~= packed_upto(b, start, b.len() as int));
    } else {
        let end = if start + page <= b.len() {
            start + page
        } else {
            b.len() as int
        };
        let ks = choose|k: int| start == #[trigger] (k * page);
        assert((ks + 1) * page == ks * page + page) by (nonlinear_arith) {}
        assert(end == b.len() || is_multiple_of(end, page));
        lemma_scan_packed(b, page, start, end);
        if start + page >= b.len() {
            assert(end == b.len());
        } else {
            lemma_packed_split(b, page, start, end);
            lemma_journal_yields_layout(b, page, end);
            assert(spec_journal(b, page, start).entries =~= packed_upto(
                b,
                start,
                b.len() as int,
            ));
        }
    }
}

/// Boundaries of pages whose size is a whole multiple of `p1` are a
/// subset of the `p1` boundaries, so a tiling packed for `p1`-sized pages
/// is packed for the coarser pages too.
pub proof fn lemma_packing_survives_coarser_pages(b: Seq<u8>, p1: int, p2: int, pos: int)
    requires
        p1 >= 1,
        is_multiple_of(p2, p1),
        packed_from(b, p1, pos),
    ensures
        packed_from(b, p2, pos),
    decreases b.len() - pos,
{
    if pos == b.len() {
    } else {
        let rl = le32(b, pos) as int;
        let m = choose|k: int| p2 == #[trigger] (k * p1);
        assert forall|k: int| !(pos < #[trigger] (k * p2) && k * p2 < pos + rl) by {
            assert(k * p2 == (k * m) * p1) by (nonlinear_arith)
                requires
                    p2 == m * p1,
            {}
            assert(!(pos < (k * m) * p1 && (k * m) * p1 < pos + rl));
        }
        lemma_packing_survives_coarser_pages(b, p1, p2, pos + rl);
    }
}

/// Chunk independence: over a packed source whose records straddle no
/// page boundary of either size, scans with the two page sizes decode the
/// same records, at the same offsets, and neither fails.
pub proof fn lemma_chunk_independence(b: Seq<u8>, p1: int, p2: int)
    requires
        p1 >= 1,
        p2 >= 1,
        packed_from(b, p1, 0),
        packed_from(b, p2, 0),
    ensures
        spec_journal(b, p1, 0).entries == spec_journal(b, p2, 0).entries,
        spec_journal(b, p1, 0).fatal == false,
        spec_journal(b, p2, 0).fatal == false,
{
    assert(0 == 0 * p1) by (nonlinear_arith) {}
    assert(0 == 0 * p2) by (nonlinear_arith) {}
    lemma_journal_yields_layout(b, p1, 0);
    lemma_journal_yields_layout(b, p2, 0);
}

} // verus!
