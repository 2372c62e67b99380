//! The journal session: a single-use parser handle over an in-memory byte
//! source, and the lazy iterator it turns into, which visits the source
//! page by page and yields decoded records in on-disk order.

use crate::UsnError;
use crate::chunk::{RecAt, ScanModel, UsnEntry, scan_chunk, spec_scan};
use vstd::prelude::*;

verus! {

/// The journal's usual allocation granularity, used as the page size when
/// the caller does not choose one.
pub const DEFAULT_PAGE_SIZE: usize = 4096;

/// Everything a whole scan of the source yields: the records of every page
/// visited in order, each page scanned from its start, and whether the
/// scan ends on a record of an unsupported version instead of running out
/// of pages. A page that scans empty contributes nothing; the scan ends
/// quietly once `start` reaches the end of the source.
pub open spec fn spec_journal(b: Seq<u8>, page: int, start: int) -> ScanModel
    decreases b.len() - start,
{
    if page < 1 || start < 0 || start >= b.len() {
        ScanModel { entries: Seq::empty(), fatal: false }
    } else {
        let end = if start + page <= b.len() { start + page } else { b.len() as int };
        let s = spec_scan(b, end, start);
        if s.fatal {
            ScanModel { entries: s.entries, fatal: true }
        } else if start + page >= b.len() {
            ScanModel { entries: s.entries, fatal: false }
        } else {
            let rest = spec_journal(b, page, start + page);
            ScanModel { entries: s.entries + rest.entries, fatal: rest.fatal }
        }
    }
}

struct ParserInner {
    source_name: String,
    data: Vec<u8>,
    page_size: usize,
}

/// A handle over one byte source, good for exactly one scan: asking it for
/// a records iterator consumes it, and a second request is refused.
pub struct UsnParser {
    state: Option<ParserInner>,
}

impl UsnParser {
    /// True once the handle has given out its iterator.
    pub closed spec fn consumed(self) -> bool {
        self.state is None
    }

    /// The label the handle will attach to every record.
    pub closed spec fn source(self) -> Seq<char> {
        match self.state {
            Some(inner) => inner.source_name@,
            None => Seq::empty(),
        }
    }

    /// The bytes of the journal the handle owns.
    pub closed spec fn data(self) -> Seq<u8> {
        match self.state {
            Some(inner) => inner.data@,
            None => Seq::empty(),
        }
    }

    /// The page size the scan will use.
    pub closed spec fn page(self) -> int {
        match self.state {
            Some(inner) => inner.page_size as int,
            None => 0,
        }
    }

    /// Makes a fresh handle over `data`, scanning with the default page
    /// size; `source_name` labels every record the scan yields.
    pub fn new(source_name: String, data: Vec<u8>) -> (r: UsnParser)
        ensures
            !r.consumed(),
            r.source() == source_name@,
            r.data() == data@,
            r.page() == DEFAULT_PAGE_SIZE as int,
    {
        UsnParser::with_page_size(source_name, data, DEFAULT_PAGE_SIZE)
    }

    /// Makes a fresh handle over `data`, scanning in pages of `page_size`
    /// bytes.
    pub fn with_page_size(source_name: String, data: Vec<u8>, page_size: usize) -> (r: UsnParser)
        ensures
            !r.consumed(),
            r.source() == source_name@,
            r.data() == data@,
            r.page() == page_size as int,
    {
        UsnParser { state: Some(ParserInner { source_name, data, page_size }) }
    }

    /// Turns the handle into the one records iterator it may produce. The
    /// first request always succeeds, and the iterator will yield exactly
    /// the records of the whole scan, in order; every later request fails
    /// with `AlreadyUsed`.
    pub fn records(&mut self) -> (r: Result<RecordsIterator, UsnError>)
        ensures
            final(self).consumed(),
            old(self).consumed() ==> r == Err::<RecordsIterator, UsnError>(UsnError::AlreadyUsed),
            !old(self).consumed() ==> r is Ok,
            !old(self).consumed() ==> {
                let it = r->Ok_0;
                &&& it.wf()
                &&& it.source() == old(self).source()
                &&& it.remaining() == spec_journal(old(self).data(), old(self).page(), 0).entries
                &&& it.ends_in_error() == spec_journal(old(self).data(), old(self).page(), 0).fatal
            },
    {
        match self.state.take() {
            None => Err(UsnError::AlreadyUsed),
            Some(inner) => {
                let it = RecordsIterator {
                    source_name: inner.source_name,
                    data: inner.data,
                    page_size: inner.page_size,
                    next_start: 0,
                    pending: Vec::new(),
                    fatal: false,
                    done: false,
                };
                proof {
                    assert(it.pending@.map_values(|e: UsnEntry| e@) =~= Seq::<RecAt>::empty());
                    assert(it.remaining() =~= spec_journal(it.data@, it.page_size as int, 0)
                        .entries);
                }
                Ok(it)
            },
        }
    }
}

/// A forward-only, single-pass iterator over the decoded records of one
/// journal. It owns the byte source for the rest of the scan; once it
/// reports the end, it stays ended.
pub struct RecordsIterator {
    source_name: String,
    data: Vec<u8>,
    page_size: usize,
    next_start: usize,
    pending: Vec<UsnEntry>,
    fatal: bool,
    done: bool,
}

impl RecordsIterator {
    /// The label attached to every record yielded.
    pub closed spec fn source(self) -> Seq<char> {
        self.source_name@
    }

    /// The records not yet yielded, in the order they will come.
    pub closed spec fn remaining(self) -> Seq<RecAt> {
        if self.done {
            Seq::empty()
        } else {
            self.pending@.map_values(|e: UsnEntry| e@) + (if self.fatal {
                Seq::empty()
            } else {
                spec_journal(self.data@, self.page_size as int, self.next_start as int).entries
            })
        }
    }

    /// True when, after the remaining records, the scan will report an
    /// unsupported record version instead of a quiet end.
    pub closed spec fn ends_in_error(self) -> bool {
        !self.done && (self.fatal || spec_journal(
            self.data@,
            self.page_size as int,
            self.next_start as int,
        ).fatal)
    }

    /// The iterator's records all carry its source label, and its cursor
    /// sits within the source.
    pub closed spec fn wf(self) -> bool {
        &&& forall|i: int|
            0 <= i < self.pending@.len() ==> (#[trigger] self.pending@[i]).source@
                == self.source_name@
        &&& self.next_start <= self.data@.len()
    }

    /// Hands out the first pending record.
    fn take_front(&mut self) -> (e: UsnEntry)
        requires
            old(self).wf(),
            !old(self).done,
            old(self).pending@.len() > 0,
        ensures
            final(self).wf(),
            final(self).source() == old(self).source(),
            e@ == old(self).remaining()[0],
            e.source@ == old(self).source(),
            final(self).remaining() == old(self).remaining().drop_first(),
            final(self).ends_in_error() == old(self).ends_in_error(),
    {
        let ghost pre = *self;
        let e = self.pending.remove(0);
        proof {
            assert(pre.remaining()[0] == e@);
            assert(self.remaining() =~= pre.remaining().drop_first());
        }
        e
    }

    /// Reads and scans the page at the cursor, making its records pending.
    fn refill(&mut self)
        requires
            old(self).wf(),
            !old(self).done,
            !old(self).fatal,
            old(self).pending@.len() == 0,
            old(self).page_size >= 1,
            old(self).next_start < old(self).data@.len(),
        ensures
            final(self).wf(),
            !final(self).done,
            final(self).source() == old(self).source(),
            final(self).remaining() == old(self).remaining(),
            final(self).ends_in_error() == old(self).ends_in_error(),
            final(self).data@ == old(self).data@,
            final(self).page_size == old(self).page_size,
            final(self).next_start > old(self).next_start,
    {
        let ghost pre = *self;
        let len = self.data.len();
        let end = if len - self.next_start <= self.page_size {
            len
        } else {
            self.next_start + self.page_size
        };
        let (entries, fatal) = scan_chunk(&self.data, end, self.next_start, &self.source_name);
        self.pending = entries;
        self.fatal = fatal;
        self.next_start = end;
        proof {
            let b = self.data@;
            let page = self.page_size as int;
            let s = spec_scan(b, end as int, pre.next_start as int);
            assert(spec_journal(b, page, pre.next_start as int) == (if s.fatal {
                ScanModel { entries: s.entries, fatal: true }
            } else if pre.next_start + page >= b.len() {
                ScanModel { entries: s.entries, fatal: false }
            } else {
                let rest = spec_journal(b, page, pre.next_start + page);
                ScanModel { entries: s.entries + rest.entries, fatal: rest.fatal }
            }));
            assert(self.remaining() =~= pre.remaining());
        }
    }

    /// Yields the next record of the scan, `Ok(None)` once the source is
    /// exhausted, or `Err(UnsupportedVersion)` where a record of another
    /// version cuts the scan short; after either of the last two the
    /// iterator is terminal and keeps answering `Ok(None)`.
    pub fn next(&mut self) -> (r: Result<Option<UsnEntry>, UsnError>)
        requires
            old(self).wf(),
        ensures
            final(self).wf(),
            final(self).source() == old(self).source(),
            old(self).remaining().len() > 0 ==> {
                &&& r is Ok
                &&& r->Ok_0 is Some
                &&& r->Ok_0->0@ == old(self).remaining()[0]
                &&& r->Ok_0->0.source@ == old(self).source()
                &&& final(self).remaining() == old(self).remaining().drop_first()
                &&& final(self).ends_in_error() == old(self).ends_in_error()
            },
            old(self).remaining().len() == 0 && old(self).ends_in_error() ==> {
                &&& r == Err::<Option<UsnEntry>, UsnError>(UsnError::UnsupportedVersion)
                &&& final(self).remaining().len() == 0
                &&& !final(self).ends_in_error()
            },
            old(self).remaining().len() == 0 && !old(self).ends_in_error() ==> {
                &&& r == Ok::<Option<UsnEntry>, UsnError>(None)
                &&& final(self).remaining().len() == 0
                &&& !final(self).ends_in_error()
            },
    {
        if self.done {
            return Ok(None);
        }
        if self.pending.len() > 0 {
            let e = self.take_front();
            return Ok(Some(e));
        }
        loop
            invariant
                self.wf(),
                !self.done,
                self.pending@.len() == 0,
                self.remaining() == old(self).remaining(),
                self.ends_in_error() == old(self).ends_in_error(),
                self.source_name@ == old(self).source(),
            decreases self.data@.len() - self.next_start,
        {
            if self.fatal {
                self.done = true;
                proof {
                    assert(old(self).remaining() =~= Seq::<RecAt>::empty());
                }
                return Err(UsnError::UnsupportedVersion);
            }
            let len = self.data.len();
            if self.page_size == 0 || self.next_start >= len {
                self.done = true;
                proof {
                    assert(old(self).remaining() =~= Seq::<RecAt>::empty());
                }
                return Ok(None);
            }
            self.refill();
            if self.pending.len() > 0 {
                let e = self.take_front();
                return Ok(Some(e));
            }
        }
    }
}

} // verus!
