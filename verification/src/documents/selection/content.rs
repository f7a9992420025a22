//! Paging of a fixed snapshot's content by count and by size. The caller
//! reads layer details and measures pages; the pager decides which record
//! and text offset come next, when a page's only layer must shrink, when a
//! layer moves to the next page, and where the next page starts.

use vstd::prelude::*;

use super::error::SelectionError;
use super::model::{ContentCursor, SessionId, SnapshotId};

verus! {

/// Rejection of a page size outside 1–128.
pub const BAD_LIMIT: &'static str = "内容页条数应为 1–128";

/// Rejection of a cursor of another session or snapshot.
pub const FOREIGN_CURSOR: &'static str = "游标不属于本快照";

/// Rejection of a cursor past the records.
pub const CURSOR_RANGE: &'static str = "内容游标越界";

/// Where a page resumes: a record and a UTF-16 offset into its text.
#[derive(Debug, Clone, Copy, PartialEq, Eq, Structural)]
pub struct Resume {
    pub record: u32,
    pub text_start: u32,
}

/// What the caller does next while filling a content page.
#[derive(Debug, Clone, Copy, PartialEq, Eq, Structural)]
pub enum PageStep {
    /// Read the details of record `record` from UTF-16 offset `text_start`,
    /// append them to the page, and report the text's continuation.
    Fetch { record: usize, text_start: u32 },
    /// Set the page's next cursor to `next` (record and text offset) and mark
    /// it truncated when there is one, measure the page, and report whether it fits.
    Measure { next: Option<Resume> },
    /// Shorten the text of the page's only layer and report its new continuation.
    Shorten,
    /// Drop the last layer if asked, set the next cursor to `next` (marked
    /// truncated when there is one) and measure the page a last time: it is
    /// the result if it fits, a size error otherwise.
    Finish { drop_last: bool, next: Option<Resume> },
    /// The page's only layer cannot be shortened to fit: the size error is the result.
    Fail,
}

/// The state of one content page being filled.
#[derive(Debug)]
pub struct ContentPager {
    len: usize,
    limit: u32,
    index: usize,
    text_start: u32,
    count: u32,
    next_text: Option<u32>,
    cursor: Option<Resume>,
}

/// Where the page continues after the layer of record `index` whose text
/// continues at `next_text`: the same record for a continued text, the next
/// record otherwise; none past the last record.
pub open spec fn continuation(len: usize, index: usize, next_text: Option<u32>) -> Option<Resume> {
    let next_index = if next_text is Some {
        index as int
    } else {
        index + 1
    };
    if next_index < len {
        Some(
            Resume {
                record: next_index as u32,
                text_start: match next_text {
                    Some(t) => t,
                    None => 0u32,
                },
            },
        )
    } else {
        None
    }
}

/// Content paging skips no record: after the layer of record `index`, the
/// page goes on in the same record when its text continues, else at the
/// start of the next record, and it ends only after the last record's text
/// is done.
pub proof fn continuation_skips_nothing(len: usize, index: usize, next_text: Option<u32>)
    requires
        index < len <= u32::MAX,
    ensures
        continuation(len, index, next_text) matches Some(r) ==> (r.record == index && next_text
            == Some(r.text_start)) || (r.record == index + 1 && r.text_start == 0 && next_text is None),
        continuation(len, index, next_text) is None <==> (next_text is None && index + 1 == len),
{
}

/// Whether a cursor belongs to the session and snapshot.
pub open spec fn owned(cursor: ContentCursor, session: SessionId, snapshot: SnapshotId) -> bool {
    cursor.session()@ == session@ && cursor.position().0 == snapshot
}

impl ContentPager {
    /// The number of records of the snapshot.
    pub closed spec fn records(&self) -> usize {
        self.len
    }

    /// The most layers the page may hold.
    pub closed spec fn limit(&self) -> u32 {
        self.limit
    }

    /// The record and text offset the page reads next.
    pub closed spec fn position(&self) -> (usize, u32) {
        (self.index, self.text_start)
    }

    /// The number of layers on the page.
    pub closed spec fn count(&self) -> u32 {
        self.count
    }

    /// The continuation of the last layer's text.
    pub closed spec fn pending_text(&self) -> Option<u32> {
        self.next_text
    }

    /// The page's next cursor as last set.
    pub closed spec fn cursor(&self) -> Option<Resume> {
        self.cursor
    }

    /// The page holds at most its limit, reads within the records, and any
    /// cursor names a record.
    pub closed spec fn wf(&self) -> bool {
        &&& self.len <= u32::MAX
        &&& 1 <= self.limit <= 128
        &&& self.count <= self.limit
        &&& self.index <= self.len
        &&& (self.index == self.len ==> self.text_start == 0)
        &&& (self.cursor matches Some(c) ==> c.record < self.len)
    }

    /// The step after a settled layer: the next record while the page has
    /// room and records remain, otherwise the finished page.
    pub open spec fn advance_spec(&self) -> PageStep {
        if self.position().0 < self.records() && self.count() < self.limit() {
            PageStep::Fetch { record: self.position().0, text_start: self.position().1 }
        } else {
            PageStep::Finish { drop_last: false, next: self.cursor() }
        }
    }

    /// The next step after a settled layer.
    fn advance(&self) -> (s: PageStep)
        ensures
            s == self.advance_spec(),
    {
        if self.index < self.len && self.count < self.limit {
            PageStep::Fetch { record: self.index, text_start: self.text_start }
        } else {
            PageStep::Finish { drop_last: false, next: self.cursor }
        }
    }

    /// Starts a page of at most `limit` layers over `len` records, from the
    /// first record or from `cursor`, which must belong to `session` and
    /// `snapshot` and name a record (or the end, without a text offset).
    pub fn start(
        len: usize,
        limit: u32,
        cursor: Option<&ContentCursor>,
        session: &SessionId,
        snapshot: SnapshotId,
    ) -> (r: Result<(ContentPager, PageStep), SelectionError>)
        requires
            len <= u32::MAX,
        ensures
            if limit == 0 || limit > 128 {
                r matches Err(SelectionError::InvalidInput(m)) && m@ == BAD_LIMIT@
            } else if cursor matches Some(c) && !owned(*c, *session, snapshot) {
                r matches Err(SelectionError::InvalidInput(m)) && m@ == FOREIGN_CURSOR@
            } else {
                let (index, text) = match cursor {
                    Some(c) => (c.position().1 as int, c.position().2),
                    None => (0int, 0u32),
                };
                if index > len || (index == len && text != 0) {
                    r matches Err(SelectionError::InvalidInput(m)) && m@ == CURSOR_RANGE@
                } else {
                    &&& r matches Ok((p, step))
                    &&& p.wf()
                    &&& p.records() == len
                    &&& p.limit() == limit
                    &&& p.position() == (index as usize, text)
                    &&& p.count() == 0
                    &&& p.cursor() is None
                    &&& step == p.advance_spec()
                }
            },
    {
        if limit == 0 || limit > 128 {
            return Err(SelectionError::InvalidInput(BAD_LIMIT));
        }
        let (index, text_start) = match cursor {
            None => (0usize, 0u32),
            Some(c) => {
                let (owner, id, record, text) = c.parts();
                if !owner.eq(session) || id.0 != snapshot.0 {
                    return Err(SelectionError::InvalidInput(FOREIGN_CURSOR));
                }
                (record as usize, text)
            },
        };
        if index > len || (index == len && text_start != 0) {
            return Err(SelectionError::InvalidInput(CURSOR_RANGE));
        }
        let pager = ContentPager {
            len,
            limit,
            index,
            text_start,
            count: 0,
            next_text: None,
            cursor: None,
        };
        let step = pager.advance();
        Ok((pager, step))
    }

    /// The caller appended the layer of the current record; its text
    /// continues at `next_text`, if it does. The page is measured with the
    /// continuation as its cursor.
    pub fn fetched(&mut self, next_text: Option<u32>) -> (s: PageStep)
        requires
            old(self).wf(),
            old(self).advance_spec() is Fetch,
        ensures
            final(self).wf(),
            final(self).records() == old(self).records(),
            final(self).limit() == old(self).limit(),
            final(self).position() == old(self).position(),
            final(self).count() == old(self).count() + 1,
            final(self).pending_text() == next_text,
            final(self).cursor() == continuation(old(self).records(), old(self).position().0, next_text),
            s == (PageStep::Measure { next: final(self).cursor() }),
    {
        self.count = self.count + 1;
        self.next_text = next_text;
        self.cursor = self.continuation();
        PageStep::Measure { next: self.cursor }
    }

    /// The continuation of the current record, as [`continuation`] states it.
    fn continuation(&self) -> (c: Option<Resume>)
        requires
            self.len <= u32::MAX,
            self.index < self.len,
        ensures
            c == continuation(self.len, self.index, self.next_text),
            c matches Some(x) ==> x.record < self.len,
    {
        let next_index = match self.next_text {
            Some(_) => self.index,
            None => self.index + 1,
        };
        if next_index < self.len {
            let text = match self.next_text {
                Some(t) => t,
                None => 0,
            };
            Some(Resume { record: next_index as u32, text_start: text })
        } else {
            None
        }
    }

    /// The caller measured the page with the last cursor. A fitting page
    /// settles the layer: a continued text ends the page, otherwise the next
    /// record follows. A page whose only layer overflows must shorten it; a
    /// later layer that overflows moves to the next page.
    pub fn measured(&mut self, fits: bool) -> (s: PageStep)
        requires
            old(self).wf(),
            old(self).count() >= 1,
            old(self).position().0 < old(self).records(),
            old(self).cursor() == continuation(old(self).records(), old(self).position().0, old(self).pending_text()),
        ensures
            final(self).wf(),
            final(self).records() == old(self).records(),
            final(self).limit() == old(self).limit(),
            if fits {
                let next_index = if old(self).pending_text() is Some {
                    old(self).position().0 as int
                } else {
                    old(self).position().0 + 1
                };
                let next_text = match old(self).pending_text() {
                    Some(t) => t,
                    None => 0u32,
                };
                &&& final(self).position() == (next_index as usize, next_text)
                &&& final(self).count() == old(self).count()
                &&& final(self).cursor() == old(self).cursor()
                &&& s == if next_text != 0 {
                    PageStep::Finish { drop_last: false, next: final(self).cursor() }
                } else {
                    final(self).advance_spec()
                }
            } else if old(self).count() == 1 {
                &&& s == PageStep::Shorten
                &&& final(self).position() == old(self).position()
                &&& final(self).count() == old(self).count()
                &&& final(self).cursor() == old(self).cursor()
            } else {
                &&& s == (PageStep::Finish {
                    drop_last: true,
                    next: Some(Resume { record: old(self).position().0 as u32, text_start: old(self).position().1 }),
                })
                &&& final(self).count() == old(self).count() - 1
                &&& final(self).position() == old(self).position()
                &&& final(self).cursor() == Some(Resume { record: old(self).position().0 as u32, text_start: old(self).position().1 })
            },
    {
        if fits {
            let next_index = match self.next_text {
                Some(_) => self.index,
                None => self.index + 1,
            };
            let next_text = match self.next_text {
                Some(t) => t,
                None => 0,
            };
            self.index = next_index;
            self.text_start = next_text;
            if next_text != 0 {
                return PageStep::Finish { drop_last: false, next: self.cursor };
            }
            return self.advance();
        }
        if self.count == 1 {
            return PageStep::Shorten;
        }
        self.count = self.count - 1;
        let next = Some(Resume { record: self.index as u32, text_start: self.text_start });
        self.cursor = next;
        PageStep::Finish { drop_last: true, next }
    }

    /// The caller tried to shorten the only layer's text: `Some` with its new
    /// continuation when it did, `None` when the text cannot shrink.
    pub fn shortened(&mut self, next_text: Option<u32>) -> (s: PageStep)
        requires
            old(self).wf(),
            old(self).count() == 1,
            old(self).position().0 < old(self).records(),
        ensures
            final(self).wf(),
            final(self).records() == old(self).records(),
            final(self).limit() == old(self).limit(),
            final(self).position() == old(self).position(),
            final(self).count() == old(self).count(),
            match next_text {
                None => s == PageStep::Fail && final(self).cursor() == old(self).cursor()
                    && final(self).pending_text() == old(self).pending_text(),
                Some(t) => {
                    &&& final(self).pending_text() == Some(t)
                    &&& final(self).cursor() == continuation(old(self).records(), old(self).position().0, Some(t))
                    &&& s == (PageStep::Measure { next: final(self).cursor() })
                },
            },
    {
        match next_text {
            None => PageStep::Fail,
            Some(t) => {
                self.next_text = Some(t);
                self.cursor = self.continuation();
                PageStep::Measure { next: self.cursor }
            },
        }
    }
}

} // verus!
