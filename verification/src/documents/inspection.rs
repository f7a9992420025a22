//! Bounded layer reads of a fixed revision: list pages in stacking order and
//! text pages by UTF-16 ranges of the source text, which never split a
//! surrogate pair. Serialising and size-checking the response is the caller's.

use vstd::prelude::*;

use crate::psd::{Bounds, LayerId, LayerKind};
use crate::text::{push_char, utf16_byte, utf16_byte_spec, utf16_of};

use super::error::DocumentError;

verus! {

/// Most layers in one list page.
pub const PAGE_LIMIT: u32 = 128;

/// Most UTF-16 units in one text page.
pub const TEXT_UNITS: u32 = 2048;

/// Most style runs of one kind that a text page may overlap.
pub const RUN_LIMIT: usize = 128;

/// Rejection of a page position or size out of range.
pub const BAD_PAGE: &'static str = "分页位置或数量越界";

/// Rejection of a text start past the source text.
pub const START_PAST_TEXT: &'static str = "文字起点超过原文";

/// Rejection of a text start inside a surrogate pair.
pub const START_SPLITS_PAIR: &'static str = "文字起点拆分 UTF-16 代理对";

/// Rejection of a text range that cannot be placed.
pub const BAD_RANGE: &'static str = "文字区间无效";

/// A layer tree summary; the name holds at most 256 Unicode scalars, and the
/// full design text is read on demand only.
#[derive(Debug, Clone)]
pub struct LayerSummary {
    pub id: LayerId,
    pub parent_id: Option<LayerId>,
    pub name: String,
    pub name_truncated: bool,
    pub kind: LayerKind,
    pub bounds: Bounds,
    pub visible: bool,
    pub effective_visible: bool,
    pub opacity: u8,
}

/// A page of the list in stacking order; `offset` is a normalised position,
/// not a PSD record number.
#[derive(Debug, Clone)]
pub struct LayerPage {
    pub offset: u32,
    pub total: u32,
    pub next_offset: Option<u32>,
    pub layers: Vec<LayerSummary>,
}

/// The first `n` characters of `s` (all of it when shorter).
pub open spec fn prefix_chars(s: Seq<char>, n: nat) -> Seq<char> {
    if s.len() <= n {
        s
    } else {
        s.take(n as int)
    }
}

/// The first `limit` characters of `text` and whether anything was cut.
pub fn truncate_chars(text: &str, limit: usize) -> (r: (String, bool))
    ensures
        r.0@ == prefix_chars(text@, limit as nat),
        r.1 == (text@.len() > limit),
{
    broadcast use vstd::string::axiom_spec_iter;

    let mut out = String::new();
    let mut count: usize = 0;
    for c in it: text.chars()
        invariant
            it.seq() == text@,
            count == it.index(),
            count <= limit,
            out@ == text@.take(count as int),
    {
        if count == limit {
            return (out, true);
        }
        proof {
            assert(c == text@[count as int]);
        }
        let mut buffer = String::new();
        push_char(&mut buffer, c);
        out.append(buffer.as_str());
        proof {
            assert(out@ =~= text@.take(count + 1));
        }
        count = count + 1;
    }
    proof {
        assert(text@.take(count as int) =~= text@);
    }
    (out, false)
}

impl LayerSummary {
    /// The summary of a layer: its facts, and its name cut to 256 Unicode
    /// scalars with a mark when something was cut.
    pub fn new(
        id: LayerId,
        parent_id: Option<LayerId>,
        name: &str,
        kind: LayerKind,
        bounds: Bounds,
        visible: bool,
        effective_visible: bool,
        opacity: u8,
    ) -> (s: LayerSummary)
        ensures
            s.id == id,
            s.parent_id == parent_id,
            s.name@ == prefix_chars(name@, 256),
            s.name_truncated == (name@.len() > 256),
            s.kind == kind,
            s.bounds == bounds,
            s.visible == visible,
            s.effective_visible == effective_visible,
            s.opacity == opacity,
    {
        let (short, truncated) = truncate_chars(name, 256);
        LayerSummary {
            id,
            parent_id,
            name: short,
            name_truncated: truncated,
            kind,
            bounds,
            visible,
            effective_visible,
            opacity,
        }
    }
}

/// The range of a list page over `total` layers: positions `offset..end` and
/// the next offset, or the refusal of a size out of 1–128 or an offset past the end.
pub fn page_range(total: usize, offset: u32, limit: u32) -> (r: Result<(usize, Option<u32>), DocumentError>)
    requires
        total <= u32::MAX,
    ensures
        if limit == 0 || limit > PAGE_LIMIT || offset > total {
            r matches Err(DocumentError::InvalidQuery(m)) && m@ == BAD_PAGE@
        } else {
            let end = if offset + limit < total {
                offset + limit
            } else {
                total as int
            };
            &&& r matches Ok((e, next))
            &&& e == end
            &&& next == if end < total {
                Some(end as u32)
            } else {
                None::<u32>
            }
        },
{
    if limit == 0 || limit > PAGE_LIMIT || offset as usize > total {
        return Err(DocumentError::InvalidQuery(BAD_PAGE));
    }
    let end = if (limit as usize) < total - offset as usize {
        offset as usize + limit as usize
    } else {
        total
    };
    let next = if end < total {
        Some(end as u32)
    } else {
        None
    };
    Ok((end, next))
}


/// The runs among `runs` that overlap the units `start..end`, in order.
pub open spec fn overlapping(runs: Seq<(u32, u32)>, start: u32, end: u32) -> Seq<(u32, u32)>
    decreases runs.len(),
{
    if runs.len() == 0 {
        runs
    } else if runs.last().1 > start && runs.last().0 < end {
        overlapping(runs.drop_last(), start, end).push(runs.last())
    } else {
        overlapping(runs.drop_last(), start, end)
    }
}

/// The overlapping runs of a prefix are a prefix of the overlapping runs.
proof fn lemma_overlapping_prefix(runs: Seq<(u32, u32)>, start: u32, end: u32, j: int)
    requires
        0 <= j <= runs.len(),
    ensures
        overlapping(runs.take(j), start, end).len() <= overlapping(runs, start, end).len(),
        forall|k: int|
            0 <= k < overlapping(runs.take(j), start, end).len() ==> #[trigger] overlapping(
                runs.take(j),
                start,
                end,
            )[k] == overlapping(runs, start, end)[k],
    decreases runs.len() - j,
{
    if j < runs.len() {
        lemma_overlapping_prefix(runs, start, end, j + 1);
        assert(runs.take(j + 1).drop_last() =~= runs.take(j));
        let small = overlapping(runs.take(j), start, end);
        let big = overlapping(runs.take(j + 1), start, end);
        assert forall|k: int| 0 <= k < small.len() implies #[trigger] small[k] == overlapping(
            runs,
            start,
            end,
        )[k] by {
            assert(small[k] == big[k]);
        }
    } else {
        assert(runs.take(j) =~= runs);
    }
}

/// The page end `end` shortened so that at most [`RUN_LIMIT`] runs of one
/// kind overlap the page: it stops before the next overlapping run.
pub open spec fn limit_by_runs(runs: Option<Seq<(u32, u32)>>, start: u32, end: u32) -> u32 {
    match runs {
        None => end,
        Some(rs) => {
            let ov = overlapping(rs, start, end);
            if ov.len() > RUN_LIMIT && ov[RUN_LIMIT as int].0 < end {
                ov[RUN_LIMIT as int].0
            } else {
                end
            }
        },
    }
}

/// The page end after limiting the runs of one kind, as [`limit_by_runs`] states it.
fn cut_end(runs: Option<&[(u32, u32)]>, start: u32, end: u32) -> (e: u32)
    ensures
        e == limit_by_runs(
            match runs {
                None => None::<Seq<(u32, u32)>>,
                Some(r) => Some(r@),
            },
            start,
            end,
        ),
{
    let rs = match runs {
        None => {
            return end;
        },
        Some(r) => r,
    };
    let mut count: usize = 0;
    let mut i: usize = 0;
    while i < rs.len()
        invariant
            runs == Some(rs),
            i <= rs@.len(),
            count == overlapping(rs@.take(i as int), start, end).len(),
            count <= RUN_LIMIT,
        decreases rs@.len() - i,
    {
        proof {
            assert(rs@.take(i + 1).drop_last() =~= rs@.take(i as int));
            assert(rs@.take(i + 1).last() == rs@[i as int]);
        }
        let (run_start, run_end) = rs[i];
        if run_end > start && run_start < end {
            if count == RUN_LIMIT {
                proof {
                    let before = overlapping(rs@.take(i as int), start, end);
                    assert(overlapping(rs@.take(i + 1), start, end) == before.push(rs@[i as int]));
                    lemma_overlapping_prefix(rs@, start, end, i + 1);
                    assert(overlapping(rs@.take(i + 1), start, end)[RUN_LIMIT as int] == rs@[i as int]);
                    assert(overlapping(rs@, start, end)[RUN_LIMIT as int] == rs@[i as int]);
                }
                return if run_start < end {
                    run_start
                } else {
                    end
                };
            }
            count = count + 1;
        }
        i = i + 1;
    }
    proof {
        assert(rs@.take(i as int) =~= rs@);
    }
    end
}

/// Positions of the runs that overlap the units `start..end`, in order.
pub fn overlapping_indices(runs: &[(u32, u32)], start: u32, end: u32) -> (v: Vec<usize>)
    ensures
        v@.map_values(|i: usize| runs@[i as int]) == overlapping(runs@, start, end),
        forall|k: int| 0 <= k < v@.len() ==> (#[trigger] v@[k]) < runs@.len(),
{
    let mut v: Vec<usize> = Vec::new();
    let mut i: usize = 0;
    while i < runs.len()
        invariant
            i <= runs@.len(),
            v@.map_values(|i: usize| runs@[i as int]) == overlapping(
                runs@.take(i as int),
                start,
                end,
            ),
            forall|k: int| 0 <= k < v@.len() ==> (#[trigger] v@[k]) < i,
        decreases runs@.len() - i,
    {
        proof {
            assert(runs@.take(i + 1).drop_last() =~= runs@.take(i as int));
            assert(runs@.take(i + 1).last() == runs@[i as int]);
        }
        let (run_start, run_end) = runs[i];
        if run_end > start && run_start < end {
            v.push(i);
        }
        proof {
            assert(v@.map_values(|i: usize| runs@[i as int]) =~= overlapping(
                runs@.take(i + 1),
                start,
                end,
            ));
        }
        i = i + 1;
    }
    proof {
        assert(runs@.take(i as int) =~= runs@);
    }
    v
}

/// The decided range of a text page: UTF-16 units `start..end`, their byte
/// range in the source text, and where the next page starts.
#[derive(Debug, Clone, Copy, PartialEq, Eq, Structural)]
pub struct TextWindow {
    pub start: u32,
    pub end: u32,
    pub begin_byte: usize,
    pub end_byte: usize,
    pub next_start: Option<u32>,
}

/// The unshortened end of a page from `start`: 2048 units on, or the text end.
pub open spec fn page_end(start: u32, length: u32) -> u32 {
    if start + TEXT_UNITS < length {
        (start + TEXT_UNITS) as u32
    } else {
        length
    }
}

/// What [`text_window`] answers.
pub open spec fn text_window_spec(
    text: Seq<char>,
    length: u32,
    start: u32,
    style: Option<Seq<(u32, u32)>>,
    paragraph: Option<Seq<(u32, u32)>>,
) -> Result<TextWindow, Seq<char>> {
    if start > length {
        Err(START_PAST_TEXT@)
    } else {
        let e = limit_by_runs(paragraph, start, limit_by_runs(style, start, page_end(start, length)));
        match utf16_byte_spec(text, start as nat) {
            None => Err(START_SPLITS_PAIR@),
            Some(b) => match utf16_byte_spec(text, e as nat) {
                Some(eb) => Ok(
                    TextWindow {
                        start,
                        end: e,
                        begin_byte: b as usize,
                        end_byte: eb as usize,
                        next_start: if e < length {
                            Some(e)
                        } else {
                            None
                        },
                    },
                ),
                None => match utf16_byte_spec(text, (e - 1) as nat) {
                    Some(eb) => Ok(
                        TextWindow {
                            start,
                            end: (e - 1) as u32,
                            begin_byte: b as usize,
                            end_byte: eb as usize,
                            next_start: if e - 1 < length {
                                Some((e - 1) as u32)
                            } else {
                                None
                            },
                        },
                    ),
                    None => Err(BAD_RANGE@),
                },
            },
        }
    }
}

/// The first character boundary is always at byte zero.
proof fn lemma_utf16_byte_zero(text: Seq<char>)
    ensures
        utf16_byte_spec(text, 0) is Some,
{
    assert(text.take(0) =~= Seq::<char>::empty());
    assert(utf16_of(text.take(0)).len() == 0);
}

/// Text pages abut: the page read from a page's `next_start` begins at that
/// page's end, in units and in bytes, so that following `next_start` from 0
/// reads the text without gap or overlap. The first page begins at byte 0,
/// and a page without `next_start` ends at the end of the text; when `length`
/// is the text's UTF-16 length, that is its last byte too.
pub proof fn text_pages_abut(
    text: Seq<char>,
    length: u32,
    start: u32,
    style: Option<Seq<(u32, u32)>>,
    paragraph: Option<Seq<(u32, u32)>>,
)
    ensures
        text_window_spec(text, length, 0, style, paragraph) matches Ok(w) ==> w.begin_byte == 0,
        text_window_spec(text, length, start, style, paragraph) matches Ok(w) ==> {
            &&& w.start == start
            &&& (w.next_start matches Some(n) ==> n == w.end && (text_window_spec(
                text,
                length,
                n,
                style,
                paragraph,
            ) matches Ok(w2) ==> w2.start == w.end && w2.begin_byte == w.end_byte))
            &&& (w.next_start is None ==> w.end == length && (length == utf16_of(text).len()
                && vstd::utf8::encode_utf8(text).len() <= usize::MAX ==> w.end_byte
                == vstd::utf8::encode_utf8(text).len()))
        },
{
    lemma_utf16_byte_zero(text);
    assert(text.take(0) =~= Seq::<char>::empty());
    assert(vstd::utf8::encode_utf8(text.take(0)).len() == 0);
    assert(utf16_byte_spec(text, 0) == Some(0nat)) by {
        let k = choose|k: int| 0 <= k <= text.len() && #[trigger] utf16_of(text.take(k)).len() == 0;
        if k > 0 {
            crate::text::lemma_utf16_prefix_grows(text, 0, k);
        }
        assert(text.take(k) =~= text.take(0));
    }
    let e0 = page_end(start, length);
    let e1 = limit_by_runs(style, start, e0);
    let e = limit_by_runs(paragraph, start, e1);
    assert(e <= length);
    if length == utf16_of(text).len() {
        assert(text.take(text.len() as int) =~= text);
        assert(utf16_byte_spec(text, length as nat) == Some(vstd::utf8::encode_utf8(text).len())) by {
            let k = choose|k: int| 0 <= k <= text.len() && #[trigger] utf16_of(text.take(k)).len()
                == length;
            if k < text.len() {
                crate::text::lemma_utf16_prefix_grows(text, k, text.len() as int);
            }
            assert(text.take(k) =~= text);
        }
    }
}

/// Decides one text page from `start`: at most 2048 units, shortened so
/// that at most 128 style runs and 128 paragraph runs of each kind overlap it
/// (style runs first); a page end inside a surrogate pair steps back one unit.
pub fn text_window(
    raw_text: &str,
    utf16_length: u32,
    start: u32,
    style_runs: Option<&[(u32, u32)]>,
    paragraph_runs: Option<&[(u32, u32)]>,
) -> (r: Result<TextWindow, DocumentError>)
    ensures
        match text_window_spec(
            raw_text@,
            utf16_length,
            start,
            match style_runs {
                None => None::<Seq<(u32, u32)>>,
                Some(s) => Some(s@),
            },
            match paragraph_runs {
                None => None::<Seq<(u32, u32)>>,
                Some(s) => Some(s@),
            },
        ) {
            Ok(w) => r == Ok::<TextWindow, DocumentError>(w),
            Err(m) => r matches Err(DocumentError::InvalidQuery(msg)) && msg@ == m,
        },
{
    if start > utf16_length {
        return Err(DocumentError::InvalidQuery(START_PAST_TEXT));
    }
    let initial = if (start as u64) + (TEXT_UNITS as u64) < (utf16_length as u64) {
        start + TEXT_UNITS
    } else {
        utf16_length
    };
    let end = cut_end(style_runs, start, initial);
    let end = cut_end(paragraph_runs, start, end);
    let begin_byte = match utf16_byte(raw_text, start) {
        Some(b) => b,
        None => {
            return Err(DocumentError::InvalidQuery(START_SPLITS_PAIR));
        },
    };
    let (end, end_byte) = match utf16_byte(raw_text, end) {
        Some(b) => (end, b),
        None => {
            proof {
                if end == 0 {
                    lemma_utf16_byte_zero(raw_text@);
                }
            }
            let back = end - 1;
            match utf16_byte(raw_text, back) {
                Some(b) => (back, b),
                None => {
                    return Err(DocumentError::InvalidQuery(BAD_RANGE));
                },
            }
        },
    };
    let next_start = if end < utf16_length {
        Some(end)
    } else {
        None
    };
    Ok(TextWindow { start, end, begin_byte, end_byte, next_start })
}

/// Where a text page that does not fit is cut: about half of its units,
/// rounded up past a surrogate pair, as the new end and its byte offset in
/// the page text; `None` when no shorter page keeps at least one scalar.
pub open spec fn shorten_spec(text: Seq<char>, start: u32, end: u32) -> Option<(nat, int)> {
    let half = ((end - start) / 2) as nat;
    let total = vstd::utf8::encode_utf8(text).len();
    match utf16_byte_spec(text, half) {
        Some(b) => if b == 0 || b == total {
            None
        } else {
            Some((b, start + half))
        },
        None => match utf16_byte_spec(text, half + 1) {
            Some(b) => if b == 0 || b == total {
                None
            } else {
                Some((b, start + half + 1))
            },
            None => None,
        },
    }
}

/// Cuts a text page `start..end` whose text is `text` about in half: the
/// byte length to keep and the new end, as [`shorten_spec`] states it.
pub fn shorten_window(text: &str, start: u32, end: u32) -> (r: Option<(usize, u32)>)
    requires
        start <= end,
    ensures
        match shorten_spec(text@, start, end) {
            Some((b, e)) => r == Some((b as usize, e as u32)),
            None => r is None,
        },
{
    let total = text.as_bytes().len();
    let mut units = (end - start) / 2;
    let byte = match utf16_byte(text, units) {
        Some(b) => b,
        None => {
            proof {
                if units == 0 {
                    lemma_utf16_byte_zero(text@);
                }
            }
            units = units + 1;
            match utf16_byte(text, units) {
                Some(b) => b,
                None => {
                    return None;
                },
            }
        },
    };
    if byte == 0 || byte == total {
        return None;
    }
    Some((byte, start + units))
}

/// Rejection of a text offset on a layer without text.
pub const NO_TEXT: &'static str = "非文字图层不能指定文字偏移";

/// Most layer diagnostics a detail view lists.
pub const DETAIL_DIAGNOSTICS: usize = 32;

/// Most Unicode scalars of one listed diagnostic message.
pub const MESSAGE_CHARS: usize = 1024;

/// Refuses a text offset on a layer without text; a text layer accepts any
/// offset here, which the text page checks.
pub fn check_text_start(has_text: bool, text_start: u32) -> (r: Result<(), DocumentError>)
    ensures
        (!has_text && text_start != 0) ==> (r matches Err(DocumentError::InvalidQuery(m)) && m@ == NO_TEXT@),
        (has_text || text_start == 0) ==> r is Ok,
{
    if !has_text && text_start != 0 {
        return Err(DocumentError::InvalidQuery(NO_TEXT));
    }
    Ok(())
}

/// Whether one of the first `n` messages is longer than [`MESSAGE_CHARS`].
pub open spec fn long_message(messages: Seq<String>, n: int) -> bool {
    exists|i: int| 0 <= i < n && (#[trigger] messages[i])@.len() > MESSAGE_CHARS
}

/// The listed diagnostics of a layer: the first 32 messages, each cut to
/// 1024 Unicode scalars, and whether anything was left out.
pub fn layer_diagnostics(messages: &Vec<String>) -> (r: (Vec<String>, bool))
    ensures
        r.0@.len() == if messages@.len() < DETAIL_DIAGNOSTICS {
            messages@.len()
        } else {
            DETAIL_DIAGNOSTICS as nat
        },
        forall|i: int| 0 <= i < r.0@.len() ==> (#[trigger] r.0@[i])@ == prefix_chars(messages@[i]@, MESSAGE_CHARS as nat),
        r.1 == (messages@.len() > DETAIL_DIAGNOSTICS || long_message(messages@, r.0@.len() as int)),
{
    let mut listed: Vec<String> = Vec::new();
    let mut cut = false;
    let mut i: usize = 0;
    while i < messages.len() && i < DETAIL_DIAGNOSTICS
        invariant
            i <= messages@.len(),
            i <= DETAIL_DIAGNOSTICS,
            listed@.len() == i,
            forall|j: int| 0 <= j < i ==> (#[trigger] listed@[j])@ == prefix_chars(messages@[j]@, MESSAGE_CHARS as nat),
            cut == long_message(messages@, i as int),
        decreases messages@.len() - i,
    {
        let (short, truncated) = truncate_chars(messages[i].as_str(), MESSAGE_CHARS);
        proof {
            if truncated {
                assert(messages@[i as int]@.len() > MESSAGE_CHARS);
            }
            if cut {
                let w = choose|w: int| 0 <= w < i && (#[trigger] messages@[w])@.len() > MESSAGE_CHARS;
                assert(0 <= w < i + 1);
            }
            if long_message(messages@, i + 1) && !truncated {
                let w = choose|w: int| 0 <= w < i + 1 && (#[trigger] messages@[w])@.len() > MESSAGE_CHARS;
                assert(w < i);
            }
        }
        listed.push(short);
        cut = cut || truncated;
        i = i + 1;
    }
    (listed, cut || messages.len() > DETAIL_DIAGNOSTICS)
}

} // verus!
