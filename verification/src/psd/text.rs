//! Style-run ranges of the engine text. The engine's run table is read by
//! the caller into plain values; here the ranges are checked against the
//! UTF-16 engine text: they must cover it exactly, never split a surrogate
//! pair, and a failure only closes the text capability with a diagnostic.

use vstd::prelude::*;

use vstd::string::StringSliceAdditionalSpecFns;

use crate::text::{decimal_chars, lemma_encode_utf8_concat, push_decimal, same_text};

use super::text_model::{TextDiagnostic, TextDiagnosticCode, TextIndexMapping};

verus! {

/// Most runs of one kind read from one text layer.
pub const MAX_STYLE_RUNS: usize = 16384;

/// Diagnostic of a missing run table.
pub const NO_RUNS: &'static str = "缺少样式区间";

/// Diagnostic of run and length fields that are not arrays.
pub const RUNS_NOT_ARRAYS: &'static str = "区间与长度必须为数组";

/// Diagnostic of mismatched or too many runs.
pub const RUN_COUNT: &'static str = "区间数量不匹配或超过每类 16384 段上限";

/// Diagnostic of a bad run length.
pub const RUN_LENGTH: &'static str = "长度须为正整数且不越界、不溢出、不拆分 UTF-16 代理对";

/// Diagnostic of a run record that is not a dictionary.
pub const RUN_RECORD: &'static str = "样式项必须为字典";

/// Diagnostic of runs that do not cover the engine text.
pub const RUN_COVERAGE: &'static str = "区间总长必须完整覆盖引擎原文";

/// A high surrogate code unit.
pub open spec fn is_high(u: u16) -> bool {
    0xd800 <= u <= 0xdbff
}

/// A low surrogate code unit.
pub open spec fn is_low(u: u16) -> bool {
    0xdc00 <= u <= 0xdfff
}

/// Whether a range may end at `i`: at either end of the text, or not between
/// the two halves of a surrogate pair.
pub open spec fn utf16_boundary(units: Seq<u16>, i: int) -> bool {
    i == 0 || i == units.len() || !(is_high(units[i - 1]) && is_low(units[i]))
}

/// Whether a range may end at `index` of the UTF-16 units.
pub fn boundary(units: &[u16], index: usize) -> (b: bool)
    requires
        index <= units@.len(),
    ensures
        b == utf16_boundary(units@, index as int),
{
    index == 0 || index == units.len() || !((0xd800 <= units[index - 1] && units[index - 1]
        <= 0xdbff) && (0xdc00 <= units[index] && units[index] <= 0xdfff))
}

/// The plain content of a text diagnostic.
pub open spec fn diagnostic_view(d: TextDiagnostic) -> (TextDiagnosticCode, Seq<char>, Seq<char>) {
    (d.code, d.path@, d.message@)
}

/// The plain content of a list of text diagnostics.
pub open spec fn diagnostics_view(ds: Seq<TextDiagnostic>) -> Seq<
    (TextDiagnosticCode, Seq<char>, Seq<char>),
> {
    ds.map_values(|d: TextDiagnostic| diagnostic_view(d))
}

/// Records a text diagnostic.
pub fn report(
    diagnostics: &mut Vec<TextDiagnostic>,
    code: TextDiagnosticCode,
    path: &str,
    message: &str,
)
    ensures
        diagnostics_view(final(diagnostics)@) == diagnostics_view(old(diagnostics)@).push(
            (code, path@, message@),
        ),
{
    diagnostics.push(TextDiagnostic { code, path: path.to_owned(), message: message.to_owned() });
    proof {
        assert(diagnostics_view(diagnostics@) =~= diagnostics_view(old(diagnostics)@).push(
            (code, path@, message@),
        ));
    }
}

/// A run table as read from the engine data.
pub enum RunTable {
    /// There is no run table.
    Missing,
    /// The run records or their lengths are not arrays.
    Malformed,
    /// Both arrays: whether each record is a dictionary, and each length as a
    /// whole number in the u32 range where it is one.
    Arrays { records: Vec<bool>, lengths: Vec<Option<u32>> },
}

/// A run that overlaps the source text: its UTF-16 range, cut at the source
/// length, and the index of its record.
#[derive(Debug, Clone, Copy, PartialEq, Eq, Structural)]
pub struct RunSpan {
    pub start: u32,
    pub end: u32,
    pub index: usize,
}

/// Where a run table fails: at a record's length, at a record, or in total coverage.
pub enum RunFault {
    Length(int),
    Record(int),
    Coverage,
}

/// The end of the run at `i` that starts at `position`, if its length is a
/// positive whole number that neither overflows, overruns the text, nor
/// splits a surrogate pair.
pub open spec fn run_end(length: Option<u32>, position: u32, units: Seq<u16>) -> Option<u32> {
    match length {
        Some(l) => if l > 0 && position + l <= u32::MAX && position + l <= units.len()
            && utf16_boundary(units, position + l) {
            Some((position + l) as u32)
        } else {
            None
        },
        None => None,
    }
}

/// The runs from record `i` on, starting at `position`: the spans that
/// overlap the first `raw_length` units, or where the table fails.
pub open spec fn scan_runs(
    records: Seq<bool>,
    lengths: Seq<Option<u32>>,
    units: Seq<u16>,
    raw_length: u32,
    i: int,
    position: u32,
) -> Result<Seq<RunSpan>, RunFault>
    decreases records.len() - i,
{
    if i < 0 || i >= records.len() || i >= lengths.len() {
        if position == units.len() {
            Ok(Seq::empty())
        } else {
            Err(RunFault::Coverage)
        }
    } else {
        match run_end(lengths[i], position, units) {
            None => Err(RunFault::Length(i)),
            Some(end) => if !records[i] {
                Err(RunFault::Record(i))
            } else {
                match scan_runs(records, lengths, units, raw_length, i + 1, end) {
                    Err(f) => Err(f),
                    Ok(rest) => if position < raw_length {
                        Ok(
                            seq![
                                RunSpan {
                                    start: position,
                                    end: if end < raw_length {
                                        end
                                    } else {
                                        raw_length
                                    },
                                    index: i as usize,
                                },
                            ] + rest,
                        )
                    } else {
                        Ok(rest)
                    },
                }
            },
        }
    }
}

/// The diagnostic path of a run table of `kind`.
pub open spec fn run_path(kind: Seq<char>) -> Seq<char> {
    "EngineDict."@ + kind
}

/// The diagnostic path of one element of a run table's array.
pub open spec fn run_item_path(kind: Seq<char>, array: Seq<char>, i: int) -> Seq<char> {
    run_path(kind) + "."@ + array + "["@ + decimal_chars(i as nat) + "]"@
}

/// What [`runs`] reports for a table: the spans, or the one diagnostic it records.
pub open spec fn runs_outcome(
    table: RunTable,
    kind: Seq<char>,
    units: Seq<u16>,
    raw_length: u32,
) -> Result<Seq<RunSpan>, (TextDiagnosticCode, Seq<char>, Seq<char>)> {
    match table {
        RunTable::Missing => Err((TextDiagnosticCode::Missing, run_path(kind), NO_RUNS@)),
        RunTable::Malformed => Err((TextDiagnosticCode::InvalidRange, run_path(kind), RUNS_NOT_ARRAYS@)),
        RunTable::Arrays { records, lengths } => if records@.len() != lengths@.len()
            || records@.len() > MAX_STYLE_RUNS {
            Err((TextDiagnosticCode::InvalidRange, run_path(kind), RUN_COUNT@))
        } else {
            match scan_runs(records@, lengths@, units, raw_length, 0, 0) {
                Ok(spans) => Ok(spans),
                Err(RunFault::Length(i)) => Err(
                    (
                        TextDiagnosticCode::InvalidRange,
                        run_item_path(kind, "RunLengthArray"@, i),
                        RUN_LENGTH@,
                    ),
                ),
                Err(RunFault::Record(i)) => Err(
                    (
                        TextDiagnosticCode::InvalidRange,
                        run_item_path(kind, "RunArray"@, i),
                        RUN_RECORD@,
                    ),
                ),
                Err(RunFault::Coverage) => Err(
                    (TextDiagnosticCode::InvalidRange, run_path(kind), RUN_COVERAGE@),
                ),
            }
        },
    }
}


/// A list of run spans followed by the outcome of the rest of the table.
pub open spec fn after_spans(
    done: Seq<RunSpan>,
    rest: Result<Seq<RunSpan>, RunFault>,
) -> Result<Seq<RunSpan>, RunFault> {
    match rest {
        Ok(spans) => Ok(done + spans),
        Err(f) => Err(f),
    }
}

/// The diagnostic path of a run table of `kind`.
fn table_path(kind: &str) -> (s: String)
    ensures
        s@ == run_path(kind@),
{
    let mut s = String::from_str("EngineDict.");
    s.append(kind);
    s
}

/// The diagnostic path of element `i` of a run table's `array`.
fn item_path(kind: &str, array: &str, i: usize) -> (s: String)
    ensures
        s@ == run_item_path(kind@, array@, i as int),
{
    let mut s = table_path(kind);
    s.append(".");
    s.append(array);
    s.append("[");
    push_decimal(&mut s, i as u64);
    s.append("]");
    s
}

/// The run end of `length` after `position`, as [`run_end`] states it.
fn checked_end(length: Option<u32>, position: u32, units: &[u16]) -> (r: Option<u32>)
    ensures
        r == run_end(length, position, units@),
{
    match length {
        Some(l) => {
            if l > 0 && l <= u32::MAX - position && ((position + l) as usize) <= units.len() {
                if boundary(units, (position + l) as usize) {
                    return Some(position + l);
                }
            }
            None
        },
        None => None,
    }
}

/// Reads the runs of one kind (`StyleRun` or `ParagraphRun`): each must have
/// a positive whole length, none may overflow, overrun or split a surrogate
/// pair, every record must be a dictionary, and together they must cover the
/// engine text exactly. Runs past the source text are dropped and the last
/// overlapping run is cut at its end. A failing table records one diagnostic
/// and yields nothing.
pub fn runs(
    table: &RunTable,
    kind: &str,
    units: &[u16],
    raw_length: u32,
    diagnostics: &mut Vec<TextDiagnostic>,
) -> (r: Option<Vec<RunSpan>>)
    ensures
        match runs_outcome(*table, kind@, units@, raw_length) {
            Ok(spans) => r matches Some(v) && v@ == spans && diagnostics_view(final(diagnostics)@)
                == diagnostics_view(old(diagnostics)@),
            Err(d) => r is None && diagnostics_view(final(diagnostics)@) == diagnostics_view(
                old(diagnostics)@,
            ).push(d),
        },
{
    let (records, lengths) = match table {
        RunTable::Missing => {
            let path = table_path(kind);
            report(diagnostics, TextDiagnosticCode::Missing, path.as_str(), NO_RUNS);
            return None;
        },
        RunTable::Malformed => {
            let path = table_path(kind);
            report(diagnostics, TextDiagnosticCode::InvalidRange, path.as_str(), RUNS_NOT_ARRAYS);
            return None;
        },
        RunTable::Arrays { records, lengths } => (records, lengths),
    };
    if records.len() != lengths.len() || records.len() > MAX_STYLE_RUNS {
        let path = table_path(kind);
        report(diagnostics, TextDiagnosticCode::InvalidRange, path.as_str(), RUN_COUNT);
        return None;
    }
    let mut position: u32 = 0;
    let mut output: Vec<RunSpan> = Vec::new();
    let mut i: usize = 0;
    proof {
        assert(output@ + Seq::<RunSpan>::empty() =~= output@);
    }
    while i < records.len()
        invariant
            records@.len() == lengths@.len(),
            records@.len() <= MAX_STYLE_RUNS,
            *table matches RunTable::Arrays { records: rs, lengths: ls },
            table->records@ == records@,
            table->lengths@ == lengths@,
            i <= records@.len(),
            diagnostics@ == old(diagnostics)@,
            after_spans(
                output@,
                scan_runs(records@, lengths@, units@, raw_length, i as int, position),
            ) == scan_runs(records@, lengths@, units@, raw_length, 0, 0),
        decreases records@.len() - i,
    {
        let end = match checked_end(lengths[i], position, units) {
            Some(end) => end,
            None => {
                let path = item_path(kind, "RunLengthArray", i);
                report(diagnostics, TextDiagnosticCode::InvalidRange, path.as_str(), RUN_LENGTH);
                return None;
            },
        };
        if !records[i] {
            let path = item_path(kind, "RunArray", i);
            report(diagnostics, TextDiagnosticCode::InvalidRange, path.as_str(), RUN_RECORD);
            return None;
        }
        let ghost rest = scan_runs(records@, lengths@, units@, raw_length, i + 1, end);
        if position < raw_length {
            let cut = if end < raw_length {
                end
            } else {
                raw_length
            };
            let span = RunSpan { start: position, end: cut, index: i };
            proof {
                if rest is Ok {
                    assert(output@.push(span) + rest->Ok_0 =~= output@ + (seq![span]
                        + rest->Ok_0));
                }
            }
            output.push(span);
        }
        position = end;
        i = i + 1;
    }
    if position as usize != units.len() {
        let path = table_path(kind);
        report(diagnostics, TextDiagnosticCode::InvalidRange, path.as_str(), RUN_COVERAGE);
        return None;
    }
    proof {
        assert(output@ + Seq::<RunSpan>::empty() =~= output@);
    }
    Some(output)
}


/// How engine run indices map onto the source text: exactly, or with one
/// extra trailing carriage return that the engine keeps as a paragraph end.
/// Nothing is trimmed and line endings are not folded.
pub open spec fn index_mapping_spec(editor: Seq<char>, raw: Seq<char>) -> Option<TextIndexMapping> {
    if editor == raw {
        Some(TextIndexMapping::Exact)
    } else if editor == raw.push('\r') {
        Some(TextIndexMapping::TrailingParagraphTerminator)
    } else {
        None
    }
}

/// How the engine text `editor` maps onto the source text `raw`, if it does.
pub fn index_mapping(editor: &str, raw: &str) -> (r: Option<TextIndexMapping>)
    ensures
        r == index_mapping_spec(editor@, raw@),
{
    if same_text(editor, raw) {
        return Some(TextIndexMapping::Exact);
    }
    let e = editor.as_bytes();
    let w = raw.as_bytes();
    proof {
        lemma_encode_utf8_concat(raw@, seq!['\r']);
        assert(seq!['\r'].drop_first() =~= Seq::<char>::empty());
        assert(vstd::utf8::encode_utf8(seq!['\r']) =~= seq![13u8]) by {
            assert(('\r' as u32) == 13);
            assert((13u32 & 0x7f) == 13) by (bit_vector);
            assert(vstd::utf8::encode_utf8(Seq::<char>::empty()) =~= Seq::<u8>::empty());
        }
        assert(raw@ + seq!['\r'] =~= raw@.push('\r'));
        vstd::utf8::encode_utf8_decode_utf8(editor@);
        vstd::utf8::encode_utf8_decode_utf8(raw@.push('\r'));
    }
    if e.len() == 0 || e.len() - 1 != w.len() || e[w.len()] != 13 {
        return None;
    }
    let mut i: usize = 0;
    while i < w.len()
        invariant
            e@ == editor.spec_bytes(),
            w@ == raw.spec_bytes(),
            e@.len() == w@.len() + 1,
            e@[w@.len() as int] == 13,
            i <= w@.len(),
            forall|j: int| 0 <= j < i ==> e@[j] == w@[j],
            vstd::utf8::encode_utf8(raw@.push('\r')) == w@ + seq![13u8],
            vstd::utf8::decode_utf8(vstd::utf8::encode_utf8(editor@)) == editor@,
            vstd::utf8::decode_utf8(vstd::utf8::encode_utf8(raw@.push('\r'))) == raw@.push('\r'),
            editor@ != raw@,
        decreases w@.len() - i,
    {
        if e[i] != w[i] {
            return None;
        }
        i = i + 1;
    }
    assert(e@ =~= w@ + seq![13u8]);
    Some(TextIndexMapping::TrailingParagraphTerminator)
}

} // verus!
