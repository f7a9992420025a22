use layerlens_core::documents::inspection::{
    BAD_PAGE, LayerSummary, START_PAST_TEXT, START_SPLITS_PAIR, overlapping_indices, page_range,
    shorten_window, text_window, truncate_chars,
};
use layerlens_core::documents::DocumentError;
use layerlens_core::psd::text::{
    MAX_STYLE_RUNS, NO_RUNS, RUN_COVERAGE, RUN_LENGTH, RunSpan, RunTable, boundary, index_mapping,
    runs,
};
use layerlens_core::psd::{Bounds, LayerId, LayerKind, TextDiagnosticCode, TextIndexMapping};
use layerlens_core::text::{is_blank, push_decimal, same_text, utf16_byte, utf16_units};

fn table(count: usize) -> RunTable {
    RunTable::Arrays {
        records: vec![true; count],
        lengths: vec![Some(1); count],
    }
}

#[test]
fn run_limit_accepts_boundary_and_rejects_excess_without_partial_output() {
    for count in [MAX_STYLE_RUNS, MAX_STYLE_RUNS + 1] {
        let mut diagnostics = Vec::new();
        let result = runs(
            &table(count),
            "StyleRun",
            &vec![65; count],
            count as u32,
            &mut diagnostics,
        );
        if count == MAX_STYLE_RUNS {
            assert_eq!(result.unwrap().len(), count);
            assert!(diagnostics.is_empty());
        } else {
            assert!(result.is_none());
            assert_eq!(diagnostics[0].code, TextDiagnosticCode::InvalidRange);
        }
    }
}

#[test]
fn utf16_boundaries_allow_combining_marks_but_never_split_surrogates() {
    assert!(runs(&table(2), "StyleRun", &[101, 0x301], 2, &mut Vec::new()).is_some());
    assert!(runs(&table(2), "StyleRun", &[0xd83d, 0xde00], 2, &mut Vec::new()).is_none());
}

#[test]
fn runs_are_cut_at_the_source_length_and_faults_are_reported() {
    let lengths = RunTable::Arrays {
        records: vec![true, true],
        lengths: vec![Some(2), Some(3)],
    };
    let spans = runs(&lengths, "StyleRun", &[65; 5], 3, &mut Vec::new()).unwrap();
    assert_eq!(
        spans,
        vec![
            RunSpan { start: 0, end: 2, index: 0 },
            RunSpan { start: 2, end: 3, index: 1 }
        ]
    );
    let mut diagnostics = Vec::new();
    assert!(runs(&RunTable::Missing, "StyleRun", &[65], 1, &mut diagnostics).is_none());
    assert_eq!(diagnostics[0].code, TextDiagnosticCode::Missing);
    assert_eq!(diagnostics[0].message, NO_RUNS);
    let mut diagnostics = Vec::new();
    let zero = RunTable::Arrays {
        records: vec![true],
        lengths: vec![Some(0)],
    };
    assert!(runs(&zero, "StyleRun", &[65], 1, &mut diagnostics).is_none());
    assert_eq!(diagnostics[0].message, RUN_LENGTH);
    let mut diagnostics = Vec::new();
    let short = RunTable::Arrays {
        records: vec![true],
        lengths: vec![Some(1)],
    };
    assert!(runs(&short, "StyleRun", &[65, 66], 2, &mut diagnostics).is_none());
    assert_eq!(diagnostics[0].message, RUN_COVERAGE);
}

#[test]
fn boundaries_fall_between_code_points_only() {
    let units = [0xd83d, 0xde00, 65];
    assert!(boundary(&units, 0));
    assert!(!boundary(&units, 1));
    assert!(boundary(&units, 2));
    assert!(boundary(&units, 3));
}

#[test]
fn index_mapping_accepts_one_trailing_carriage_return_only() {
    assert_eq!(index_mapping("a\rb", "a\rb"), Some(TextIndexMapping::Exact));
    assert_eq!(
        index_mapping("标题\r", "标题"),
        Some(TextIndexMapping::TrailingParagraphTerminator)
    );
    assert_eq!(index_mapping("标题\r\r", "标题"), None);
    assert_eq!(index_mapping("标题\n", "标题"), None);
    assert_eq!(index_mapping("标题", "标题\r"), None);
}

#[test]
fn utf16_units_and_byte_offsets_follow_the_encodings() {
    assert_eq!(utf16_units("a😀é"), vec![97, 0xd83d, 0xde00, 0xe9]);
    let text = "a😀é";
    assert_eq!(utf16_byte(text, 0), Some(0));
    assert_eq!(utf16_byte(text, 1), Some(1));
    assert_eq!(utf16_byte(text, 2), None);
    assert_eq!(utf16_byte(text, 3), Some(5));
    assert_eq!(utf16_byte(text, 4), Some(7));
    assert_eq!(utf16_byte(text, 5), None);
}

#[test]
fn decimal_blank_and_equality_helpers() {
    let mut s = String::from("v");
    push_decimal(&mut s, 0);
    push_decimal(&mut s, 18446744073709551615);
    assert_eq!(s, "v018446744073709551615");
    assert!(is_blank(""));
    assert!(is_blank(" \t\u{3000}\n"));
    assert!(!is_blank(" x "));
    assert!(same_text("图层", "图层"));
    assert!(!same_text("图层", "图层 "));
}

#[test]
fn long_names_are_cut_to_256_scalars() {
    let name = "名".repeat(300);
    let summary = LayerSummary::new(
        LayerId(3),
        Some(LayerId(1)),
        &name,
        LayerKind::Text,
        Bounds { x: -1, y: 2, width: 3, height: 4 },
        true,
        false,
        128,
    );
    assert_eq!(summary.name.chars().count(), 256);
    assert!(summary.name_truncated);
    assert_eq!(summary.opacity, 128);
    assert!(!summary.effective_visible);
    let (short, cut) = truncate_chars("abc", 3);
    assert_eq!((short.as_str(), cut), ("abc", false));
    let (short, cut) = truncate_chars("a😀c", 2);
    assert_eq!((short.as_str(), cut), ("a😀", true));
}

#[test]
fn page_ranges_reject_bad_sizes_and_offsets() {
    assert_eq!(page_range(300, 0, 128).unwrap(), (128, Some(128)));
    assert_eq!(page_range(300, 256, 128).unwrap(), (300, None));
    assert_eq!(page_range(0, 0, 1).unwrap(), (0, None));
    for (offset, limit) in [(0, 0), (0, 129), (301, 1)] {
        assert!(matches!(
            page_range(300, offset, limit),
            Err(DocumentError::InvalidQuery(m)) if m == BAD_PAGE
        ));
    }
}

#[test]
fn text_windows_split_long_text_and_never_split_pairs() {
    let text = "a".repeat(3000);
    let window = text_window(&text, 3000, 0, None, None).unwrap();
    assert_eq!((window.start, window.end), (0, 2048));
    assert_eq!((window.begin_byte, window.end_byte), (0, 2048));
    assert_eq!(window.next_start, Some(2048));
    let last = text_window(&text, 3000, 2048, None, None).unwrap();
    assert_eq!((last.end, last.next_start), (3000, None));
    assert!(matches!(
        text_window(&text, 3000, 3001, None, None),
        Err(DocumentError::InvalidQuery(m)) if m == START_PAST_TEXT
    ));
    assert!(matches!(
        text_window("😀", 2, 1, None, None),
        Err(DocumentError::InvalidQuery(m)) if m == START_SPLITS_PAIR
    ));
}

#[test]
fn run_budget_shortens_a_text_page_before_the_next_run() {
    let text = "b".repeat(300);
    let style: Vec<(u32, u32)> = (0..300u32).map(|i| (i, i + 1)).collect();
    let window = text_window(&text, 300, 0, Some(&style), None).unwrap();
    assert_eq!(window.end, 128);
    assert_eq!(window.next_start, Some(128));
    assert_eq!(overlapping_indices(&style, 10, 13), vec![10, 11, 12]);
}

#[test]
fn shortening_halves_a_page_on_a_code_point_boundary() {
    assert_eq!(shorten_window("abcd", 0, 4), Some((2, 2)));
    assert_eq!(shorten_window("a😀b", 10, 14), Some((5, 13)));
    assert_eq!(shorten_window("😀", 0, 2), None);
    assert_eq!(shorten_window("a", 0, 1), None);
}

#[test]
fn long_text_pages_reconstruct_unicode_without_splitting_surrogate_pairs() {
    let raw_text = format!("{}😀e\u{301}\r\n尾  ", "a".repeat(2047));
    let utf16_length = raw_text.encode_utf16().count() as u32;
    let first = text_window(&raw_text, utf16_length, 0, None, None).unwrap();
    assert_eq!(first.end, 2047);
    let next = text_window(&raw_text, utf16_length, first.next_start.unwrap(), None, None).unwrap();
    let first_text = &raw_text[first.begin_byte..first.end_byte];
    let next_text = &raw_text[next.begin_byte..next.end_byte];
    assert_eq!(format!("{first_text}{next_text}"), raw_text);
    assert_eq!(next.next_start, None);
    assert!(text_window(&raw_text, utf16_length, 2048, None, None).is_err());
    assert!(text_window(&raw_text, utf16_length, utf16_length + 1, None, None).is_err());
}

#[test]
fn run_budget_shortens_text_page_without_losing_style_ranges() {
    let raw_text = "a".repeat(260);
    let runs: Vec<(u32, u32)> = (0..260).map(|start| (start, start + 1)).collect();
    let first = text_window(&raw_text, 260, 0, Some(&runs), None).unwrap();
    assert_eq!(first.end, 128);
    assert_eq!(overlapping_indices(&runs, first.start, first.end).len(), 128);
    let second = text_window(&raw_text, 260, 128, Some(&runs), None).unwrap();
    assert_eq!(second.end, 256);
    let second_runs = overlapping_indices(&runs, second.start, second.end);
    assert_eq!(runs[second_runs[0]].0, 128);
    assert_eq!(text_window(&raw_text, 260, 256, Some(&runs), None).unwrap().end, 260);
}

#[test]
fn following_next_start_reads_every_unit_once() {
    let raw = format!("{}😀{}", "x".repeat(2500), "y😀".repeat(1500));
    let length = raw.encode_utf16().count() as u32;
    let runs: Vec<(u32, u32)> = (0..length).step_by(7).map(|s| (s, s + 3)).collect();
    let mut start = 0_u32;
    let mut end_byte = 0_usize;
    let mut rebuilt = String::new();
    loop {
        let w = text_window(&raw, length, start, Some(&runs), None).unwrap();
        assert_eq!(w.start, start);
        assert_eq!(w.begin_byte, end_byte);
        rebuilt.push_str(&raw[w.begin_byte..w.end_byte]);
        end_byte = w.end_byte;
        match w.next_start {
            Some(n) => {
                assert_eq!(n, w.end);
                assert!(n > start);
                start = n;
            }
            None => {
                assert_eq!(w.end, length);
                assert_eq!(w.end_byte, raw.len());
                break;
            }
        }
    }
    assert_eq!(rebuilt, raw);
}
