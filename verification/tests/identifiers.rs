use std::str::FromStr;
use std::time::Instant;

use layerlens_core::documents::selection::model::{
    BAD_SESSION, NOT_CANONICAL, OUT_OF_RANGE, ZERO_ID,
};
use layerlens_core::documents::selection::{
    ContentCursor, DocumentReference, SelectionError, SelectionRevision, SessionId, SnapshotId,
    TaskId, decimal,
};
use layerlens_core::documents::state::Execution;
use layerlens_core::documents::{DocumentId, OpenJobId, PreviewJobId, RevisionId};
use layerlens_core::psd::{Capability, PsdError, PsdErrorCode, Support};
use layerlens_core::text::push_decimal;

fn refusal(r: Result<u64, SelectionError>) -> &'static str {
    match r {
        Err(SelectionError::InvalidInput(m)) => m,
        other => panic!("unexpected {other:?}"),
    }
}

#[test]
fn decimals_must_be_canonical_and_fit_in_u64() {
    assert_eq!(decimal("0", true).unwrap(), 0);
    assert_eq!(decimal("42", false).unwrap(), 42);
    assert_eq!(decimal("18446744073709551615", false).unwrap(), u64::MAX);
    assert_eq!(refusal(decimal("18446744073709551616", false)), OUT_OF_RANGE);
    assert_eq!(refusal(decimal("99999999999999999999", false)), OUT_OF_RANGE);
    assert_eq!(refusal(decimal("0", false)), ZERO_ID);
    for text in ["", "007", "+1", " 1", "1a", "123456789012345678901"] {
        assert_eq!(refusal(decimal(text, true)), NOT_CANONICAL);
    }
}

#[test]
fn document_references_parse_both_ids() {
    let reference = DocumentReference::parse("12", "3").unwrap();
    assert_eq!(reference.document_id, DocumentId(12));
    assert_eq!(reference.revision_id, RevisionId(3));
    assert!(matches!(
        DocumentReference::parse("0", "3"),
        Err(SelectionError::InvalidInput(m)) if m == ZERO_ID
    ));
    assert!(matches!(
        DocumentReference::parse("1", "03"),
        Err(SelectionError::InvalidInput(m)) if m == NOT_CANONICAL
    ));
}

#[test]
fn numeric_ids_parse_from_their_decimal_text() {
    assert_eq!(SnapshotId::from_str("9").unwrap(), SnapshotId(9));
    assert_eq!(TaskId::from_str("1").unwrap(), TaskId(1));
    assert_eq!(SelectionRevision::from_str("0").unwrap(), SelectionRevision(0));
    assert!(SnapshotId::from_str("0").is_err());
    assert!(TaskId::from_str("-1").is_err());
    assert_eq!(SnapshotId(5).get(), 5);
    assert_eq!(TaskId(6).get(), 6);
    assert_eq!(SelectionRevision(7).get(), 7);
    assert_eq!(DocumentId(8).get(), 8);
    assert_eq!(RevisionId(9).get(), 9);
    assert_eq!(OpenJobId(10).get(), 10);
    assert_eq!(PreviewJobId(11).get(), 11);
}

#[test]
fn session_ids_are_32_lowercase_hex_digits_and_round_trip() {
    let id = SessionId::from_words(0x0123_4567_89ab_cdef, 0xa);
    assert_eq!(id.as_str(), "0123456789abcdef000000000000000a");
    let parsed = SessionId::parse(id.as_str()).unwrap();
    assert!(parsed == id);
    assert!(SessionId::from_str(id.as_str()).unwrap() == id);
    for text in [
        "",
        "0123456789ABCDEF000000000000000a",
        "0123456789abcdef000000000000000",
        "0123456789abcdef000000000000000a0",
        "0123456789abcdeg000000000000000a",
    ] {
        assert!(matches!(
            SessionId::parse(text),
            Err(SelectionError::InvalidInput(m)) if m == BAD_SESSION
        ));
    }
    let fresh = SessionId::new();
    assert_eq!(fresh.as_str().len(), 32);
    assert!(SessionId::parse(fresh.as_str()).is_ok());
}

#[test]
fn cursors_keep_their_parts() {
    let session = SessionId::from_words(1, 2);
    let cursor = ContentCursor::from_parts(session.clone(), SnapshotId(4), 7, 2048);
    let (s, snapshot, record, start) = cursor.parts();
    assert!(*s == session);
    assert_eq!((snapshot, record, start), (SnapshotId(4), 7, 2048));
}

#[test]
fn execution_phases_keep_the_start_time() {
    let now = Instant::now();
    assert_eq!(Execution::Queued.started_at(), None);
    assert_eq!(Execution::Running(now).started_at(), Some(now));
    assert_eq!(Execution::Cancelling(now).started_at(), Some(now));
    assert_eq!(Execution::Finishing(now).started_at(), Some(now));
    assert!(Execution::Queued.accepts_cancel());
    assert!(Execution::Running(now).accepts_cancel());
    assert!(!Execution::Cancelling(now).accepts_cancel());
    assert!(!Execution::Finishing(now).accepts_cancel());
}

#[test]
fn errors_and_capabilities_keep_their_text() {
    let e = PsdError::with_cause(PsdErrorCode::Io, "读取失败", "permission denied");
    assert_eq!(e.code, PsdErrorCode::Io);
    assert_eq!(e.message(), "读取失败");
    assert_eq!(e.cause(), Some("permission denied"));
    let plain = PsdError::new(PsdErrorCode::ParseFailed, "截断");
    assert_eq!(plain.cause(), None);
    assert_eq!(Capability::partial("p").status, Support::Partial);
    assert_eq!(Capability::unsupported("u").reason, "u");
}

#[test]
fn rendered_numbers_parse_back_to_themselves() {
    for n in [0_u64, 1, 9, 10, 99, 100, 4_294_967_296, u64::MAX - 1, u64::MAX] {
        let mut text = String::new();
        push_decimal(&mut text, n);
        assert_eq!(text, n.to_string());
        assert_eq!(decimal(&text, true).unwrap(), n);
        if n > 0 {
            assert_eq!(decimal(&text, false).unwrap(), n);
        }
    }
}
