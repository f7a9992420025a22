use layerlens_core::documents::inspection::{NO_TEXT, check_text_start, layer_diagnostics};
use layerlens_core::documents::selection::content::{
    BAD_LIMIT, CURSOR_RANGE, ContentPager, FOREIGN_CURSOR, PageStep, Resume,
};
use layerlens_core::documents::selection::{ContentCursor, SelectionError, SessionId, SnapshotId};
use layerlens_core::documents::DocumentError;

fn session() -> SessionId {
    SessionId::from_words(5, 6)
}

fn refusal(r: Result<(ContentPager, PageStep), SelectionError>) -> &'static str {
    match r {
        Err(SelectionError::InvalidInput(m)) => m,
        Err(other) => panic!("unexpected {other:?}"),
        Ok((_, step)) => panic!("unexpected start {step:?}"),
    }
}

#[test]
fn pages_take_records_in_order_until_the_limit() {
    let (mut pager, step) = ContentPager::start(3, 2, None, &session(), SnapshotId(1)).unwrap();
    assert_eq!(step, PageStep::Fetch { record: 0, text_start: 0 });
    assert_eq!(
        pager.fetched(None),
        PageStep::Measure { next: Some(Resume { record: 1, text_start: 0 }) }
    );
    assert_eq!(pager.measured(true), PageStep::Fetch { record: 1, text_start: 0 });
    assert_eq!(
        pager.fetched(None),
        PageStep::Measure { next: Some(Resume { record: 2, text_start: 0 }) }
    );
    assert_eq!(
        pager.measured(true),
        PageStep::Finish { drop_last: false, next: Some(Resume { record: 2, text_start: 0 }) }
    );
}

#[test]
fn a_continued_text_ends_the_page_at_its_offset() {
    let (mut pager, _) = ContentPager::start(2, 128, None, &session(), SnapshotId(1)).unwrap();
    assert_eq!(
        pager.fetched(Some(2048)),
        PageStep::Measure { next: Some(Resume { record: 0, text_start: 2048 }) }
    );
    assert_eq!(
        pager.measured(true),
        PageStep::Finish { drop_last: false, next: Some(Resume { record: 0, text_start: 2048 }) }
    );
}

#[test]
fn an_overflowing_layer_moves_or_shrinks() {
    let (mut pager, _) = ContentPager::start(3, 128, None, &session(), SnapshotId(1)).unwrap();
    pager.fetched(None);
    pager.measured(true);
    pager.fetched(None);
    assert_eq!(
        pager.measured(false),
        PageStep::Finish { drop_last: true, next: Some(Resume { record: 1, text_start: 0 }) }
    );
    let (mut single, _) = ContentPager::start(1, 1, None, &session(), SnapshotId(1)).unwrap();
    single.fetched(Some(2048));
    assert_eq!(single.measured(false), PageStep::Shorten);
    assert_eq!(
        single.shortened(Some(1024)),
        PageStep::Measure { next: Some(Resume { record: 0, text_start: 1024 }) }
    );
    assert_eq!(single.measured(false), PageStep::Shorten);
    assert_eq!(single.shortened(None), PageStep::Fail);
}

#[test]
fn invalid_cursors_and_limits_are_rejected() {
    for limit in [0, 129] {
        assert_eq!(refusal(ContentPager::start(3, limit, None, &session(), SnapshotId(1))), BAD_LIMIT);
    }
    let foreign = ContentCursor::from_parts(SessionId::from_words(9, 9), SnapshotId(1), 0, 0);
    assert_eq!(
        refusal(ContentPager::start(3, 1, Some(&foreign), &session(), SnapshotId(1))),
        FOREIGN_CURSOR
    );
    let other = ContentCursor::from_parts(session(), SnapshotId(2), 0, 0);
    assert_eq!(
        refusal(ContentPager::start(3, 1, Some(&other), &session(), SnapshotId(1))),
        FOREIGN_CURSOR
    );
    let past = ContentCursor::from_parts(session(), SnapshotId(1), 4, 0);
    assert_eq!(
        refusal(ContentPager::start(3, 1, Some(&past), &session(), SnapshotId(1))),
        CURSOR_RANGE
    );
    let end_with_text = ContentCursor::from_parts(session(), SnapshotId(1), 3, 5);
    assert_eq!(
        refusal(ContentPager::start(3, 1, Some(&end_with_text), &session(), SnapshotId(1))),
        CURSOR_RANGE
    );
    let end = ContentCursor::from_parts(session(), SnapshotId(1), 3, 0);
    let (_, step) = ContentPager::start(3, 1, Some(&end), &session(), SnapshotId(1)).unwrap();
    assert_eq!(step, PageStep::Finish { drop_last: false, next: None });
}

#[test]
fn detail_diagnostics_are_bounded() {
    let messages: Vec<String> = (0..40).map(|i| format!("m{i}")).collect();
    let (listed, cut) = layer_diagnostics(&messages);
    assert_eq!(listed.len(), 32);
    assert!(cut);
    let long = vec!["x".repeat(1025), "y".to_string()];
    let (listed, cut) = layer_diagnostics(&long);
    assert_eq!(listed[0].chars().count(), 1024);
    assert_eq!(listed[1], "y");
    assert!(cut);
    let (listed, cut) = layer_diagnostics(&vec!["ok".to_string()]);
    assert_eq!(listed, vec!["ok".to_string()]);
    assert!(!cut);
    assert!(check_text_start(true, 9).is_ok());
    assert!(check_text_start(false, 0).is_ok());
    assert!(matches!(
        check_text_start(false, 1),
        Err(DocumentError::InvalidQuery(m)) if m == NO_TEXT
    ));
}
