use std::time::SystemTime;

use layerlens_core::documents::selection::model::display_name;
use layerlens_core::text::utf8_prefix;

use layerlens_core::documents::selection::handle::{BAD_PAGE_SIZE, BAD_TASK_INPUT};
use layerlens_core::documents::selection::{
    DesignTask, SelectionConfig, SelectionError, SelectionHandle, SessionId, SnapshotBrief,
    SnapshotId, TaskId, TaskStatus,
};
use layerlens_core::documents::{DocumentError, DocumentId, RevisionId};

fn brief(id: u64, targets: u32) -> SnapshotBrief {
    SnapshotBrief {
        snapshot_id: SnapshotId(id),
        document_id: DocumentId(1),
        revision_id: RevisionId(1),
        document_name: "viewer-scale.psd".to_string(),
        target_count: targets,
        content_count: targets,
        text_layer_count: 0,
    }
}

fn handle(config: SelectionConfig) -> (SelectionHandle, SessionId) {
    let session = SessionId::from_words(0x0123_4567_89ab_cdef, 0xfedc_ba98_7654_3210);
    let mut handle = SelectionHandle::new(config, session.clone());
    handle.register_snapshot(brief(1, 1));
    handle.register_snapshot(brief(2, 2));
    handle.register_snapshot(brief(3, 0));
    (handle, session)
}

fn same(a: &DesignTask, b: &DesignTask) -> bool {
    a.id == b.id
        && a.snapshot_id == b.snapshot_id
        && a.name == b.name
        && a.created_at == b.created_at
        && a.status == b.status
        && a.scope.snapshot_id == b.scope.snapshot_id
}

#[test]
fn creation_is_atomic_idempotent_and_keeps_bounded_terminal_records() {
    let (mut handle, session) = handle(SelectionConfig {
        max_task_records: 1,
        ..Default::default()
    });
    let now = SystemTime::UNIX_EPOCH;
    let task = handle
        .create_task(&session, "one", SnapshotId(1), "同名任务", now)
        .unwrap();
    assert_eq!(task.id, TaskId(1));
    assert_eq!(task.status, TaskStatus::Active);
    assert_eq!(task.scope.target_count, 1);
    let again = handle
        .create_task(&session, "one", SnapshotId(1), "同名任务", now)
        .unwrap();
    assert!(same(&again, &task));
    assert!(matches!(
        handle.create_task(&session, "one", SnapshotId(1), "不同参数", now),
        Err(SelectionError::RequestConflict)
    ));
    assert!(matches!(
        handle.create_task(&session, "one", SnapshotId(2), "同名任务", now),
        Err(SelectionError::RequestConflict)
    ));
    handle.release_task(&session, task.id).unwrap();
    assert!(matches!(
        handle.create_task(&session, "two", SnapshotId(1), "同名任务", now),
        Err(SelectionError::Document(DocumentError::ResourceLimit { limit: 1, .. }))
    ));
    assert_eq!(
        handle.design_task(&session, task.id).unwrap().status,
        TaskStatus::Released
    );
}

#[test]
fn foreign_session_never_resolves_local_ids() {
    let (mut handle, session) = handle(Default::default());
    let other = SessionId::from_words(1, 2);
    assert!(session != other);
    let now = SystemTime::UNIX_EPOCH;
    let task = handle
        .create_task(&session, "local", SnapshotId(2), "任务", now)
        .unwrap();
    assert!(matches!(
        handle.create_task(&other, "foreign", SnapshotId(2), "foreign", now),
        Err(SelectionError::ForeignSession)
    ));
    assert!(matches!(
        handle.design_task(&other, task.id),
        Err(SelectionError::ForeignSession)
    ));
    assert!(matches!(
        handle.release_task(&other, task.id),
        Err(SelectionError::ForeignSession)
    ));
    assert!(matches!(
        handle.list_tasks(&other, None, 1),
        Err(SelectionError::ForeignSession)
    ));
    assert!(handle.check_session(&session).is_ok());
    assert!(matches!(
        handle.check_session(&other),
        Err(SelectionError::ForeignSession)
    ));
}

#[test]
fn empty_targets_expired_snapshots_and_bad_input_create_nothing() {
    let (mut handle, session) = handle(Default::default());
    let now = SystemTime::UNIX_EPOCH;
    assert!(matches!(
        handle.create_task(&session, "a", SnapshotId(3), "空", now),
        Err(SelectionError::EmptyTargets)
    ));
    assert!(matches!(
        handle.create_task(&session, "a", SnapshotId(9), "无", now),
        Err(SelectionError::SnapshotExpired)
    ));
    match handle.create_task(&session, "  ", SnapshotId(1), "名称", now) {
        Err(SelectionError::InvalidInput(m)) => assert_eq!(m, BAD_TASK_INPUT),
        other => panic!("unexpected {other:?}"),
    }
    let long = "x".repeat(129);
    assert!(matches!(
        handle.create_task(&session, &long, SnapshotId(1), "名称", now),
        Err(SelectionError::InvalidInput(_))
    ));
    let long_name = "名".repeat(86);
    assert!(matches!(
        handle.create_task(&session, "b", SnapshotId(1), &long_name, now),
        Err(SelectionError::InvalidInput(_))
    ));
    assert_eq!(handle.list_tasks(&session, None, 32).unwrap().total, 0);
    // The rejected request id is still free for a later, valid creation.
    let task = handle
        .create_task(&session, "a", SnapshotId(1), "名称", now)
        .unwrap();
    assert_eq!(task.id, TaskId(1));
}

#[test]
fn expired_snapshot_stays_pinned_by_its_task() {
    let (mut handle, session) = handle(Default::default());
    let now = SystemTime::UNIX_EPOCH;
    let task = handle
        .create_task(&session, "pin", SnapshotId(1), "任务", now)
        .unwrap();
    handle.expire_snapshot(SnapshotId(1));
    assert!(matches!(
        handle.snapshot(SnapshotId(1)),
        Err(SelectionError::SnapshotExpired)
    ));
    assert_eq!(
        handle.task_snapshot(&session, task.id).unwrap(),
        SnapshotId(1)
    );
    assert!(matches!(
        handle.create_task(&session, "later", SnapshotId(1), "任务", now),
        Err(SelectionError::SnapshotExpired)
    ));
    assert_eq!(handle.snapshot(SnapshotId(2)).unwrap().target_count, 2);
}

#[test]
fn release_is_idempotent_and_keeps_the_record() {
    let (mut handle, session) = handle(Default::default());
    let now = SystemTime::UNIX_EPOCH;
    let task = handle
        .create_task(&session, "r", SnapshotId(2), "任务", now)
        .unwrap();
    let first = handle.release_task(&session, task.id).unwrap();
    assert_eq!(first.status, TaskStatus::Released);
    let second = handle.release_task(&session, task.id).unwrap();
    assert!(same(&first, &second));
    assert!(matches!(
        handle.task_snapshot(&session, task.id),
        Err(SelectionError::TaskReleased)
    ));
    assert!(matches!(
        handle.release_task(&session, TaskId(7)),
        Err(SelectionError::TaskNotFound)
    ));
    assert!(matches!(
        handle.design_task(&session, TaskId(7)),
        Err(SelectionError::TaskNotFound)
    ));
}

#[test]
fn task_pages_follow_ids_and_reject_bad_sizes() {
    let (mut handle, session) = handle(Default::default());
    let now = SystemTime::UNIX_EPOCH;
    for (request, snapshot) in [("a", 1), ("b", 2), ("c", 1)] {
        handle
            .create_task(&session, request, SnapshotId(snapshot), "任务", now)
            .unwrap();
    }
    let page = handle.list_tasks(&session, None, 2).unwrap();
    assert_eq!(page.total, 3);
    assert_eq!(page.capacity, 128);
    assert_eq!(
        page.tasks.iter().map(|t| t.id).collect::<Vec<_>>(),
        vec![TaskId(1), TaskId(2)]
    );
    assert_eq!(page.next_after, Some(TaskId(2)));
    let rest = handle.list_tasks(&session, page.next_after, 2).unwrap();
    assert_eq!(
        rest.tasks.iter().map(|t| t.id).collect::<Vec<_>>(),
        vec![TaskId(3)]
    );
    assert_eq!(rest.next_after, None);
    for limit in [0, 33] {
        match handle.list_tasks(&session, None, limit) {
            Err(SelectionError::InvalidInput(m)) => assert_eq!(m, BAD_PAGE_SIZE),
            other => panic!("unexpected {other:?}"),
        }
    }
}

#[test]
fn stopped_handle_refuses_work() {
    let (mut handle, session) = handle(Default::default());
    assert!(handle.ensure_running().is_ok());
    handle.stop();
    assert!(matches!(
        handle.ensure_running(),
        Err(SelectionError::Document(DocumentError::ShuttingDown))
    ));
    assert!(matches!(
        handle.create_task(&session, "a", SnapshotId(1), "任务", SystemTime::UNIX_EPOCH),
        Err(SelectionError::Document(DocumentError::ShuttingDown))
    ));
}

fn other_document_brief(id: u64) -> SnapshotBrief {
    SnapshotBrief {
        snapshot_id: SnapshotId(id),
        document_id: DocumentId(2),
        revision_id: RevisionId(4),
        document_name: "other.psd".to_string(),
        target_count: 1,
        content_count: 1,
        text_layer_count: 0,
    }
}

#[test]
fn document_cleanup_invalidates_only_its_active_tasks() {
    let (mut handle, session) = handle(SelectionConfig::default());
    handle.register_snapshot(other_document_brief(4));
    let now = SystemTime::UNIX_EPOCH;
    let first = handle.create_task(&session, "a", SnapshotId(1), "甲", now).unwrap();
    let second = handle.create_task(&session, "b", SnapshotId(2), "乙", now).unwrap();
    let foreign = handle.create_task(&session, "c", SnapshotId(4), "丙", now).unwrap();
    handle.release_task(&session, second.id).unwrap();

    let reached = handle.cleanup_tasks(DocumentId(1));
    assert_eq!(reached.len(), 1);
    assert_eq!(reached[0].id, first.id);

    let unpinned = handle.invalidate_document(DocumentId(1));
    assert_eq!(unpinned, vec![SnapshotId(1)]);
    assert_eq!(
        handle.design_task(&session, first.id).unwrap().status,
        TaskStatus::Invalidated
    );
    assert_eq!(
        handle.design_task(&session, second.id).unwrap().status,
        TaskStatus::Released
    );
    assert!(matches!(
        handle.task_snapshot(&session, first.id),
        Err(SelectionError::TaskInvalidated)
    ));
    assert!(matches!(
        handle.task_snapshot(&session, second.id),
        Err(SelectionError::TaskReleased)
    ));
    assert_eq!(
        handle.release_task(&session, first.id).unwrap().status,
        TaskStatus::Invalidated
    );
    assert_eq!(handle.task_snapshot(&session, foreign.id).unwrap(), SnapshotId(4));
    assert!(matches!(
        handle.snapshot(SnapshotId(2)),
        Err(SelectionError::SnapshotExpired)
    ));
    assert_eq!(handle.snapshot(SnapshotId(4)).unwrap().target_count, 1);
    assert!(handle.cleanup_tasks(DocumentId(1)).is_empty());
    assert_eq!(handle.cleanup_tasks(DocumentId(2)).len(), 1);
}

#[test]
fn draining_references_returns_every_remaining_pin() {
    let (mut handle, session) = handle(SelectionConfig::default());
    let now = SystemTime::UNIX_EPOCH;
    let first = handle.create_task(&session, "a", SnapshotId(1), "甲", now).unwrap();
    let second = handle.create_task(&session, "b", SnapshotId(2), "乙", now).unwrap();
    handle.release_task(&session, first.id).unwrap();
    let unpinned = handle.drain_references();
    assert_eq!(unpinned, vec![SnapshotId(2)]);
    assert!(matches!(
        handle.design_task(&session, second.id),
        Err(SelectionError::TaskNotFound)
    ));
    assert!(matches!(
        handle.snapshot(SnapshotId(1)),
        Err(SelectionError::SnapshotExpired)
    ));
    assert!(handle.drain_references().is_empty());
}

#[test]
fn display_names_are_cut_to_whole_characters_within_256_bytes() {
    assert_eq!(display_name("viewer-scale.psd"), "viewer-scale.psd");
    let ascii = "a".repeat(300);
    assert_eq!(display_name(&ascii), "a".repeat(256));
    // 255 ASCII bytes then a three-byte character: the character does not fit.
    let boundary = format!("{}图.psd", "b".repeat(255));
    assert_eq!(display_name(&boundary), "b".repeat(255));
    // Exactly 256 bytes of three-byte characters plus one byte fit whole.
    let exact = format!("{}c", "图".repeat(85));
    assert_eq!(display_name(&exact).len(), 256);
    assert_eq!(display_name(&exact), exact);
    assert_eq!(utf8_prefix("😀x", 3), "");
    assert_eq!(utf8_prefix("😀x", 5), "😀x");
}

#[test]
fn cleanup_invalidates_reads_and_tasks_but_keeps_terminal_records_and_charges() {
    let (mut handle, session) = handle(SelectionConfig::default());
    let now = SystemTime::UNIX_EPOCH;
    let active = handle
        .create_task(&session, "active", SnapshotId(1), "模块", now)
        .unwrap();
    let released = handle
        .create_task(&session, "released", SnapshotId(1), "释放", now)
        .unwrap();
    handle.release_task(&session, released.id).unwrap();
    assert_eq!(handle.task_snapshot(&session, active.id).unwrap(), SnapshotId(1));
    let reached = handle.cleanup_tasks(DocumentId(1));
    assert_eq!(reached.len(), 1);
    assert!(same(&reached[0], &active));
    assert_eq!(handle.invalidate_document(DocumentId(1)), vec![SnapshotId(1)]);
    assert!(matches!(
        handle.snapshot(SnapshotId(1)),
        Err(SelectionError::SnapshotExpired)
    ));
    assert!(matches!(
        handle.task_snapshot(&session, active.id),
        Err(SelectionError::TaskInvalidated)
    ));
    assert!(matches!(
        handle.create_task(&session, "new", SnapshotId(1), "新任务", now),
        Err(SelectionError::SnapshotExpired)
    ));
    let retry = handle
        .create_task(&session, "active", SnapshotId(1), "模块", now)
        .unwrap();
    assert_eq!(retry.status, TaskStatus::Invalidated);
    assert!(same(&handle.release_task(&session, active.id).unwrap(), &retry));
    let page = handle.list_tasks(&session, None, 32).unwrap();
    assert_eq!(page.total, 2);
    assert_eq!(page.tasks[1].status, TaskStatus::Released);
    assert!(handle.drain_references().is_empty());
}
