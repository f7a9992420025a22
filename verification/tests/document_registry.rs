use std::sync::Arc;
use std::time::Instant;

use layerlens_core::documents::preview::cache::State as PreviewCache;
use layerlens_core::documents::preview::model::{Image, Key};
use layerlens_core::documents::registry::{
    CancelEffect, Computed, Next, OpenAdmission, PathKey, PreviewAdmission, PreviewPublished,
    PublishOutcome, Registry, Rendered, Resolution, RevisionFate, same_path,
};
use layerlens_core::documents::selection::{SelectionError, SnapshotId};
use layerlens_core::documents::{
    DocumentError, DocumentId, OpenJobId, PreviewConfig, PreviewJobId, PreviewKind, PreviewLease,
    RevisionId,
};
use layerlens_core::documents::registry::{CleanupReceipt, LiveRevision, facts_agree};
use layerlens_core::psd::{Capability, LayerId};

fn path(text: &str) -> PathKey {
    PathKey {
        components: text
            .split('/')
            .filter(|c| !c.is_empty())
            .map(|c| c.as_bytes().to_vec())
            .collect(),
    }
}

/// Opens `name` through the whole job cycle and returns the document.
fn open(registry: &mut Registry, name: &str) -> DocumentId {
    let now = Instant::now();
    let id = match registry.open(path(name), 4).unwrap() {
        OpenAdmission::Queued(id) => id,
        other => panic!("unexpected {other:?}"),
    };
    match registry.next_work(now) {
        Next::Open { id: started, .. } => assert_eq!(started, id),
        other => panic!("unexpected {other:?}"),
    }
    assert_eq!(registry.resolve(id, path(name)), Resolution::Load);
    assert!(registry.still_wanted(id));
    let published = registry.publish(id, Computed::Loaded { path: path(name) }, now);
    assert_eq!(published.fate, RevisionFate::Insert);
    registry.retire(id);
    match published.outcome {
        PublishOutcome::Opened { document_id, .. } => document_id,
        other => panic!("unexpected {other:?}"),
    }
}

fn image(document: DocumentId, revision: RevisionId) -> PreviewLease {
    PreviewLease(Arc::new(Image::new(
        Key {
            document,
            revision,
            kind: PreviewKind::SavedCompositePng,
        },
        1,
        1,
        Capability::supported("saved"),
        vec![1, 2, 3],
    )))
}

#[test]
fn paths_compare_by_components() {
    assert!(same_path(&path("/a/b.psd"), &path("/a//b.psd/")));
    assert!(!same_path(&path("/a/b.psd"), &path("/a/B.psd")));
}

#[test]
fn open_queues_then_reuses_and_activates() {
    let mut registry = Registry::new();
    let first = open(&mut registry, "/x/first.psd");
    assert_eq!(first, DocumentId(1));
    assert_eq!(registry.active_document(), Some(first));
    let again = registry.open(path("/x/first.psd"), 4).unwrap();
    assert_eq!(
        again,
        OpenAdmission::Reused {
            job: OpenJobId(2),
            document: first,
            revision: RevisionId(1)
        }
    );
    assert_eq!(registry.entries().len(), 1);
}

#[test]
fn pending_opens_of_one_path_are_joined_and_slots_are_bounded() {
    let mut registry = Registry::new();
    let a = registry.open(path("/a.psd"), 2).unwrap();
    assert_eq!(a, OpenAdmission::Queued(OpenJobId(1)));
    assert_eq!(registry.open(path("/a.psd"), 2).unwrap(), OpenAdmission::Joined(OpenJobId(1)));
    assert_eq!(registry.open(path("/b.psd"), 2).unwrap(), OpenAdmission::Queued(OpenJobId(2)));
    assert!(matches!(
        registry.open(path("/c.psd"), 2),
        Err(DocumentError::QueueFull { limit: 2 })
    ));
    assert_eq!(registry.pending_count(), 2);
}

#[test]
fn only_the_latest_open_intent_activates() {
    let mut registry = Registry::new();
    let now = Instant::now();
    registry.open(path("/a.psd"), 4).unwrap();
    registry.open(path("/b.psd"), 4).unwrap();
    let Next::Open { id: a, .. } = registry.next_work(now) else {
        panic!("expected the first open")
    };
    let published = registry.publish(a, Computed::Loaded { path: path("/a.psd") }, now);
    registry.retire(a);
    assert!(matches!(published.outcome, PublishOutcome::Opened { reused: false, .. }));
    assert_eq!(registry.active_document(), None);
    let Next::Open { id: b, .. } = registry.next_work(now) else {
        panic!("expected the second open")
    };
    registry.publish(b, Computed::Loaded { path: path("/b.psd") }, now);
    registry.retire(b);
    assert_eq!(registry.active_document(), Some(DocumentId(2)));
    assert_eq!(registry.jobs().len(), 0);
}

#[test]
fn cancel_is_accepted_once() {
    let mut registry = Registry::new();
    let now = Instant::now();
    registry.open(path("/a.psd"), 4).unwrap();
    registry.open(path("/b.psd"), 4).unwrap();
    assert_eq!(registry.cancel(OpenJobId(2)), CancelEffect::Dequeued);
    assert_eq!(registry.cancel(OpenJobId(2)), CancelEffect::Refused);
    let Next::Open { id, .. } = registry.next_work(now) else {
        panic!("expected an open")
    };
    assert_eq!(registry.cancel(id), CancelEffect::Marked);
    assert_eq!(registry.cancel(id), CancelEffect::Refused);
    assert!(!registry.still_wanted(id));
    let published = registry.publish(id, Computed::Loaded { path: path("/a.psd") }, now);
    assert_eq!(published.outcome, PublishOutcome::Cancelled);
    assert_eq!(published.fate, RevisionFate::Discard);
    registry.retire(id);
    assert_eq!(registry.entries().len(), 0);
    assert!(matches!(registry.next_work(now), Next::Wait));
}

#[test]
fn close_moves_focus_right_then_left_and_refuses_unknown_documents() {
    let mut registry = Registry::new();
    let now = Instant::now();
    let first = open(&mut registry, "/first.psd");
    let middle = open(&mut registry, "/middle.psd");
    let last = open(&mut registry, "/last.psd");
    registry.activate(middle).unwrap();
    registry.close(middle, now).unwrap();
    assert_eq!(registry.active_document(), Some(last));
    registry.close(last, now).unwrap();
    assert_eq!(registry.active_document(), Some(first));
    registry.close(first, now).unwrap();
    assert_eq!(registry.active_document(), None);
    assert!(matches!(
        registry.close(first, now),
        Err(DocumentError::NotFound(d)) if d == first
    ));
    assert!(matches!(
        registry.activate(first),
        Err(DocumentError::NotFound(_))
    ));
    assert_ne!(open(&mut registry, "/first.psd"), first);
}

#[test]
fn a_closed_path_stops_earlier_jobs_from_reopening_it() {
    let mut registry = Registry::new();
    let now = Instant::now();
    let document = open(&mut registry, "/doc.psd");
    let alias = match registry.open(path("/alias.psd"), 4).unwrap() {
        OpenAdmission::Queued(id) => id,
        other => panic!("unexpected {other:?}"),
    };
    let Next::Open { id, .. } = registry.next_work(now) else {
        panic!("expected the alias job")
    };
    assert_eq!(id, alias);
    registry.close(document, now).unwrap();
    assert_eq!(registry.resolve(alias, path("/doc.psd")), Resolution::Cancelled);
}

#[test]
fn reload_replaces_the_revision_without_moving_focus() {
    let mut registry = Registry::new();
    let now = Instant::now();
    let first = open(&mut registry, "/first.psd");
    let other = open(&mut registry, "/other.psd");
    let (job, dequeued) = registry.reload(first, 4).unwrap();
    assert!(dequeued.is_empty());
    let (second, dequeued) = registry.reload(first, 4).unwrap();
    assert_eq!(dequeued, vec![job]);
    let Next::Open { id, .. } = registry.next_work(now) else {
        panic!("expected the reload")
    };
    assert_eq!(id, second);
    assert_eq!(registry.resolve(id, path("/first.psd")), Resolution::Load);
    let published = registry.publish(id, Computed::Loaded { path: path("/first.psd") }, now);
    assert_eq!(published.fate, RevisionFate::Replace(RevisionId(1)));
    registry.retire(id);
    assert_eq!(registry.entries()[0].revision, RevisionId(second.0));
    assert_eq!(registry.active_document(), Some(other));
    assert!(matches!(
        registry.reload(DocumentId(99), 4),
        Err(DocumentError::NotFound(_))
    ));
}

#[test]
fn previews_coalesce_hit_the_cache_and_run_in_admission_order() {
    let mut registry = Registry::new();
    let mut cache = PreviewCache::new();
    let now = Instant::now();
    let document = open(&mut registry, "/doc.psd");
    let first = match registry.preview(document, &mut cache, 4).unwrap() {
        PreviewAdmission::Queued(id) => id,
        other => panic!("unexpected {other:?}"),
    };
    assert!(matches!(
        registry.preview(document, &mut cache, 4).unwrap(),
        PreviewAdmission::Joined(id) if id == first
    ));
    let Next::Preview { id, key } = registry.next_work(now) else {
        panic!("expected the preview")
    };
    assert_eq!(id, first);
    assert!(!registry.preview_cancelled(id));
    let rendered = image(key.document, key.revision);
    let (published, evicted) = registry.publish_preview(
        id,
        Rendered::Image(rendered),
        &mut cache,
        PreviewConfig::default(),
    );
    assert!(matches!(published, PreviewPublished::Ready(_)));
    assert!(evicted.is_empty());
    registry.release_preview(id);
    match registry.preview(document, &mut cache, 4).unwrap() {
        PreviewAdmission::Hit(id, image) => {
            assert!(id.get() > first.get());
            assert_eq!(image.document_id(), document);
        }
        other => panic!("unexpected {other:?}"),
    }
    assert!(matches!(
        registry.preview(DocumentId(42), &mut cache, 4),
        Err(DocumentError::NotFound(_))
    ));
}

#[test]
fn cancelled_previews_finish_and_release_their_slot() {
    let mut registry = Registry::new();
    let mut cache = PreviewCache::new();
    let now = Instant::now();
    let document = open(&mut registry, "/doc.psd");
    let PreviewAdmission::Queued(id) = registry.preview(document, &mut cache, 4).unwrap() else {
        panic!("expected a queued preview")
    };
    assert_eq!(registry.cancel_preview(id, now), CancelEffect::Dequeued);
    assert_eq!(registry.cancel_preview(id, now), CancelEffect::Refused);
    assert_eq!(registry.preview_jobs().len(), 1);
    registry.release_preview(id);
    assert_eq!(registry.preview_jobs().len(), 0);
    assert_eq!(registry.cancel_preview(PreviewJobId(77), now), CancelEffect::Refused);
}

#[test]
fn shutdown_cancels_everything_and_refuses_admission() {
    let mut registry = Registry::new();
    let mut cache = PreviewCache::new();
    let now = Instant::now();
    let document = open(&mut registry, "/doc.psd");
    registry.open(path("/queued.psd"), 4).unwrap();
    registry.preview(document, &mut cache, 4).unwrap();
    let (jobs, previews) = registry.request_shutdown(now);
    assert_eq!(jobs.len(), 1);
    assert_eq!(previews.len(), 1);
    assert!(registry.stopping());
    assert!(matches!(registry.next_work(now), Next::Stop));
    assert!(matches!(
        registry.open(path("/late.psd"), 4),
        Err(DocumentError::ShuttingDown)
    ));
    let entries = registry.drain();
    assert_eq!(entries.len(), 1);
    assert_eq!(registry.active_document(), None);
}

#[test]
fn selections_commit_only_on_the_active_current_revision() {
    let mut registry = Registry::new();
    let document = open(&mut registry, "/doc.psd");
    let version = registry.capture().version;
    assert!(matches!(
        registry.commit_selection(document, RevisionId(9), version, 16),
        Err(SelectionError::Document(DocumentError::StaleRevision))
    ));
    assert!(matches!(
        registry.commit_selection(document, RevisionId(1), version + 1, 16),
        Err(SelectionError::StaleSelection)
    ));
    let (first, evicted) = registry.commit_selection(document, RevisionId(1), version, 1).unwrap();
    assert_eq!(first, SnapshotId(1));
    assert!(evicted.is_empty());
    let captured = registry.capture();
    assert_eq!(captured.version, version + 1);
    assert_eq!(captured.active, Some((document, RevisionId(1), Some(first))));
    let (second, evicted) = registry
        .commit_selection(document, RevisionId(1), version + 1, 0)
        .unwrap();
    assert_eq!(second, SnapshotId(2));
    assert_eq!(evicted, vec![(first, document)]);
    let evicted = registry
        .clear_selection(document, RevisionId(1), version + 2, 0)
        .unwrap();
    assert_eq!(evicted, vec![(second, document)]);
    assert!(registry
        .clear_selection(document, RevisionId(1), version + 3, 0)
        .unwrap()
        .is_empty());
    assert_eq!(
        registry.current_selection(document, RevisionId(1), version + 3).unwrap(),
        None
    );
}

#[test]
fn other_documents_are_inactive_for_selection() {
    let mut registry = Registry::new();
    let first = open(&mut registry, "/a.psd");
    let second = open(&mut registry, "/b.psd");
    let version = registry.capture().version;
    assert_eq!(registry.active_document(), Some(second));
    assert!(matches!(
        registry.commit_selection(first, RevisionId(1), version, 16),
        Err(SelectionError::InactiveDocument)
    ));
    registry.activate(first).unwrap();
    assert_eq!(registry.capture().version, version + 1);
    registry.activate(first).unwrap();
    assert_eq!(registry.capture().version, version + 1);
}

#[test]
fn cleanup_impact_lists_what_a_cleanup_reaches() {
    let mut registry = Registry::new();
    let mut cache = PreviewCache::new();
    let now = Instant::now();
    let document = open(&mut registry, "/doc.psd");
    registry.open(path("/doc.psd/"), 4).unwrap();
    registry.open(path("/other.psd"), 4).unwrap();
    registry.preview(document, &mut cache, 8).unwrap();
    let revisions = vec![
        LiveRevision { id: RevisionId(1), path: path("/doc.psd"), invalidated: false },
        LiveRevision { id: RevisionId(7), path: path("/old.psd"), invalidated: true },
    ];
    let facts = registry.cleanup_impact(document, &revisions, false).unwrap();
    assert_eq!(facts.open_revision, Some(RevisionId(1)));
    assert_eq!(facts.live_revisions, vec![RevisionId(1)]);
    assert_eq!(facts.paths.len(), 1);
    assert_eq!(facts.preview_jobs.len(), 1);
    assert!(facts.load_jobs.is_empty());
    assert_eq!(facts.unresolved_load_jobs.len(), 1);
    let again = registry.cleanup_impact(document, &revisions, false).unwrap();
    assert!(facts_agree(&facts, &again));
    assert!(matches!(
        registry.cleanup_impact(DocumentId(50), &Vec::new(), false),
        Err(DocumentError::NotFound(_))
    ));
    let cleaned = registry.apply_cleanup(document, &facts, now).unwrap();
    assert!(cleaned.entry.is_some());
    assert_eq!(cleaned.previews.len(), 1);
    assert_eq!(registry.entries().len(), 0);
    assert_eq!(registry.active_document(), None);
}

#[test]
fn selected_layers_need_the_current_revision() {
    let mut registry = Registry::new();
    let document = open(&mut registry, "/doc.psd");
    registry.select_layer(document, RevisionId(1), Some(LayerId(3))).unwrap();
    assert_eq!(registry.entries()[0].selected_layer, Some(LayerId(3)));
    assert!(matches!(
        registry.select_layer(document, RevisionId(2), None),
        Err(DocumentError::StaleRevision)
    ));
    registry.select_layer(document, RevisionId(1), None).unwrap();
    assert_eq!(registry.entries()[0].selected_layer, None);
}

#[test]
fn impact_summary_carries_the_facts_and_tasks() {
    let mut registry = Registry::new();
    let document = open(&mut registry, "/doc.psd");
    let revisions = vec![LiveRevision { id: RevisionId(1), path: path("/doc.psd"), invalidated: false }];
    let facts = registry.cleanup_impact(document, &revisions, false).unwrap();
    let (impact, paths) = facts.into_impact(document, Vec::new());
    assert_eq!(impact.document_id, document);
    assert_eq!(impact.open_revision, Some(RevisionId(1)));
    assert_eq!(impact.live_revisions, vec![RevisionId(1)]);
    assert!(impact.tasks.is_empty());
    assert_eq!(paths.len(), 1);
    assert!(same_path(&paths[0], &path("/doc.psd")));
    let receipt = CleanupReceipt { document_id: document, already_applied: false };
    assert_eq!(receipt, CleanupReceipt { document_id: document, already_applied: false });
}

/// Runs a reload of `document` through the whole job cycle.
fn reload(registry: &mut Registry, document: DocumentId, name: &str) -> PublishOutcome {
    let now = Instant::now();
    let (job, _) = registry.reload(document, 4).unwrap();
    let Next::Open { id, .. } = registry.next_work(now) else {
        panic!("expected the reload")
    };
    assert_eq!(id, job);
    assert_eq!(registry.resolve(id, path(name)), Resolution::Load);
    let published = registry.publish(id, Computed::Loaded { path: path(name) }, now);
    registry.retire(id);
    published.outcome
}

#[test]
fn active_versions_change_only_for_effective_transitions() {
    let mut registry = Registry::new();
    let now = Instant::now();
    let initial = registry.capture();
    assert_eq!(initial.version, 0);
    assert!(initial.active.is_none());
    let a = open(&mut registry, "/viewer-scale.psd");
    assert_eq!(registry.capture().version, 1);
    let (snapshot, _) = registry.commit_selection(a, RevisionId(1), 1, 16).unwrap();
    let selected = registry.capture().version;
    assert_eq!(selected, 2);
    registry.activate(a).unwrap();
    assert!(matches!(
        registry.open(path("/viewer-scale.psd"), 4).unwrap(),
        OpenAdmission::Reused { .. }
    ));
    registry.select_layer(a, RevisionId(1), Some(LayerId(4))).unwrap();
    assert_eq!(registry.capture().version, selected);
    let b = open(&mut registry, "/bitmap-raw.psd");
    let b_selection = registry.capture();
    assert!(b_selection.version > selected);
    assert_eq!(b_selection.active, Some((b, RevisionId(3), None)));
    registry.activate(a).unwrap();
    let restored = registry.capture();
    assert!(restored.version > b_selection.version);
    assert_eq!(restored.active, Some((a, RevisionId(1), Some(snapshot))));
    assert!(matches!(
        reload(&mut registry, b, "/bitmap-raw.psd"),
        PublishOutcome::Opened { .. }
    ));
    registry.close(b, now).unwrap();
    assert_eq!(registry.capture().version, restored.version);
    registry.close(a, now).unwrap();
    let empty = registry.capture();
    assert_eq!(empty.version, restored.version + 1);
    assert!(empty.active.is_none());
}

#[test]
fn reloading_the_active_document_advances_the_version() {
    let mut registry = Registry::new();
    let a = open(&mut registry, "/a.psd");
    let b = open(&mut registry, "/b.psd");
    let before = registry.capture().version;
    assert!(matches!(reload(&mut registry, a, "/a.psd"), PublishOutcome::Opened { .. }));
    assert_eq!(registry.capture().version, before);
    assert!(matches!(reload(&mut registry, b, "/b.psd"), PublishOutcome::Opened { .. }));
    assert_eq!(registry.capture().version, before + 1);
    assert_eq!(registry.active_document(), Some(b));
}
