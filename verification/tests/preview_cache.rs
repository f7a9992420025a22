use std::sync::Arc;

use layerlens_core::documents::preview::cache::State;
use layerlens_core::documents::preview::model::{Image, Key};
use layerlens_core::documents::{
    DocumentId, PreviewAccounting, PreviewConfig, PreviewKind, PreviewLease, RevisionId,
};
use layerlens_core::psd::{Capability, Support};

fn key(document: u64, revision: u64) -> Key {
    Key {
        document: DocumentId(document),
        revision: RevisionId(revision),
        kind: PreviewKind::SavedCompositePng,
    }
}

/// An image whose PNG buffer was reserved for `charge` bytes.
fn image(document: u64, revision: u64, charge: u64) -> PreviewLease {
    let mut bytes = Vec::with_capacity(charge as usize);
    bytes.extend_from_slice(&[0x89, b'P', b'N', b'G']);
    PreviewLease(Arc::new(Image::new(
        key(document, revision),
        4,
        3,
        Capability::supported("saved composite"),
        bytes,
    )))
}

fn config(bytes: u64, entries: usize) -> PreviewConfig {
    PreviewConfig {
        max_cache_bytes: bytes,
        max_cache_entries: entries,
        ..PreviewConfig::default()
    }
}

fn revisions(state: &State) -> (usize, u64) {
    let s = state.snapshot(PreviewAccounting::default());
    (s.cache_entries, s.cache_bytes)
}

#[test]
fn lease_getters_read_the_shared_image() {
    let lease = image(7, 2, 64);
    let other = lease.share();
    assert!(Arc::ptr_eq(&lease.0, &other.0));
    assert_eq!(other.document_id(), DocumentId(7));
    assert_eq!(other.revision_id(), RevisionId(2));
    assert_eq!(other.kind(), PreviewKind::SavedCompositePng);
    assert_eq!((other.width(), other.height()), (4, 3));
    assert_eq!(other.capability().status, Support::Supported);
    assert_eq!(other.png(), &[0x89, b'P', b'N', b'G']);
    assert_eq!(other.charged_bytes(), 64);
    assert_eq!(other.key(), key(7, 2));
    assert!(other.charged_bytes() >= other.png().len() as u64);
}

#[test]
fn a_hit_moves_the_image_to_the_recent_end_and_eviction_takes_the_oldest() {
    let mut state = State::new();
    let limits = config(100, 2);
    assert!(state.insert(&image(1, 1, 10), limits).is_empty());
    assert!(state.insert(&image(2, 1, 10), limits).is_empty());
    assert!(state.cached(key(3, 1)).is_none());
    let hit = state.cached(key(1, 1)).unwrap();
    assert_eq!(hit.document_id(), DocumentId(1));
    let removed = state.insert(&image(3, 1, 10), limits);
    assert_eq!(removed.len(), 1);
    assert_eq!(removed[0].document_id(), DocumentId(2));
    let s = state.snapshot(PreviewAccounting::default());
    assert_eq!((s.cache_entries, s.cache_bytes), (2, 20));
    assert_eq!((s.cache_hits, s.evictions), (1, 1));
    let oldest = state.evict().unwrap();
    assert_eq!(oldest.document_id(), DocumentId(1));
    assert_eq!(revisions(&state), (1, 10));
}

#[test]
fn byte_limit_evicts_until_the_image_fits() {
    let mut state = State::new();
    let limits = config(50, 8);
    for document in 1..=4 {
        assert!(state.insert(&image(document, 1, 12), limits).is_empty());
    }
    let removed = state.insert(&image(5, 1, 20), limits);
    assert_eq!(
        removed.iter().map(|i| i.document_id()).collect::<Vec<_>>(),
        vec![DocumentId(1), DocumentId(2)]
    );
    assert_eq!(revisions(&state), (3, 44));
}

#[test]
fn cache_can_be_disabled_or_smaller_than_a_single_image() {
    let mut state = State::new();
    assert!(state.insert(&image(1, 1, 10), config(100, 0)).is_empty());
    assert!(state.insert(&image(1, 1, 10), config(0, 4)).is_empty());
    assert!(state.insert(&image(1, 1, 101), config(100, 4)).is_empty());
    assert_eq!(revisions(&state), (0, 0));
    assert!(state.evict().is_none());
    assert!(state.cached(key(1, 1)).is_none());
}

#[test]
fn invalidation_drops_one_document_or_everything_without_counting_evictions() {
    let mut state = State::new();
    let limits = config(100, 8);
    for (document, revision) in [(1, 1), (2, 1), (1, 2)] {
        state.insert(&image(document, revision, 5), limits);
    }
    let removed = state.invalidate_cache(Some(DocumentId(1)));
    assert_eq!(
        removed.iter().map(|i| i.revision_id()).collect::<Vec<_>>(),
        vec![RevisionId(1), RevisionId(2)]
    );
    assert_eq!(revisions(&state), (1, 5));
    assert!(state.cached(key(2, 1)).is_some());
    let all = state.invalidate_cache(None);
    assert_eq!(all.len(), 1);
    let s = state.snapshot(PreviewAccounting::default());
    assert_eq!((s.cache_entries, s.cache_bytes, s.evictions), (0, 0, 0));
}

#[test]
fn coalesced_requests_are_counted() {
    let mut state = State::new();
    state.count_coalesced();
    state.count_coalesced();
    let s = state.snapshot(PreviewAccounting {
        decoded_bytes: 3,
        output_bytes: 4,
    });
    assert_eq!(s.coalesced_requests, 2);
    assert_eq!(s.resources.output_bytes, 4);
}
