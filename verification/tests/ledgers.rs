use layerlens_core::documents::budget::{self, DECLARED_PIXELS, REVISIONS, SOURCE_BYTES};
use layerlens_core::documents::model::{
    NEED_FILE_LIMITS, NEED_JOBS_AND_REVISIONS, NEED_ROOM_FOR_PARSE,
};
use layerlens_core::documents::preview::budget::{
    self as preview_budget, DECODE_BYTES, OUTPUT_BYTES, PNG_CAPACITY,
};
use layerlens_core::documents::preview::model::{CACHE_WITHIN_OUTPUT, NEED_ROOM_FOR_PREVIEW};
use layerlens_core::documents::selection::budget::{self as selection_budget, SCOPE_BYTES, SNAPSHOTS};
use layerlens_core::documents::selection::model::BAD_SELECTION_CONFIG;
use layerlens_core::documents::selection::{SelectionAccounting, SelectionConfig, SelectionError};
use layerlens_core::documents::{
    DocumentError, DocumentServiceConfig, PreviewAccounting, PreviewConfig, ResourceAccounting,
};
use layerlens_core::psd::ParseLimits;

fn small() -> DocumentServiceConfig {
    DocumentServiceConfig {
        parse_limits: ParseLimits {
            max_file_bytes: 100,
            max_total_pixels: 10,
            ..ParseLimits::default()
        },
        max_live_revisions: 3,
        max_source_bytes: 250,
        max_declared_pixels: 25,
        ..Default::default()
    }
}

fn config_message(r: Result<DocumentServiceConfig, DocumentError>) -> &'static str {
    match r {
        Err(DocumentError::InvalidConfiguration(m)) => m,
        other => panic!("unexpected {other:?}"),
    }
}

#[test]
fn invalid_configuration_is_rejected_before_worker_creation() {
    let config = DocumentServiceConfig {
        max_pending_jobs: 0,
        ..Default::default()
    };
    assert!(matches!(
        config.validate(),
        Err(DocumentError::InvalidConfiguration(_))
    ));
    let config = DocumentServiceConfig {
        max_source_bytes: 1,
        ..Default::default()
    };
    assert!(matches!(
        config.validate(),
        Err(DocumentError::InvalidConfiguration(_))
    ));
}

#[test]
fn each_configuration_rule_names_its_reason() {
    assert!(DocumentServiceConfig::default().validate().is_ok());
    assert_eq!(
        config_message(
            DocumentServiceConfig {
                max_live_revisions: 0,
                ..Default::default()
            }
            .validate()
        ),
        NEED_JOBS_AND_REVISIONS
    );
    let mut config = DocumentServiceConfig::default();
    config.parse_limits.max_layers = 0;
    assert_eq!(config_message(config.validate()), NEED_FILE_LIMITS);
    let config = DocumentServiceConfig {
        max_declared_pixels: 1,
        ..Default::default()
    };
    assert_eq!(config_message(config.validate()), NEED_ROOM_FOR_PARSE);
    let mut config = DocumentServiceConfig::default();
    config.preview.max_cache_bytes = config.preview.max_output_bytes + 1;
    assert_eq!(config_message(config.validate()), CACHE_WITHIN_OUTPUT);
    let mut config = DocumentServiceConfig::default();
    config.selection.max_items = 0;
    assert_eq!(config_message(config.validate()), BAD_SELECTION_CONFIG);
}

#[test]
fn invalid_preview_configuration_is_rejected() {
    let mut config = DocumentServiceConfig::default();
    config.preview.max_decoded_bytes = 1;
    assert!(matches!(
        config.validate(),
        Err(DocumentError::InvalidConfiguration(_))
    ));
    config.preview = PreviewConfig {
        max_png_bytes: 0,
        ..PreviewConfig::default()
    };
    assert!(matches!(
        config.validate(),
        Err(DocumentError::InvalidConfiguration(_))
    ));
    config.preview = PreviewConfig {
        max_output_bytes: 1,
        ..PreviewConfig::default()
    };
    assert!(matches!(
        config.validate(),
        Err(DocumentError::InvalidConfiguration(m)) if m == NEED_ROOM_FOR_PREVIEW
    ));
    assert!(PreviewConfig::default().validate(128 * 1024 * 1024).is_ok());
    assert!(PreviewConfig::default().validate(128 * 1024 * 1024 + 1).is_err());
}

#[test]
fn invalid_configuration_is_rejected_before_starting_a_worker() {
    for selection in [
        SelectionConfig {
            max_items: 0,
            ..Default::default()
        },
        SelectionConfig {
            max_scope_layers: 0,
            ..Default::default()
        },
        SelectionConfig {
            max_live_snapshots: 0,
            ..Default::default()
        },
        SelectionConfig {
            max_scope_bytes: 0,
            ..Default::default()
        },
        SelectionConfig {
            max_task_records: 0,
            ..Default::default()
        },
        SelectionConfig {
            content_page_bytes: 1023,
            ..Default::default()
        },
        SelectionConfig {
            content_page_bytes: 256 * 1024 + 1,
            ..Default::default()
        },
    ] {
        assert!(matches!(
            DocumentServiceConfig {
                selection,
                ..Default::default()
            }
            .validate(),
            Err(DocumentError::InvalidConfiguration(_))
        ));
    }
    assert!(SelectionConfig {
        max_cached_snapshots: 0,
        content_page_bytes: 1024,
        ..Default::default()
    }
    .validate()
    .is_ok());
}

#[test]
fn parse_reservations_charge_the_file_limits_and_release_restores_usage() {
    let mut ledger = budget::Budget::new(small());
    let first = ledger.reserve().unwrap();
    assert_eq!(
        ledger.usage(),
        ResourceAccounting {
            live_revisions: 1,
            source_bytes: 100,
            declared_pixels: 10
        }
    );
    let second = ledger.reserve().unwrap();
    match ledger.reserve() {
        Err(DocumentError::ResourceLimit { resource, limit }) => {
            assert_eq!(resource, SOURCE_BYTES);
            assert_eq!(limit, 250);
        }
        other => panic!("unexpected {other:?}"),
    }
    assert_eq!(ledger.usage().live_revisions, 2);
    ledger.release(second);
    ledger.release(first);
    assert_eq!(ledger.usage(), ResourceAccounting::default());
}

#[test]
fn revision_and_pixel_quotas_refuse_in_order() {
    let mut config = small();
    config.max_live_revisions = 1;
    let mut ledger = budget::Budget::new(config);
    let permit = ledger.reserve().unwrap();
    assert!(matches!(
        ledger.reserve(),
        Err(DocumentError::ResourceLimit { resource, limit: 1 }) if resource == REVISIONS
    ));
    ledger.release(permit);
    let mut config = small();
    config.max_declared_pixels = 15;
    let mut ledger = budget::Budget::new(config);
    let _permit = ledger.reserve().unwrap();
    assert!(matches!(
        ledger.reserve(),
        Err(DocumentError::ResourceLimit { resource, limit: 15 }) if resource == DECLARED_PIXELS
    ));
}

#[test]
fn settling_lowers_the_charge_to_what_the_document_holds() {
    let mut ledger = budget::Budget::new(small());
    let mut permit = ledger.reserve().unwrap();
    assert!(matches!(
        permit.settle(&mut ledger, 101, 1),
        Err(DocumentError::ResourceLimit { resource, limit: 100 }) if resource == SOURCE_BYTES
    ));
    assert!(matches!(
        permit.settle(&mut ledger, 1, 11),
        Err(DocumentError::ResourceLimit { resource, limit: 10 }) if resource == DECLARED_PIXELS
    ));
    assert_eq!(ledger.usage().source_bytes, 100);
    permit.settle(&mut ledger, 40, 4).unwrap();
    assert_eq!(
        ledger.usage(),
        ResourceAccounting {
            live_revisions: 1,
            source_bytes: 40,
            declared_pixels: 4
        }
    );
    ledger.release(permit);
    assert_eq!(ledger.usage(), ResourceAccounting::default());
}

#[test]
fn preview_reservations_hold_decode_and_one_png() {
    let config = PreviewConfig {
        max_decoded_bytes: 100,
        max_png_bytes: 30,
        max_output_bytes: 50,
        max_cache_bytes: 20,
        max_cache_entries: 2,
    };
    let mut ledger = preview_budget::Budget::new(config);
    let (decode, mut output) = ledger.reserve(60).unwrap();
    assert_eq!(
        ledger.usage(),
        PreviewAccounting {
            decoded_bytes: 60,
            output_bytes: 30
        }
    );
    assert!(matches!(
        ledger.reserve(50),
        Err(DocumentError::ResourceLimit { resource, limit: 100 }) if resource == DECODE_BYTES
    ));
    assert!(matches!(
        ledger.reserve(10),
        Err(DocumentError::ResourceLimit { resource, limit: 50 }) if resource == OUTPUT_BYTES
    ));
    ledger.release_decode(decode);
    assert_eq!(ledger.usage().decoded_bytes, 0);
    assert!(matches!(
        output.settle(&mut ledger, 31),
        Err(DocumentError::ResourceLimit { resource, limit: 30 }) if resource == PNG_CAPACITY
    ));
    output.settle(&mut ledger, 12).unwrap();
    assert_eq!(ledger.usage().output_bytes, 12);
    ledger.release_output(output);
    assert_eq!(ledger.usage(), PreviewAccounting::default());
}

#[test]
fn snapshot_reservations_count_snapshots_and_scope_bytes() {
    let config = SelectionConfig {
        max_live_snapshots: 2,
        max_scope_bytes: 100,
        ..Default::default()
    };
    let mut ledger = selection_budget::Budget::new(config);
    let a = ledger.reserve(60).unwrap();
    assert!(matches!(
        ledger.reserve(41),
        Err(SelectionError::Document(DocumentError::ResourceLimit { resource, limit: 100 }))
            if resource == SCOPE_BYTES
    ));
    let b = ledger.reserve(40).unwrap();
    assert_eq!(
        ledger.usage(),
        SelectionAccounting {
            live_snapshots: 2,
            scope_bytes: 100
        }
    );
    assert!(matches!(
        ledger.reserve(0),
        Err(SelectionError::Document(DocumentError::ResourceLimit { resource, limit: 2 }))
            if resource == SNAPSHOTS
    ));
    ledger.release(a);
    ledger.release(b);
    assert_eq!(ledger.usage(), SelectionAccounting::default());
}

#[test]
fn usage_is_the_sum_of_live_permits() {
    let mut ledger = budget::Budget::new(small());
    let mut first = ledger.reserve().unwrap();
    let second = ledger.reserve().unwrap();
    first.settle(&mut ledger, 40, 4).unwrap();
    assert_eq!(
        ledger.usage(),
        ResourceAccounting {
            live_revisions: 2,
            source_bytes: 140,
            declared_pixels: 14
        }
    );
    ledger.release(second);
    assert_eq!(
        ledger.usage(),
        ResourceAccounting {
            live_revisions: 1,
            source_bytes: 40,
            declared_pixels: 4
        }
    );
    ledger.release(first);
    assert_eq!(ledger.usage(), ResourceAccounting::default());
}
