use layerlens_core::documents::selection::normalize::{
    LayerNode, ScopeProjection, BAD_PARENT, EMPTY_LAYER_LIST, FOREIGN_LAYER, MISSING_PARENT,
    PROJECTED_LAYERS, RAW_ITEMS, find_position, normalize_layers,
};
use layerlens_core::documents::selection::{
    LayerReference, LayerRole, SelectionConfig, SelectionError, SelectionWarning,
};
use layerlens_core::documents::{DocumentError, DocumentId, RevisionId};
use layerlens_core::psd::{Bounds, LayerId, LayerKind};

/// Two nested visible groups with two separate targets, and a hidden group
/// whose child is visible itself but not effectively.
fn tree() -> Vec<LayerNode> {
    (0..6u32)
        .map(|id| LayerNode {
            id: LayerId(id),
            parent_id: match id {
                0 => None,
                1 | 4 => Some(LayerId(0)),
                2 | 3 => Some(LayerId(1)),
                _ => Some(LayerId(4)),
            },
            kind: if [0, 1, 4].contains(&id) {
                LayerKind::Group
            } else {
                LayerKind::Bitmap
            },
            effective_visible: id < 4,
            bounds: match id {
                2 => Bounds { x: 0, y: 0, width: 10, height: 10 },
                3 => Bounds { x: 80, y: 80, width: 10, height: 10 },
                _ => Bounds { x: 0, y: 0, width: 100, height: 100 },
            },
            pixel_dependency: false,
        })
        .collect()
}

fn refs(ids: &[u32]) -> Vec<LayerReference> {
    ids.iter()
        .map(|id| LayerReference {
            document_id: DocumentId(1),
            revision_id: RevisionId(1),
            layer_id: LayerId(*id),
        })
        .collect()
}

fn normalize(
    layers: &[LayerNode],
    ids: &[u32],
    config: SelectionConfig,
) -> Result<ScopeProjection, SelectionError> {
    normalize_layers(layers, DocumentId(1), RevisionId(1), &refs(ids), config)
}

#[test]
fn explicit_groups_expand_visible_descendants_once_and_retain_authorization() {
    let layers = tree();
    let scope = normalize(&layers, &[2, 0, 2, 1], Default::default()).unwrap();
    assert_eq!(scope.item_layer_ids, vec![LayerId(0), LayerId(1), LayerId(2)]);
    assert_eq!(scope.selected_group_ids, vec![LayerId(0), LayerId(1)]);
    assert_eq!(scope.target_layer_ids, vec![LayerId(2), LayerId(3)]);
    assert_eq!(scope.group_refs, vec![LayerId(0), LayerId(1)]);
    assert_eq!(scope.records.len(), 4);
    assert_eq!(scope.target_union, Some((0, 0, 90, 90)));
    assert!(!scope.warnings.contains(&SelectionWarning::PixelDependenciesUnresolved));
}

#[test]
fn a_chosen_child_keeps_its_ancestors_as_structure_only() {
    let layers = tree();
    let child = normalize(&layers, &[2], Default::default()).unwrap();
    assert_eq!(child.target_layer_ids, vec![LayerId(2)]);
    assert_eq!(child.group_refs, vec![LayerId(0), LayerId(1)]);
    assert!(child.selected_group_ids.is_empty());
    assert_eq!(
        child
            .records
            .iter()
            .map(|record| (record.layer_id, record.stack_index, record.role))
            .collect::<Vec<_>>(),
        vec![
            (LayerId(0), 0, LayerRole::Structure),
            (LayerId(1), 1, LayerRole::Structure),
            (LayerId(2), 2, LayerRole::Target)
        ]
    );
    assert_eq!(child.target_union, Some((0, 0, 10, 10)));
    assert_eq!(child.text_layer_count, 0);
}

#[test]
fn hidden_groups_and_hidden_children_give_no_targets() {
    let layers = tree();
    let scope = normalize(&layers, &[4], Default::default()).unwrap();
    assert!(scope.target_layer_ids.is_empty());
    assert_eq!(scope.selected_group_ids, vec![LayerId(4)]);
    assert!(scope.warnings.contains(&SelectionWarning::NoReferenceBounds));
    let hidden = normalize(&layers, &[5], Default::default()).unwrap();
    assert!(hidden.target_layer_ids.is_empty());
    assert_eq!(hidden.item_layer_ids, vec![LayerId(5)]);
}

#[test]
fn empty_geometry_can_be_explicit_but_has_no_reference_bounds() {
    let mut layers = tree();
    layers[2].bounds.width = 0;
    let scope = normalize(&layers, &[2], Default::default()).unwrap();
    assert_eq!(scope.target_layer_ids, vec![LayerId(2)]);
    assert_eq!(scope.target_union, None);
    assert!(scope.warnings.contains(&SelectionWarning::NoReferenceBounds));
    assert!(scope.warnings.contains(&SelectionWarning::GeometricBoundsOnly));
}

#[test]
fn negative_bounds_keep_original_extent_and_report_dependencies() {
    let mut layers = tree();
    layers[2].bounds = Bounds { x: -4, y: -2, width: 10, height: 8 };
    layers[2].pixel_dependency = true;
    let scope = normalize(&layers, &[2], Default::default()).unwrap();
    assert_eq!(scope.target_union, Some((-4, -2, 6, 6)));
    assert!(scope.warnings.contains(&SelectionWarning::PixelDependenciesUnresolved));
}

#[test]
fn structural_records_share_the_scope_limit_and_invalid_parents_are_rejected() {
    let mut layers = tree();
    match normalize(
        &layers,
        &[2],
        SelectionConfig {
            max_scope_layers: 2,
            ..Default::default()
        },
    ) {
        Err(SelectionError::Document(DocumentError::ResourceLimit { resource, limit })) => {
            assert_eq!(resource, PROJECTED_LAYERS);
            assert_eq!(limit, 2);
        }
        other => panic!("unexpected {other:?}"),
    }
    for parent in [LayerId(99), LayerId(3), LayerId(2)] {
        layers[2].parent_id = Some(parent);
        assert!(matches!(
            normalize(&layers, &[2], Default::default()),
            Err(SelectionError::InvalidInput(_))
        ));
    }
    layers[2].parent_id = Some(LayerId(99));
    assert!(matches!(
        normalize(&layers, &[2], Default::default()),
        Err(SelectionError::InvalidInput(m)) if m == MISSING_PARENT
    ));
    layers[2].parent_id = Some(LayerId(3));
    assert!(matches!(
        normalize(&layers, &[2], Default::default()),
        Err(SelectionError::InvalidInput(m)) if m == BAD_PARENT
    ));
    layers[2].parent_id = Some(LayerId(1));
    layers[0].parent_id = Some(LayerId(1));
    assert!(matches!(
        normalize(&layers, &[2], Default::default()),
        Err(SelectionError::InvalidInput(m)) if m == BAD_PARENT
    ));
}

#[test]
fn references_are_checked_before_anything_is_normalised() {
    let layers = tree();
    assert!(matches!(
        normalize(&layers, &[], Default::default()),
        Err(SelectionError::InvalidInput(m)) if m == EMPTY_LAYER_LIST
    ));
    match normalize(
        &layers,
        &[2, 3],
        SelectionConfig {
            max_items: 1,
            ..Default::default()
        },
    ) {
        Err(SelectionError::Document(DocumentError::ResourceLimit { resource, limit })) => {
            assert_eq!(resource, RAW_ITEMS);
            assert_eq!(limit, 1);
        }
        other => panic!("unexpected {other:?}"),
    }
    let mut foreign = refs(&[2]);
    foreign[0].revision_id = RevisionId(2);
    assert!(matches!(
        normalize_layers(&layers, DocumentId(1), RevisionId(1), &foreign, Default::default()),
        Err(SelectionError::InvalidInput(m)) if m == FOREIGN_LAYER
    ));
    assert!(matches!(
        normalize(&layers, &[2, 42], Default::default()),
        Err(SelectionError::Document(DocumentError::LayerNotFound(LayerId(42))))
    ));
}

#[test]
fn later_layers_with_the_same_id_win() {
    let mut layers = tree();
    layers[3].id = LayerId(2);
    assert_eq!(find_position(&layers, LayerId(2)), Some(3));
    assert_eq!(find_position(&layers, LayerId(9)), None);
}
