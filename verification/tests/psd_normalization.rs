use layerlens_core::psd::document::{
    NO_COMPOSITE, PIXEL_SIZE, PREVIEW_SAVED, PREVIEW_WITH_PROFILE, PROFILE_RANGE, TEXT_NONE,
    TEXT_READ, UNMARKED_ALPHA, check_decode_budget, check_pixels, color_profile,
    document_diagnostics, preview_capability, source_fingerprint, text_capability,
};
use layerlens_core::psd::normalization::{
    BOUNDS_MISMATCH, Candidate, CandidateBlend, CandidateNote, EXPORT_BITMAP, EXPORT_DEPENDENCY,
    EXPORT_EMPTY, EXPORT_HIDDEN, EXPORT_KIND, EXTRA_LAYER, GROUP_MISMATCH, LAYER_COUNT_MISMATCH,
    NO_NAME, RecordFacts, SOURCE_ID_MISMATCH, VISIBILITY_MISMATCH, check_layers, classify,
    simple_compositing,
};
use layerlens_core::psd::{
    Bounds, Diagnostic, DiagnosticKind, DiagnosticScope, LayerId, LayerKind, PsdErrorCode, Support,
};

fn record(ordinal: u32, x: i32, width: u32) -> RecordFacts {
    RecordFacts {
        ordinal,
        bounds: Bounds { x, y: 0, width, height: 2 },
        source_id: Some(ordinal + 10),
        clipping: false,
        flags: 0,
        section_kind: None,
        has_rgb: true,
        has_mask: false,
        nondefault_blending_ranges: false,
        blend_mode: *b"norm",
        tags: vec![*b"lyid", *b"luni"],
    }
}

fn candidate(r: &RecordFacts, name: &str) -> Candidate {
    Candidate {
        source_id: r.source_id,
        left: Some(r.bounds.x as i64),
        top: Some(r.bounds.y as i64),
        right: Some(r.bounds.x as i64 + r.bounds.width as i64),
        bottom: Some(r.bounds.y as i64 + r.bounds.height as i64),
        hidden: Some(false),
        clipping: Some(false),
        opacity: Some(255),
        opaque: true,
        blend: Some(CandidateBlend::Normal),
        name: Some(name.to_string()),
        has_text: false,
        text_error: None,
        has_placed_layer: false,
        has_vector_fill: false,
        has_vector_mask: false,
        has_adjustment: false,
        has_mask: false,
        has_real_mask: false,
        has_effects: false,
        fill_opaque: true,
        knockout: false,
        has_pixels: true,
        notes: Vec::new(),
        children: None,
    }
}

fn message(r: Result<Vec<layerlens_core::psd::normalization::LayerFacts>, layerlens_core::psd::PsdError>) -> String {
    match r {
        Err(e) => {
            assert_eq!(e.code, PsdErrorCode::ParseFailed);
            e.message
        }
        Ok(v) => panic!("unexpected success with {} layers", v.len()),
    }
}

#[test]
fn top_layer_comes_first_and_simple_bitmaps_export() {
    let all = vec![record(0, 0, 4), record(1, 5, 3)];
    let candidates = vec![candidate(&all[0], "bottom"), candidate(&all[1], "top")];
    let layers = check_layers(&candidates, &all, true).unwrap();
    assert_eq!(layers.len(), 2);
    assert_eq!(layers[0].id, LayerId(0));
    assert_eq!(layers[0].name, "top");
    assert_eq!(layers[0].source_record_index, 1);
    assert_eq!(layers[0].path, vec![1]);
    assert_eq!(layers[1].name, "bottom");
    assert_eq!(layers[1].path, vec![0]);
    assert_eq!(layers[1].kind, LayerKind::Bitmap);
    assert_eq!(layers[1].export.status, Support::Supported);
    assert_eq!(layers[1].export.reason, EXPORT_BITMAP);
    assert_eq!(layers[1].opacity, 255);
}

#[test]
fn groups_nest_children_and_closing_dividers_are_skipped() {
    let mut divider = record(0, 0, 0);
    divider.section_kind = Some(3);
    let child = record(1, 1, 2);
    let mut group = record(2, 0, 0);
    group.section_kind = Some(1);
    group.flags = 2;
    let all = vec![divider, child, group];
    let mut g = candidate(&all[2], "group");
    g.hidden = Some(true);
    g.children = Some(vec![candidate(&all[1], "child")]);
    let layers = check_layers(&vec![g], &all, true).unwrap();
    assert_eq!(layers.len(), 2);
    assert_eq!(layers[0].kind, LayerKind::Group);
    assert!(!layers[0].visible);
    assert_eq!(layers[0].export.reason, EXPORT_KIND);
    assert_eq!(layers[1].parent_id, Some(LayerId(0)));
    assert_eq!(layers[1].path, vec![0, 0]);
    assert!(layers[1].visible);
    assert!(!layers[1].effective_visible);
    assert_eq!(layers[1].export.reason, EXPORT_HIDDEN);
}

#[test]
fn visual_dependencies_and_empty_bitmaps_refuse_export() {
    let all = vec![record(0, 0, 4), record(1, 0, 0)];
    let mut masked = candidate(&all[0], "masked");
    masked.has_mask = true;
    let empty = candidate(&all[1], "empty");
    let layers = check_layers(&vec![masked, empty], &all, true).unwrap();
    assert_eq!(layers[0].export.reason, EXPORT_EMPTY);
    assert_eq!(layers[1].export.status, Support::Unsupported);
    assert_eq!(layers[1].export.reason, EXPORT_DEPENDENCY);
    let plain = vec![record(0, 0, 4)];
    let layers = check_layers(&vec![candidate(&plain[0], "a")], &plain, false).unwrap();
    assert_eq!(layers[0].export.reason, EXPORT_DEPENDENCY);
}

#[test]
fn record_mismatches_are_refused_in_order() {
    let all = vec![record(0, 0, 4)];
    let mut c = candidate(&all[0], "a");
    c.right = Some(5);
    assert_eq!(message(check_layers(&vec![c], &all, true)), BOUNDS_MISMATCH);
    let mut c = candidate(&all[0], "a");
    c.source_id = Some(99);
    assert_eq!(message(check_layers(&vec![c], &all, true)), SOURCE_ID_MISMATCH);
    let mut c = candidate(&all[0], "a");
    c.hidden = Some(true);
    assert_eq!(message(check_layers(&vec![c], &all, true)), VISIBILITY_MISMATCH);
    let mut c = candidate(&all[0], "a");
    c.children = Some(Vec::new());
    assert_eq!(message(check_layers(&vec![c], &all, true)), GROUP_MISMATCH);
    let mut c = candidate(&all[0], "a");
    c.text_error = Some("文字矩阵必须有六个有限值".to_string());
    c.name = None;
    assert_eq!(
        message(check_layers(&vec![c], &all, true)),
        "文字矩阵必须有六个有限值"
    );
    let mut c = candidate(&all[0], "a");
    c.name = None;
    assert_eq!(message(check_layers(&vec![c], &all, true)), NO_NAME);
}

#[test]
fn candidate_and_record_counts_must_agree() {
    let all = vec![record(0, 0, 4)];
    let extra = vec![candidate(&all[0], "a"), candidate(&all[0], "b")];
    assert_eq!(message(check_layers(&extra, &all, true)), EXTRA_LAYER);
    let two = vec![record(0, 0, 4), record(1, 0, 4)];
    let one = vec![candidate(&two[1], "a")];
    assert_eq!(message(check_layers(&one, &two, true)), LAYER_COUNT_MISMATCH);
}

#[test]
fn kinds_follow_blocks_and_record_keys() {
    let mut r = record(0, 0, 4);
    let c = candidate(&r, "a");
    assert_eq!(classify(&c, &r), LayerKind::Bitmap);
    assert!(simple_compositing(&c, &r));
    r.tags.push(*b"TySh");
    assert_eq!(classify(&c, &r), LayerKind::Text);
    assert!(!simple_compositing(&c, &r));
    let r = record(0, 0, 4);
    let mut c = candidate(&r, "a");
    c.has_vector_fill = true;
    assert_eq!(classify(&c, &r), LayerKind::Shape);
    let mut r2 = record(0, 0, 4);
    r2.tags.push(*b"curv");
    assert_eq!(classify(&candidate(&r2, "b"), &r2), LayerKind::Adjustment);
    let mut c = candidate(&r, "c");
    c.notes.push(CandidateNote {
        unknown: true,
        tag: "abcd".to_string(),
        offset: 40,
        message: "未知块".to_string(),
    });
    assert_eq!(classify(&c, &r), LayerKind::Unknown);
    let layers = check_layers(&vec![c], &vec![r], true).unwrap();
    assert_eq!(layers[0].diagnostics.len(), 1);
    assert_eq!(layers[0].diagnostics[0].scope, DiagnosticScope::Layer);
    assert_eq!(layers[0].diagnostics[0].kind, DiagnosticKind::Unknown);
    assert_eq!(layers[0].diagnostics[0].offset, 40);
}

#[test]
fn preview_and_text_capabilities() {
    let c = preview_capability(false, true, false, false);
    assert_eq!((c.status, c.reason.as_str()), (Support::Unsupported, NO_COMPOSITE));
    let c = preview_capability(true, false, false, false);
    assert_eq!(c.reason, UNMARKED_ALPHA);
    let c = preview_capability(true, false, true, true);
    assert_eq!((c.status, c.reason.as_str()), (Support::Partial, PREVIEW_WITH_PROFILE));
    let c = preview_capability(true, true, false, false);
    assert_eq!((c.status, c.reason.as_str()), (Support::Supported, PREVIEW_SAVED));
    assert_eq!(text_capability(true).reason, TEXT_READ);
    assert_eq!(text_capability(false).reason, TEXT_NONE);
}

#[test]
fn document_diagnostics_follow_the_decoder_notes() {
    let mut list = vec![Diagnostic {
        scope: DiagnosticScope::Document,
        kind: DiagnosticKind::Unknown,
        tag: "Lr16".to_string(),
        offset: 1,
        message: "m".to_string(),
    }];
    document_diagnostics(&mut list, Some(70), Some(26));
    assert_eq!(list.len(), 3);
    assert_eq!(list[1].tag, "globalLayerMask");
    assert_eq!(list[1].offset, 70);
    assert_eq!(list[2].tag, "1039");
    assert_eq!(list[2].scope, DiagnosticScope::ImageResource);
    assert_eq!(list[2].kind, DiagnosticKind::Unverified);
}

#[test]
fn fingerprints_are_sha256_hex() {
    assert_eq!(
        source_fingerprint(b"abc"),
        "ba7816bf8f01cfea414140de5dae2223b00361a396177a9cb410ff61f20015ad"
    );
    let profile = color_profile(b"xxabcyy", 2, 3).unwrap();
    assert_eq!(profile.byte_length, 3);
    assert_eq!(
        profile.sha256,
        "ba7816bf8f01cfea414140de5dae2223b00361a396177a9cb410ff61f20015ad"
    );
    assert_eq!(profile.conversion.status, Support::Unsupported);
    match color_profile(b"xxabc", 2, 4) {
        Err(e) => assert_eq!(e.message, PROFILE_RANGE),
        Ok(_) => panic!("range past the end accepted"),
    }
}

#[test]
fn decode_budget_and_pixel_sizes_are_checked() {
    assert!(check_decode_budget(4, 3, 48).is_ok());
    match check_decode_budget(4, 3, 47) {
        Err(e) => {
            assert_eq!(e.code, PsdErrorCode::ResourceLimit);
            assert_eq!(e.message, "RGBA 需要 48 字节，超过单次解码预算 47 字节");
        }
        Ok(()) => panic!("over budget accepted"),
    }
    assert!(check_pixels(4, 3, 4, 3, 48).is_ok());
    match check_pixels(4, 3, 4, 3, 47) {
        Err(e) => assert_eq!(e.message, PIXEL_SIZE),
        Ok(()) => panic!("short pixels accepted"),
    }
}
