use layerlens_core::psd::access::{
    BUDGET_RANGE, LAYER_NOT_FOUND, ReadFailure, SourceFailure, ZERO_BUDGET, layer_admission,
    layer_not_found, parser_error, prepare_read, preview_admission, source_error,
};
use layerlens_core::psd::normalization::LayerFacts;
use layerlens_core::psd::{
    Bounds, Capability, LayerId, LayerKind, ParseLimits, PsdErrorCode,
};

/// A 1 x 1 RGB/8 file with empty colour data, resources and layer sections.
fn minimal() -> Vec<u8> {
    let mut out = Vec::new();
    out.extend_from_slice(b"8BPS");
    out.extend_from_slice(&1_u16.to_be_bytes());
    out.extend_from_slice(&[0; 6]);
    out.extend_from_slice(&3_u16.to_be_bytes());
    out.extend_from_slice(&1_u32.to_be_bytes());
    out.extend_from_slice(&1_u32.to_be_bytes());
    out.extend_from_slice(&8_u16.to_be_bytes());
    out.extend_from_slice(&3_u16.to_be_bytes());
    out.extend_from_slice(&[0; 12]);
    out
}

#[test]
fn zero_budget_is_refused_before_the_container_check() {
    let limits = ParseLimits { max_decoded_bytes: 0, ..ParseLimits::default() };
    let error = prepare_read(b"nope", limits).unwrap_err();
    assert_eq!(error.code, PsdErrorCode::ResourceLimit);
    assert_eq!(error.message, ZERO_BUDGET);
    assert_eq!(
        prepare_read(b"nope", ParseLimits::default()).unwrap_err().code,
        PsdErrorCode::InvalidInput
    );
    let (header, memory) = prepare_read(&minimal(), ParseLimits::default()).unwrap();
    assert_eq!((header.width, header.height), (1, 1));
    assert!(header.layers.is_empty());
    assert_eq!(memory, 128 * 1024 * 1024);
    assert_ne!(BUDGET_RANGE, ZERO_BUDGET);
}

#[test]
fn preview_admission_refuses_unsupported_and_oversized_decodes() {
    let refused = Capability::unsupported("没有合成图");
    let error = preview_admission(&refused, 2, 2, 1024).unwrap_err();
    assert_eq!(error.code, PsdErrorCode::PreviewUnavailable);
    assert_eq!(error.message, "没有合成图");
    let partial = Capability::partial("颜色待对照");
    assert!(preview_admission(&partial, 2, 2, 16).is_ok());
    let error = preview_admission(&partial, 2, 2, 15).unwrap_err();
    assert_eq!(error.code, PsdErrorCode::ResourceLimit);
    assert_eq!(error.message, "RGBA 需要 16 字节，超过单次解码预算 15 字节");
}

fn layer(id: u32, width: u32, export: Capability) -> LayerFacts {
    LayerFacts {
        id: LayerId(id),
        parent_id: None,
        source_record_index: id,
        name: format!("图层 {id}"),
        kind: LayerKind::Bitmap,
        bounds: Bounds { x: 0, y: 0, width, height: 1 },
        visible: true,
        effective_visible: true,
        opacity: 255,
        diagnostics: Vec::new(),
        export,
        path: vec![id as usize],
    }
}

#[test]
fn layer_admission_checks_reference_export_and_budget() {
    let layers = vec![
        layer(0, 4, Capability::supported("位图")),
        layer(1, 4, Capability::unsupported("组不导出")),
    ];
    assert_eq!(layer_admission(&layers, LayerId(0), 16).unwrap(), 0);
    let error = layer_admission(&layers, LayerId(1), 16).unwrap_err();
    assert_eq!(error.code, PsdErrorCode::ExportUnsupported);
    assert_eq!(error.message, "组不导出");
    let error = layer_admission(&layers, LayerId(2), 16).unwrap_err();
    assert_eq!(error.code, PsdErrorCode::LayerNotFound);
    assert_eq!(error.message, LAYER_NOT_FOUND);
    assert_eq!(
        layer_admission(&layers, LayerId(0), 15).unwrap_err().code,
        PsdErrorCode::ResourceLimit
    );
    assert_eq!(layer_not_found().message, LAYER_NOT_FOUND);
}

#[test]
fn decoder_failures_are_classified_and_keep_their_text() {
    let error = parser_error("解析 PSD", ReadFailure::MemoryLimit, "too big");
    assert_eq!(error.code, PsdErrorCode::ResourceLimit);
    assert_eq!(error.message, "解析 PSD失败：too big");
    assert_eq!(error.cause.as_deref(), Some("too big"));
    assert_eq!(
        parser_error("解码图层位图", ReadFailure::Unsupported, "x").code,
        PsdErrorCode::Unsupported
    );
    assert_eq!(
        parser_error("解码图层位图", ReadFailure::Other, "x").code,
        PsdErrorCode::ParseFailed
    );
}

#[test]
fn source_failures_are_classified_and_described() {
    let too_large = source_error(&SourceFailure::TooLarge { limit: 4 });
    assert_eq!(too_large.code, PsdErrorCode::ResourceLimit);
    assert_eq!(too_large.message, "取得稳定 PSD 源数据失败：PSD 源文件超过 4 字节限制");
    assert_eq!(too_large.cause.as_deref(), Some("PSD 源文件超过 4 字节限制"));
    let sharing = SourceFailure::Io { os_code: Some(32), text: "busy".to_string() };
    assert_eq!(source_error(&sharing).code, PsdErrorCode::SourceChanged);
    assert_eq!(sharing.describe(), "读取 PSD 源数据失败：busy");
    let lock = SourceFailure::Io { os_code: Some(33), text: "locked".to_string() };
    assert_eq!(source_error(&lock).code, PsdErrorCode::SourceChanged);
    let missing = SourceFailure::Io { os_code: Some(2), text: "missing".to_string() };
    assert_eq!(source_error(&missing).code, PsdErrorCode::Io);
    let plain = SourceFailure::Io { os_code: None, text: "eof".to_string() };
    assert_eq!(source_error(&plain).code, PsdErrorCode::Io);
    assert_eq!(source_error(&SourceFailure::NotAFile).code, PsdErrorCode::InvalidInput);
    assert_eq!(
        source_error(&SourceFailure::UnsupportedPlatform).message,
        "取得稳定 PSD 源数据失败：当前平台尚未实现受保护的 PSD 源读取"
    );
}
