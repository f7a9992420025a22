use layerlens_core::psd::png_output::{ENCODE_FAILED, OUTPUT_LIMIT, encode_png, finish_png};
use layerlens_core::psd::PsdErrorCode;

#[test]
fn encodes_matching_pixels_as_png() {
    let rgba = [10_u8, 20, 30, 255, 40, 50, 60, 128];
    let png = encode_png(&rgba, 2, 1, 2, 1, 1 << 20).unwrap();
    assert_eq!(&png[..8], &[0x89, b'P', b'N', b'G', 0x0d, 0x0a, 0x1a, 0x0a]);
    assert_eq!(&png[12..16], b"IHDR");
    assert_eq!(&png[16..20], &2_u32.to_be_bytes());
    assert_eq!(&png[20..24], &1_u32.to_be_bytes());
    assert_eq!(png[24], 8);
    assert_eq!(png[25], 6);
    assert_eq!(&png[png.len() - 8..png.len() - 4], b"IEND");
}

#[test]
fn refuses_pixels_of_another_size_before_encoding() {
    let rgba = [0_u8; 8];
    assert_eq!(encode_png(&rgba, 1, 2, 2, 1, 1 << 20).unwrap_err().code, PsdErrorCode::ParseFailed);
    assert_eq!(encode_png(&rgba[..4], 2, 1, 2, 1, 1 << 20).unwrap_err().code, PsdErrorCode::ParseFailed);
}

#[test]
fn output_past_the_limit_is_a_resource_limit() {
    let rgba = [7_u8; 16];
    let error = encode_png(&rgba, 2, 2, 2, 2, 16).unwrap_err();
    assert_eq!(error.code, PsdErrorCode::ResourceLimit);
    assert_eq!(error.message, format!("{ENCODE_FAILED}{OUTPUT_LIMIT}"));
    let fitting = finish_png(Ok(vec![1, 2, 3]), 3).unwrap();
    assert_eq!(fitting, vec![1, 2, 3]);
}

#[test]
fn encoder_failures_keep_their_text() {
    let error = encode_png(&[], 0, 0, 0, 0, 1 << 20).unwrap_err();
    assert_eq!(error.code, PsdErrorCode::EncodeFailed);
    assert!(error.message.starts_with(ENCODE_FAILED));
    let failed = finish_png(Err("boom".to_string()), 10).unwrap_err();
    assert_eq!(failed.code, PsdErrorCode::EncodeFailed);
    assert_eq!(failed.message, format!("{ENCODE_FAILED}boom"));
    assert_eq!(failed.cause.as_deref(), Some("boom"));
}

#[test]
fn accepted_output_is_allocated_for_its_length() {
    let rgba = [1_u8; 64];
    let png = encode_png(&rgba, 4, 4, 4, 4, 1 << 20).unwrap();
    assert_eq!(png.capacity(), png.len());
    let again = encode_png(&rgba, 4, 4, 4, 4, png.len()).unwrap();
    assert_eq!(again, png);
    let refused = encode_png(&rgba, 4, 4, 4, 4, png.len() - 1).unwrap_err();
    assert_eq!(refused.code, PsdErrorCode::ResourceLimit);
}
