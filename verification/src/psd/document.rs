//! Document-level results of a read: the preview and text capabilities, the
//! document diagnostics, the embedded profile fingerprint, the source
//! fingerprint and the decode budget of one output.

use vstd::prelude::*;

use sha2::Digest;

use crate::text::{decimal_chars, push_decimal};

use super::capability::{Capability, Support};
use super::error::{PsdError, PsdErrorCode};
use super::model::{
    ColorProfileInfo, Diagnostic, DiagnosticKind, DiagnosticScope, ParseLimits, ResourceUsage,
};
use super::preflight::Header;

verus! {

/// Preview refusal of a file without a saved composite.
pub const NO_COMPOSITE: &'static str = "没有保存时合成图；不自动重新合成";

/// Preview refusal of extra composite channels without the global alpha mark.
pub const UNMARKED_ALPHA: &'static str = "额外合成通道没有 global alpha 标记，其透明度语义尚未验证";

/// Partial preview of a file with an embedded profile.
pub const PREVIEW_WITH_PROFILE: &'static str = "保存时合成图可解码；未执行 ICC 色彩转换，显示颜色与原稿仍待对照";

/// Supported preview of the saved composite.
pub const PREVIEW_SAVED: &'static str = "保存时合成图 RAW/RLE 与来源透明度；不重绘图层，不假定 sRGB";

/// Text capability where some layer's source text was read.
pub const TEXT_READ: &'static str = "可读取 TySh 原文、矩阵及经区间校验的 EngineData 样式；逐层限制见文字诊断，单位与视觉保真仍待独立参考";

/// Text capability where no layer's source text was read.
pub const TEXT_NONE: &'static str = "本次未读取到可验证的 TySh 原文";

/// Conversion capability of an embedded profile.
pub const PROFILE_UNCONVERTED: &'static str = "ICC 原始资源已识别，尚未验证配置内容或执行颜色转换";

/// Diagnostic of a global layer mask.
pub const GLOBAL_MASK_NOTE: &'static str = "全局蒙版的独立素材语义尚未验证";

/// Diagnostic of an embedded profile.
pub const PROFILE_NOTE: &'static str = "ICC 配置尚未转换；预览和素材保留原通道值";

/// Rejection of a profile offset past the address range.
pub const PROFILE_OFFSET: &'static str = "ICC 偏移超出范围";

/// Rejection of a profile length past the address range.
pub const PROFILE_LENGTH: &'static str = "ICC 长度超出范围";

/// Rejection of a profile whose end overflows.
pub const PROFILE_OVERFLOW: &'static str = "ICC 长度溢出";

/// Rejection of a profile range outside the source bytes.
pub const PROFILE_RANGE: &'static str = "ICC 资源范围与源字节不一致";

/// Rejection of decoded pixels whose size differs from the record.
pub const PIXEL_SIZE: &'static str = "解码像素尺寸与原始矩形不一致";

/// The preview capability: no composite, unmarked extra channels, an
/// unconverted profile, or the saved composite as it is.
pub open spec fn preview_spec(
    has_composite: bool,
    three_channels: bool,
    global_alpha: bool,
    has_profile: bool,
) -> (Support, Seq<char>) {
    if !has_composite {
        (Support::Unsupported, NO_COMPOSITE@)
    } else if !three_channels && !global_alpha {
        (Support::Unsupported, UNMARKED_ALPHA@)
    } else if has_profile {
        (Support::Partial, PREVIEW_WITH_PROFILE@)
    } else {
        (Support::Supported, PREVIEW_SAVED@)
    }
}

/// The preview capability of the saved composite, as [`preview_spec`] states it.
pub fn preview_capability(has_composite: bool, three_channels: bool, global_alpha: bool, has_profile: bool) -> (c:
    Capability)
    ensures
        (c.status, c.reason@) == preview_spec(has_composite, three_channels, global_alpha, has_profile),
{
    if !has_composite {
        Capability::unsupported(NO_COMPOSITE)
    } else if !three_channels && !global_alpha {
        Capability::unsupported(UNMARKED_ALPHA)
    } else if has_profile {
        Capability::partial(PREVIEW_WITH_PROFILE)
    } else {
        Capability::supported(PREVIEW_SAVED)
    }
}

/// The document text capability: partial once some layer's text was read.
pub fn text_capability(any_text: bool) -> (c: Capability)
    ensures
        any_text ==> c.status == Support::Partial && c.reason@ == TEXT_READ@,
        !any_text ==> c.status == Support::Unsupported && c.reason@ == TEXT_NONE@,
{
    if any_text {
        Capability::partial(TEXT_READ)
    } else {
        Capability::unsupported(TEXT_NONE)
    }
}

/// The plain content of a diagnostic.
pub open spec fn diagnostic_view(d: Diagnostic) -> (DiagnosticScope, DiagnosticKind, Seq<char>, u64, Seq<char>) {
    (d.scope, d.kind, d.tag@, d.offset, d.message@)
}

/// The document diagnostics that follow the decoder's own: an unverified
/// global mask at its offset, then an unconverted profile at its offset.
pub open spec fn added_diagnostics(global_mask: Option<u64>, profile: Option<u64>) -> Seq<
    (DiagnosticScope, DiagnosticKind, Seq<char>, u64, Seq<char>),
> {
    let mask = match global_mask {
        Some(o) => seq![
            (DiagnosticScope::Document, DiagnosticKind::Unsupported, "globalLayerMask"@, o, GLOBAL_MASK_NOTE@),
        ],
        None => Seq::empty(),
    };
    let icc = match profile {
        Some(o) => seq![
            (DiagnosticScope::ImageResource, DiagnosticKind::Unverified, "1039"@, o, PROFILE_NOTE@),
        ],
        None => Seq::empty(),
    };
    mask + icc
}

/// Appends the global mask and profile diagnostics to the decoder's document diagnostics.
pub fn document_diagnostics(
    diagnostics: &mut Vec<Diagnostic>,
    global_mask: Option<u64>,
    profile: Option<u64>,
)
    ensures
        final(diagnostics)@.map_values(|d: Diagnostic| diagnostic_view(d)) == old(
            diagnostics,
        )@.map_values(|d: Diagnostic| diagnostic_view(d)) + added_diagnostics(global_mask, profile),
{
    proof {
        reveal_strlit("globalLayerMask");
        reveal_strlit("1039");
    }
    let ghost start = diagnostics@.map_values(|d: Diagnostic| diagnostic_view(d));
    match global_mask {
        Some(offset) => {
            diagnostics.push(
                Diagnostic {
                    scope: DiagnosticScope::Document,
                    kind: DiagnosticKind::Unsupported,
                    tag: "globalLayerMask".to_owned(),
                    offset,
                    message: GLOBAL_MASK_NOTE.to_owned(),
                },
            );
        },
        None => {},
    }
    match profile {
        Some(offset) => {
            diagnostics.push(
                Diagnostic {
                    scope: DiagnosticScope::ImageResource,
                    kind: DiagnosticKind::Unverified,
                    tag: "1039".to_owned(),
                    offset,
                    message: PROFILE_NOTE.to_owned(),
                },
            );
        },
        None => {},
    }
    proof {
        assert(diagnostics@.map_values(|d: Diagnostic| diagnostic_view(d)) =~= start
            + added_diagnostics(global_mask, profile));
    }
}

/// The source and structure measures of a checked file: source size, canvas
/// area, declared pixel total, record count and decode budget. The check
/// admits no document-level tagged blocks, so none are listed.
pub fn resource_usage(header: &Header, source_bytes: usize, limits: ParseLimits) -> (u:
    ResourceUsage)
    requires
        header.layers@.len() <= u32::MAX,
    ensures
        u.source_bytes == source_bytes,
        u.canvas_pixels == header.width * header.height,
        u.total_declared_pixels == header.total_pixels,
        u.layer_records == header.layers@.len(),
        u.max_decoded_bytes == limits.max_decoded_bytes,
        u.global_additional_blocks@.len() == 0,
{
    assert(header.width as int * header.height as int <= 0xffff_ffff_ffff_ffff)
        by (nonlinear_arith)
        requires
            header.width <= 0xffff_ffff,
            header.height <= 0xffff_ffff,
    ;
    ResourceUsage {
        source_bytes: source_bytes as u64,
        canvas_pixels: header.width as u64 * header.height as u64,
        total_declared_pixels: header.total_pixels,
        layer_records: header.layers.len() as u32,
        max_decoded_bytes: limits.max_decoded_bytes,
        global_additional_blocks: Vec::new(),
    }
}

/// The lowercase hexadecimal SHA-256 digest of a byte sequence.
pub uninterp spec fn sha256_hex(data: Seq<u8>) -> Seq<char>;

/// Computes the SHA-256 digest of `data` with the `sha2` crate
/// (`Sha256::digest`) and formats it as lowercase hexadecimal. The contract
/// claims only that the text is that digest: two hexadecimal digits per
/// byte of the 32-byte output, so 64 characters.
#[verifier::external_body]
fn sha256_text(data: &[u8]) -> (h: String)
    ensures
        h@ == sha256_hex(data@),
        h@.len() == 64,
{
    format!("{:x}", sha2::Sha256::digest(data))
}

/// The fingerprint of the fixed source bytes, to reproduce a read and
/// recognise the file version.
pub fn source_fingerprint(bytes: &[u8]) -> (h: String)
    ensures
        h@ == sha256_hex(bytes@),
        h@.len() == 64,
{
    sha256_text(bytes)
}

/// A refused read of the decoder's output.
fn invalid_candidate(message: &str) -> (e: PsdError)
    ensures
        e.code == PsdErrorCode::ParseFailed,
        e.message@ == message@,
        e.cause is None,
{
    PsdError::new(PsdErrorCode::ParseFailed, message)
}

/// What [`color_profile`] answers for a profile at `offset` of `length`
/// bytes in `total` source bytes: the byte range, or the refusal.
pub open spec fn profile_range(offset: u64, length: u64, total: nat) -> Result<(int, int), Seq<char>> {
    if offset > usize::MAX {
        Err(PROFILE_OFFSET@)
    } else if length > usize::MAX {
        Err(PROFILE_LENGTH@)
    } else if offset + length > usize::MAX {
        Err(PROFILE_OVERFLOW@)
    } else if offset + length > total {
        Err(PROFILE_RANGE@)
    } else {
        Ok((offset as int, offset + length))
    }
}

/// The record of an embedded profile: its length and fingerprint; its
/// colours are not converted.
pub fn color_profile(bytes: &[u8], offset: u64, length: u64) -> (r: Result<ColorProfileInfo, PsdError>)
    ensures
        match profile_range(offset, length, bytes@.len()) {
            Ok((start, end)) => r matches Ok(p) && p.byte_length == length && p.sha256@
                == sha256_hex(bytes@.subrange(start, end)) && p.conversion.status
                == Support::Unsupported && p.conversion.reason@ == PROFILE_UNCONVERTED@,
            Err(m) => r matches Err(e) && e.code == PsdErrorCode::ParseFailed && e.message@ == m,
        },
{
    if offset > usize::MAX as u64 {
        return Err(invalid_candidate(PROFILE_OFFSET));
    }
    if length > usize::MAX as u64 {
        return Err(invalid_candidate(PROFILE_LENGTH));
    }
    let start = offset as usize;
    let size = length as usize;
    let end = match start.checked_add(size) {
        Some(e) => e,
        None => {
            return Err(invalid_candidate(PROFILE_OVERFLOW));
        },
    };
    if end > bytes.len() {
        return Err(invalid_candidate(PROFILE_RANGE));
    }
    let data = vstd::slice::slice_subrange(bytes, start, end);
    Ok(
        ColorProfileInfo {
            byte_length: length,
            sha256: sha256_text(data),
            conversion: Capability::unsupported(PROFILE_UNCONVERTED),
        },
    )
}

/// The refusal message of an RGBA decode of `need` bytes over the budget `budget`.
pub open spec fn decode_budget_message(need: nat, budget: nat) -> Seq<char> {
    "RGBA 需要 "@ + decimal_chars(need) + " 字节，超过单次解码预算 "@ + decimal_chars(budget) + " 字节"@
}

/// Checks that an RGBA decode of `width` × `height` pixels fits the per-decode budget.
pub fn check_decode_budget(width: u32, height: u32, max_decoded_bytes: u64) -> (r: Result<(), PsdError>)
    requires
        width * height * 4 <= u64::MAX,
    ensures
        width * height * 4 <= max_decoded_bytes ==> r is Ok,
        width * height * 4 > max_decoded_bytes ==> (r matches Err(e) && e.code
            == PsdErrorCode::ResourceLimit && e.message@ == decode_budget_message(
            (width * height * 4) as nat,
            max_decoded_bytes as nat,
        ) && e.cause is None),
{
    let rgba = (width as u64) * (height as u64) * 4;
    if rgba > max_decoded_bytes {
        let mut message = String::from_str("RGBA 需要 ");
        push_decimal(&mut message, rgba);
        message.append(" 字节，超过单次解码预算 ");
        push_decimal(&mut message, max_decoded_bytes);
        message.append(" 字节");
        return Err(PsdError::new(PsdErrorCode::ResourceLimit, message.as_str()));
    }
    Ok(())
}

/// Checks that decoded RGBA pixels have the record's size before encoding.
pub fn check_pixels(width: u32, height: u32, pixel_width: u32, pixel_height: u32, data_length: usize) -> (r:
    Result<(), PsdError>)
    requires
        width * height * 4 <= u64::MAX,
    ensures
        r is Ok <==> (pixel_width == width && pixel_height == height && data_length == width * height
            * 4),
        r matches Err(e) ==> (e.code == PsdErrorCode::ParseFailed && e.message@ == PIXEL_SIZE@),
{
    let length = (width as u64) * (height as u64) * 4;
    if pixel_width != width || pixel_height != height || data_length as u64 != length {
        return Err(invalid_candidate(PIXEL_SIZE));
    }
    Ok(())
}

} // verus!
