//! Admission of reads and decodes: the decode budget of a parse, the saved
//! composite and one layer's bitmap, and the errors of a failed source read or
//! decoder run. The decoder and the file system stay outside; what they
//! report comes in as plain values.

use vstd::prelude::*;

use crate::text::{decimal_chars, push_decimal};

use super::capability::{Capability, Support};
use super::document::{check_decode_budget, decode_budget_message};
use super::error::{PsdError, PsdErrorCode};
use super::model::{LayerId, ParseLimits};
use super::normalization::LayerFacts;
use super::preflight::{Header, header_matches, inspect};
use super::preflight_spec::sp_inspect;

verus! {

/// Refusal of a zero decode budget.
pub const ZERO_BUDGET: &'static str = "单次解码预算必须大于零";

/// Refusal of a decode budget past the address range.
pub const BUDGET_RANGE: &'static str = "解码预算超出可表示范围";

/// Refusal of a decoder result without composite pixels.
pub const NO_COMPOSITE_PIXELS: &'static str = "候选没有合成图像素";

/// Refusal of a layer whose bitmap the decoder did not give.
pub const NO_LAYER_BITMAP: &'static str = "图层没有可解码位图";

/// Refusal of a layer reference outside this read.
pub const LAYER_NOT_FOUND: &'static str = "图层引用不属于本次解析结果";

/// Prefix of a failed stable source read.
pub const SOURCE_FAILED: &'static str = "取得稳定 PSD 源数据失败：";

/// A read that the decoder refused, by class.
#[derive(Debug, Clone, Copy, PartialEq, Eq, Structural)]
pub enum ReadFailure {
    /// The decoder's memory limit was exceeded.
    MemoryLimit,
    /// The decoder does not implement a feature of the file.
    Unsupported,
    /// Any other decoder failure.
    Other,
}

/// Why no stable copy of the source file was taken.
#[derive(Debug, Clone)]
pub enum SourceFailure {
    /// A read failed; `os_code` is the platform error number, if any, and
    /// `text` the error's own description.
    Io { os_code: Option<i32>, text: String },
    /// The file is longer than the byte budget.
    TooLarge { limit: u64 },
    /// The path names no regular file.
    NotAFile,
    /// This platform has no guarded read.
    UnsupportedPlatform,
}

/// The refusal of a zero budget.
pub open spec fn zero_budget(e: PsdError) -> bool {
    e.code == PsdErrorCode::ResourceLimit && e.message@ == ZERO_BUDGET@ && e.cause is None
}

/// Checks the container and the decode budget before any decoder runs, in
/// the order a read takes: a zero budget is refused first, then the file is
/// checked, then the budget must fit the address range. Gives the checked
/// header and the budget as a memory limit.
pub fn prepare_read(bytes: &[u8], limits: ParseLimits) -> (r: Result<(Header, usize), PsdError>)
    ensures
        limits.max_decoded_bytes == 0 ==> (r matches Err(e) && zero_budget(e)),
        limits.max_decoded_bytes > 0 ==> match sp_inspect(bytes@, limits) {
            Err(c) => r matches Err(e) && e.code == c,
            Ok(h) => if limits.max_decoded_bytes > usize::MAX {
                r matches Err(e) && (e.code == PsdErrorCode::ResourceLimit && e.message@
                    == BUDGET_RANGE@ && e.cause is None)
            } else {
                r matches Ok((x, m)) && header_matches(x, h) && m == limits.max_decoded_bytes
            },
        },
{
    if limits.max_decoded_bytes == 0 {
        return Err(PsdError::new(PsdErrorCode::ResourceLimit, ZERO_BUDGET));
    }
    let header = inspect(bytes, limits)?;
    if limits.max_decoded_bytes > usize::MAX as u64 {
        return Err(PsdError::new(PsdErrorCode::ResourceLimit, BUDGET_RANGE));
    }
    Ok((header, limits.max_decoded_bytes as usize))
}

/// Whether `r` is the decode budget check of `width` x `height` RGBA pixels.
pub open spec fn budget_outcome(r: Result<(), PsdError>, width: u32, height: u32, budget: u64) -> bool {
    if width * height * 4 <= budget {
        r is Ok
    } else {
        r matches Err(e) && (e.code == PsdErrorCode::ResourceLimit && e.message@
            == decode_budget_message((width * height * 4) as nat, budget as nat) && e.cause is None)
    }
}

/// Admits a decode of the saved composite: an unsupported preview is refused
/// with its own reason, otherwise the pixels must fit the decode budget. A
/// partial preview is admitted; its limits stay in the capability.
pub fn preview_admission(preview: &Capability, width: u32, height: u32, max_decoded_bytes: u64) -> (r:
    Result<(), PsdError>)
    requires
        width * height * 4 <= u64::MAX,
    ensures
        preview.status == Support::Unsupported ==> (r matches Err(e) && (e.code
            == PsdErrorCode::PreviewUnavailable && e.message@ == preview.reason@ && e.cause is None)),
        preview.status != Support::Unsupported ==> budget_outcome(r, width, height, max_decoded_bytes),
{
    if preview.status == Support::Unsupported {
        return Err(PsdError::new(PsdErrorCode::PreviewUnavailable, preview.reason.as_str()));
    }
    let r = check_decode_budget(width, height, max_decoded_bytes);
    r
}

/// Admits the export of layer `id`: an id outside the read is not found, a
/// layer without supported export is refused with its own reason, otherwise
/// its rectangle must fit the decode budget. Gives the layer's position.
pub fn layer_admission(layers: &Vec<LayerFacts>, id: LayerId, max_decoded_bytes: u64) -> (r: Result<
    usize,
    PsdError,
>)
    requires
        forall|i: int|
            0 <= i < layers@.len() ==> #[trigger] layers@[i].bounds.width * layers@[i].bounds.height
                * 4 <= u64::MAX,
    ensures
        id.0 >= layers@.len() ==> (r matches Err(e) && (e.code == PsdErrorCode::LayerNotFound
            && e.message@ == LAYER_NOT_FOUND@ && e.cause is None)),
        id.0 < layers@.len() ==> {
            let l = layers@[id.0 as int];
            if l.export.status != Support::Supported {
                r matches Err(e) && (e.code == PsdErrorCode::ExportUnsupported && e.message@
                    == l.export.reason@ && e.cause is None)
            } else {
                &&& budget_outcome(
                    match r {
                        Ok(_) => Ok::<(), PsdError>(()),
                        Err(e) => Err::<(), PsdError>(e),
                    },
                    l.bounds.width,
                    l.bounds.height,
                    max_decoded_bytes,
                )
                &&& (r matches Ok(i) ==> i == id.0)
            }
        },
{
    if id.0 as usize >= layers.len() {
        return Err(PsdError::new(PsdErrorCode::LayerNotFound, LAYER_NOT_FOUND));
    }
    let index = id.0 as usize;
    let layer = &layers[index];
    if layer.export.status != Support::Supported {
        return Err(PsdError::new(PsdErrorCode::ExportUnsupported, layer.export.reason.as_str()));
    }
    check_decode_budget(layer.bounds.width, layer.bounds.height, max_decoded_bytes)?;
    Ok(index)
}

/// The refusal of a layer reference outside this read.
pub fn layer_not_found() -> (e: PsdError)
    ensures
        e.code == PsdErrorCode::LayerNotFound,
        e.message@ == LAYER_NOT_FOUND@,
        e.cause is None,
{
    PsdError::new(PsdErrorCode::LayerNotFound, LAYER_NOT_FOUND)
}

/// The error class of a decoder failure.
pub open spec fn read_failure_code(f: ReadFailure) -> PsdErrorCode {
    match f {
        ReadFailure::MemoryLimit => PsdErrorCode::ResourceLimit,
        ReadFailure::Unsupported => PsdErrorCode::Unsupported,
        ReadFailure::Other => PsdErrorCode::ParseFailed,
    }
}

/// The error of a failed decoder `operation`: its class, the operation and
/// the decoder's text, which is kept as the cause.
pub fn parser_error(operation: &str, failure: ReadFailure, cause: &str) -> (e: PsdError)
    ensures
        e.code == read_failure_code(failure),
        e.message@ == operation@ + "失败："@ + cause@,
        e.cause is Some && e.cause->0@ == cause@,
{
    let code = match failure {
        ReadFailure::MemoryLimit => PsdErrorCode::ResourceLimit,
        ReadFailure::Unsupported => PsdErrorCode::Unsupported,
        ReadFailure::Other => PsdErrorCode::ParseFailed,
    };
    let mut message = String::from_str(operation);
    message.append("失败：");
    message.append(cause);
    PsdError::with_cause(code, message.as_str(), cause)
}

/// The description of a failed source read.
pub open spec fn source_text(f: SourceFailure) -> Seq<char> {
    match f {
        SourceFailure::Io { text, .. } => "读取 PSD 源数据失败："@ + text@,
        SourceFailure::TooLarge { limit } => "PSD 源文件超过 "@ + decimal_chars(limit as nat) + " 字节限制"@,
        SourceFailure::NotAFile => "PSD 源路径不是普通文件"@,
        SourceFailure::UnsupportedPlatform => "当前平台尚未实现受保护的 PSD 源读取"@,
    }
}

/// The error class of a failed source read: a sharing or lock violation
/// (platform errors 32 and 33) means the source is changing.
pub open spec fn source_code(f: SourceFailure) -> PsdErrorCode {
    match f {
        SourceFailure::Io { os_code, .. } => if os_code == Some(32i32) || os_code == Some(33i32) {
            PsdErrorCode::SourceChanged
        } else {
            PsdErrorCode::Io
        },
        SourceFailure::TooLarge { .. } => PsdErrorCode::ResourceLimit,
        SourceFailure::NotAFile => PsdErrorCode::InvalidInput,
        SourceFailure::UnsupportedPlatform => PsdErrorCode::Unsupported,
    }
}

impl SourceFailure {
    /// The description of this failure, as [`source_text`] states it.
    pub fn describe(&self) -> (s: String)
        ensures
            s@ == source_text(*self),
    {
        match self {
            SourceFailure::Io { text, .. } => {
                let mut s = String::from_str("读取 PSD 源数据失败：");
                s.append(text.as_str());
                s
            },
            SourceFailure::TooLarge { limit } => {
                let mut s = String::from_str("PSD 源文件超过 ");
                push_decimal(&mut s, *limit);
                s.append(" 字节限制");
                s
            },
            SourceFailure::NotAFile => String::from_str("PSD 源路径不是普通文件"),
            SourceFailure::UnsupportedPlatform => String::from_str("当前平台尚未实现受保护的 PSD 源读取"),
        }
    }
}

/// The error of a failed source read: its class, and its description after
/// the common prefix, which is kept as the cause.
pub fn source_error(failure: &SourceFailure) -> (e: PsdError)
    ensures
        e.code == source_code(*failure),
        e.message@ == SOURCE_FAILED@ + source_text(*failure),
        e.cause is Some && e.cause->0@ == source_text(*failure),
{
    let code = match failure {
        SourceFailure::Io { os_code, .. } => match os_code {
            Some(n) => if *n == 32 || *n == 33 {
                PsdErrorCode::SourceChanged
            } else {
                PsdErrorCode::Io
            },
            None => PsdErrorCode::Io,
        },
        SourceFailure::TooLarge { .. } => PsdErrorCode::ResourceLimit,
        SourceFailure::NotAFile => PsdErrorCode::InvalidInput,
        SourceFailure::UnsupportedPlatform => PsdErrorCode::Unsupported,
    };
    let text = failure.describe();
    let mut message = String::from_str(SOURCE_FAILED);
    message.append(text.as_str());
    PsdError::with_cause(code, message.as_str(), text.as_str())
}

} // verus!
