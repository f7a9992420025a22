//! PNG output of decoded RGBA pixels, bounded in size. The pixel size is
//! checked against the record first; the finished stream must fit the byte
//! limit of one output.

use vstd::prelude::*;

use std::io::Write;

use super::document::check_pixels;
use super::error::{PsdError, PsdErrorCode};

verus! {

/// Prefix of every encoding failure message.
pub const ENCODE_FAILED: &'static str = "编码 PNG 失败：";

/// Cause of an output past the byte limit.
pub const OUTPUT_LIMIT: &'static str = "PNG 输出超过字节上限";

/// The PNG stream that the `png` encoder writes for `width` x `height` RGBA
/// pixels with eight bits per channel and its default settings.
pub uninterp spec fn png_stream(width: u32, height: u32, rgba: Seq<u8>) -> Seq<u8>;

/// Encodes RGBA pixels with the `png` crate: `Encoder::new` on a growing
/// buffer, colour type RGBA, bit depth eight, `write_header`, one
/// `stream_writer` that takes all pixel bytes, then both `finish` calls. The
/// contract claims that bytes handed back are that encoder's stream for these
/// arguments; that a zero width or height fails (`write_header` refuses them
/// first); and that positive sizes with exactly four bytes per pixel succeed,
/// since for RGBA at depth eight the encoder's other failures come from its
/// writer, and writing to a `Vec` does not fail. The failure text is the
/// encoder's own and is left unsaid.
#[verifier::external_body]
fn png_encode(width: u32, height: u32, rgba: &[u8]) -> (r: Result<Vec<u8>, String>)
    ensures
        r matches Ok(v) ==> v@ == png_stream(width, height, rgba@),
        width == 0 || height == 0 ==> r is Err,
        width > 0 && height > 0 && rgba@.len() == width * height * 4 ==> r is Ok,
{
    let mut out: Vec<u8> = Vec::new();
    let mut encoder = png::Encoder::new(&mut out, width, height);
    encoder.set_color(png::ColorType::Rgba);
    encoder.set_depth(png::BitDepth::Eight);
    let mut writer = encoder.write_header().map_err(|e| e.to_string())?;
    let mut stream = writer.stream_writer().map_err(|e| e.to_string())?;
    stream.write_all(rgba).map_err(|e| e.to_string())?;
    stream.finish().map_err(|e| e.to_string())?;
    writer.finish().map_err(|e| e.to_string())?;
    Ok(out)
}

/// What an encoding outcome becomes: a stream within `limit` bytes as it is,
/// in a buffer allocated for exactly its length, a longer one a resource limit
/// failure, an encoder failure an encoding failure that keeps the encoder's
/// text as its cause.
pub fn finish_png(encoded: Result<Vec<u8>, String>, limit: usize) -> (r: Result<Vec<u8>, PsdError>)
    ensures
        match encoded {
            Ok(v) => if v@.len() <= limit {
                r matches Ok(w) && w@ == v@
            } else {
                r matches Err(e) && (e.code == PsdErrorCode::ResourceLimit && e.message@
                    == ENCODE_FAILED@ + OUTPUT_LIMIT@ && e.cause is Some && e.cause->0@ == OUTPUT_LIMIT@)
            },
            Err(m) => r matches Err(e) && (e.code == PsdErrorCode::EncodeFailed && e.message@
                == ENCODE_FAILED@ + m@ && e.cause is Some && e.cause->0@ == m@),
        },
{
    match encoded {
        Ok(v) => {
            if v.len() <= limit {
                Ok(exact_copy(&v))
            } else {
                let mut message = String::from_str(ENCODE_FAILED);
                message.append(OUTPUT_LIMIT);
                Err(PsdError::with_cause(PsdErrorCode::ResourceLimit, message.as_str(), OUTPUT_LIMIT))
            }
        },
        Err(m) => {
            let mut message = String::from_str(ENCODE_FAILED);
            message.append(m.as_str());
            Err(PsdError::with_cause(PsdErrorCode::EncodeFailed, message.as_str(), m.as_str()))
        },
    }
}

/// A copy of `v` in a buffer reserved for exactly its length, so that the
/// capacity charged for an output is no more than the bytes it holds.
fn exact_copy(v: &Vec<u8>) -> (w: Vec<u8>)
    ensures
        w@ == v@,
{
    let mut w: Vec<u8> = Vec::with_capacity(v.len());
    let mut i: usize = 0;
    while i < v.len()
        invariant
            i <= v@.len(),
            w@ == v@.take(i as int),
        decreases v@.len() - i,
    {
        w.push(v[i]);
        i = i + 1;
        proof {
            assert(w@ =~= v@.take(i as int));
        }
    }
    proof {
        assert(v@.take(i as int) =~= v@);
    }
    w
}

/// Encodes decoded pixels of a `width` x `height` record as PNG within
/// `limit` bytes. Pixels of another size are refused before any encoding; an
/// empty record cannot be encoded; a stream past the limit is a resource
/// limit failure.
pub fn encode_png(
    rgba: &[u8],
    pixel_width: u32,
    pixel_height: u32,
    width: u32,
    height: u32,
    limit: usize,
) -> (r: Result<Vec<u8>, PsdError>)
    requires
        width * height * 4 <= u64::MAX,
    ensures
        !(pixel_width == width && pixel_height == height && rgba@.len() == width * height * 4)
            ==> (r matches Err(e) && e.code == PsdErrorCode::ParseFailed),
        pixel_width == width && pixel_height == height && rgba@.len() == width * height * 4 ==> {
            if width == 0 || height == 0 {
                r matches Err(e) && e.code == PsdErrorCode::EncodeFailed
            } else if png_stream(width, height, rgba@).len() <= limit {
                r matches Ok(v) && v@ == png_stream(width, height, rgba@)
            } else {
                r matches Err(e) && (e.code == PsdErrorCode::ResourceLimit && e.message@
                    == ENCODE_FAILED@ + OUTPUT_LIMIT@)
            }
        },
        r matches Ok(v) ==> v@ == png_stream(width, height, rgba@) && v@.len() <= limit,
{
    check_pixels(width, height, pixel_width, pixel_height, rgba.len())?;
    finish_png(png_encode(width, height, rgba), limit)
}

} // verus!
