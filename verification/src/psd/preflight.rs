//! Checks the bounded PSD v1 subset before any decoder runs. The input slice is
//! only borrowed, and no allocation is sized by an unchecked length: only the
//! image resources and layer tags whose meaning is known are admitted.

use vstd::prelude::*;

use super::error::{PsdError, PsdErrorCode};
use super::model::{Bounds, ParseLimits};
use super::normalization::RecordFacts;
use super::preflight_spec::{
    TagSpec,
    RecordSpec,
    HeaderSpec,
    no_tags,
    tag_update,
    key_lyid,
    key_lsct,
    key_lsdk,
    has_rgb,
    MAX_DIMENSION,
    MAX_GROUP_DEPTH,
    be16,
    be32,
    signed32,
    signed16,
    sp_take,
    sp_u8,
    sp_u16,
    sp_u32,
    sp_section,
    sp_signature,
    sp_padding,
    all_zero,
    sp_pascal_name,
    sp_blend_mode,
    sp_resource,
    sp_resources,
    sp_packbits,
    sp_rle_rows,
    sp_image_data,
    sp_add_pixels,
    sp_rect,
    sp_channels,
    default_ranges,
    sp_divider,
    sp_unicode_name,
    sp_additional,
    sp_tag,
    sp_extra,
    sp_after_layer_info,
    sp_resource_data,
    sp_record_tail,
    sp_layer_record,
    channel_jobs,
    sp_records,
    sp_channel_data,
    sp_layer_info,
    sp_layer_and_mask,
    sp_file_header,
    sp_inspect,
};

verus! {

/// What the check reports of an accepted file.
#[derive(Debug, Clone)]
pub struct Header {
    pub width: u32,
    pub height: u32,
    pub has_composite: bool,
    pub global_alpha: bool,
    /// Canvas area plus all layer areas, in pixels.
    pub total_pixels: u64,
    /// What the check kept of each layer record, in file order.
    pub layers: Vec<RecordFacts>,
}

/// Whether `f` reports the record that the reader kept as `s`, at position
/// `ordinal` in the file. Masks and non-default blending ranges never pass
/// the check.
pub open spec fn record_matches(f: RecordFacts, s: RecordSpec, ordinal: int) -> bool {
    &&& f.ordinal == ordinal
    &&& f.bounds == (Bounds { x: s.x as i32, y: s.y as i32, width: s.width, height: s.height })
    &&& f.source_id == s.tags.source_id
    &&& f.clipping == (s.clipping == 1)
    &&& f.flags == s.flags
    &&& f.section_kind == s.tags.kind
    &&& f.has_rgb == s.has_rgb
    &&& !f.has_mask
    &&& !f.nondefault_blending_ranges
    &&& f.blend_mode@ == s.blend
    &&& f.tags@.map_values(|a: [u8; 4]| a@) == s.tags.keys
}

/// Whether `v` reports the records `s`, position by position.
pub open spec fn records_match(v: Seq<RecordFacts>, s: Seq<RecordSpec>) -> bool {
    &&& v.len() == s.len()
    &&& forall|k: int| 0 <= k < v.len() ==> record_matches(#[trigger] v[k], s[k], k)
}

/// Whether `h` reports what the reader reports as `s`.
pub open spec fn header_matches(h: Header, s: HeaderSpec) -> bool {
    &&& h.width == s.width
    &&& h.height == s.height
    &&& h.has_composite == s.has_composite
    &&& h.global_alpha == s.global_alpha
    &&& h.total_pixels == s.total_pixels
    &&& records_match(h.layers@, s.layers)
}

/// The tagged blocks of one record as read so far.
struct TagFacts {
    keys: Vec<[u8; 4]>,
    source_id: Option<u32>,
    kind: Option<u32>,
}

impl View for TagFacts {
    type V = TagSpec;

    closed spec fn view(&self) -> TagSpec {
        TagSpec {
            keys: self.keys@.map_values(|a: [u8; 4]| a@),
            source_id: self.source_id,
            kind: self.kind,
        }
    }
}

/// What the check keeps of one record after its channel table.
struct RecordTail {
    structural: bool,
    blend: [u8; 4],
    clipping: u8,
    flags: u8,
    tags: TagFacts,
}

/// Geometry and channel data lengths of one checked layer record.
#[derive(Debug)]
pub struct LayerLayout {
    pub width: u32,
    pub height: u32,
    pub channel_lengths: Vec<u32>,
}

fn invalid(message: &str) -> (e: PsdError)
    ensures
        e.code == PsdErrorCode::InvalidInput,
{
    PsdError::new(PsdErrorCode::InvalidInput, message)
}

fn unsupported(message: &str) -> (e: PsdError)
    ensures
        e.code == PsdErrorCode::Unsupported,
{
    PsdError::new(PsdErrorCode::Unsupported, message)
}

fn limited(message: &str) -> (e: PsdError)
    ensures
        e.code == PsdErrorCode::ResourceLimit,
{
    PsdError::new(PsdErrorCode::ResourceLimit, message)
}

/// A read position in borrowed bytes; reading never copies.
pub struct Cursor<'a> {
    remaining: &'a [u8],
}

impl<'a> View for Cursor<'a> {
    type V = Seq<u8>;

    closed spec fn view(&self) -> Seq<u8> {
        self.remaining@
    }
}

impl<'a> Cursor<'a> {
    /// A cursor at the start of `bytes`.
    pub fn new(bytes: &'a [u8]) -> (c: Self)
        ensures
            c@ == bytes@,
    {
        Cursor { remaining: bytes }
    }

    /// Number of unread bytes.
    pub fn len(&self) -> (n: usize)
        ensures
            n == self@.len(),
    {
        self.remaining.len()
    }

    /// Whether every byte has been read.
    pub fn is_empty(&self) -> (b: bool)
        ensures
            b == (self@.len() == 0),
    {
        self.remaining.len() == 0
    }

    /// The next `size` bytes; a shorter input is truncated data.
    pub fn take(&mut self, size: usize) -> (r: Result<&'a [u8], PsdError>)
        ensures
            match sp_take(old(self)@, size as int) {
                Ok((head, rest)) => r matches Ok(b) && b@ == head && final(self)@ == rest,
                Err(c) => r matches Err(e) && e.code == c,
            },
    {
        if size <= self.remaining.len() {
            let (head, tail) = self.remaining.split_at(size);
            self.remaining = tail;
            Ok(head)
        } else {
            Err(invalid("PSD 区段或通道数据截断"))
        }
    }

    /// One byte.
    pub fn u8(&mut self) -> (r: Result<u8, PsdError>)
        ensures
            match sp_u8(old(self)@) {
                Ok((v, rest)) => r == Ok::<u8, PsdError>(v) && final(self)@ == rest,
                Err(c) => r matches Err(e) && e.code == c,
            },
    {
        let bytes = self.take(1)?;
        Ok(bytes[0])
    }

    /// A big-endian 16-bit word.
    pub fn u16(&mut self) -> (r: Result<u16, PsdError>)
        ensures
            match sp_u16(old(self)@) {
                Ok((v, rest)) => r == Ok::<u16, PsdError>(v) && final(self)@ == rest,
                Err(c) => r matches Err(e) && e.code == c,
            },
    {
        let bytes = self.take(2)?;
        Ok(bytes[0] as u16 * 256 + bytes[1] as u16)
    }

    /// A big-endian 32-bit word.
    pub fn u32(&mut self) -> (r: Result<u32, PsdError>)
        ensures
            match sp_u32(old(self)@) {
                Ok((v, rest)) => r == Ok::<u32, PsdError>(v) && final(self)@ == rest,
                Err(c) => r matches Err(e) && e.code == c,
            },
    {
        let bytes = self.take(4)?;
        Ok(bytes[0] as u32 * 16777216 + bytes[1] as u32 * 65536 + bytes[2] as u32 * 256
            + bytes[3] as u32)
    }

    /// A length-prefixed section as a cursor of its own.
    pub fn section(&mut self) -> (r: Result<Cursor<'a>, PsdError>)
        ensures
            match sp_section(old(self)@) {
                Ok((body, rest)) => r matches Ok(c) && c@ == body && final(self)@ == rest,
                Err(c) => r matches Err(e) && e.code == c,
            },
    {
        let size = self.u32()?;
        let bytes = self.take(size as usize)?;
        Ok(Cursor::new(bytes))
    }

    /// Four signature bytes `a b c d`.
    pub fn signature(&mut self, a: u8, b: u8, c: u8, d: u8) -> (r: Result<(), PsdError>)
        ensures
            match sp_signature(old(self)@, seq![a, b, c, d]) {
                Ok(rest) => r is Ok && final(self)@ == rest,
                Err(code) => r matches Err(e) && e.code == code,
            },
    {
        let bytes = self.take(4)?;
        if bytes[0] == a && bytes[1] == b && bytes[2] == c && bytes[3] == d {
            assert(bytes@ =~= seq![a, b, c, d]);
            Ok(())
        } else {
            assert(bytes@ != seq![a, b, c, d]) by {
                if bytes@ == seq![a, b, c, d] {
                    assert(bytes@[0] == a && bytes@[1] == b && bytes@[2] == c && bytes@[3] == d);
                }
            }
            Err(invalid("PSD 区段签名无效"))
        }
    }

    /// `size` alignment bytes, all zero.
    pub fn padding(&mut self, size: usize) -> (r: Result<(), PsdError>)
        ensures
            match sp_padding(old(self)@, size as int) {
                Ok(rest) => r is Ok && final(self)@ == rest,
                Err(c) => r matches Err(e) && e.code == c,
            },
    {
        let bytes = self.take(size)?;
        if !zeroes(bytes) {
            return Err(invalid("PSD 对齐填充必须为零"));
        }
        Ok(())
    }

    /// A Pascal string padded to whole `alignment` units.
    pub fn pascal_name(&mut self, alignment: usize) -> (r: Result<(), PsdError>)
        requires
            alignment > 0,
        ensures
            match sp_pascal_name(old(self)@, alignment as int) {
                Ok(rest) => r is Ok && final(self)@ == rest,
                Err(c) => r matches Err(e) && e.code == c,
            },
    {
        let length = self.u8()? as usize;
        self.take(length)?;
        self.padding((alignment - (length + 1) % alignment) % alignment)
    }
}

/// Whether every byte is zero.
fn zeroes(bytes: &[u8]) -> (b: bool)
    ensures
        b == all_zero(bytes@),
{
    let mut i: usize = 0;
    while i < bytes.len()
        invariant
            0 <= i <= bytes@.len(),
            forall|j: int| 0 <= j < i ==> bytes@[j] == 0,
        decreases bytes@.len() - i,
    {
        if bytes[i] != 0 {
            assert(bytes@[i as int] != 0);
            return false;
        }
        i = i + 1;
    }
    true
}

/// Checks all external lengths and the pixel budget before a decoder may build
/// a model or copy channel data.
///
/// Accepts exactly the files that the reference reader `sp_inspect` accepts and
/// reports the same facts; a rejected file gets the same error class.
pub fn inspect(bytes: &[u8], limits: ParseLimits) -> (r: Result<Header, PsdError>)
    ensures
        match sp_inspect(bytes@, limits) {
            Ok(h) => r matches Ok(x) && header_matches(x, h),
            Err(c) => r matches Err(e) && e.code == c,
        },
{
    if bytes.len() as u64 > limits.max_file_bytes {
        return Err(limited("PSD 文件超过字节预算"));
    }
    let mut input = Cursor::new(bytes);
    let (width, height, channels) = file_header(&mut input)?;
    let mut pixels: u64 = 0;
    add_pixels(&mut pixels, width, height, limits)?;
    let color = input.section()?;
    if !color.is_empty() {
        return Err(unsupported("本轮不处理 RGB 文件的附加 Color Mode Data"));
    }
    let mut resource_section = input.section()?;
    resources(&mut resource_section)?;
    let (global_alpha, layers) = layer_and_mask(input.section()?, &mut pixels, limits)?;
    let has_composite = !input.is_empty();
    if has_composite {
        image_data(&mut input, width, height, channels)?;
    }
    Ok(Header { width, height, has_composite, global_alpha, total_pixels: pixels, layers })
}

fn file_header(input: &mut Cursor) -> (r: Result<(u32, u32, u16), PsdError>)
    ensures
        match sp_file_header(old(input)@) {
            Ok((w, h, c, rest)) => r == Ok::<(u32, u32, u16), PsdError>((w, h, c))
                && final(input)@ == rest,
            Err(code) => r matches Err(e) && e.code == code,
        },
        r matches Ok((w, h, c)) ==> w <= MAX_DIMENSION && h <= MAX_DIMENSION && c <= 4,
{
    proof {
        reveal(sp_file_header);
    }
    input.signature(0x38, 0x42, 0x50, 0x53)?;
    if input.u16()? != 1 {
        return Err(unsupported("本轮只验证 PSD v1，尚不支持 PSB"));
    }
    input.padding(6)?;
    let channels = input.u16()?;
    let height = input.u32()?;
    let width = input.u32()?;
    let depth = input.u16()?;
    let mode = input.u16()?;
    if !(3 <= channels && channels <= 4) || depth != 8 || mode != 3 {
        return Err(unsupported("本轮只验证具有 3 或 4 个通道的 RGB/8 位 PSD"));
    }
    if width == 0 || height == 0 || width > MAX_DIMENSION || height > MAX_DIMENSION {
        return Err(invalid("PSD v1 画布尺寸必须在 1–30000 像素内"));
    }
    Ok((width, height, channels))
}

/// Adds `width * height` to the running pixel total if it stays within the budget.
pub fn add_pixels(total: &mut u64, width: u32, height: u32, limits: ParseLimits) -> (r: Result<
    (),
    PsdError,
>)
    requires
        width <= MAX_DIMENSION,
        height <= MAX_DIMENSION,
    ensures
        match sp_add_pixels(*old(total), width, height, limits) {
            Ok(p) => r is Ok && *final(total) == p,
            Err(c) => r matches Err(e) && e.code == c && *final(total) == *old(total),
        },
{
    assert(width as int * height as int <= 900_000_000) by (nonlinear_arith)
        requires
            width <= 30_000,
            height <= 30_000,
    ;
    let area = width as u64 * height as u64;
    if area > limits.max_total_pixels || *total > limits.max_total_pixels - area {
        return Err(limited("PSD 画布与图层总像素超过预算"));
    }
    *total = *total + area;
    Ok(())
}

fn resources(section: &mut Cursor) -> (r: Result<(), PsdError>)
    ensures
        match sp_resources(old(section)@) {
            Ok(_) => r is Ok,
            Err(c) => r matches Err(e) && e.code == c,
        },
{
    while !section.is_empty()
        invariant
            sp_resources(section@) == sp_resources(old(section)@),
        decreases section@.len(),
    {
        let ghost before = section@;
        resource(section)?;
        assert(section@.len() < before.len());
    }
    Ok(())
}

fn resource(resources: &mut Cursor) -> (r: Result<(), PsdError>)
    ensures
        match sp_resource(old(resources)@) {
            Ok(rest) => r is Ok && final(resources)@ == rest,
            Err(c) => r matches Err(e) && e.code == c,
        },
        r is Ok ==> final(resources)@.len() < old(resources)@.len(),
{
    proof {
        reveal(sp_resource);
    }
    resources.signature(0x38, 0x42, 0x49, 0x4d)?;
    let id = resources.u16()?;
    resources.pascal_name(2)?;
    let mut data = resources.section()?;
    let length = data.len();
    let ghost body = data@;
    if id == 1005 {
        if length == 16 {
            let horizontal = data.u32()?;
            data.take(4)?;
            let vertical = data.u32()?;
            assert(horizontal == be32(body[0], body[1], body[2], body[3]));
            assert(vertical == be32(body[8], body[9], body[10], body[11]));
            if horizontal == 0 || horizontal >= 0x8000_0000 || vertical == 0 || vertical
                >= 0x8000_0000 {
                return Err(invalid("ResolutionInfo 的水平与垂直 16.16 fixed 分辨率必须为正"));
            }
        } else {
            return Err(invalid("ResolutionInfo 必须为 16 字节"));
        }
    } else if id == 1039 {
        return Err(unsupported("候选严格读取尚不能处理 ICC 图像资源"));
    } else {
        return Err(unsupported("本轮仅允许 ResolutionInfo 图像资源"));
    }
    resources.padding(length % 2)
}

/// An accepted blend key, handed back as read.
fn blend_mode(input: &mut Cursor) -> (r: Result<[u8; 4], PsdError>)
    ensures
        match sp_blend_mode(old(input)@) {
            Ok(rest) => r matches Ok(k) && k@ == old(input)@.take(4) && final(input)@ == rest,
            Err(c) => r matches Err(e) && e.code == c,
        },
{
    let key = input.take(4)?;
    let norm = key[0] == 0x6e && key[1] == 0x6f && key[2] == 0x72 && key[3] == 0x6d;
    let pass = key[0] == 0x70 && key[1] == 0x61 && key[2] == 0x73 && key[3] == 0x73;
    proof {
        let n = seq![0x6eu8, 0x6fu8, 0x72u8, 0x6du8];
        let p = seq![0x70u8, 0x61u8, 0x73u8, 0x73u8];
        if norm {
            assert(key@ =~= n);
        }
        if pass {
            assert(key@ =~= p);
        }
        if key@ == n {
            assert(key@[0] == n[0] && key@[1] == n[1] && key@[2] == n[2] && key@[3] == n[3]);
        }
        if key@ == p {
            assert(key@[0] == p[0] && key@[1] == p[1] && key@[2] == p[2] && key@[3] == p[3]);
        }
    }
    if !(norm || pass) {
        return Err(unsupported("本轮只接纳 normal 和 pass-through 混合模式"));
    }
    Ok(key_array(key))
}

/// The four bytes of `key` as an array.
fn key_array(key: &[u8]) -> (k: [u8; 4])
    requires
        key@.len() == 4,
    ensures
        k@ == key@,
{
    let k: [u8; 4] = [key[0], key[1], key[2], key[3]];
    assert(k@ =~= key@);
    k
}

/// Checks a complete pixel plane set (RAW or RLE) that fills the cursor exactly.
pub fn image_data(input: &mut Cursor, width: u32, height: u32, channels: u16) -> (r: Result<
    (),
    PsdError,
>)
    requires
        width <= MAX_DIMENSION,
        height <= MAX_DIMENSION,
        channels <= 4,
    ensures
        match sp_image_data(old(input)@, width, height, channels) {
            Ok(_) => r is Ok && final(input)@.len() == 0,
            Err(c) => r matches Err(e) && e.code == c,
        },
{
    proof {
        reveal(sp_image_data);
    }
    assert(width as int * height as int <= 900_000_000) by (nonlinear_arith)
        requires
            width <= 30_000,
            height <= 30_000,
    ;
    assert(width as int * height as int * channels as int <= 3_600_000_000) by (nonlinear_arith)
        requires
            width as int * height as int <= 900_000_000,
            channels <= 4,
    ;
    assert(height as int * channels as int <= 120_000) by (nonlinear_arith)
        requires
            height <= 30_000,
            channels <= 4,
    ;
    let compression = input.u16()?;
    if compression == 0 {
        let size = width as u64 * height as u64 * channels as u64;
        if input.len() as u64 != size {
            return Err(invalid("PSD RAW 通道长度与像素尺寸不匹配"));
        }
        let n = input.len();
        input.take(n)?;
        Ok(())
    } else if compression == 1 {
        let rows = height as u64 * channels as u64;
        let table_bytes = input.take((rows * 2) as usize)?;
        let mut table = Cursor::new(table_bytes);
        let mut done: u64 = 0;
        while done < rows
            invariant
                done <= rows,
                sp_image_data(old(input)@, width, height, channels) == sp_rle_rows(
                    table@,
                    input@,
                    (rows - done) as nat,
                    width,
                ),
            decreases rows - done,
        {
            let size = table.u16()?;
            let row = input.take(size as usize)?;
            packbits_row(row, width)?;
            done = done + 1;
        }
        if !input.is_empty() {
            return Err(invalid("PSD RLE 通道包含未声明的数据"));
        }
        Ok(())
    } else {
        Err(unsupported("本轮只验证 RAW 和 RLE 像素压缩"))
    }
}

/// Checks one PackBits row: literal and repeat runs, and the no-op byte 128,
/// must decode to exactly `width` bytes.
pub fn packbits_row(bytes: &[u8], width: u32) -> (r: Result<(), PsdError>)
    ensures
        match sp_packbits(bytes@, width, 0) {
            Ok(_) => r is Ok,
            Err(c) => r matches Err(e) && e.code == c,
        },
{
    let mut row = Cursor::new(bytes);
    let mut decoded: u32 = 0;
    while !row.is_empty()
        invariant
            decoded <= width,
            sp_packbits(bytes@, width, 0) == sp_packbits(row@, width, decoded as int),
        decreases row@.len(),
    {
        let ghost before = row@;
        let marker = row.u8()?;
        let count: u32 = if marker < 128 {
            let count = marker as u32 + 1;
            row.take(count as usize)?;
            count
        } else if marker == 128 {
            assert(before.skip(1).skip(0) =~= before.skip(1));
            0
        } else {
            row.take(1)?;
            257 - marker as u32
        };
        if count > width - decoded {
            return Err(invalid("PSD RLE 行解压后超过声明宽度"));
        }
        decoded = decoded + count;
    }
    if decoded != width {
        return Err(invalid("PSD RLE 行解压后未达到声明宽度"));
    }
    Ok(())
}

/// The layer rectangle: width, height, left and top.
fn read_rect(input: &mut Cursor) -> (r: Result<(u32, u32, i32, i32), PsdError>)
    ensures
        match sp_rect(old(input)@) {
            Ok((w, h, x, y, rest)) => r matches Ok((rw, rh, rx, ry)) && rw == w && rh == h && rx == x
                && ry == y && final(input)@ == rest,
            Err(c) => r matches Err(e) && e.code == c,
        },
        r matches Ok((w, h, _, _)) ==> w <= MAX_DIMENSION && h <= MAX_DIMENSION,
{
    proof {
        reveal(sp_rect);
    }
    let top = signed(input.u32()?);
    let left = signed(input.u32()?);
    let bottom = signed(input.u32()?);
    let right = signed(input.u32()?);
    let width = right - left;
    let height = bottom - top;
    if width < 0 {
        return Err(invalid("PSD 图层横向边界无效"));
    }
    if height < 0 {
        return Err(invalid("PSD 图层纵向边界无效"));
    }
    if width > MAX_DIMENSION as i64 || height > MAX_DIMENSION as i64 {
        return Err(unsupported("本轮图层边长上限为 30000 像素"));
    }
    Ok((width as u32, height as u32, left as i32, top as i32))
}

fn signed(v: u32) -> (s: i64)
    ensures
        s == signed32(v),
        -0x8000_0000 <= s < 0x8000_0000,
{
    if v >= 0x8000_0000 {
        v as i64 - 0x1_0000_0000
    } else {
        v as i64
    }
}

fn read_channels(input: &mut Cursor, count: u16) -> (r: Result<(Vec<bool>, Vec<u32>), PsdError>)
    requires
        count <= 4,
    ensures
        match sp_channels(old(input)@, count as nat, seq![false, false, false, false], seq![]) {
            Ok((seen, lengths, rest)) => r matches Ok((s, l)) && s@ == seen && l@ == lengths
                && final(input)@ == rest,
            Err(c) => r matches Err(e) && e.code == c,
        },
        r matches Ok((s, _)) ==> s@.len() == 4,
{
    let mut seen: Vec<bool> = vec![false, false, false, false];
    let mut lengths: Vec<u32> = Vec::new();
    assert(seen@ =~= seq![false, false, false, false]);
    assert(lengths@ =~= Seq::<u32>::empty());
    let mut i: u16 = 0;
    while i < count
        invariant
            i <= count,
            seen@.len() == 4,
            sp_channels(old(input)@, count as nat, seq![false, false, false, false], seq![])
                == sp_channels(input@, (count - i) as nat, seen@, lengths@),
        decreases count - i,
    {
        let raw = input.u16()?;
        if !(raw == 0xffff || raw <= 2) {
            return Err(unsupported("本轮不支持图层蒙版或其他附加通道"));
        }
        let index: usize = if raw == 0xffff {
            0
        } else {
            raw as usize + 1
        };
        assert(index == signed16(raw) + 1);
        if seen[index] {
            return Err(invalid("PSD 图层通道 ID 重复"));
        }
        seen.set(index, true);
        let length = input.u32()?;
        lengths.push(length);
        i = i + 1;
    }
    Ok((seen, lengths))
}

fn default_blending_ranges(ranges: &Cursor) -> (b: bool)
    ensures
        b == default_ranges(ranges@),
{
    let n = ranges.len();
    if n > 40 || n % 8 != 0 {
        return false;
    }
    let mut i: usize = 0;
    while i < n
        invariant
            n == ranges@.len(),
            i <= n,
            forall|j: int|
                0 <= j < i ==> #[trigger] ranges@[j] == (if j % 4 < 2 {
                    0u8
                } else {
                    255u8
                }),
        decreases n - i,
    {
        let expected: u8 = if i % 4 < 2 {
            0
        } else {
            255
        };
        if ranges.byte_at(i) != expected {
            return false;
        }
        i = i + 1;
    }
    true
}

impl<'a> Cursor<'a> {
    /// The unread byte at `i` without moving.
    pub fn byte_at(&self, i: usize) -> (b: u8)
        requires
            i < self@.len(),
        ensures
            b == self@[i as int],
    {
        self.remaining[i]
    }
}

fn record_tail(input: &mut Cursor, group_depth: &mut u32) -> (r: Result<RecordTail, PsdError>)
    ensures
        match sp_record_tail(old(input)@, *old(group_depth)) {
            (Ok(((structural, blend, clipping, flags, t), rest)), d) => r matches Ok(x)
                && x.structural == structural && x.blend@ == blend && x.clipping == clipping
                && x.flags == flags && x.tags@ == t && final(input)@ == rest && *final(group_depth)
                == d,
            (Err(c), d) => r matches Err(e) && e.code == c && *final(group_depth) == d,
        },
{
    proof {
        reveal(sp_record_tail);
    }
    input.signature(0x38, 0x42, 0x49, 0x4d)?;
    let blend = blend_mode(input)?;
    input.u8()?;
    let clipping = input.u8()?;
    if clipping > 1 {
        return Err(invalid("PSD clipping 标记只能为 0 或 1"));
    }
    let flags = input.u8()?;
    if flags >= 8 {
        return Err(unsupported("本轮尚未验证该图层 flags 声明的像素或效果语义"));
    }
    input.padding(1)?;
    let extra = input.section()?;
    let (structural, tags) = extra_data(extra, group_depth)?;
    Ok(RecordTail { structural, blend, clipping, flags, tags })
}

fn extra_data(mut extra: Cursor, group_depth: &mut u32) -> (r: Result<(bool, TagFacts), PsdError>)
    ensures
        match sp_extra(extra@, *old(group_depth)) {
            (Ok((structural, t)), d) => r matches Ok((b, tf)) && b == structural && tf@ == t
                && *final(group_depth) == d,
            (Err(c), d) => r matches Err(e) && e.code == c && *final(group_depth) == d,
        },
{
    proof {
        reveal(sp_extra);
    }
    let mask = extra.section()?;
    if !mask.is_empty() {
        return Err(unsupported("本轮不支持图层蒙版"));
    }
    let ranges = extra.section()?;
    if !default_blending_ranges(&ranges) {
        return Err(unsupported("本轮只支持空或默认的图层混合范围"));
    }
    extra.pascal_name(4)?;
    tagged_blocks(&mut extra, group_depth)
}

/// Checks one layer record and keeps its facts as record `ordinal` of the file.
fn read_record(
    input: &mut Cursor,
    pixels: &mut u64,
    limits: ParseLimits,
    group_depth: &mut u32,
    ordinal: u32,
) -> (r: Result<(LayerLayout, RecordFacts), PsdError>)
    ensures
        match sp_layer_record(old(input)@, *old(pixels), *old(group_depth), limits) {
            (Ok((w, h, lengths, record, rest)), p, d) => r matches Ok((l, f)) && l.width == w
                && l.height == h && l.channel_lengths@ == lengths && record_matches(
                f,
                record,
                ordinal as int,
            ) && final(input)@ == rest && *final(pixels) == p && *final(group_depth) == d,
            (Err(c), p, d) => r matches Err(e) && e.code == c && *final(pixels) == p
                && *final(group_depth) == d,
        },
        r matches Ok((l, _)) ==> l.width <= MAX_DIMENSION && l.height <= MAX_DIMENSION,
{
    proof {
        reveal(sp_layer_record);
    }
    let (width, height, x, y) = read_rect(input)?;
    add_pixels(pixels, width, height, limits)?;
    let count = input.u16()?;
    if count > 4 {
        return Err(unsupported("本轮每个图层最多支持 RGBA 四个通道"));
    }
    let (seen, channel_lengths) = read_channels(input, count)?;
    let tail = record_tail(input, group_depth)?;
    let rgb = seen[1] && seen[2] && seen[3];
    if width > 0 && height > 0 && !tail.structural && !rgb {
        return Err(unsupported("正面积位图必须包含完整的 RGB 通道，不能用默认颜色补齐"));
    }
    let RecordTail { structural: _, blend, clipping, flags, tags } = tail;
    let ghost t = tags@;
    let TagFacts { keys, source_id, kind } = tags;
    let facts = RecordFacts {
        ordinal,
        bounds: Bounds { x, y, width, height },
        source_id,
        clipping: clipping == 1,
        flags,
        section_kind: kind,
        has_rgb: rgb,
        has_mask: false,
        nondefault_blending_ranges: false,
        blend_mode: blend,
        tags: keys,
    };
    proof {
        assert(facts.tags@.map_values(|a: [u8; 4]| a@) =~= t.keys);
    }
    Ok((LayerLayout { width, height, channel_lengths }, facts))
}

/// Checks one layer record: rectangle, channel table, blend key, flags, and the
/// extra data with its tagged blocks. The pixel total and the group depth are
/// updated as the reference reader `sp_layer_record` states, also on failure.
pub fn layer_record(
    input: &mut Cursor,
    pixels: &mut u64,
    limits: ParseLimits,
    group_depth: &mut u32,
) -> (r: Result<LayerLayout, PsdError>)
    ensures
        match sp_layer_record(old(input)@, *old(pixels), *old(group_depth), limits) {
            (Ok((w, h, lengths, _, rest)), p, d) => r matches Ok(l) && l.width == w && l.height == h
                && l.channel_lengths@ == lengths && final(input)@ == rest && *final(pixels) == p
                && *final(group_depth) == d,
            (Err(c), p, d) => r matches Err(e) && e.code == c && *final(pixels) == p
                && *final(group_depth) == d,
        },
        r matches Ok(l) ==> l.width <= MAX_DIMENSION && l.height <= MAX_DIMENSION,
{
    match read_record(input, pixels, limits, group_depth, 0) {
        Ok((layout, _)) => Ok(layout),
        Err(e) => Err(e),
    }
}

fn key_is(key: &[u8], a: u8, b: u8, c: u8, d: u8) -> (r: bool)
    requires
        key@.len() == 4,
    ensures
        r == (key@ == seq![a, b, c, d]),
{
    let r = key[0] == a && key[1] == b && key[2] == c && key[3] == d;
    proof {
        if r {
            assert(key@ =~= seq![a, b, c, d]);
        }
        if key@ == seq![a, b, c, d] {
            assert(key@[0] == a && key@[1] == b && key@[2] == c && key@[3] == d);
        }
    }
    r
}

fn unicode_name(mut data: Cursor) -> (r: Result<(), PsdError>)
    ensures
        match sp_unicode_name(data@) {
            Ok(_) => r is Ok,
            Err(c) => r matches Err(e) && e.code == c,
        },
{
    proof {
        reveal(sp_unicode_name);
    }
    let count = data.u32()?;
    if count as u64 * 2 > usize::MAX as u64 {
        return Err(invalid("luni 长度溢出"));
    }
    data.take((count as u64 * 2) as usize)?;
    if data.len() > 3 {
        return Err(invalid("luni 包含未声明的数据"));
    }
    let n = data.len();
    data.padding(n)
}

/// A group divider body: whether it marks a group record, the new depth, and
/// the divider kind it starts with.
fn divider(mut data: Cursor, depth: u32) -> (r: Result<(bool, u32, u32), PsdError>)
    ensures
        match sp_divider(data@, depth) {
            Ok((structural, d)) => r matches Ok((rs, rd, kind)) && rs == structural && rd == d
                && data@.len() >= 4 && kind == be32(data@[0], data@[1], data@[2], data@[3]),
            Err(c) => r matches Err(e) && e.code == c,
        },
{
    proof {
        reveal(sp_divider);
    }
    let length = data.len();
    let kind = data.u32()?;
    if length >= 12 {
        data.signature(0x38, 0x42, 0x49, 0x4d)?;
        blend_mode(&mut data)?;
    }
    if length == 16 && data.u32()? > 1 {
        return Err(unsupported("本轮不支持该组分隔子类型"));
    }
    let structural = 1 <= kind && kind <= 3;
    // Records run bottom to top: a bounding divider opens a group, an open or
    // closed folder record ends it.
    if kind == 0 {
        Ok((structural, depth, kind))
    } else if kind == 3 {
        if depth < MAX_GROUP_DEPTH {
            Ok((structural, depth + 1, kind))
        } else {
            Err(limited("PSD 组嵌套超过 64 层"))
        }
    } else if kind == 1 || kind == 2 {
        if depth > 0 {
            Ok((structural, depth - 1, kind))
        } else {
            Err(invalid("PSD 组结束记录没有对应边界"))
        }
    } else {
        Err(invalid("PSD 组分隔类型无效"))
    }
}

/// Checks the tagged blocks of one layer record and tracks group nesting.
/// Gives whether the record is a group record; the depth is updated as the
/// reference reader `sp_additional` states, also on failure.
pub fn additional_info(mut input: Cursor, group_depth: &mut u32) -> (r: Result<bool, PsdError>)
    ensures
        match sp_additional(input@, false, false, *old(group_depth), no_tags()) {
            (Ok((structural, _)), d) => r == Ok::<bool, PsdError>(structural) && *final(group_depth)
                == d,
            (Err(c), d) => r matches Err(e) && e.code == c && *final(group_depth) == d,
        },
{
    match tagged_blocks(&mut input, group_depth) {
        Ok((structural, _)) => Ok(structural),
        Err(e) => Err(e),
    }
}

fn tagged_blocks(input: &mut Cursor, group_depth: &mut u32) -> (r: Result<(bool, TagFacts), PsdError>)
    ensures
        match sp_additional(old(input)@, false, false, *old(group_depth), no_tags()) {
            (Ok((structural, t)), d) => r matches Ok((b, tf)) && b == structural && tf@ == t
                && *final(group_depth) == d,
            (Err(c), d) => r matches Err(e) && e.code == c && *final(group_depth) == d,
        },
{
    let mut seen_group = false;
    let mut structural = false;
    let mut tags = TagFacts { keys: Vec::new(), source_id: None, kind: None };
    assert(tags@ =~= no_tags());
    while !input.is_empty()
        invariant
            sp_additional(old(input)@, false, false, *old(group_depth), no_tags()) == sp_additional(
                input@,
                seen_group,
                structural,
                *group_depth,
                tags@,
            ),
        decreases input@.len(),
    {
        let ghost before = input@;
        tag(input, &mut seen_group, &mut structural, group_depth, &mut tags)?;
        assert(input@.len() < before.len());
    }
    Ok((structural, tags))
}

/// One tagged block: `8BIM`, a key, a length-prefixed body and its padding.
fn tag(
    input: &mut Cursor,
    seen_group: &mut bool,
    structural: &mut bool,
    group_depth: &mut u32,
    tags: &mut TagFacts,
) -> (r: Result<(), PsdError>)
    ensures
        match sp_tag(
            old(input)@,
            *old(seen_group),
            *old(structural),
            *old(group_depth),
            old(tags)@,
        ) {
            (Ok((seen2, structural2, t2, rest)), d) => r is Ok && final(input)@ == rest
                && *final(seen_group) == seen2 && *final(structural) == structural2
                && final(tags)@ == t2 && *final(group_depth) == d,
            (Err(c), d) => r matches Err(e) && e.code == c && *final(group_depth) == d,
        },
        r is Ok ==> final(input)@.len() < old(input)@.len(),
{
    proof {
        reveal(sp_tag);
    }
    input.signature(0x38, 0x42, 0x49, 0x4d)?;
    let key = input.take(4)?;
    let data = input.section()?;
    let length = data.len();
    let ghost body = data@;
    let mut source_id = tags.source_id;
    let mut kind = tags.kind;
    if key_is(key, 0x6c, 0x79, 0x69, 0x64) {
        if length != 4 {
            return Err(invalid("lyid 长度必须为 4 字节"));
        }
        let mut id_data = data;
        source_id = Some(id_data.u32()?);
    } else if key_is(key, 0x6c, 0x75, 0x6e, 0x69) {
        unicode_name(data)?;
    } else if key_is(key, 0x6c, 0x73, 0x63, 0x74) || key_is(key, 0x6c, 0x73, 0x64, 0x6b) {
        if *seen_group || !(length == 4 || length == 12 || length == 16) {
            return Err(invalid("组分隔标签重复或长度无效"));
        }
        let (kind_structural, depth, divider_kind) = divider(data, *group_depth)?;
        *seen_group = true;
        *structural = kind_structural;
        *group_depth = depth;
        kind = Some(divider_kind);
    } else {
        return Err(unsupported("本轮仅允许 lyid、luni、lsct 和 lsdk 图层标签"));
    }
    input.padding(length % 2)?;
    let ghost keys0 = tags.keys@;
    tags.keys.push(key_array(key));
    tags.source_id = source_id;
    tags.kind = kind;
    proof {
        assert(tags@.keys =~= old(tags)@.keys.push(key@));
        assert(tags@ =~= tag_update(old(tags)@, key@, body));
    }
    Ok(())
}

/// Checks the layer and mask section; gives whether the record count marks
/// merged transparency, and what was kept of each layer record.
fn layer_and_mask(mut section: Cursor, pixels: &mut u64, limits: ParseLimits) -> (r: Result<
    (bool, Vec<RecordFacts>),
    PsdError,
>)
    ensures
        match sp_layer_and_mask(section@, *old(pixels), limits) {
            (Ok((g, records)), p) => r matches Ok((rg, v)) && rg == g && records_match(v@, records)
                && *final(pixels) == p,
            (Err(c), p) => r matches Err(e) && e.code == c && *final(pixels) == p,
        },
{
    proof {
        reveal(sp_layer_and_mask);
        reveal(sp_after_layer_info);
    }
    if section.is_empty() {
        return Ok((false, Vec::new()));
    }
    let mut info = section.section()?;
    let mut global_alpha = false;
    let mut layers: Vec<RecordFacts> = Vec::new();
    if !info.is_empty() {
        let (alpha, records) = layer_info(&mut info, pixels, limits)?;
        global_alpha = alpha;
        layers = records;
    }
    let mask = section.section()?;
    if !mask.is_empty() {
        return Err(unsupported("本轮不支持全局图层蒙版"));
    }
    if !section.is_empty() {
        return Err(unsupported("本轮不支持文档级附加图层信息"));
    }
    Ok((global_alpha, layers))
}

fn layer_info(info: &mut Cursor, pixels: &mut u64, limits: ParseLimits) -> (r: Result<
    (bool, Vec<RecordFacts>),
    PsdError,
>)
    requires
        old(info)@.len() > 0,
    ensures
        match sp_layer_info(old(info)@, *old(pixels), limits) {
            (Ok(records), p) => r matches Ok((g, v)) && g == (be16(old(info)@[0], old(info)@[1])
                >= 0x8000) && records_match(v@, records) && *final(pixels) == p,
            (Err(c), p) => r matches Err(e) && e.code == c && *final(pixels) == p,
        },
{
    proof {
        reveal(sp_layer_info);
    }
    let raw = info.u16()?;
    let global_alpha = raw >= 0x8000;
    let count: u32 = if raw >= 0x8000 {
        0x1_0000 - raw as u32
    } else {
        raw as u32
    };
    if count > limits.max_layers {
        return Err(limited("PSD 图层记录数量超过预算"));
    }
    let mut depth: u32 = 0;
    let (jobs, records) = layer_records(info, count, pixels, limits, &mut depth)?;
    if depth != 0 {
        return Err(invalid("PSD 组边界没有配对"));
    }
    channel_data(info, &jobs)?;
    if info.len() > 1 {
        return Err(invalid("PSD 图层信息区包含未声明的数据"));
    }
    let n = info.len();
    info.padding(n)?;
    Ok((global_alpha, records))
}

/// Reads `count` layer records. Every record is checked completely before its
/// channel jobs and facts are kept; nothing is preallocated from a declared
/// length.
fn layer_records(
    info: &mut Cursor,
    count: u32,
    pixels: &mut u64,
    limits: ParseLimits,
    depth: &mut u32,
) -> (r: Result<(Vec<(u32, u32, u32)>, Vec<RecordFacts>), PsdError>)
    ensures
        match sp_records(old(info)@, count as nat, *old(pixels), *old(depth), limits, seq![], seq![]) {
            (Ok((jobs, records, rest)), p, d) => r matches Ok((v, f)) && v@ == jobs && records_match(
                f@,
                records,
            ) && final(info)@ == rest && *final(pixels) == p && *final(depth) == d,
            (Err(c), p, d) => r matches Err(e) && e.code == c && *final(pixels) == p
                && *final(depth) == d,
        },
        r matches Ok((v, _)) ==> forall|j: int|
            0 <= j < v@.len() ==> #[trigger] v@[j].1 <= MAX_DIMENSION && v@[j].2
                <= MAX_DIMENSION,
{
    let mut jobs: Vec<(u32, u32, u32)> = Vec::new();
    let mut facts: Vec<RecordFacts> = Vec::new();
    let ghost mut kept: Seq<RecordSpec> = seq![];
    let mut k: u32 = 0;
    assert(jobs@ =~= Seq::<(u32, u32, u32)>::empty());
    while k < count
        invariant
            k <= count,
            facts@.len() == k,
            records_match(facts@, kept),
            sp_records(old(info)@, count as nat, *old(pixels), *old(depth), limits, seq![], seq![])
                == sp_records(info@, (count - k) as nat, *pixels, *depth, limits, jobs@, kept),
            forall|j: int|
                0 <= j < jobs@.len() ==> #[trigger] jobs@[j].1 <= MAX_DIMENSION && jobs@[j].2
                    <= MAX_DIMENSION,
        decreases count - k,
    {
        let ghost before = info@;
        let ghost p0 = *pixels;
        let ghost d0 = *depth;
        let (layout, record) = read_record(info, pixels, limits, depth, k)?;
        proof {
            match sp_layer_record(before, p0, d0, limits) {
                (Ok((_, _, _, rec, _)), _, _) => {
                    kept = kept.push(rec);
                },
                _ => {},
            }
        }
        facts.push(record);
        let ghost jobs_before = jobs@;
        let mut c: usize = 0;
        while c < layout.channel_lengths.len()
            invariant
                c <= layout.channel_lengths@.len(),
                layout.width <= MAX_DIMENSION,
                layout.height <= MAX_DIMENSION,
                jobs@ == jobs_before + channel_jobs(
                    layout.channel_lengths@.take(c as int),
                    layout.width,
                    layout.height,
                ),
                forall|j: int|
                    0 <= j < jobs@.len() ==> #[trigger] jobs@[j].1 <= MAX_DIMENSION && jobs@[j].2
                        <= MAX_DIMENSION,
            decreases layout.channel_lengths@.len() - c,
        {
            jobs.push((layout.channel_lengths[c], layout.width, layout.height));
            c = c + 1;
            assert(jobs@ =~= jobs_before + channel_jobs(
                layout.channel_lengths@.take(c as int),
                layout.width,
                layout.height,
            ));
        }
        assert(layout.channel_lengths@.take(c as int) =~= layout.channel_lengths@);
        k = k + 1;
    }
    Ok((jobs, facts))
}

/// Checks one pixel plane per job, in order, each filling its declared length.
fn channel_data(info: &mut Cursor, jobs: &Vec<(u32, u32, u32)>) -> (r: Result<(), PsdError>)
    requires
        forall|j: int|
            0 <= j < jobs@.len() ==> #[trigger] jobs@[j].1 <= MAX_DIMENSION && jobs@[j].2
                <= MAX_DIMENSION,
    ensures
        match sp_channel_data(old(info)@, jobs@) {
            Ok(rest) => r is Ok && final(info)@ == rest,
            Err(c) => r matches Err(e) && e.code == c,
        },
{
    let mut j: usize = 0;
    assert(jobs@.skip(0) =~= jobs@);
    while j < jobs.len()
        invariant
            j <= jobs@.len(),
            sp_channel_data(old(info)@, jobs@) == sp_channel_data(info@, jobs@.skip(j as int)),
            forall|i: int|
                0 <= i < jobs@.len() ==> #[trigger] jobs@[i].1 <= MAX_DIMENSION && jobs@[i].2
                    <= MAX_DIMENSION,
        decreases jobs@.len() - j,
    {
        let (length, width, height) = jobs[j];
        assert(jobs@.skip(j as int)[0] == jobs@[j as int]);
        assert(jobs@.skip(j as int).drop_first() =~= jobs@.skip(j + 1));
        let plane = info.take(length as usize)?;
        let mut channel = Cursor::new(plane);
        image_data(&mut channel, width, height, 1)?;
        j = j + 1;
    }
    Ok(())
}

} // verus!
