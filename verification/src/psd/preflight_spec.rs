//! The accepted PSD v1 subset, written as a reference reader over byte
//! sequences. Every reader step takes the unread bytes and gives back either
//! the value it read with the bytes that follow, or the error class that the
//! executable check reports for that input.

use vstd::prelude::*;

use super::error::PsdErrorCode;
use super::model::ParseLimits;

verus! {

/// Longest accepted canvas or layer edge, in pixels.
pub const MAX_DIMENSION: u32 = 30_000;

/// Deepest accepted nesting of layer groups.
pub const MAX_GROUP_DEPTH: u32 = 64;

/// What the tagged blocks of one layer record name: their keys in file order,
/// the `lyid` layer id and the group divider kind, where present.
#[verifier::ext_equal]
pub struct TagSpec {
    pub keys: Seq<Seq<u8>>,
    pub source_id: Option<u32>,
    pub kind: Option<u32>,
}

/// What the reader keeps of one accepted layer record: its rectangle (left,
/// top, width, height), whether all three colour channels are present, blend
/// key, clipping byte, flags byte and tagged blocks.
#[verifier::ext_equal]
pub struct RecordSpec {
    pub x: int,
    pub y: int,
    pub width: u32,
    pub height: u32,
    pub has_rgb: bool,
    pub blend: Seq<u8>,
    pub clipping: u8,
    pub flags: u8,
    pub tags: TagSpec,
}

/// What the reader reports of an accepted file: `total_pixels` is the canvas
/// area plus all layer areas, `layers` in file order.
pub struct HeaderSpec {
    pub width: u32,
    pub height: u32,
    pub has_composite: bool,
    pub global_alpha: bool,
    pub total_pixels: u64,
    pub layers: Seq<RecordSpec>,
}

/// Big-endian 16-bit value of two bytes.
pub open spec fn be16(b0: u8, b1: u8) -> u16 {
    (b0 as int * 256 + b1 as int) as u16
}

/// Big-endian 32-bit value of four bytes.
pub open spec fn be32(b0: u8, b1: u8, b2: u8, b3: u8) -> u32 {
    (b0 as int * 16777216 + b1 as int * 65536 + b2 as int * 256 + b3 as int) as u32
}

/// Two's-complement reading of a 32-bit word.
pub open spec fn signed32(v: u32) -> int {
    if v >= 0x8000_0000 {
        v - 0x1_0000_0000
    } else {
        v as int
    }
}

/// Two's-complement reading of a 16-bit word.
pub open spec fn signed16(v: u16) -> int {
    if v >= 0x8000 {
        v - 0x1_0000
    } else {
        v as int
    }
}

pub open spec fn sp_take(s: Seq<u8>, n: int) -> Result<(Seq<u8>, Seq<u8>), PsdErrorCode> {
    if 0 <= n <= s.len() {
        Ok((s.take(n), s.skip(n)))
    } else {
        Err(PsdErrorCode::InvalidInput)
    }
}

pub open spec fn sp_u8(s: Seq<u8>) -> Result<(u8, Seq<u8>), PsdErrorCode> {
    if 1 <= s.len() {
        Ok((s[0], s.skip(1)))
    } else {
        Err(PsdErrorCode::InvalidInput)
    }
}

pub open spec fn sp_u16(s: Seq<u8>) -> Result<(u16, Seq<u8>), PsdErrorCode> {
    if 2 <= s.len() {
        Ok((be16(s[0], s[1]), s.skip(2)))
    } else {
        Err(PsdErrorCode::InvalidInput)
    }
}

pub open spec fn sp_u32(s: Seq<u8>) -> Result<(u32, Seq<u8>), PsdErrorCode> {
    if 4 <= s.len() {
        Ok((be32(s[0], s[1], s[2], s[3]), s.skip(4)))
    } else {
        Err(PsdErrorCode::InvalidInput)
    }
}

/// A section: a 32-bit length followed by that many bytes.
pub open spec fn sp_section(s: Seq<u8>) -> Result<(Seq<u8>, Seq<u8>), PsdErrorCode> {
    match sp_u32(s) {
        Err(e) => Err(e),
        Ok((n, r)) => sp_take(r, n as int),
    }
}

/// Four bytes that must equal `sig`.
pub open spec fn sp_signature(s: Seq<u8>, sig: Seq<u8>) -> Result<Seq<u8>, PsdErrorCode> {
    match sp_take(s, 4) {
        Err(e) => Err(e),
        Ok((head, rest)) => if head == sig {
            Ok(rest)
        } else {
            Err(PsdErrorCode::InvalidInput)
        },
    }
}

pub open spec fn all_zero(s: Seq<u8>) -> bool {
    forall|i: int| 0 <= i < s.len() ==> s[i] == 0
}

/// `n` alignment bytes that must all be zero.
pub open spec fn sp_padding(s: Seq<u8>, n: int) -> Result<Seq<u8>, PsdErrorCode> {
    match sp_take(s, n) {
        Err(e) => Err(e),
        Ok((head, rest)) => if all_zero(head) {
            Ok(rest)
        } else {
            Err(PsdErrorCode::InvalidInput)
        },
    }
}

pub open spec fn pascal_pad(length: int, alignment: int) -> int {
    (alignment - (length + 1) % alignment) % alignment
}

/// A Pascal string padded so that length byte and text fill whole `alignment` units.
pub open spec fn sp_pascal_name(s: Seq<u8>, alignment: int) -> Result<Seq<u8>, PsdErrorCode> {
    match sp_u8(s) {
        Err(e) => Err(e),
        Ok((length, r)) => match sp_take(r, length as int) {
            Err(e) => Err(e),
            Ok((_, r2)) => sp_padding(r2, pascal_pad(length as int, alignment)),
        },
    }
}

pub open spec fn sig_8bps() -> Seq<u8> {
    seq![0x38u8, 0x42u8, 0x50u8, 0x53u8]
}

pub open spec fn sig_8bim() -> Seq<u8> {
    seq![0x38u8, 0x42u8, 0x49u8, 0x4du8]
}

/// The blend keys accepted on layers and group dividers: `norm` and `pass`.
pub open spec fn accepted_blend(key: Seq<u8>) -> bool {
    key == seq![0x6eu8, 0x6fu8, 0x72u8, 0x6du8] || key == seq![0x70u8, 0x61u8, 0x73u8, 0x73u8]
}

pub open spec fn sp_blend_mode(s: Seq<u8>) -> Result<Seq<u8>, PsdErrorCode> {
    match sp_take(s, 4) {
        Err(e) => Err(e),
        Ok((key, rest)) => if accepted_blend(key) {
            Ok(rest)
        } else {
            Err(PsdErrorCode::Unsupported)
        },
    }
}

/// Body of one image resource block: ResolutionInfo (1005) of 16 bytes with
/// positive horizontal and vertical resolution is the only accepted resource.
pub open spec fn sp_resource_data(id: u16, data: Seq<u8>) -> Result<(), PsdErrorCode> {
    if id == 1005 {
        if data.len() == 16 {
            let horizontal = be32(data[0], data[1], data[2], data[3]);
            let vertical = be32(data[8], data[9], data[10], data[11]);
            if signed32(horizontal) <= 0 || signed32(vertical) <= 0 {
                Err(PsdErrorCode::InvalidInput)
            } else {
                Ok(())
            }
        } else {
            Err(PsdErrorCode::InvalidInput)
        }
    } else {
        Err(PsdErrorCode::Unsupported)
    }
}

/// One image resource block; gives the bytes after it.
#[verifier::opaque]
pub open spec fn sp_resource(s: Seq<u8>) -> Result<Seq<u8>, PsdErrorCode> {
    match sp_signature(s, sig_8bim()) {
        Err(e) => Err(e),
        Ok(r1) => match sp_u16(r1) {
            Err(e) => Err(e),
            Ok((id, r2)) => match sp_pascal_name(r2, 2) {
                Err(e) => Err(e),
                Ok(r3) => match sp_section(r3) {
                    Err(e) => Err(e),
                    Ok((data, r4)) => match sp_resource_data(id, data) {
                        Err(e) => Err(e),
                        Ok(_) => sp_padding(r4, (data.len() % 2) as int),
                    },
                },
            },
        },
    }
}

/// All image resource blocks of the resource section.
pub open spec fn sp_resources(s: Seq<u8>) -> Result<(), PsdErrorCode>
    decreases s.len(),
{
    if s.len() == 0 {
        Ok(())
    } else {
        match sp_resource(s) {
            Err(e) => Err(e),
            Ok(rest) => if rest.len() < s.len() {
                sp_resources(rest)
            } else {
                Err(PsdErrorCode::InvalidInput)
            },
        }
    }
}

/// PackBits row: the decoded count so far is `decoded`; the row must decode to exactly `width`.
pub open spec fn packbits_count(marker: u8) -> int {
    if marker < 128 {
        marker as int + 1
    } else if marker == 128 {
        0
    } else {
        257 - marker as int
    }
}

pub open spec fn packbits_literal(marker: u8) -> int {
    if marker < 128 {
        marker as int + 1
    } else if marker == 128 {
        0
    } else {
        1
    }
}

pub open spec fn sp_packbits(s: Seq<u8>, width: u32, decoded: int) -> Result<(), PsdErrorCode>
    decreases s.len(),
{
    if s.len() == 0 {
        if decoded == width {
            Ok(())
        } else {
            Err(PsdErrorCode::InvalidInput)
        }
    } else {
        let marker = s[0];
        let rest = s.skip(1);
        match sp_take(rest, packbits_literal(marker)) {
            Err(e) => Err(e),
            Ok((_, rest2)) => {
                let total = decoded + packbits_count(marker);
                if total > width {
                    Err(PsdErrorCode::InvalidInput)
                } else {
                    sp_packbits(rest2, width, total)
                }
            },
        }
    }
}

/// `rows` RLE rows: their byte counts come from `table`, their data from `s`.
pub open spec fn sp_rle_rows(table: Seq<u8>, s: Seq<u8>, rows: nat, width: u32) -> Result<
    (),
    PsdErrorCode,
>
    decreases rows,
{
    if rows == 0 {
        if s.len() == 0 {
            Ok(())
        } else {
            Err(PsdErrorCode::InvalidInput)
        }
    } else {
        match sp_u16(table) {
            Err(e) => Err(e),
            Ok((size, table2)) => match sp_take(s, size as int) {
                Err(e) => Err(e),
                Ok((row, s2)) => match sp_packbits(row, width, 0) {
                    Err(e) => Err(e),
                    Ok(_) => sp_rle_rows(table2, s2, (rows - 1) as nat, width),
                },
            },
        }
    }
}

/// Pixel data of `channels` planes of `width` x `height`, RAW or RLE, filling `s` exactly.
#[verifier::opaque]
pub open spec fn sp_image_data(s: Seq<u8>, width: u32, height: u32, channels: u16) -> Result<
    (),
    PsdErrorCode,
> {
    match sp_u16(s) {
        Err(e) => Err(e),
        Ok((compression, r)) => if compression == 0 {
            if r.len() == width as int * height as int * channels as int {
                Ok(())
            } else {
                Err(PsdErrorCode::InvalidInput)
            }
        } else if compression == 1 {
            let rows = height as nat * channels as nat;
            match sp_take(r, 2 * rows as int) {
                Err(e) => Err(e),
                Ok((table, r2)) => sp_rle_rows(table, r2, rows, width),
            }
        } else {
            Err(PsdErrorCode::Unsupported)
        },
    }
}

/// The byte length of row `k` in an RLE row table.
pub open spec fn row_length(table: Seq<u8>, k: int) -> int {
    be16(table[2 * k], table[2 * k + 1]) as int
}

/// Where row `k` starts in the RLE data: the lengths of the rows before it.
pub open spec fn row_start(table: Seq<u8>, k: nat) -> int
    decreases k,
{
    if k == 0 {
        0
    } else {
        row_start(table, (k - 1) as nat) + row_length(table, k - 1)
    }
}

/// Whether row `k` of the RLE data `data` decodes to exactly `width` bytes.
pub open spec fn row_decodes(table: Seq<u8>, data: Seq<u8>, k: int, width: u32) -> bool {
    sp_packbits(
        data.subrange(row_start(table, k as nat), row_start(table, k as nat) + row_length(table, k)),
        width,
        0,
    ) is Ok
}

/// Row starts grow by each row's length.
proof fn lemma_row_start_grows(table: Seq<u8>, a: nat, b: nat)
    requires
        a <= b,
    ensures
        row_start(table, a) <= row_start(table, b),
    decreases b,
{
    if a < b {
        lemma_row_start_grows(table, a, (b - 1) as nat);
    }
}

/// Row starts read after the first table entry: shifted by the first row.
proof fn lemma_row_start_shift(table: Seq<u8>, k: nat)
    requires
        table.len() >= 2 * k + 2,
    ensures
        row_start(table, k + 1) == row_length(table, 0) + row_start(table.skip(2), k),
    decreases k,
{
    assert(row_start(table, k + 1) == row_start(table, k) + row_length(table, k as int));
    if k == 0 {
        assert(row_start(table, 0) == 0);
        assert(row_start(table.skip(2), 0) == 0);
    } else {
        assert(row_start(table.skip(2), k) == row_start(table.skip(2), (k - 1) as nat) + row_length(
            table.skip(2),
            k - 1,
        ));
        lemma_row_start_shift(table, (k - 1) as nat);
        assert(row_length(table.skip(2), k - 1) == row_length(table, k as int)) by {
            assert(table.skip(2)[2 * (k - 1)] == table[2 * (k as int)]);
            assert(table.skip(2)[2 * (k - 1) + 1] == table[2 * (k as int) + 1]);
        }
    }
}

/// `rows` RLE rows with a table of exactly `rows` entries: the data is the
/// rows back to back, and each row decodes to `width` bytes.
proof fn lemma_rle_rows(table: Seq<u8>, data: Seq<u8>, rows: nat, width: u32)
    requires
        table.len() == 2 * rows,
    ensures
        sp_rle_rows(table, data, rows, width) is Ok <==> (data.len() == row_start(table, rows)
            && forall|k: int| 0 <= k < rows ==> #[trigger] row_decodes(table, data, k, width)),
    decreases rows,
{
    if rows > 0 {
        let size = row_length(table, 0);
        let t2 = table.skip(2);
        assert(sp_u16(table) == Ok::<(u16, Seq<u8>), PsdErrorCode>((be16(table[0], table[1]), t2)));
        lemma_row_start_shift(table, (rows - 1) as nat);
        assert(row_start(table, 1) == size) by {
            assert(row_start(table, 0) == 0);
        }
        if size <= data.len() {
            let s2 = data.skip(size);
            lemma_rle_rows(t2, s2, (rows - 1) as nat, width);
            assert forall|k: int| 1 <= k < rows && data.len() == row_start(table, rows) implies (
            #[trigger] row_decodes(table, data, k, width) == row_decodes(t2, s2, k - 1, width)) by {
                lemma_row_start_shift(table, (k - 1) as nat);
                lemma_row_start_shift(table, k as nat);
                assert(row_length(t2, k - 1) == row_length(table, k)) by {
                    assert(t2[2 * (k - 1)] == table[2 * k]);
                    assert(t2[2 * (k - 1) + 1] == table[2 * k + 1]);
                }
                lemma_row_start_grows(t2, 0, (k - 1) as nat);
                lemma_row_start_grows(t2, k as nat, (rows - 1) as nat);
                assert(data.subrange(row_start(table, k as nat), row_start(table, k as nat)
                    + row_length(table, k)) =~= s2.subrange(row_start(t2, (k - 1) as nat),
                    row_start(t2, (k - 1) as nat) + row_length(t2, k - 1)));
            }
            assert(row_decodes(table, data, 0, width) == (sp_packbits(data.take(size), width, 0) is Ok)) by {
                assert(data.subrange(0, size) =~= data.take(size));
            }
            if sp_rle_rows(table, data, rows, width) is Ok {
                assert forall|k: int| 0 <= k < rows implies #[trigger] row_decodes(table, data, k, width) by {
                    if k >= 1 {
                        assert(row_decodes(t2, s2, k - 1, width));
                    }
                }
            }
            if data.len() == row_start(table, rows) && forall|k: int|
                0 <= k < rows ==> #[trigger] row_decodes(table, data, k, width) {
                assert forall|k: int| 0 <= k < rows - 1 implies #[trigger] row_decodes(t2, s2, k, width) by {
                    assert(row_decodes(table, data, k + 1, width));
                }
                assert(row_decodes(table, data, 0, width));
            }
        } else {
            lemma_row_start_grows(t2, 0, (rows - 1) as nat);
        }
    }
}

/// A single-channel plane is checked against the layer's own rectangle of
/// `width` x `height`: a RAW plane holds exactly `width * height` bytes after
/// its compression word; an RLE plane holds one row length per row of the
/// height, then the rows back to back, each decoding to exactly `width` bytes;
/// any other compression is unsupported.
pub proof fn plane_fits_its_rectangle(plane: Seq<u8>, width: u32, height: u32)
    requires
        plane.len() >= 2,
    ensures
        be16(plane[0], plane[1]) == 0 ==> (sp_image_data(plane, width, height, 1) is Ok
            <==> plane.len() == 2 + width * height),
        be16(plane[0], plane[1]) == 1 ==> (sp_image_data(plane, width, height, 1) is Ok <==> ({
            let table = plane.subrange(2, 2 + 2 * height);
            let data = plane.skip(2 + 2 * height);
            &&& plane.len() >= 2 + 2 * height
            &&& plane.len() == 2 + 2 * height + row_start(table, height as nat)
            &&& forall|k: int| 0 <= k < height ==> #[trigger] row_decodes(table, data, k, width)
        })),
        be16(plane[0], plane[1]) > 1 ==> sp_image_data(plane, width, height, 1) == Err::<
            (),
            PsdErrorCode,
        >(PsdErrorCode::Unsupported),
{
    reveal(sp_image_data);
    let r = plane.skip(2);
    assert(sp_u16(plane) == Ok::<(u16, Seq<u8>), PsdErrorCode>((be16(plane[0], plane[1]), r)));
    if be16(plane[0], plane[1]) == 1 && plane.len() >= 2 + 2 * height {
        let rows = height as nat * 1nat;
        assert(rows == height);
        let table = plane.subrange(2, 2 + 2 * height);
        let data = plane.skip(2 + 2 * height);
        assert(r.take(2 * height) =~= table);
        assert(r.skip(2 * height) =~= data);
        lemma_rle_rows(table, data, height as nat, width);
    }
}

/// The channel data of the records is read one plane per job, in order, and
/// each plane is checked against its own job's `(length, width, height)`:
/// the layer's rectangle, not another's and not its transpose.
pub proof fn channel_planes_follow_their_jobs(s: Seq<u8>, jobs: Seq<(u32, u32, u32)>)
    requires
        jobs.len() >= 1,
    ensures
        sp_channel_data(s, jobs) is Ok <==> ({
            let (length, width, height) = jobs[0];
            &&& length <= s.len()
            &&& sp_image_data(s.take(length as int), width, height, 1) is Ok
            &&& sp_channel_data(s.skip(length as int), jobs.drop_first()) is Ok
        }),
        sp_channel_data(s, seq![jobs[0]]) is Ok <==> (jobs[0].0 <= s.len() && sp_image_data(
            s.take(jobs[0].0 as int),
            jobs[0].1,
            jobs[0].2,
            1,
        ) is Ok),
{
    let one = seq![jobs[0]];
    assert(one[0] == jobs[0]);
    assert(one.drop_first() =~= Seq::<(u32, u32, u32)>::empty());
    assert(sp_channel_data(s.skip(jobs[0].0 as int), Seq::<(u32, u32, u32)>::empty()) is Ok);
}

/// The jobs of a record's channels carry the record's rectangle: its width
/// is right minus left and its height bottom minus top.
pub proof fn jobs_carry_the_rectangle(s: Seq<u8>, lengths: Seq<u32>)
    ensures
        sp_rect(s) matches Ok((width, height, left, top, _)) ==> {
            &&& top == signed32(be32(s[0], s[1], s[2], s[3]))
            &&& left == signed32(be32(s[4], s[5], s[6], s[7]))
            &&& width == signed32(be32(s[12], s[13], s[14], s[15])) - left
            &&& height == signed32(be32(s[8], s[9], s[10], s[11])) - top
            &&& forall|i: int|
                0 <= i < lengths.len() ==> #[trigger] channel_jobs(lengths, width, height)[i] == (
                    lengths[i],
                    width,
                    height,
                )
        },
{
    reveal(sp_rect);
    if s.len() >= 16 {
        assert(s.skip(4)[0] == s[4] && s.skip(4)[3] == s[7]);
        assert(s.skip(4).skip(4)[0] == s[8] && s.skip(4).skip(4)[3] == s[11]);
        assert(s.skip(4).skip(4).skip(4)[0] == s[12] && s.skip(4).skip(4).skip(4)[3] == s[15]);
        assert(s.skip(4)[1] == s[5] && s.skip(4)[2] == s[6]);
        assert(s.skip(4).skip(4)[1] == s[9] && s.skip(4).skip(4)[2] == s[10]);
        assert(s.skip(4).skip(4).skip(4)[1] == s[13] && s.skip(4).skip(4).skip(4)[2] == s[14]);
    }
}

/// Adds an area to the running pixel total within the budget.
pub open spec fn sp_add_pixels(total: u64, width: u32, height: u32, limits: ParseLimits) -> Result<
    u64,
    PsdErrorCode,
> {
    let sum = total as int + width as int * height as int;
    if sum <= limits.max_total_pixels {
        Ok(sum as u64)
    } else {
        Err(PsdErrorCode::ResourceLimit)
    }
}

/// The layer rectangle (top, left, bottom, right) as signed words: width,
/// height, left and top.
#[verifier::opaque]
pub open spec fn sp_rect(s: Seq<u8>) -> Result<(u32, u32, int, int, Seq<u8>), PsdErrorCode> {
    match sp_u32(s) {
        Err(e) => Err(e),
        Ok((top, r1)) => match sp_u32(r1) {
            Err(e) => Err(e),
            Ok((left, r2)) => match sp_u32(r2) {
                Err(e) => Err(e),
                Ok((bottom, r3)) => match sp_u32(r3) {
                    Err(e) => Err(e),
                    Ok((right, r4)) => {
                        let width = signed32(right) - signed32(left);
                        let height = signed32(bottom) - signed32(top);
                        if width < 0 {
                            Err(PsdErrorCode::InvalidInput)
                        } else if height < 0 {
                            Err(PsdErrorCode::InvalidInput)
                        } else if width > MAX_DIMENSION || height > MAX_DIMENSION {
                            Err(PsdErrorCode::Unsupported)
                        } else {
                            Ok((width as u32, height as u32, signed32(left), signed32(top), r4))
                        }
                    },
                },
            },
        },
    }
}

/// Channel ids -1 (alpha) to 2 (blue) each at most once; `seen[id + 1]` marks
/// the ids read so far and `lengths` their data lengths.
pub open spec fn sp_channels(s: Seq<u8>, count: nat, seen: Seq<bool>, lengths: Seq<u32>) -> Result<
    (Seq<bool>, Seq<u32>, Seq<u8>),
    PsdErrorCode,
>
    decreases count,
{
    if count == 0 {
        Ok((seen, lengths, s))
    } else {
        match sp_u16(s) {
            Err(e) => Err(e),
            Ok((raw, r1)) => {
                let id = signed16(raw);
                if !(-1 <= id <= 2) {
                    Err(PsdErrorCode::Unsupported)
                } else if seen[id + 1] {
                    Err(PsdErrorCode::InvalidInput)
                } else {
                    match sp_u32(r1) {
                        Err(e) => Err(e),
                        Ok((length, r2)) => sp_channels(
                            r2,
                            (count - 1) as nat,
                            seen.update(id + 1, true),
                            lengths.push(length),
                        ),
                    }
                }
            },
        }
    }
}

/// Default blending ranges: 8-byte pairs, each 4-byte half `0 0 255 255`.
pub open spec fn default_ranges(r: Seq<u8>) -> bool {
    &&& r.len() <= 40
    &&& r.len() % 8 == 0
    &&& forall|i: int|
        0 <= i < r.len() ==> #[trigger] r[i] == (if i % 4 < 2 {
            0u8
        } else {
            255u8
        })
}

/// Group divider body (`lsct`/`lsdk`): its kind and the new group depth.
#[verifier::opaque]
pub open spec fn sp_divider(data: Seq<u8>, depth: u32) -> Result<(bool, u32), PsdErrorCode> {
    let length = data.len();
    match sp_u32(data) {
        Err(e) => Err(e),
        Ok((kind, d1)) => {
            let with_blend: Result<Seq<u8>, PsdErrorCode> = if length >= 12 {
                match sp_signature(d1, sig_8bim()) {
                    Err(e) => Err(e),
                    Ok(d2) => sp_blend_mode(d2),
                }
            } else {
                Ok(d1)
            };
            match with_blend {
                Err(e) => Err(e),
                Ok(d3) => {
                    let subtype: Result<bool, PsdErrorCode> = if length == 16 {
                        match sp_u32(d3) {
                            Err(e) => Err(e),
                            Ok((sub, _)) => Ok(sub > 1),
                        }
                    } else {
                        Ok(false)
                    };
                    match subtype {
                        Err(e) => Err(e),
                        Ok(true) => Err(PsdErrorCode::Unsupported),
                        Ok(false) => {
                            let structural = 1 <= kind <= 3;
                            if kind == 0 {
                                Ok((structural, depth))
                            } else if kind == 3 {
                                if depth < MAX_GROUP_DEPTH {
                                    Ok((structural, (depth + 1) as u32))
                                } else {
                                    Err(PsdErrorCode::ResourceLimit)
                                }
                            } else if kind == 1 || kind == 2 {
                                if depth > 0 {
                                    Ok((structural, (depth - 1) as u32))
                                } else {
                                    Err(PsdErrorCode::InvalidInput)
                                }
                            } else {
                                Err(PsdErrorCode::InvalidInput)
                            }
                        },
                    }
                },
            }
        },
    }
}

pub open spec fn key_lyid() -> Seq<u8> {
    seq![0x6cu8, 0x79u8, 0x69u8, 0x64u8]
}

pub open spec fn key_luni() -> Seq<u8> {
    seq![0x6cu8, 0x75u8, 0x6eu8, 0x69u8]
}

pub open spec fn key_lsct() -> Seq<u8> {
    seq![0x6cu8, 0x73u8, 0x63u8, 0x74u8]
}

pub open spec fn key_lsdk() -> Seq<u8> {
    seq![0x6cu8, 0x73u8, 0x64u8, 0x6bu8]
}

/// Unicode layer name (`luni`): a count of UTF-16 units, the units, and at most
/// three zero bytes of padding.
#[verifier::opaque]
pub open spec fn sp_unicode_name(data: Seq<u8>) -> Result<(), PsdErrorCode> {
    match sp_u32(data) {
        Err(e) => Err(e),
        Ok((count, d1)) => if count as int * 2 > usize::MAX {
            Err(PsdErrorCode::InvalidInput)
        } else {
            match sp_take(d1, count as int * 2) {
                Err(e) => Err(e),
                Ok((_, d2)) => if d2.len() > 3 {
                    Err(PsdErrorCode::InvalidInput)
                } else {
                    match sp_padding(d2, d2.len() as int) {
                        Err(e) => Err(e),
                        Ok(_) => Ok(()),
                    }
                },
            }
        },
    }
}

/// The effect of one tagged block on (seen divider, structural flag, depth).
pub open spec fn sp_tag_body(key: Seq<u8>, data: Seq<u8>, seen_group: bool, structural: bool, depth: u32) -> Result<
    (bool, bool, u32),
    PsdErrorCode,
> {
    let length = data.len();
    if key == key_lyid() {
        if length == 4 {
            Ok((seen_group, structural, depth))
        } else {
            Err(PsdErrorCode::InvalidInput)
        }
    } else if key == key_luni() {
        match sp_unicode_name(data) {
            Err(e) => Err(e),
            Ok(_) => Ok((seen_group, structural, depth)),
        }
    } else if key == key_lsct() || key == key_lsdk() {
        if seen_group || !(length == 4 || length == 12 || length == 16) {
            Err(PsdErrorCode::InvalidInput)
        } else {
            match sp_divider(data, depth) {
                Err(e) => Err(e),
                Ok((kind_structural, new_depth)) => Ok((true, kind_structural, new_depth)),
            }
        }
    } else {
        Err(PsdErrorCode::Unsupported)
    }
}

/// No tagged block read yet.
pub open spec fn no_tags() -> TagSpec {
    TagSpec { keys: seq![], source_id: None, kind: None }
}

/// `t` after an accepted block with `key` and body `data`: the key is kept, an
/// `lyid` body gives the layer id and a divider body starts with its kind.
pub open spec fn tag_update(t: TagSpec, key: Seq<u8>, data: Seq<u8>) -> TagSpec {
    TagSpec {
        keys: t.keys.push(key),
        source_id: if key == key_lyid() {
            Some(be32(data[0], data[1], data[2], data[3]))
        } else {
            t.source_id
        },
        kind: if key == key_lsct() || key == key_lsdk() {
            Some(be32(data[0], data[1], data[2], data[3]))
        } else {
            t.kind
        },
    }
}

/// One tagged block; on failure the depth is the one at the failure.
#[verifier::opaque]
pub open spec fn sp_tag(s: Seq<u8>, seen_group: bool, structural: bool, depth: u32, t: TagSpec) -> (
    Result<(bool, bool, TagSpec, Seq<u8>), PsdErrorCode>,
    u32,
) {
    match sp_signature(s, sig_8bim()) {
        Err(e) => (Err(e), depth),
        Ok(r1) => match sp_take(r1, 4) {
            Err(e) => (Err(e), depth),
            Ok((key, r2)) => match sp_section(r2) {
                Err(e) => (Err(e), depth),
                Ok((data, r3)) => match sp_tag_body(key, data, seen_group, structural, depth) {
                    Err(e) => (Err(e), depth),
                    Ok((seen2, structural2, depth2)) => match sp_padding(r3, (data.len() % 2) as int) {
                        Err(e) => (Err(e), depth2),
                        Ok(r4) => (Ok((seen2, structural2, tag_update(t, key, data), r4)), depth2),
                    },
                },
            },
        },
    }
}

/// All tagged blocks of a layer record: whether it is a structural group record
/// and what its blocks name, and the group depth after them (also when a block
/// fails).
pub open spec fn sp_additional(
    s: Seq<u8>,
    seen_group: bool,
    structural: bool,
    depth: u32,
    t: TagSpec,
) -> (Result<(bool, TagSpec), PsdErrorCode>, u32)
    decreases s.len(),
{
    if s.len() == 0 {
        (Ok((structural, t)), depth)
    } else {
        match sp_tag(s, seen_group, structural, depth, t) {
            (Err(e), d) => (Err(e), d),
            (Ok((seen2, structural2, t2, rest)), d) => if rest.len() < s.len() {
                sp_additional(rest, seen2, structural2, d, t2)
            } else {
                (Err(PsdErrorCode::InvalidInput), d)
            },
        }
    }
}

/// A divider block keeps the group depth within `MAX_GROUP_DEPTH`.
proof fn lemma_divider_depth(data: Seq<u8>, depth: u32)
    requires
        depth <= MAX_GROUP_DEPTH,
    ensures
        sp_divider(data, depth) matches Ok((_, d)) ==> d <= MAX_GROUP_DEPTH,
{
    reveal(sp_divider);
}

/// One tagged block keeps the group depth within `MAX_GROUP_DEPTH`.
proof fn lemma_tag_depth(s: Seq<u8>, seen_group: bool, structural: bool, depth: u32, t: TagSpec)
    requires
        depth <= MAX_GROUP_DEPTH,
    ensures
        sp_tag(s, seen_group, structural, depth, t).1 <= MAX_GROUP_DEPTH,
{
    reveal(sp_tag);
    match sp_signature(s, sig_8bim()) {
        Ok(r1) => match sp_take(r1, 4) {
            Ok((_, r2)) => match sp_section(r2) {
                Ok((data, _)) => {
                    lemma_divider_depth(data, depth);
                },
                Err(_) => {},
            },
            Err(_) => {},
        },
        Err(_) => {},
    }
}

/// Group nesting stays bounded over any run of tagged blocks: from a depth
/// within `MAX_GROUP_DEPTH`, the depth after them, whether they were accepted
/// or refused, is within it too. A record that would open one group too many
/// is refused instead.
pub proof fn group_depth_stays_bounded(s: Seq<u8>, seen_group: bool, structural: bool, depth: u32, t: TagSpec)
    requires
        depth <= MAX_GROUP_DEPTH,
    ensures
        sp_additional(s, seen_group, structural, depth, t).1 <= MAX_GROUP_DEPTH,
    decreases s.len(),
{
    if s.len() > 0 {
        lemma_tag_depth(s, seen_group, structural, depth, t);
        match sp_tag(s, seen_group, structural, depth, t) {
            (Ok((seen2, structural2, t2, rest)), d) => if rest.len() < s.len() {
                group_depth_stays_bounded(rest, seen2, structural2, d, t2);
            },
            _ => {},
        }
    }
}

/// Whether all three colour channels (ids 0, 1 and 2) were present.
pub open spec fn has_rgb(seen: Seq<bool>) -> bool {
    seen[1] && seen[2] && seen[3]
}

/// The part of a layer record after its channel table, up to and including the
/// extra-data section: structural flag, blend key, clipping byte, flags byte and
/// tagged blocks, the bytes after the record, and the depth.
#[verifier::opaque]
pub open spec fn sp_record_tail(s: Seq<u8>, depth: u32) -> (
    Result<((bool, Seq<u8>, u8, u8, TagSpec), Seq<u8>), PsdErrorCode>,
    u32,
) {
    match sp_signature(s, sig_8bim()) {
        Err(e) => (Err(e), depth),
        Ok(r1) => match sp_blend_mode(r1) {
            Err(e) => (Err(e), depth),
            Ok(r2) => match sp_u8(r2) {
                Err(e) => (Err(e), depth),
                Ok((_, r3)) => match sp_u8(r3) {
                    Err(e) => (Err(e), depth),
                    Ok((clipping, r4)) => if clipping > 1 {
                        (Err(PsdErrorCode::InvalidInput), depth)
                    } else {
                        match sp_u8(r4) {
                            Err(e) => (Err(e), depth),
                            Ok((flags, r5)) => if flags >= 8 {
                                (Err(PsdErrorCode::Unsupported), depth)
                            } else {
                                match sp_padding(r5, 1) {
                                    Err(e) => (Err(e), depth),
                                    Ok(r6) => match sp_section(r6) {
                                        Err(e) => (Err(e), depth),
                                        Ok((extra, r7)) => match sp_extra(extra, depth) {
                                            (Err(e), d) => (Err(e), d),
                                            (Ok((structural, t)), d) => (
                                                Ok(((structural, r1.take(4), clipping, flags, t), r7)),
                                                d,
                                            ),
                                        },
                                    },
                                }
                            },
                        }
                    },
                },
            },
        },
    }
}

/// Extra data of a layer record: no mask, default blending ranges, a padded
/// name and the tagged blocks; whether the record is a group record and what
/// its blocks name.
#[verifier::opaque]
pub open spec fn sp_extra(extra: Seq<u8>, depth: u32) -> (Result<(bool, TagSpec), PsdErrorCode>, u32) {
    match sp_section(extra) {
        Err(e) => (Err(e), depth),
        Ok((mask, e1)) => if mask.len() != 0 {
            (Err(PsdErrorCode::Unsupported), depth)
        } else {
            match sp_section(e1) {
                Err(e) => (Err(e), depth),
                Ok((ranges, e2)) => if !default_ranges(ranges) {
                    (Err(PsdErrorCode::Unsupported), depth)
                } else {
                    match sp_pascal_name(e2, 4) {
                        Err(e) => (Err(e), depth),
                        Ok(e3) => sp_additional(e3, false, false, depth, no_tags()),
                    }
                },
            }
        },
    }
}

/// One layer record: width, height, channel data lengths and what the reader
/// keeps of it, the bytes after it, and the pixel total and group depth (also
/// at a failure).
#[verifier::opaque]
pub open spec fn sp_layer_record(s: Seq<u8>, pixels: u64, depth: u32, limits: ParseLimits) -> (
    Result<(u32, u32, Seq<u32>, RecordSpec, Seq<u8>), PsdErrorCode>,
    u64,
    u32,
) {
    match sp_rect(s) {
        Err(e) => (Err(e), pixels, depth),
        Ok((width, height, x, y, r1)) => match sp_add_pixels(pixels, width, height, limits) {
            Err(e) => (Err(e), pixels, depth),
            Ok(pixels2) => match sp_u16(r1) {
                Err(e) => (Err(e), pixels2, depth),
                Ok((count, r2)) => if count > 4 {
                    (Err(PsdErrorCode::Unsupported), pixels2, depth)
                } else {
                    match sp_channels(r2, count as nat, seq![false, false, false, false], seq![]) {
                        Err(e) => (Err(e), pixels2, depth),
                        Ok((seen, lengths, r3)) => match sp_record_tail(r3, depth) {
                            (Err(e), d) => (Err(e), pixels2, d),
                            (Ok(((structural, blend, clipping, flags, t), r4)), d) => if width > 0
                                && height > 0 && !structural && !has_rgb(seen) {
                                (Err(PsdErrorCode::Unsupported), pixels2, d)
                            } else {
                                (
                                    Ok(
                                        (
                                            width,
                                            height,
                                            lengths,
                                            RecordSpec {
                                                x,
                                                y,
                                                width,
                                                height,
                                                has_rgb: has_rgb(seen),
                                                blend,
                                                clipping,
                                                flags,
                                                tags: t,
                                            },
                                            r4,
                                        ),
                                    ),
                                    pixels2,
                                    d,
                                )
                            },
                        },
                    }
                },
            },
        },
    }
}

/// Channel decoding jobs (data length, width, height) of one record.
pub open spec fn channel_jobs(lengths: Seq<u32>, width: u32, height: u32) -> Seq<(u32, u32, u32)> {
    Seq::new(lengths.len(), |i: int| (lengths[i], width, height))
}

/// `count` layer records; `jobs` collects the channel jobs and `records` what
/// is kept of the records read so far.
pub open spec fn sp_records(
    s: Seq<u8>,
    count: nat,
    pixels: u64,
    depth: u32,
    limits: ParseLimits,
    jobs: Seq<(u32, u32, u32)>,
    records: Seq<RecordSpec>,
) -> (Result<(Seq<(u32, u32, u32)>, Seq<RecordSpec>, Seq<u8>), PsdErrorCode>, u64, u32)
    decreases count,
{
    if count == 0 {
        (Ok((jobs, records, s)), pixels, depth)
    } else {
        match sp_layer_record(s, pixels, depth, limits) {
            (Err(e), p, d) => (Err(e), p, d),
            (Ok((width, height, lengths, record, rest)), p, d) => sp_records(
                rest,
                (count - 1) as nat,
                p,
                d,
                limits,
                jobs + channel_jobs(lengths, width, height),
                records.push(record),
            ),
        }
    }
}

/// The channel data of all records, one plane per job, in record order.
pub open spec fn sp_channel_data(s: Seq<u8>, jobs: Seq<(u32, u32, u32)>) -> Result<
    Seq<u8>,
    PsdErrorCode,
>
    decreases jobs.len(),
{
    if jobs.len() == 0 {
        Ok(s)
    } else {
        let (length, width, height) = jobs[0];
        match sp_take(s, length as int) {
            Err(e) => Err(e),
            Ok((plane, rest)) => match sp_image_data(plane, width, height, 1) {
                Err(e) => Err(e),
                Ok(_) => sp_channel_data(rest, jobs.drop_first()),
            },
        }
    }
}

/// Record count of the layer info: the magnitude of the signed word; a negative
/// word marks merged transparency.
pub open spec fn layer_count(raw: u16) -> u32 {
    if raw >= 0x8000 {
        (0x1_0000 - raw) as u32
    } else {
        raw as u32
    }
}

/// The layer info block (non-empty): records, balanced groups, channel data and
/// at most one zero byte of padding. Gives what is kept of the records and the
/// pixel total at the end.
#[verifier::opaque]
pub open spec fn sp_layer_info(info: Seq<u8>, pixels: u64, limits: ParseLimits) -> (
    Result<Seq<RecordSpec>, PsdErrorCode>,
    u64,
) {
    match sp_u16(info) {
        Err(e) => (Err(e), pixels),
        Ok((raw, i1)) => {
            let count = layer_count(raw);
            if count > limits.max_layers {
                (Err(PsdErrorCode::ResourceLimit), pixels)
            } else {
                match sp_records(i1, count as nat, pixels, 0, limits, seq![], seq![]) {
                    (Err(e), p, _) => (Err(e), p),
                    (Ok((jobs, records, i2)), p, d) => if d != 0 {
                        (Err(PsdErrorCode::InvalidInput), p)
                    } else {
                        match sp_channel_data(i2, jobs) {
                            Err(e) => (Err(e), p),
                            Ok(i3) => if i3.len() > 1 {
                                (Err(PsdErrorCode::InvalidInput), p)
                            } else {
                                match sp_padding(i3, i3.len() as int) {
                                    Err(e) => (Err(e), p),
                                    Ok(_) => (Ok(records), p),
                                }
                            },
                        }
                    },
                }
            }
        },
    }
}

/// The global mask section must be empty and nothing may follow it.
#[verifier::opaque]
pub open spec fn sp_after_layer_info(s: Seq<u8>) -> Result<(), PsdErrorCode> {
    match sp_section(s) {
        Err(e) => Err(e),
        Ok((mask, rest)) => if mask.len() != 0 {
            Err(PsdErrorCode::Unsupported)
        } else if rest.len() != 0 {
            Err(PsdErrorCode::Unsupported)
        } else {
            Ok(())
        },
    }
}

/// The layer and mask section: whether merged transparency is marked and what
/// is kept of the layer records, and the pixel total at the end.
#[verifier::opaque]
pub open spec fn sp_layer_and_mask(section: Seq<u8>, pixels: u64, limits: ParseLimits) -> (
    Result<(bool, Seq<RecordSpec>), PsdErrorCode>,
    u64,
) {
    if section.len() == 0 {
        (Ok((false, seq![])), pixels)
    } else {
        match sp_section(section) {
            Err(e) => (Err(e), pixels),
            Ok((info, rest)) => if info.len() == 0 {
                match sp_after_layer_info(rest) {
                    Err(e) => (Err(e), pixels),
                    Ok(_) => (Ok((false, seq![])), pixels),
                }
            } else {
                match sp_layer_info(info, pixels, limits) {
                    (Err(e), p) => (Err(e), p),
                    (Ok(records), p) => match sp_after_layer_info(rest) {
                        Err(e) => (Err(e), p),
                        Ok(_) => (Ok((be16(info[0], info[1]) >= 0x8000, records)), p),
                    },
                }
            }
        }
    }
}

/// The fixed-size file header: width, height and channel count of an RGB/8 file.
#[verifier::opaque]
pub open spec fn sp_file_header(b: Seq<u8>) -> Result<(u32, u32, u16, Seq<u8>), PsdErrorCode> {
    match sp_signature(b, sig_8bps()) {
        Err(e) => Err(e),
        Ok(r1) => match sp_u16(r1) {
            Err(e) => Err(e),
            Ok((version, r2)) => if version != 1 {
                Err(PsdErrorCode::Unsupported)
            } else {
                match sp_padding(r2, 6) {
                    Err(e) => Err(e),
                    Ok(r3) => match sp_u16(r3) {
                        Err(e) => Err(e),
                        Ok((channels, r4)) => match sp_u32(r4) {
                            Err(e) => Err(e),
                            Ok((height, r5)) => match sp_u32(r5) {
                                Err(e) => Err(e),
                                Ok((width, r6)) => match sp_u16(r6) {
                                    Err(e) => Err(e),
                                    Ok((depth, r7)) => match sp_u16(r7) {
                                        Err(e) => Err(e),
                                        Ok((mode, r8)) => if !(3 <= channels <= 4) || depth != 8
                                            || mode != 3 {
                                            Err(PsdErrorCode::Unsupported)
                                        } else if width == 0 || height == 0 || width
                                            > MAX_DIMENSION || height > MAX_DIMENSION {
                                            Err(PsdErrorCode::InvalidInput)
                                        } else {
                                            Ok((width, height, channels, r8))
                                        },
                                    },
                                },
                            },
                        },
                    },
                }
            },
        },
    }
}

/// The whole check: header, colour mode data, image resources, layer and mask
/// information, and the optional saved composite, within the budgets.
pub open spec fn sp_inspect(b: Seq<u8>, limits: ParseLimits) -> Result<HeaderSpec, PsdErrorCode> {
    if b.len() > limits.max_file_bytes {
        Err(PsdErrorCode::ResourceLimit)
    } else {
        match sp_file_header(b) {
            Err(e) => Err(e),
            Ok((width, height, channels, r1)) => match sp_add_pixels(0, width, height, limits) {
                Err(e) => Err(e),
                Ok(pixels) => match sp_section(r1) {
                    Err(e) => Err(e),
                    Ok((color_data, r2)) => if color_data.len() != 0 {
                        Err(PsdErrorCode::Unsupported)
                    } else {
                        match sp_section(r2) {
                            Err(e) => Err(e),
                            Ok((resources, r3)) => match sp_resources(resources) {
                                Err(e) => Err(e),
                                Ok(_) => match sp_section(r3) {
                                    Err(e) => Err(e),
                                    Ok((layer_section, r4)) => match sp_layer_and_mask(
                                        layer_section,
                                        pixels,
                                        limits,
                                    ) {
                                        (Err(e), _) => Err(e),
                                        (Ok((global_alpha, layers)), total_pixels) => {
                                            let has_composite = r4.len() != 0;
                                            let composite: Result<(), PsdErrorCode> =
                                                if has_composite {
                                                sp_image_data(r4, width, height, channels)
                                            } else {
                                                Ok(())
                                            };
                                            match composite {
                                                Err(e) => Err(e),
                                                Ok(_) => Ok(
                                                    HeaderSpec {
                                                        width,
                                                        height,
                                                        has_composite,
                                                        global_alpha,
                                                        total_pixels,
                                                        layers,
                                                    },
                                                ),
                                            }
                                        },
                                    },
                                },
                            },
                        }
                    },
                },
            },
        }
    }
}

} // verus!
