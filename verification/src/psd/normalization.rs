//! Checks the decoder's layer tree against the verified layer records, and
//! derives each layer's kind, visibility and independent export capability.
//!
//! The decoder's values are read by the caller into plain values: whole
//! numbers where the decoder holds floating point, and flags for the
//! optional blocks. Unverified additional information never grants an
//! independent export; neither the source layer id nor the name addresses
//! anything.

use vstd::prelude::*;

use super::capability::{Capability, Support};
use super::error::{PsdError, PsdErrorCode};
use super::model::{Bounds, Diagnostic, DiagnosticKind, DiagnosticScope, LayerId, LayerKind};

verus! {

/// What the layer record check kept of one record.
#[derive(Debug, Clone)]
pub struct RecordFacts {
    /// Zero-based position of the record in the file.
    pub ordinal: u32,
    pub bounds: Bounds,
    /// The `lyid` layer id, if the record has one.
    pub source_id: Option<u32>,
    pub clipping: bool,
    pub flags: u8,
    /// The `lsct` section divider kind, if any.
    pub section_kind: Option<u32>,
    pub has_rgb: bool,
    pub has_mask: bool,
    pub nondefault_blending_ranges: bool,
    pub blend_mode: [u8; 4],
    /// Keys of the additional information blocks, in file order.
    pub tags: Vec<[u8; 4]>,
}

/// The decoder's blend mode of a layer.
#[derive(Debug, Clone, Copy, PartialEq, Eq, Structural)]
pub enum CandidateBlend {
    Normal,
    PassThrough,
    Other,
}

/// A diagnostic the decoder attached to a layer's additional information.
#[derive(Debug, Clone)]
pub struct CandidateNote {
    pub unknown: bool,
    pub tag: String,
    pub offset: u64,
    pub message: String,
}

/// One layer as the decoder produced it, in plain values.
#[derive(Debug)]
pub struct Candidate {
    /// The decoder's layer id where it is a whole number in the u32 range.
    pub source_id: Option<u32>,
    /// Each edge where the decoder holds it as a whole number.
    pub left: Option<i64>,
    pub top: Option<i64>,
    pub right: Option<i64>,
    pub bottom: Option<i64>,
    pub hidden: Option<bool>,
    pub clipping: Option<bool>,
    /// The opacity rounded to 0–255, where the decoder holds a finite value in 0–1.
    pub opacity: Option<u8>,
    /// The opacity is exactly 1.
    pub opaque: bool,
    pub blend: Option<CandidateBlend>,
    pub name: Option<String>,
    pub has_text: bool,
    /// Why the decoder's text block was refused, if it was.
    pub text_error: Option<String>,
    pub has_placed_layer: bool,
    pub has_vector_fill: bool,
    pub has_vector_mask: bool,
    pub has_adjustment: bool,
    pub has_mask: bool,
    pub has_real_mask: bool,
    pub has_effects: bool,
    /// The fill opacity is absent or exactly 1.
    pub fill_opaque: bool,
    pub knockout: bool,
    pub has_pixels: bool,
    pub notes: Vec<CandidateNote>,
    pub children: Option<Vec<Candidate>>,
}

/// Rejection of a candidate layer that no record accounts for.
pub const EXTRA_LAYER: &'static str = "候选额外生成了未校验的图层";

/// Rejection of a layer position past the id range.
pub const ID_RANGE: &'static str = "图层引用超出范围";

/// Rejection of candidate edges that differ from the record.
pub const BOUNDS_MISMATCH: &'static str = "候选图层边界与 PSD 原始记录不一致";

/// Rejection of a candidate layer id that differs from the record.
pub const SOURCE_ID_MISMATCH: &'static str = "候选来源图层 ID 与原始记录不一致";

/// Rejection of a clipping flag that differs from the record.
pub const CLIPPING_MISMATCH: &'static str = "候选剪贴关系与原始记录不一致";

/// Rejection of a candidate without visibility.
pub const NO_VISIBILITY: &'static str = "缺少图层可见性";

/// Rejection of a visibility that differs from the record flags.
pub const VISIBILITY_MISMATCH: &'static str = "候选可见性与源记录不一致";

/// Rejection of a missing or out-of-range opacity.
pub const NO_OPACITY: &'static str = "缺少有效的图层不透明度";

/// Rejection of a group structure that differs from the section dividers.
pub const GROUP_MISMATCH: &'static str = "候选分组结构与 PSD 分隔记录不一致";

/// Rejection of a candidate without a name.
pub const NO_NAME: &'static str = "缺少图层名称";

/// Rejection of fewer candidate layers than checked records.
pub const LAYER_COUNT_MISMATCH: &'static str = "候选图层数量与已校验的 PSD 记录不一致";

/// Export refusal of groups, text, shapes, smart objects and unknown kinds.
pub const EXPORT_KIND: &'static str = "仅开放已验证的普通位图独立导出；组、文字、形状、智能对象及未知类型不以通道冒充素材";

/// Export refusal of a layer that is hidden itself or by an ancestor.
pub const EXPORT_HIDDEN: &'static str = "图层或祖先组不可见";

/// Export refusal of unverified visual dependencies or missing colour channels.
pub const EXPORT_DEPENDENCY: &'static str = "图层或祖先存在未验证的视觉依赖，或缺少完整 RGB 通道";

/// Export refusal of a layer without a positive-area bitmap.
pub const EXPORT_EMPTY: &'static str = "图层没有正面积位图";

/// The export capability of a simple ordinary bitmap.
pub const EXPORT_BITMAP: &'static str = "简单普通位图的完整通道，保留透明边缘与画布外部分；未执行色彩转换";

/// Whether a block key spells the four given bytes.
pub open spec fn key_is(t: [u8; 4], a: u8, b: u8, c: u8, d: u8) -> bool {
    t@[0] == a && t@[1] == b && t@[2] == c && t@[3] == d
}

/// Whether a record has a block with the four given bytes as key.
pub open spec fn has_tag(tags: Seq<[u8; 4]>, a: u8, b: u8, c: u8, d: u8) -> bool {
    exists|i: int| 0 <= i < tags.len() && key_is(#[trigger] tags[i], a, b, c, d)
}

/// Whether a record has one of the adjustment layer blocks.
pub open spec fn has_adjustment_tag(tags: Seq<[u8; 4]>) -> bool {
    has_tag(tags, 98, 114, 105, 116) // brit
    || has_tag(tags, 108, 101, 118, 108) // levl
    || has_tag(tags, 99, 117, 114, 118) // curv
    || has_tag(tags, 104, 117, 101, 50) // hue2
    || has_tag(tags, 98, 108, 110, 99) // blnc
    || has_tag(tags, 98, 108, 119, 104) // blwh
    || has_tag(tags, 118, 105, 98, 65) // vibA
    || has_tag(tags, 115, 101, 108, 99) // selc
    || has_tag(tags, 109, 105, 120, 114) // mixr
    || has_tag(tags, 103, 114, 100, 109) // grdm
    || has_tag(tags, 112, 104, 102, 108) // phfl
    || has_tag(tags, 101, 120, 112, 65) // expA
    || has_tag(tags, 110, 118, 114, 116) // nvrt
    || has_tag(tags, 112, 111, 115, 116) // post
    || has_tag(tags, 116, 104, 114, 115) // thrs
}

/// Whether a block key is one whose compositing meaning is known to be neutral.
pub open spec fn neutral_key(t: [u8; 4]) -> bool {
    key_is(t, 108, 121, 105, 100) // lyid
    || key_is(t, 108, 117, 110, 105) // luni
    || key_is(t, 108, 115, 99, 116) // lsct
    || key_is(t, 108, 115, 100, 107) // lsdk
    || key_is(t, 108, 115, 112, 102) // lspf
    || key_is(t, 108, 99, 108, 114) // lclr
    || key_is(t, 108, 110, 115, 114) // lnsr
    || key_is(t, 108, 121, 118, 114) // lyvr
    || key_is(t, 102, 120, 114, 112) // fxrp
}

/// Whether some decoder note marks unknown data.
pub open spec fn has_unknown_note(notes: Seq<CandidateNote>) -> bool {
    exists|i: int| 0 <= i < notes.len() && (#[trigger] notes[i]).unknown
}

/// The kind of a layer: groups by their children, then text, smart objects,
/// shapes and adjustments by decoder blocks or record keys, then unknown data.
pub open spec fn classify_spec(c: Candidate, r: RecordFacts) -> LayerKind {
    let tags = r.tags@;
    if c.children is Some {
        LayerKind::Group
    } else if c.has_text || has_tag(tags, 84, 121, 83, 104) {
        LayerKind::Text
    } else if c.has_placed_layer || has_tag(tags, 83, 111, 76, 100) || has_tag(tags, 80, 108, 76, 100) {
        LayerKind::SmartObject
    } else if c.has_vector_fill || c.has_vector_mask || has_tag(tags, 118, 115, 99, 103) || has_tag(
        tags,
        83,
        111,
        67,
        111,
    ) || has_tag(tags, 71, 100, 70, 108) || has_tag(tags, 80, 116, 70, 108) {
        LayerKind::Shape
    } else if c.has_adjustment || has_adjustment_tag(tags) {
        LayerKind::Adjustment
    } else if has_unknown_note(c.notes@) {
        LayerKind::Unknown
    } else {
        LayerKind::Bitmap
    }
}

/// Whether the record and the candidate use nothing but plain normal compositing.
pub open spec fn simple_spec(c: Candidate, r: RecordFacts) -> bool {
    &&& c.opaque
    &&& !r.clipping
    &&& c.clipping == Some(false)
    &&& (key_is(r.blend_mode, 110, 111, 114, 109) || key_is(r.blend_mode, 112, 97, 115, 115))
    &&& (c.blend == Some(CandidateBlend::Normal) || c.blend == Some(CandidateBlend::PassThrough))
    &&& !r.has_mask
    &&& !r.nondefault_blending_ranges
    &&& r.flags & 0x18 == 0
    &&& !c.has_mask
    &&& !c.has_real_mask
    &&& !c.has_vector_mask
    &&& !c.has_effects
    &&& c.fill_opaque
    &&& !c.knockout
    &&& forall|i: int| 0 <= i < r.tags@.len() ==> neutral_key(#[trigger] r.tags@[i])
}

/// Layer kinds follow a fixed precedence over the decoder's data and the
/// record's keys: children make a group; else a text block or `TySh` key
/// makes text; else a placed layer or an `SoLd`/`PlLd` key makes a smart
/// object, whatever vector or adjustment data the layer also carries; else
/// vector data or a `vscg`/`SoCo`/`GdFl`/`PtFl` key makes a shape; a bitmap
/// carries none of these.
pub proof fn layer_kind_precedence(c: Candidate, r: RecordFacts)
    ensures
        (classify_spec(c, r) == LayerKind::Group) == (c.children is Some),
        c.children is None && (c.has_text || has_tag(r.tags@, 84, 121, 83, 104)) ==> classify_spec(
            c,
            r,
        ) == LayerKind::Text,
        c.children is None && !c.has_text && !has_tag(r.tags@, 84, 121, 83, 104) && (
        c.has_placed_layer || has_tag(r.tags@, 83, 111, 76, 100) || has_tag(r.tags@, 80, 108, 76, 100))
            ==> classify_spec(c, r) == LayerKind::SmartObject,
        classify_spec(c, r) == LayerKind::SmartObject ==> c.has_placed_layer || has_tag(
            r.tags@,
            83,
            111,
            76,
            100,
        ) || has_tag(r.tags@, 80, 108, 76, 100),
        classify_spec(c, r) == LayerKind::Shape ==> c.has_vector_fill || c.has_vector_mask
            || has_tag(r.tags@, 118, 115, 99, 103) || has_tag(r.tags@, 83, 111, 67, 111) || has_tag(
            r.tags@,
            71,
            100,
            70,
            108,
        ) || has_tag(r.tags@, 80, 116, 70, 108),
        ({
            let t = r.tags@;
            let plain = c.children is None && !c.has_text && !has_tag(t, 84, 121, 83, 104)
                && !c.has_placed_layer && !has_tag(t, 83, 111, 76, 100) && !has_tag(t, 80, 108, 76, 100)
                && !c.has_vector_fill && !c.has_vector_mask && !has_tag(t, 118, 115, 99, 103)
                && !has_tag(t, 83, 111, 67, 111) && !has_tag(t, 71, 100, 70, 108) && !has_tag(
                t,
                80,
                116,
                70,
                108,
            );
            &&& (classify_spec(c, r) == LayerKind::Adjustment) == (plain && (c.has_adjustment
                || has_adjustment_tag(t)))
            &&& (classify_spec(c, r) == LayerKind::Unknown) == (plain && !c.has_adjustment
                && !has_adjustment_tag(t) && has_unknown_note(c.notes@))
            &&& (classify_spec(c, r) == LayerKind::Bitmap) == (plain && !c.has_adjustment
                && !has_adjustment_tag(t) && !has_unknown_note(c.notes@))
        }),
        classify_spec(c, r) == LayerKind::Bitmap ==> c.children is None && !c.has_text
            && !c.has_placed_layer && !c.has_vector_fill && !c.has_vector_mask && !c.has_adjustment
            && !has_unknown_note(c.notes@) && !has_tag(r.tags@, 84, 121, 83, 104) && !has_tag(
            r.tags@,
            83,
            111,
            76,
            100,
        ) && !has_tag(r.tags@, 80, 108, 76, 100),
{
}

/// A record blended `pass` composites as simply as one blended `norm`, and a
/// decoder's pass-through blend as simply as a normal one: swapping one for
/// the other never changes whether a layer is simple. A record with any other
/// blend key is never simple.
pub proof fn pass_through_composites_like_normal(c: Candidate, r: RecordFacts)
    ensures
        simple_spec(c, RecordFacts { blend_mode: [112u8, 97u8, 115u8, 115u8], ..r }) == simple_spec(
            c,
            RecordFacts { blend_mode: [110u8, 111u8, 114u8, 109u8], ..r },
        ),
        simple_spec(Candidate { blend: Some(CandidateBlend::PassThrough), ..c }, r) == simple_spec(
            Candidate { blend: Some(CandidateBlend::Normal), ..c },
            r,
        ),
        simple_spec(c, r) ==> (r.blend_mode@ =~= seq![110u8, 111u8, 114u8, 109u8]
            || r.blend_mode@ =~= seq![112u8, 97u8, 115u8, 115u8]),
        c.opaque && !r.clipping && c.clipping == Some(false) && (c.blend == Some(
            CandidateBlend::Normal,
        ) || c.blend == Some(CandidateBlend::PassThrough)) && !r.has_mask
            && !r.nondefault_blending_ranges && r.flags & 0x18 == 0 && !c.has_mask
            && !c.has_real_mask && !c.has_vector_mask && !c.has_effects && c.fill_opaque
            && !c.knockout && (forall|i: int| 0 <= i < r.tags@.len() ==> neutral_key(
            #[trigger] r.tags@[i],
        )) ==> simple_spec(c, RecordFacts { blend_mode: [112u8, 97u8, 115u8, 115u8], ..r }),
{
    let p = RecordFacts { blend_mode: [112u8, 97u8, 115u8, 115u8], ..r };
    let n = RecordFacts { blend_mode: [110u8, 111u8, 114u8, 109u8], ..r };
    assert(p.blend_mode@[0] == 112 && p.blend_mode@[1] == 97 && p.blend_mode@[2] == 115
        && p.blend_mode@[3] == 115);
    assert(n.blend_mode@[0] == 110 && n.blend_mode@[1] == 111 && n.blend_mode@[2] == 114
        && n.blend_mode@[3] == 109);
    assert(p.tags@ == r.tags@ && n.tags@ == r.tags@);
}

/// Whether the candidate's edges equal those of the record.
pub open spec fn bounds_match(c: Candidate, b: Bounds) -> bool {
    &&& c.left == Some(b.x as i64)
    &&& c.top == Some(b.y as i64)
    &&& c.right == Some((b.x + b.width) as i64)
    &&& c.bottom == Some((b.y + b.height) as i64)
}

/// Whether the record's divider makes it a group.
pub open spec fn divider_group(r: RecordFacts) -> bool {
    r.section_kind == Some(1u32) || r.section_kind == Some(2u32)
}

/// The first check that a candidate fails against its record, if any.
pub open spec fn layer_error(c: Candidate, r: RecordFacts) -> Option<Seq<char>> {
    if !bounds_match(c, r.bounds) {
        Some(BOUNDS_MISMATCH@)
    } else if r.source_id is Some && c.source_id != r.source_id {
        Some(SOURCE_ID_MISMATCH@)
    } else if c.clipping != Some(r.clipping) {
        Some(CLIPPING_MISMATCH@)
    } else if c.hidden is None {
        Some(NO_VISIBILITY@)
    } else if !c.hidden->0 != (r.flags & 2 == 0) {
        Some(VISIBILITY_MISMATCH@)
    } else if c.opacity is None {
        Some(NO_OPACITY@)
    } else if divider_group(r) != (classify_spec(c, r) == LayerKind::Group) {
        Some(GROUP_MISMATCH@)
    } else if c.text_error is Some {
        Some(c.text_error->0@)
    } else if c.name is None {
        Some(NO_NAME@)
    } else {
        None
    }
}

/// Whether a layer and its ancestors composite simply and carry no decoder notes.
pub open spec fn simple_under(c: Candidate, r: RecordFacts, parent_simple: bool) -> bool {
    parent_simple && simple_spec(c, r) && c.notes@.len() == 0
}

/// The independent export capability of a layer: its status and reason.
pub open spec fn export_spec(c: Candidate, r: RecordFacts, effective_visible: bool, simple: bool) -> (
    Support,
    Seq<char>,
) {
    if classify_spec(c, r) != LayerKind::Bitmap {
        (Support::Unsupported, EXPORT_KIND@)
    } else if !effective_visible {
        (Support::Unsupported, EXPORT_HIDDEN@)
    } else if !simple || !r.has_rgb {
        (Support::Unsupported, EXPORT_DEPENDENCY@)
    } else if r.bounds.width == 0 || r.bounds.height == 0 || !c.has_pixels {
        (Support::Unsupported, EXPORT_EMPTY@)
    } else {
        (Support::Supported, EXPORT_BITMAP@)
    }
}

/// A layer diagnostic made from a decoder note: its kind, key, offset and message.
pub open spec fn note_view(n: CandidateNote) -> (DiagnosticKind, Seq<char>, u64, Seq<char>) {
    (
        if n.unknown {
            DiagnosticKind::Unknown
        } else {
            DiagnosticKind::Unsupported
        },
        n.tag@,
        n.offset,
        n.message@,
    )
}

/// Whether a block key is the four given bytes.
fn key_eq(t: &[u8; 4], a: u8, b: u8, c: u8, d: u8) -> (r: bool)
    ensures
        r == key_is(*t, a, b, c, d),
{
    t[0] == a && t[1] == b && t[2] == c && t[3] == d
}

/// Whether some block of `tags` has the four given bytes as key.
fn tag_present(tags: &Vec<[u8; 4]>, a: u8, b: u8, c: u8, d: u8) -> (r: bool)
    ensures
        r == has_tag(tags@, a, b, c, d),
{
    let mut i: usize = 0;
    while i < tags.len()
        invariant
            i <= tags@.len(),
            forall|j: int| 0 <= j < i ==> !key_is(#[trigger] tags@[j], a, b, c, d),
        decreases tags@.len() - i,
    {
        if key_eq(&tags[i], a, b, c, d) {
            return true;
        }
        i = i + 1;
    }
    false
}

/// Whether every block key of `tags` is neutral for compositing.
fn all_neutral(tags: &Vec<[u8; 4]>) -> (r: bool)
    ensures
        r == (forall|i: int| 0 <= i < tags@.len() ==> neutral_key(#[trigger] tags@[i])),
{
    let mut i: usize = 0;
    while i < tags.len()
        invariant
            i <= tags@.len(),
            forall|j: int| 0 <= j < i ==> neutral_key(#[trigger] tags@[j]),
        decreases tags@.len() - i,
    {
        let t = &tags[i];
        let neutral = key_eq(t, 108, 121, 105, 100) || key_eq(t, 108, 117, 110, 105) || key_eq(
            t,
            108,
            115,
            99,
            116,
        ) || key_eq(t, 108, 115, 100, 107) || key_eq(t, 108, 115, 112, 102) || key_eq(
            t,
            108,
            99,
            108,
            114,
        ) || key_eq(t, 108, 110, 115, 114) || key_eq(t, 108, 121, 118, 114) || key_eq(
            t,
            102,
            120,
            114,
            112,
        );
        if !neutral {
            return false;
        }
        i = i + 1;
    }
    true
}

/// Whether some decoder note marks unknown data.
fn unknown_note(notes: &Vec<CandidateNote>) -> (r: bool)
    ensures
        r == has_unknown_note(notes@),
{
    let mut i: usize = 0;
    while i < notes.len()
        invariant
            i <= notes@.len(),
            forall|j: int| 0 <= j < i ==> !(#[trigger] notes@[j]).unknown,
        decreases notes@.len() - i,
    {
        if notes[i].unknown {
            return true;
        }
        i = i + 1;
    }
    false
}

/// The kind of a layer, as [`classify_spec`] states it: a candidate with
/// children is a group; otherwise a text block (or `TySh` key) makes text; a
/// placed layer (or an `SoLd`/`PlLd` key) a smart object; vector data (or a
/// `vscg`/`SoCo`/`GdFl`/`PtFl` key) a shape; adjustment data an adjustment;
/// an unknown-data note an unknown layer; anything else a bitmap.
pub fn classify(c: &Candidate, r: &RecordFacts) -> (k: LayerKind)
    ensures
        k == classify_spec(*c, *r),
        (k == LayerKind::Group) == (c.children is Some),
        (k == LayerKind::Text) == (c.children is None && (c.has_text || has_tag(
            r.tags@,
            84,
            121,
            83,
            104,
        ))),
        (k == LayerKind::SmartObject) == (c.children is None && !c.has_text && !has_tag(
            r.tags@,
            84,
            121,
            83,
            104,
        ) && (c.has_placed_layer || has_tag(r.tags@, 83, 111, 76, 100) || has_tag(
            r.tags@,
            80,
            108,
            76,
            100,
        ))),
        (k == LayerKind::Shape) == (c.children is None && !c.has_text && !has_tag(
            r.tags@,
            84,
            121,
            83,
            104,
        ) && !c.has_placed_layer && !has_tag(r.tags@, 83, 111, 76, 100) && !has_tag(
            r.tags@,
            80,
            108,
            76,
            100,
        ) && (c.has_vector_fill || c.has_vector_mask || has_tag(r.tags@, 118, 115, 99, 103)
            || has_tag(r.tags@, 83, 111, 67, 111) || has_tag(r.tags@, 71, 100, 70, 108) || has_tag(
            r.tags@,
            80,
            116,
            70,
            108,
        ))),
        k == LayerKind::Bitmap ==> !c.has_text && !c.has_placed_layer && !c.has_vector_fill
            && !c.has_vector_mask && !c.has_adjustment && !has_unknown_note(c.notes@),
{
    let tags = &r.tags;
    if c.children.is_some() {
        LayerKind::Group
    } else if c.has_text || tag_present(tags, 84, 121, 83, 104) {
        LayerKind::Text
    } else if c.has_placed_layer || tag_present(tags, 83, 111, 76, 100) || tag_present(
        tags,
        80,
        108,
        76,
        100,
    ) {
        LayerKind::SmartObject
    } else if c.has_vector_fill || c.has_vector_mask || tag_present(tags, 118, 115, 99, 103)
        || tag_present(tags, 83, 111, 67, 111) || tag_present(tags, 71, 100, 70, 108)
        || tag_present(tags, 80, 116, 70, 108) {
        LayerKind::Shape
    } else if c.has_adjustment || tag_present(tags, 98, 114, 105, 116) || tag_present(
        tags,
        108,
        101,
        118,
        108,
    ) || tag_present(tags, 99, 117, 114, 118) || tag_present(tags, 104, 117, 101, 50)
        || tag_present(tags, 98, 108, 110, 99) || tag_present(tags, 98, 108, 119, 104)
        || tag_present(tags, 118, 105, 98, 65) || tag_present(tags, 115, 101, 108, 99)
        || tag_present(tags, 109, 105, 120, 114) || tag_present(tags, 103, 114, 100, 109)
        || tag_present(tags, 112, 104, 102, 108) || tag_present(tags, 101, 120, 112, 65)
        || tag_present(tags, 110, 118, 114, 116) || tag_present(tags, 112, 111, 115, 116)
        || tag_present(tags, 116, 104, 114, 115) {
        LayerKind::Adjustment
    } else if unknown_note(&c.notes) {
        LayerKind::Unknown
    } else {
        LayerKind::Bitmap
    }
}

/// Whether a layer composites simply, as [`simple_spec`] states it: an
/// opaque, unclipped, unmasked layer without effects or knockout, blended
/// `norm` or `pass` in its record and normal or pass-through in the decoder,
/// with default blending ranges and only neutral keys.
pub fn simple_compositing(c: &Candidate, r: &RecordFacts) -> (b: bool)
    ensures
        b == simple_spec(*c, *r),
        b == (c.opaque && !r.clipping && c.clipping == Some(false) && ((r.blend_mode@[0] == 110 && r.blend_mode@[1]
            == 111 && r.blend_mode@[2] == 114 && r.blend_mode@[3] == 109) || (r.blend_mode@[0] == 112
            && r.blend_mode@[1] == 97 && r.blend_mode@[2] == 115 && r.blend_mode@[3] == 115)) && (c.blend == Some(
            CandidateBlend::Normal,
        ) || c.blend == Some(CandidateBlend::PassThrough)) && !r.has_mask
            && !r.nondefault_blending_ranges && r.flags & 0x18 == 0 && !c.has_mask
            && !c.has_real_mask && !c.has_vector_mask && !c.has_effects && c.fill_opaque
            && !c.knockout && forall|i: int|
            0 <= i < r.tags@.len() ==> neutral_key(#[trigger] r.tags@[i])),
{
    let blend_ok = match c.blend {
        Some(CandidateBlend::Normal) => true,
        Some(CandidateBlend::PassThrough) => true,
        _ => false,
    };
    c.opaque && !r.clipping && c.clipping == Some(false) && (key_eq(&r.blend_mode, 110, 111, 114, 109)
        || key_eq(&r.blend_mode, 112, 97, 115, 115)) && blend_ok && !r.has_mask
        && !r.nondefault_blending_ranges && r.flags & 0x18 == 0 && !c.has_mask && !c.has_real_mask
        && !c.has_vector_mask && !c.has_effects && c.fill_opaque && !c.knockout && all_neutral(
        &r.tags,
    )
}

/// Whether the candidate's edges equal the record bounds.
pub fn verify_bounds(c: &Candidate, b: Bounds) -> (ok: bool)
    ensures
        ok == bounds_match(*c, b),
{
    let x = b.x as i64;
    let y = b.y as i64;
    c.left == Some(x) && c.top == Some(y) && c.right == Some(x + b.width as i64) && c.bottom == Some(
        y + b.height as i64,
    )
}

/// A failed candidate check.
fn invalid_candidate(message: &str) -> (e: PsdError)
    ensures
        e.code == PsdErrorCode::ParseFailed,
        e.message@ == message@,
        e.cause is None,
{
    PsdError::new(PsdErrorCode::ParseFailed, message)
}

/// The first check a candidate fails against its record, as [`layer_error`] states it.
pub fn check_layer(c: &Candidate, r: &RecordFacts) -> (e: Option<PsdError>)
    ensures
        match layer_error(*c, *r) {
            None => e is None,
            Some(m) => e matches Some(x) && x.code == PsdErrorCode::ParseFailed && x.message@ == m
                && x.cause is None,
        },
{
    if !verify_bounds(c, r.bounds) {
        return Some(invalid_candidate(BOUNDS_MISMATCH));
    }
    if r.source_id.is_some() && c.source_id != r.source_id {
        return Some(invalid_candidate(SOURCE_ID_MISMATCH));
    }
    if c.clipping != Some(r.clipping) {
        return Some(invalid_candidate(CLIPPING_MISMATCH));
    }
    let visible = match c.hidden {
        None => {
            return Some(invalid_candidate(NO_VISIBILITY));
        },
        Some(h) => !h,
    };
    if visible != (r.flags & 2 == 0) {
        return Some(invalid_candidate(VISIBILITY_MISMATCH));
    }
    if c.opacity.is_none() {
        return Some(invalid_candidate(NO_OPACITY));
    }
    let group = match r.section_kind {
        Some(1) => true,
        Some(2) => true,
        _ => false,
    };
    if group != (classify(c, r) == LayerKind::Group) {
        return Some(invalid_candidate(GROUP_MISMATCH));
    }
    match &c.text_error {
        Some(m) => {
            return Some(invalid_candidate(m.as_str()));
        },
        None => {},
    }
    if c.name.is_none() {
        return Some(invalid_candidate(NO_NAME));
    }
    None
}

/// The export capability of a layer, as [`export_spec`] states it.
pub fn export_capability(c: &Candidate, r: &RecordFacts, effective_visible: bool, simple: bool) -> (e:
    Capability)
    ensures
        (e.status, e.reason@) == export_spec(*c, *r, effective_visible, simple),
{
    if classify(c, r) != LayerKind::Bitmap {
        Capability::unsupported(EXPORT_KIND)
    } else if !effective_visible {
        Capability::unsupported(EXPORT_HIDDEN)
    } else if !simple || !r.has_rgb {
        Capability::unsupported(EXPORT_DEPENDENCY)
    } else if r.bounds.width == 0 || r.bounds.height == 0 || !c.has_pixels {
        Capability::unsupported(EXPORT_EMPTY)
    } else {
        Capability::supported(EXPORT_BITMAP)
    }
}

/// The layer diagnostics made from the decoder notes, in order.
pub fn layer_notes(notes: &Vec<CandidateNote>) -> (v: Vec<Diagnostic>)
    ensures
        v@.len() == notes@.len(),
        forall|i: int|
            0 <= i < v@.len() ==> (#[trigger] v@[i]).scope == DiagnosticScope::Layer && (
                v@[i].kind,
                v@[i].tag@,
                v@[i].offset,
                v@[i].message@,
            ) == note_view(notes@[i]),
{
    let mut v: Vec<Diagnostic> = Vec::new();
    let mut i: usize = 0;
    while i < notes.len()
        invariant
            i <= notes@.len(),
            v@.len() == i,
            forall|j: int|
                0 <= j < i ==> (#[trigger] v@[j]).scope == DiagnosticScope::Layer && (
                    v@[j].kind,
                    v@[j].tag@,
                    v@[j].offset,
                    v@[j].message@,
                ) == note_view(notes@[j]),
        decreases notes@.len() - i,
    {
        let n = &notes[i];
        v.push(
            Diagnostic {
                scope: DiagnosticScope::Layer,
                kind: if n.unknown {
                    DiagnosticKind::Unknown
                } else {
                    DiagnosticKind::Unsupported
                },
                tag: n.tag.clone(),
                offset: n.offset,
                message: n.message.clone(),
            },
        );
        i = i + 1;
    }
    v
}

/// One checked layer: the facts of its record and candidate, its place in
/// the decoder's tree, and its export capability. Text is attached by the caller.
#[derive(Debug, Clone)]
pub struct LayerFacts {
    pub id: LayerId,
    pub parent_id: Option<LayerId>,
    pub source_record_index: u32,
    pub name: String,
    pub kind: LayerKind,
    pub bounds: Bounds,
    pub visible: bool,
    pub effective_visible: bool,
    pub opacity: u8,
    pub diagnostics: Vec<Diagnostic>,
    pub export: Capability,
    /// Child indices from the decoder's root down to this layer.
    pub path: Vec<usize>,
}

/// A layer's place in the walk: its index path among the decoder's
/// children, the candidate, its parent id, and whether its ancestors are
/// visible and composite simply.
pub type Placement = (Seq<usize>, Candidate, Option<LayerId>, bool, bool);

/// A walk outcome with `done` in front, or the same failure.
pub open spec fn prepend(done: Seq<Placement>, r: Result<Seq<Placement>, Seq<char>>) -> Result<
    Seq<Placement>,
    Seq<char>,
> {
    match r {
        Ok(rest) => Ok(done + rest),
        Err(m) => Err(m),
    }
}

/// The walk over the first `n` children, last child first: each layer is
/// checked against the next record (from position `start` on), then its own
/// children are walked, as the decoder lists them; or the first failure.
pub open spec fn walk(
    cs: Seq<Candidate>,
    n: nat,
    records: Seq<RecordFacts>,
    start: int,
    path: Seq<usize>,
    parent: Option<LayerId>,
    parent_visible: bool,
    parent_simple: bool,
) -> Result<Seq<Placement>, Seq<char>>
    decreases cs, n,
{
    if n == 0 || n > cs.len() || start < 0 {
        Ok(Seq::empty())
    } else {
        let i = n - 1;
        let c = cs[i];
        if start >= records.len() {
            Err(EXTRA_LAYER@)
        } else if start > u32::MAX {
            Err(ID_RANGE@)
        } else {
            let r = records[start];
            match layer_error(c, r) {
                Some(m) => Err(m),
                None => {
                    let here = path.push(i as usize);
                    let below = match c.children {
                        Some(k) => {
                            proof {
                                assert(decreases_to!(cs => cs[i]));
                            }
                            walk(
                                k@,
                                k@.len(),
                                records,
                                start + 1,
                                here,
                                Some(LayerId(start as u32)),
                                parent_visible && !c.hidden->0,
                                simple_under(c, r, parent_simple),
                            )
                        },
                        None => Ok(Seq::empty()),
                    };
                    match below {
                        Err(m) => Err(m),
                        Ok(b) => prepend(
                            seq![(here, c, parent, parent_visible, parent_simple)] + b,
                            walk(
                                cs,
                                (n - 1) as nat,
                                records,
                                start + 1 + b.len(),
                                path,
                                parent,
                                parent_visible,
                                parent_simple,
                            ),
                        ),
                    }
                },
            }
        }
    }
}

/// Whether `f` reports the layer placed at `p`, checked against record `r`
/// at output position `position`.
pub open spec fn describes(f: LayerFacts, p: Placement, r: RecordFacts, position: int) -> bool {
    let c = p.1;
    let visible = !c.hidden->0;
    &&& f.id == LayerId(position as u32)
    &&& f.parent_id == p.2
    &&& f.source_record_index == r.ordinal
    &&& f.name@ == c.name->0@
    &&& f.kind == classify_spec(c, r)
    &&& f.bounds == r.bounds
    &&& f.visible == visible
    &&& f.effective_visible == (p.3 && visible)
    &&& f.opacity == c.opacity->0
    &&& f.diagnostics@.len() == c.notes@.len()
    &&& forall|j: int|
        0 <= j < f.diagnostics@.len() ==> (#[trigger] f.diagnostics@[j]).scope
            == DiagnosticScope::Layer && (
            f.diagnostics@[j].kind,
            f.diagnostics@[j].tag@,
            f.diagnostics@[j].offset,
            f.diagnostics@[j].message@,
        ) == note_view(c.notes@[j])
    &&& (f.export.status, f.export.reason@) == export_spec(c, r, p.3 && visible, simple_under(c, r, p.4))
    &&& f.path@ == p.0
}

/// Whether the output from position `from` on reports the placements `ps`,
/// each against the record at its position.
pub open spec fn reports(out: Seq<LayerFacts>, from: int, ps: Seq<Placement>, records: Seq<RecordFacts>) -> bool {
    &&& out.len() == from + ps.len()
    &&& forall|k: int|
        0 <= k < ps.len() ==> describes(#[trigger] out[from + k], ps[k], records[from + k], from + k)
}

/// `path` with `i` appended.
fn extended(path: &Vec<usize>, i: usize) -> (v: Vec<usize>)
    ensures
        v@ == path@.push(i),
{
    let mut v: Vec<usize> = Vec::new();
    let mut k: usize = 0;
    while k < path.len()
        invariant
            k <= path@.len(),
            v@ == path@.take(k as int),
        decreases path@.len() - k,
    {
        v.push(path[k]);
        proof {
            assert(v@ =~= path@.take(k + 1));
        }
        k = k + 1;
    }
    v.push(i);
    proof {
        assert(path@.take(k as int) =~= path@);
    }
    v
}

/// Checks one candidate against its record and reports it.
fn layer_facts(
    c: &Candidate,
    r: &RecordFacts,
    position: usize,
    path: Vec<usize>,
    parent: Option<LayerId>,
    parent_visible: bool,
    parent_simple: bool,
) -> (f: LayerFacts)
    requires
        layer_error(*c, *r) is None,
        position <= u32::MAX,
    ensures
        describes(f, (path@, *c, parent, parent_visible, parent_simple), *r, position as int),
{
    let visible = match c.hidden {
        Some(h) => !h,
        None => true,
    };
    let effective_visible = parent_visible && visible;
    let diagnostics = layer_notes(&c.notes);
    let simple = parent_simple && simple_compositing(c, r) && c.notes.len() == 0;
    let export = export_capability(c, r, effective_visible, simple);
    let name = match &c.name {
        Some(n) => n.clone(),
        None => String::new(),
    };
    let opacity = match c.opacity {
        Some(o) => o,
        None => 0,
    };
    LayerFacts {
        id: LayerId(position as u32),
        parent_id: parent,
        source_record_index: r.ordinal,
        name,
        kind: classify(c, r),
        bounds: r.bounds,
        visible,
        effective_visible,
        opacity,
        diagnostics,
        export,
        path,
    }
}

/// Prepending two pieces in turn prepends their concatenation.
proof fn lemma_prepend_twice(a: Seq<Placement>, b: Seq<Placement>, r: Result<Seq<Placement>, Seq<char>>)
    ensures
        prepend(a, prepend(b, r)) == prepend(a + b, r),
{
    match r {
        Ok(rest) => {
            assert(a + (b + rest) =~= (a + b) + rest);
        },
        Err(m) => {},
    }
}

/// The records in the order the walk meets them.
pub open spec fn in_order(all: Seq<RecordFacts>, order: Seq<usize>) -> Seq<RecordFacts> {
    order.map_values(|k: usize| all[k as int])
}

/// Walks the decoder's `children`, last first, checking each against the
/// next record and appending its facts to `out`; stops at the first failure.
fn visit(
    children: &Vec<Candidate>,
    all: &Vec<RecordFacts>,
    order: &Vec<usize>,
    path: &Vec<usize>,
    parent: Option<LayerId>,
    parent_visible: bool,
    parent_simple: bool,
    out: &mut Vec<LayerFacts>,
) -> (r: Result<(), PsdError>)
    requires
        forall|k: int| 0 <= k < order@.len() ==> (#[trigger] order@[k]) < all@.len(),
    ensures
        old(out)@.len() <= final(out)@.len(),
        forall|k: int| 0 <= k < old(out)@.len() ==> final(out)@[k] == old(out)@[k],
        match walk(
            children@,
            children@.len(),
            in_order(all@, order@),
            old(out)@.len() as int,
            path@,
            parent,
            parent_visible,
            parent_simple,
        ) {
            Ok(ps) => r is Ok && reports(
                final(out)@,
                old(out)@.len() as int,
                ps,
                in_order(all@, order@),
            ),
            Err(m) => r matches Err(e) && e.code == PsdErrorCode::ParseFailed && e.message@ == m
                && e.cause is None,
        },
    decreases children@,
{
    let ghost records = in_order(all@, order@);
    let ghost start = old(out)@.len() as int;
    let ghost total = walk(
        children@,
        children@.len(),
        records,
        start,
        path@,
        parent,
        parent_visible,
        parent_simple,
    );
    let ghost mut done: Seq<Placement> = Seq::empty();
    let mut n: usize = children.len();
    proof {
        assert(prepend(done, total) == total) by {
            match total {
                Ok(rest) => {
                    assert(done + rest =~= rest);
                },
                Err(m) => {},
            }
        }
    }
    while n > 0
        invariant
            n <= children@.len(),
            forall|k: int| 0 <= k < order@.len() ==> (#[trigger] order@[k]) < all@.len(),
            records == in_order(all@, order@),
            start == old(out)@.len(),
            total == walk(
                children@,
                children@.len(),
                records,
                start,
                path@,
                parent,
                parent_visible,
                parent_simple,
            ),
            total == prepend(
                done,
                walk(
                    children@,
                    n as nat,
                    records,
                    out@.len() as int,
                    path@,
                    parent,
                    parent_visible,
                    parent_simple,
                ),
            ),
            reports(out@, start, done, records),
            forall|k: int| 0 <= k < old(out)@.len() ==> out@[k] == old(out)@[k],
        decreases n,
    {
        let i = n - 1;
        let c = &children[i];
        let position = out.len();
        if position >= order.len() {
            return Err(invalid_candidate(EXTRA_LAYER));
        }
        if position > u32::MAX as usize {
            return Err(invalid_candidate(ID_RANGE));
        }
        let r = &all[order[position]];
        proof {
            assert(records[position as int] == *r);
        }
        match check_layer(c, r) {
            Some(e) => {
                return Err(e);
            },
            None => {},
        }
        let here = extended(path, i);
        let effective = parent_visible && match c.hidden {
            Some(h) => !h,
            None => true,
        };
        let simple = parent_simple && simple_compositing(c, r) && c.notes.len() == 0;
        let facts = layer_facts(c, r, position, extended(path, i), parent, parent_visible, parent_simple);
        let ghost before = out@;
        let ghost placed = (here@, *c, parent, parent_visible, parent_simple);
        out.push(facts);
        proof {
            assert forall|k: int| 0 <= k < done.len() + 1 implies describes(
                #[trigger] out@[start + k],
                (done.push(placed))[k],
                records[start + k],
                start + k,
            ) by {
                if k < done.len() {
                    assert(out@[start + k] == before[start + k]);
                }
            }
            assert(reports(out@, start, done.push(placed), records));
        }
        let ghost middle = out@.len() as int;
        match &c.children {
            Some(kids) => {
                proof {
                    assert(decreases_to!(children@ => children@[i as int]));
                }
                let below = visit(kids, all, order, &here, Some(LayerId(position as u32)), effective, simple, out);
                match below {
                    Err(e) => {
                        return Err(e);
                    },
                    Ok(()) => {},
                }
            },
            None => {},
        }
        proof {
            let b = if c.children is Some {
                walk(
                    c.children->0@,
                    c.children->0@.len(),
                    records,
                    middle,
                    here@,
                    Some(LayerId(position as u32)),
                    effective,
                    simple,
                )
            } else {
                Ok(Seq::<Placement>::empty())
            };
            let bs = b->Ok_0;
            lemma_prepend_twice(done, seq![placed] + bs, walk(
                children@,
                i as nat,
                records,
                out@.len() as int,
                path@,
                parent,
                parent_visible,
                parent_simple,
            ));
            assert(seq![placed] + bs =~= seq![placed].add(bs));
            assert(done + (seq![placed] + bs) =~= done.push(placed) + bs);
            assert forall|k: int| 0 <= k < (done.push(placed) + bs).len() implies describes(
                #[trigger] out@[start + k],
                (done.push(placed) + bs)[k],
                records[start + k],
                start + k,
            ) by {
                if k < done.len() + 1 {
                } else {
                    assert(out@[middle + (k - done.len() - 1)] == out@[start + k]);
                }
            }
            done = done + (seq![placed] + bs);
        }
        n = i;
    }
    proof {
        match total {
            Ok(rest) => {
                assert(rest =~= done + Seq::<Placement>::empty());
                assert(done + Seq::<Placement>::empty() =~= done);
            },
            Err(m) => {},
        }
    }
    Ok(())
}

/// The positions of the records that candidates stand for, last record
/// first: every record but the closing group dividers.
pub open spec fn candidate_order(all: Seq<RecordFacts>) -> Seq<usize>
    decreases all.len(),
{
    if all.len() == 0 {
        Seq::empty()
    } else {
        let rest = candidate_order(all.drop_last());
        if all.last().section_kind != Some(3u32) {
            seq![(all.len() - 1) as usize] + rest
        } else {
            rest
        }
    }
}

/// Every position in the candidate order names a record.
proof fn lemma_order_in_range(all: Seq<RecordFacts>)
    ensures
        forall|k: int|
            0 <= k < candidate_order(all).len() ==> (#[trigger] candidate_order(all)[k]) < all.len(),
    decreases all.len(),
{
    if all.len() > 0 {
        lemma_order_in_range(all.drop_last());
        let rest = candidate_order(all.drop_last());
        assert forall|k: int|
            0 <= k < candidate_order(all).len() implies (#[trigger] candidate_order(all)[k])
            < all.len() by {
            if all.last().section_kind != Some(3u32) {
                if k > 0 {
                    assert(candidate_order(all)[k] == rest[k - 1]);
                }
            } else {
                assert(candidate_order(all)[k] == rest[k]);
            }
        }
    }
}

/// The candidate order of the records `all`.
fn order_of(all: &Vec<RecordFacts>) -> (v: Vec<usize>)
    ensures
        v@ == candidate_order(all@),
{
    let mut v: Vec<usize> = Vec::new();
    let mut k: usize = all.len();
    proof {
        assert(all@.take(k as int) =~= all@);
        assert(v@ + candidate_order(all@) =~= candidate_order(all@));
    }
    while k > 0
        invariant
            k <= all@.len(),
            candidate_order(all@) == v@ + candidate_order(all@.take(k as int)),
        decreases k,
    {
        let prefix = Ghost(all@.take(k as int));
        proof {
            assert(prefix@.drop_last() =~= all@.take(k - 1));
            assert(prefix@.last() == all@[k - 1]);
        }
        if all[k - 1].section_kind != Some(3) {
            proof {
                assert(v@ + (seq![(k - 1) as usize] + candidate_order(all@.take(k - 1))) =~= v@.push(
                    (k - 1) as usize,
                ) + candidate_order(all@.take(k - 1)));
            }
            v.push(k - 1);
        }
        k = k - 1;
    }
    proof {
        assert(all@.take(0) =~= Seq::<RecordFacts>::empty());
        assert(v@ + Seq::<usize>::empty() =~= v@);
    }
    v
}

/// What [`check_layers`] answers: the placements of all layers, or the
/// first failure; fewer candidates than records fail too.
pub open spec fn layers_outcome(
    candidates: Seq<Candidate>,
    all: Seq<RecordFacts>,
    simple_document: bool,
) -> Result<Seq<Placement>, Seq<char>> {
    let records = in_order(all, candidate_order(all));
    match walk(candidates, candidates.len(), records, 0, Seq::empty(), None, true, simple_document) {
        Err(m) => Err(m),
        Ok(ps) => if ps.len() != records.len() {
            Err(LAYER_COUNT_MISMATCH@)
        } else {
            Ok(ps)
        },
    }
}

/// Checks the decoder's top-level layers and all their descendants against
/// the verified records (closing dividers excluded, last record first), and
/// reports one layer per record. `simple_document` is false where a global
/// mask makes every layer's compositing unverified.
pub fn check_layers(candidates: &Vec<Candidate>, all: &Vec<RecordFacts>, simple_document: bool) -> (r:
    Result<Vec<LayerFacts>, PsdError>)
    ensures
        match layers_outcome(candidates@, all@, simple_document) {
            Ok(ps) => r matches Ok(v) && reports(
                v@,
                0,
                ps,
                in_order(all@, candidate_order(all@)),
            ),
            Err(m) => r matches Err(e) && e.code == PsdErrorCode::ParseFailed && e.message@ == m
                && e.cause is None,
        },
{
    let order = order_of(all);
    proof {
        lemma_order_in_range(all@);
    }
    let mut out: Vec<LayerFacts> = Vec::new();
    let root: Vec<usize> = Vec::new();
    match visit(candidates, all, &order, &root, None, true, simple_document, &mut out) {
        Err(e) => {
            return Err(e);
        },
        Ok(()) => {},
    }
    proof {
        assert(root@ =~= Seq::<usize>::empty());
        assert(in_order(all@, order@).len() == order@.len());
    }
    if out.len() != order.len() {
        return Err(invalid_candidate(LAYER_COUNT_MISMATCH));
    }
    Ok(out)
}

} // verus!
