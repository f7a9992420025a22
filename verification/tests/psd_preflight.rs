use layerlens_core::psd::preflight::{additional_info, inspect, layer_record, packbits_row, Cursor};
use layerlens_core::psd::document::resource_usage;
use layerlens_core::psd::preflight_spec::MAX_GROUP_DEPTH;
use layerlens_core::psd::{ParseLimits, PsdErrorCode};

/// How the saved composite of a sample file is stored.
#[derive(Clone, Copy, PartialEq)]
enum Composite {
    Raw,
    Rle,
    Missing,
}

fn be16(out: &mut Vec<u8>, v: u16) {
    out.extend_from_slice(&v.to_be_bytes());
}

fn be32(out: &mut Vec<u8>, v: u32) {
    out.extend_from_slice(&v.to_be_bytes());
}

/// One layer record with default blending ranges and a padded name.
fn record(rect: [i32; 4], channels: &[(i16, u32)], name: &[u8]) -> Vec<u8> {
    let mut out = Vec::new();
    for edge in rect {
        be32(&mut out, edge as u32);
    }
    be16(&mut out, channels.len() as u16);
    for (id, length) in channels {
        be16(&mut out, *id as u16);
        be32(&mut out, *length);
    }
    out.extend_from_slice(b"8BIMnorm");
    out.extend_from_slice(&[255, 0, 0, 0]);
    let mut extra = Vec::new();
    be32(&mut extra, 0);
    be32(&mut extra, 8);
    extra.extend_from_slice(&[0, 0, 255, 255, 0, 0, 255, 255]);
    extra.push(name.len() as u8);
    extra.extend_from_slice(name);
    while extra.len() % 4 != 0 {
        extra.push(0);
    }
    be32(&mut out, extra.len() as u32);
    out.extend_from_slice(&extra);
    out
}

/// A 4 x 3 RGB/8 sample: one ResolutionInfo resource (id at bytes 38..40,
/// fixed resolutions at 46 and 54), two layers of 3 and 4 pixels, the first
/// record at bytes 72..154 (blend key 118..122, clipping 123, flags 124).
fn sample(composite: Composite, depth: u16) -> Vec<u8> {
    let mut out = Vec::new();
    out.extend_from_slice(b"8BPS");
    be16(&mut out, 1);
    out.extend_from_slice(&[0; 6]);
    be16(&mut out, 3);
    be32(&mut out, 3);
    be32(&mut out, 4);
    be16(&mut out, depth);
    be16(&mut out, 3);
    be32(&mut out, 0);

    let mut resource = Vec::new();
    resource.extend_from_slice(b"8BIM");
    be16(&mut resource, 1005);
    resource.extend_from_slice(&[0, 0]);
    be32(&mut resource, 16);
    be32(&mut resource, 72 << 16);
    be16(&mut resource, 1);
    be16(&mut resource, 1);
    be32(&mut resource, 72 << 16);
    be16(&mut resource, 1);
    be16(&mut resource, 1);
    be32(&mut out, resource.len() as u32);
    out.extend_from_slice(&resource);

    let mut info = Vec::new();
    be16(&mut info, 2);
    info.extend_from_slice(&record([1, 0, 2, 3], &[(-1, 5), (0, 5), (1, 5), (2, 5)], b"Layer 1"));
    info.extend_from_slice(&record([0, 0, 2, 2], &[(0, 6), (1, 6), (2, 6)], b"Layer 2"));
    for _ in 0..4 {
        info.extend_from_slice(&[0, 0, 10, 20, 30]);
    }
    for _ in 0..3 {
        info.extend_from_slice(&[0, 0, 1, 2, 3, 4]);
    }
    let mut section = Vec::new();
    be32(&mut section, info.len() as u32);
    section.extend_from_slice(&info);
    be32(&mut section, 0);
    be32(&mut out, section.len() as u32);
    out.extend_from_slice(&section);

    match composite {
        Composite::Raw => {
            be16(&mut out, 0);
            out.extend_from_slice(&[7; 36]);
        }
        Composite::Rle => {
            be16(&mut out, 1);
            for _ in 0..9 {
                be16(&mut out, 2);
            }
            for _ in 0..9 {
                out.extend_from_slice(&[253, 9]);
            }
        }
        Composite::Missing => {}
    }
    out
}

fn raw() -> Vec<u8> {
    sample(Composite::Raw, 8)
}

#[test]
fn sample_matches_documented_offsets() {
    let bytes = raw();
    assert_eq!(&bytes[38..40], &1005_u16.to_be_bytes());
    assert_eq!(&bytes[46..50], &(72_u32 << 16).to_be_bytes());
    assert_eq!(&bytes[54..58], &(72_u32 << 16).to_be_bytes());
    assert_eq!(&bytes[114..118], b"8BIM");
    assert_eq!(&bytes[118..122], b"norm");
    assert_eq!(bytes[123], 0);
    assert_eq!(bytes[124], 0);
    assert_eq!(&bytes[154..158], &0_u32.to_be_bytes());
}

#[test]
fn accepts_verified_raw_rle_and_missing_composite() {
    for bytes in [sample(Composite::Raw, 8), sample(Composite::Rle, 8)] {
        let header = inspect(&bytes, ParseLimits::default()).unwrap();
        assert_eq!((header.width, header.height), (4, 3));
        assert!(header.has_composite);
        assert!(!header.global_alpha);
    }
    let missing = sample(Composite::Missing, 8);
    assert!(!inspect(&missing, ParseLimits::default()).unwrap().has_composite);
}

#[test]
fn budgets_include_layers_and_are_checked_before_allocations() {
    let raw = raw();
    for limits in [
        ParseLimits {
            max_file_bytes: 100,
            ..ParseLimits::default()
        },
        ParseLimits {
            max_total_pixels: 18,
            ..ParseLimits::default()
        },
        ParseLimits {
            max_layers: 1,
            ..ParseLimits::default()
        },
    ] {
        assert_eq!(
            inspect(&raw, limits).unwrap_err().code,
            PsdErrorCode::ResourceLimit
        );
    }
    inspect(
        &raw,
        ParseLimits {
            max_total_pixels: 19,
            ..ParseLimits::default()
        },
    )
    .unwrap();
}

#[test]
fn rejects_truncation_lengths_and_unverified_depth() {
    let raw = raw();
    for size in [0, 25, 65, raw.len() - 1] {
        assert_eq!(
            inspect(&raw[..size], ParseLimits::default())
                .unwrap_err()
                .code,
            PsdErrorCode::InvalidInput
        );
    }
    let mut huge_section = raw.clone();
    huge_section[30..34].copy_from_slice(&u32::MAX.to_be_bytes());
    assert_eq!(
        inspect(&huge_section, ParseLimits::default())
            .unwrap_err()
            .code,
        PsdErrorCode::InvalidInput
    );
    let rgb16 = sample(Composite::Raw, 16);
    assert_eq!(
        inspect(&rgb16, ParseLimits::default()).unwrap_err().code,
        PsdErrorCode::Unsupported
    );
}

#[test]
fn validates_packbits_runs_including_repetition_and_noop() {
    packbits_row(&[128, 254, 9, 0, 4], 4).unwrap();
    for bytes in [&[3, 1][..], &[252, 1], &[0, 7]] {
        assert_eq!(
            packbits_row(bytes, 4).unwrap_err().code,
            PsdErrorCode::InvalidInput
        );
    }
}

#[test]
fn rejects_unbounded_unicode_and_unknown_tags() {
    let mut depth = 0;
    let unicode = b"8BIMluni\0\0\0\x04\xff\xff\xff\xff";
    assert_eq!(
        additional_info(Cursor::new(unicode), &mut depth)
            .unwrap_err()
            .code,
        PsdErrorCode::InvalidInput
    );
    let descriptor = b"8BIMTySh\0\0\0\0";
    assert_eq!(
        additional_info(Cursor::new(descriptor), &mut depth)
            .unwrap_err()
            .code,
        PsdErrorCode::Unsupported
    );
}

#[test]
fn group_nesting_is_paired_and_limited() {
    let divider = b"8BIMlsct\0\0\0\x04\0\0\0\x03";
    let folder = b"8BIMlsct\0\0\0\x04\0\0\0\x01";
    let mut depth = 0;
    for _ in 0..MAX_GROUP_DEPTH {
        additional_info(Cursor::new(divider), &mut depth).unwrap();
    }
    assert_eq!(
        additional_info(Cursor::new(divider), &mut depth)
            .unwrap_err()
            .code,
        PsdErrorCode::ResourceLimit
    );
    for _ in 0..MAX_GROUP_DEPTH {
        additional_info(Cursor::new(folder), &mut depth).unwrap();
    }
    assert_eq!(depth, 0);
    assert_eq!(
        additional_info(Cursor::new(folder), &mut depth)
            .unwrap_err()
            .code,
        PsdErrorCode::InvalidInput
    );
}

#[test]
fn rejects_icc_invalid_clipping_and_unverified_blend_keys() {
    let raw = raw();
    let mut icc = raw.clone();
    icc[38..40].copy_from_slice(&1039_u16.to_be_bytes());
    assert_eq!(
        inspect(&icc, ParseLimits::default()).unwrap_err().code,
        PsdErrorCode::Unsupported
    );
    let mut clipping = raw.clone();
    clipping[123] = 2;
    assert_eq!(
        inspect(&clipping, ParseLimits::default()).unwrap_err().code,
        PsdErrorCode::InvalidInput
    );
    for key in [b"xxxx", b"mul "] {
        let mut blend = raw.clone();
        blend[118..122].copy_from_slice(key);
        assert_eq!(
            inspect(&blend, ParseLimits::default()).unwrap_err().code,
            PsdErrorCode::Unsupported
        );
        let mut divider = b"8BIMlsct\0\0\0\x0c\0\0\0\x038BIMnorm".to_vec();
        divider[20..24].copy_from_slice(key);
        assert_eq!(
            additional_info(Cursor::new(&divider), &mut 0)
                .unwrap_err()
                .code,
            PsdErrorCode::Unsupported
        );
    }
}

#[test]
fn requires_rgb_pixels_but_allows_empty_or_structural_records() {
    let check = |bytes: &[u8], group_depth: &mut u32| {
        layer_record(
            &mut Cursor::new(bytes),
            &mut 0,
            ParseLimits::default(),
            group_depth,
        )
        .map(|_| ())
    };
    let raw = raw();
    let mut alpha_only = raw[72..154].to_vec();
    alpha_only[16..18].copy_from_slice(&1_u16.to_be_bytes());
    alpha_only.drain(24..42);
    assert_eq!(
        check(&alpha_only, &mut 0).unwrap_err().code,
        PsdErrorCode::Unsupported
    );
    alpha_only[8..12].copy_from_slice(&1_i32.to_be_bytes());
    check(&alpha_only, &mut 0).unwrap();

    let mut group = raw[72..154].to_vec();
    group[16..18].copy_from_slice(&0_u16.to_be_bytes());
    group.drain(18..42);
    assert_eq!(
        check(&group, &mut 0).unwrap_err().code,
        PsdErrorCode::Unsupported
    );
    group[30..34].copy_from_slice(&40_u32.to_be_bytes());
    group.extend_from_slice(b"8BIMlsct\0\0\0\x04\0\0\0\x03");
    let mut depth = 0;
    check(&group, &mut depth).unwrap();
    assert_eq!(depth, 1);
    *group.last_mut().unwrap() = 1;
    check(&group, &mut depth).unwrap();
    assert_eq!(depth, 0);
}

#[test]
fn rejects_nonpositive_resolution_and_unverified_pixel_flags() {
    let raw = raw();
    for offset in [46, 54] {
        for resolution in [0_i32, -65536] {
            let mut bytes = raw.clone();
            bytes[offset..offset + 4].copy_from_slice(&resolution.to_be_bytes());
            assert_eq!(
                inspect(&bytes, ParseLimits::default()).unwrap_err().code,
                PsdErrorCode::InvalidInput
            );
        }
    }
    for flags in [0x08, 0x10, 0x20, 0x40, 0x80] {
        let mut bytes = raw.clone();
        bytes[124] = flags;
        assert_eq!(
            inspect(&bytes, ParseLimits::default()).unwrap_err().code,
            PsdErrorCode::Unsupported
        );
    }
}

#[test]
fn header_reports_merged_transparency_from_negative_layer_count() {
    let mut bytes = raw();
    bytes[70..72].copy_from_slice(&(-2_i16).to_be_bytes());
    let header = inspect(&bytes, ParseLimits::default()).unwrap();
    assert!(header.global_alpha);
    let mut mode = raw();
    mode[24..26].copy_from_slice(&4_u16.to_be_bytes());
    assert_eq!(
        inspect(&mode, ParseLimits::default()).unwrap_err().code,
        PsdErrorCode::Unsupported
    );
    let mut version = raw();
    version[4..6].copy_from_slice(&2_u16.to_be_bytes());
    assert_eq!(
        inspect(&version, ParseLimits::default()).unwrap_err().code,
        PsdErrorCode::Unsupported
    );
}

#[test]
fn header_keeps_each_record_in_file_order() {
    let header = inspect(&raw(), ParseLimits::default()).unwrap();
    assert_eq!(header.total_pixels, 12 + 3 + 4);
    assert_eq!(header.layers.len(), 2);
    let first = &header.layers[0];
    assert_eq!(first.ordinal, 0);
    assert_eq!(
        (first.bounds.x, first.bounds.y, first.bounds.width, first.bounds.height),
        (0, 1, 3, 1)
    );
    assert!(first.has_rgb);
    assert_eq!(&first.blend_mode, b"norm");
    assert!(!first.clipping);
    assert_eq!(first.flags, 0);
    assert!(first.tags.is_empty());
    assert_eq!(first.source_id, None);
    assert_eq!(first.section_kind, None);
    assert!(!first.has_mask && !first.nondefault_blending_ranges);
    let second = &header.layers[1];
    assert_eq!(second.ordinal, 1);
    assert_eq!(
        (second.bounds.x, second.bounds.y, second.bounds.width, second.bounds.height),
        (0, 0, 2, 2)
    );
}

/// A tagged block: `8BIM`, key, length, body and its even padding.
fn block(key: &[u8; 4], body: &[u8]) -> Vec<u8> {
    let mut out = Vec::new();
    out.extend_from_slice(b"8BIM");
    out.extend_from_slice(key);
    be32(&mut out, body.len() as u32);
    out.extend_from_slice(body);
    if body.len() % 2 == 1 {
        out.push(0);
    }
    out
}

/// An empty record (no pixels, no channels) carrying the given blocks.
fn empty_record(blend: &[u8; 4], clipping: u8, flags: u8, blocks: &[Vec<u8>]) -> Vec<u8> {
    let mut out = Vec::new();
    for _ in 0..4 {
        be32(&mut out, 0);
    }
    be16(&mut out, 0);
    out.extend_from_slice(b"8BIM");
    out.extend_from_slice(blend);
    out.extend_from_slice(&[255, clipping, flags, 0]);
    let mut extra = Vec::new();
    be32(&mut extra, 0);
    be32(&mut extra, 0);
    extra.extend_from_slice(&[0, 0, 0, 0]);
    for b in blocks {
        extra.extend_from_slice(b);
    }
    be32(&mut out, extra.len() as u32);
    out.extend_from_slice(&extra);
    out
}

/// A 1 x 1 file without resources or composite holding the given records.
fn file_with(records: &[Vec<u8>]) -> Vec<u8> {
    let mut out = Vec::new();
    out.extend_from_slice(b"8BPS");
    be16(&mut out, 1);
    out.extend_from_slice(&[0; 6]);
    be16(&mut out, 3);
    be32(&mut out, 1);
    be32(&mut out, 1);
    be16(&mut out, 8);
    be16(&mut out, 3);
    be32(&mut out, 0);
    be32(&mut out, 0);
    let mut info = Vec::new();
    be16(&mut info, records.len() as u16);
    for r in records {
        info.extend_from_slice(r);
    }
    if info.len() % 2 == 1 {
        info.push(0);
    }
    let mut section = Vec::new();
    be32(&mut section, info.len() as u32);
    section.extend_from_slice(&info);
    be32(&mut section, 0);
    be32(&mut out, section.len() as u32);
    out.extend_from_slice(&section);
    out
}

#[test]
fn records_keep_layer_ids_divider_kinds_and_block_keys() {
    let bounding = empty_record(
        b"norm",
        0,
        0,
        &[block(b"lyid", &7_u32.to_be_bytes()), block(b"lsct", &3_u32.to_be_bytes())],
    );
    let folder = empty_record(
        b"pass",
        1,
        2,
        &[block(b"lsct", &1_u32.to_be_bytes()), block(b"lyid", &9_u32.to_be_bytes())],
    );
    let header = inspect(&file_with(&[bounding, folder]), ParseLimits::default()).unwrap();
    assert!(!header.has_composite);
    assert_eq!(header.total_pixels, 1);
    assert_eq!(header.layers.len(), 2);
    let (a, b) = (&header.layers[0], &header.layers[1]);
    assert_eq!(a.source_id, Some(7));
    assert_eq!(a.section_kind, Some(3));
    assert_eq!(a.tags, vec![*b"lyid", *b"lsct"]);
    assert!(!a.has_rgb);
    assert_eq!(b.ordinal, 1);
    assert_eq!(b.source_id, Some(9));
    assert_eq!(b.section_kind, Some(1));
    assert_eq!(b.tags, vec![*b"lsct", *b"lyid"]);
    assert_eq!(&b.blend_mode, b"pass");
    assert!(b.clipping);
    assert_eq!(b.flags, 2);
    let usage = resource_usage(&header, 321, ParseLimits::default());
    assert_eq!(usage.source_bytes, 321);
    assert_eq!(usage.canvas_pixels, 1);
    assert_eq!(usage.total_declared_pixels, 1);
    assert_eq!(usage.layer_records, 2);
    assert_eq!(usage.max_decoded_bytes, 128 * 1024 * 1024);
    assert!(usage.global_additional_blocks.is_empty());
}
