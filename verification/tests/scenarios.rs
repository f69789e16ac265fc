use image_blp::content::{BlpContent, BlpImage};
use image_blp::encode::{encode_blp, encode_blp0, encode_header, EncodeError};
use image_blp::header::{BlpContentTag, BlpFlags, BlpHeader};
use image_blp::locator::MipmapLocator;
use image_blp::parser::{parse_blp, parse_blp_with_externals, parse_direct_content, ParseError};
use image_blp::version::BlpVersion;

fn le32(out: &mut Vec<u8>, v: u32) {
    out.extend_from_slice(&v.to_le_bytes());
}

/// A BLP1 file with paletted content: header, color table, then the
/// levels recorded by the given offset and size tables.
fn blp1_raw1_bytes(
    width: u32,
    height: u32,
    alpha_bits: u32,
    has_mipmaps: u32,
    offsets: &[u32; 16],
    sizes: &[u32; 16],
    levels: &[Vec<u8>],
) -> Vec<u8> {
    let mut b = vec![];
    b.extend_from_slice(b"BLP1");
    le32(&mut b, 1); // direct content
    le32(&mut b, alpha_bits);
    le32(&mut b, width);
    le32(&mut b, height);
    le32(&mut b, 5); // extra
    le32(&mut b, has_mipmaps);
    for o in offsets {
        le32(&mut b, *o);
    }
    for s in sizes {
        le32(&mut b, *s);
    }
    for k in 0..256u32 {
        le32(&mut b, k); // color table
    }
    for lvl in levels {
        b.extend_from_slice(lvl);
    }
    b
}

/// A 2-by-2 paletted image with 8-bit alpha and no mipmaps parses into
/// one level of four indices and four alpha bytes, and encodes back to
/// the very same bytes.
#[test]
fn scenario_blp1_raw1_no_mipmaps() {
    let mut offsets = [0u32; 16];
    let mut sizes = [0u32; 16];
    offsets[0] = 156 + 1024;
    sizes[0] = 8;
    let level0: Vec<u8> = vec![1, 2, 3, 4, 0x10, 0x20, 0x30, 0x40];
    let bytes = blp1_raw1_bytes(2, 2, 8, 0, &offsets, &sizes, &[level0]);
    let image = parse_blp(&bytes).expect("parsed");
    assert_eq!(image.header.version, BlpVersion::Blp1);
    assert_eq!(image.header.content, BlpContentTag::Direct);
    assert_eq!(image.header.width, 2);
    assert_eq!(image.header.height, 2);
    match &image.header.flags {
        BlpFlags::Old { alpha_bits, .. } => assert_eq!(*alpha_bits, 8),
        _ => panic!("wrong flags kind"),
    }
    let raw1 = image.content_raw1().expect("paletted content");
    assert_eq!(raw1.images.len(), 1);
    assert_eq!(raw1.images[0].indexed_rgb.len(), 4);
    assert_eq!(raw1.images[0].indexed_alpha.len(), 4);
    assert_eq!(raw1.images[0].indexed_rgb, vec![1, 2, 3, 4]);
    assert_eq!(raw1.images[0].indexed_alpha, vec![0x10, 0x20, 0x30, 0x40]);
    let reencoded = encode_blp(&image).expect("encoded");
    assert_eq!(reencoded, bytes);
}

/// A BLP0 JPEG file whose ten levels live in sibling files parses into
/// ten level payloads and encodes back to the root bytes and the ten
/// sibling buffers unchanged.
#[test]
fn scenario_blp0_jpeg_external() {
    let mut root = vec![];
    root.extend_from_slice(b"BLP0");
    le32(&mut root, 0); // jpeg content
    le32(&mut root, 8); // alpha depth
    le32(&mut root, 512);
    le32(&mut root, 512);
    le32(&mut root, 5); // extra
    le32(&mut root, 1); // has mipmaps
    le32(&mut root, 2); // stored header size
    root.extend_from_slice(&[0xFF, 0xD8, 0, 0]); // header plus two pad bytes
    let externals: Vec<Vec<u8>> = (0..10u8).map(|i| vec![0xFF, i, i, i]).collect();
    let image = parse_blp_with_externals(&root, &externals).expect("parsed");
    let jpeg = image.content_jpeg().expect("jpeg content");
    assert_eq!(jpeg.images.len(), 10);
    for (i, lvl) in jpeg.images.iter().enumerate() {
        assert_eq!(*lvl, externals[i]);
    }
    let out = encode_blp0(&image).expect("encoded");
    assert_eq!(out.blp_bytes, root);
    assert_eq!(out.blp_mipmaps, externals);
}

/// A BLP2 file with interpolated-alpha block compression, 64 by 64 with
/// mipmaps: the content comes out as that variant, every level's byte
/// length is a whole count of 16-byte blocks, and the bytes survive the
/// round trip.
#[test]
fn scenario_blp2_dxt5_mipmaps() {
    let mut b = vec![];
    b.extend_from_slice(b"BLP2");
    le32(&mut b, 1); // direct content
    b.push(2); // block compression
    b.push(8); // alpha depth
    b.push(7); // interpolated alpha
    b.push(1); // has mipmaps
    le32(&mut b, 64);
    le32(&mut b, 64);
    // seven levels, 64x64 down to 1x1, tiled directly after the color table
    let pixel_counts = [4096u32, 1024, 256, 64, 16, 4, 1];
    let mut offsets = [0u32; 16];
    let mut sizes = [0u32; 16];
    let mut cur = 148 + 1024u32;
    for (i, n) in pixel_counts.iter().enumerate() {
        let blocks = (n + 15) / 16;
        offsets[i] = cur;
        sizes[i] = blocks * 16;
        cur += sizes[i];
    }
    for o in &offsets {
        le32(&mut b, *o);
    }
    for s in &sizes {
        le32(&mut b, *s);
    }
    for _ in 0..256 {
        le32(&mut b, 0); // the unused color table is zero-filled
    }
    for (i, _) in pixel_counts.iter().enumerate() {
        for j in 0..sizes[i] {
            b.push((i as u8) ^ (j as u8));
        }
    }
    let image = parse_blp(&b).expect("parsed");
    let dxt5 = image.content_dxt5().expect("dxt5 content");
    assert_eq!(dxt5.images.len(), 7);
    for (i, n) in pixel_counts.iter().enumerate() {
        let expected = ((n + 15) / 16) * 16;
        assert_eq!(dxt5.images[i].content.len() as u32, expected);
    }
    let reencoded = encode_blp(&image).expect("encoded");
    assert_eq!(reencoded, b);
}

/// An internal locator whose range runs past the end of the input is
/// rejected with the bounds error, for the offset alone and for the
/// offset plus size.
#[test]
fn bounds_rejection() {
    let mut offsets = [0u32; 16];
    let mut sizes = [0u32; 16];
    offsets[0] = 1_000_000;
    sizes[0] = 8;
    let bytes = blp1_raw1_bytes(2, 2, 8, 0, &offsets, &sizes, &[]);
    assert_eq!(parse_blp(&bytes), Err(ParseError::OutOfBounds(0)));

    offsets[0] = 156 + 1024;
    sizes[0] = 1_000_000;
    let bytes = blp1_raw1_bytes(2, 2, 8, 0, &offsets, &sizes, &[vec![0; 8]]);
    assert_eq!(parse_blp(&bytes), Err(ParseError::OutOfBounds(0)));
}

#[test]
fn parse_error_wrong_magic() {
    let bytes = b"XLP1\0\0\0\0".to_vec();
    assert_eq!(
        parse_blp(&bytes),
        Err(ParseError::WrongMagic(b"XLP1".to_vec()))
    );
}

#[test]
fn parse_error_truncated() {
    assert_eq!(parse_blp(b"BL"), Err(ParseError::Truncated));
    assert_eq!(parse_blp(b"BLP1\0\0\0\0"), Err(ParseError::Truncated));
}

#[test]
fn parse_error_unknown_compression() {
    let mut b = vec![];
    b.extend_from_slice(b"BLP2");
    le32(&mut b, 1);
    b.push(9); // no such compression
    b.extend_from_slice(&vec![0u8; 200]);
    assert_eq!(parse_blp(&b), Err(ParseError::Blp2UnknownCompression(9)));
}

#[test]
fn parse_error_unknown_alpha_type() {
    let mut b = vec![];
    b.extend_from_slice(b"BLP2");
    le32(&mut b, 1);
    b.push(2); // block compression
    b.push(8);
    b.push(3); // no such alpha type
    b.push(0);
    le32(&mut b, 4);
    le32(&mut b, 4);
    b.extend_from_slice(&vec![0u8; 128]); // locator tables
    b.extend_from_slice(&vec![0u8; 1024]); // color table
    assert_eq!(parse_blp(&b), Err(ParseError::Blp2UnknownAlphaType(3)));
}

#[test]
fn parse_error_missing_image() {
    let mut root = vec![];
    root.extend_from_slice(b"BLP0");
    le32(&mut root, 0);
    le32(&mut root, 8);
    le32(&mut root, 2);
    le32(&mut root, 2);
    le32(&mut root, 5);
    le32(&mut root, 0); // no mipmaps: still one root level wanted
    le32(&mut root, 0);
    root.extend_from_slice(&[0, 0]);
    let externals: Vec<Vec<u8>> = vec![];
    assert_eq!(
        parse_blp_with_externals(&root, &externals),
        Err(ParseError::MissingImage(0))
    );
}

#[test]
fn parse_error_blp2_no_external_mips() {
    let header = BlpHeader {
        version: BlpVersion::Blp2,
        content: BlpContentTag::Direct,
        flags: BlpFlags::Blp2 {
            compression: image_blp::header::Compression::Raw1,
            alpha_bits: 8,
            alpha_type: 0,
            has_mipmaps: 0,
        },
        width: 2,
        height: 2,
        mipmap_locator: MipmapLocator::External,
    };
    let bytes = vec![0u8; 1024];
    let externals: Vec<Vec<u8>> = vec![];
    assert_eq!(
        parse_direct_content(&header, &externals, &bytes, 0),
        Err(ParseError::Blp2NoExternalMips)
    );
}

#[test]
fn encode_error_width_too_high() {
    let image = BlpImage {
        header: BlpHeader {
            width: 70000,
            height: 2,
            ..Default::default()
        },
        content: BlpContent::Raw1(image_blp::direct::BlpRaw1 {
            cmap: vec![0; 256],
            images: vec![],
        }),
    };
    assert_eq!(encode_blp(&image), Err(EncodeError::WidthTooHigh(70000)));
}

#[test]
fn encode_error_height_too_high() {
    let image = BlpImage {
        header: BlpHeader {
            width: 2,
            height: 70000,
            ..Default::default()
        },
        content: BlpContent::Raw1(image_blp::direct::BlpRaw1 {
            cmap: vec![0; 256],
            images: vec![],
        }),
    };
    assert_eq!(encode_blp(&image), Err(EncodeError::HeightTooHigh(70000)));
}

#[test]
fn encode_error_external_not_supported() {
    let mut output = vec![];
    let header = BlpHeader {
        version: BlpVersion::Blp1,
        mipmap_locator: MipmapLocator::External,
        width: 2,
        height: 2,
        ..Default::default()
    };
    assert_eq!(
        encode_header(&header, &mut output),
        Err(EncodeError::ExternalMipmapsNotSupported(BlpVersion::Blp1))
    );
}

/// A level whose recorded offset lies before the bytes already written is
/// refused; so is one whose payload length differs from its recorded
/// size.
#[test]
fn encode_error_bad_placement() {
    let mut offsets = [0u32; 16];
    let mut sizes = [0u32; 16];
    offsets[0] = 100; // inside the color table
    sizes[0] = 8;
    let level = image_blp::direct::Raw1Image {
        indexed_rgb: vec![1, 2, 3, 4],
        indexed_alpha: vec![5, 6, 7, 8],
    };
    let image = BlpImage {
        header: BlpHeader {
            version: BlpVersion::Blp1,
            content: BlpContentTag::Direct,
            flags: BlpFlags::Old {
                alpha_bits: 8,
                extra: 5,
                has_mipmaps: 0,
            },
            width: 2,
            height: 2,
            mipmap_locator: MipmapLocator::Internal { offsets, sizes },
        },
        content: BlpContent::Raw1(image_blp::direct::BlpRaw1 {
            cmap: vec![0; 256],
            images: vec![level.clone()],
        }),
    };
    assert_eq!(
        encode_blp(&image),
        Err(EncodeError::InvalidOffset {
            mipmap: 0,
            offset: 100,
            filled: 1180,
        })
    );

    let mut offsets2 = [0u32; 16];
    let mut sizes2 = [0u32; 16];
    offsets2[0] = 1180;
    sizes2[0] = 9; // payload holds 8 bytes
    let image2 = BlpImage {
        header: BlpHeader {
            mipmap_locator: MipmapLocator::Internal {
                offsets: offsets2,
                sizes: sizes2,
            },
            ..image.header.clone()
        },
        content: image.content.clone(),
    };
    assert_eq!(
        encode_blp(&image2),
        Err(EncodeError::InvalidMipmapSize {
            mipmap: 0,
            in_header: 9,
            actual: 8,
        })
    );
}

/// Files whose levels sit out of order in the file, with zero-filled gaps
/// between them, still encode byte-for-byte: the encoder pads and places
/// by offset, not by level order.
#[test]
fn roundtrip_gap_between_levels() {
    let mut offsets = [0u32; 16];
    let mut sizes = [0u32; 16];
    offsets[0] = 156 + 1024 + 4; // a four-byte zero gap before the root level
    sizes[0] = 8;
    let mut levels = vec![vec![0u8, 0, 0, 0]]; // the gap bytes themselves
    levels.push(vec![9, 8, 7, 6, 1, 2, 3, 4]);
    let bytes = blp1_raw1_bytes(2, 2, 8, 0, &offsets, &sizes, &levels);
    let image = parse_blp(&bytes).expect("parsed");
    let reencoded = encode_blp(&image).expect("encoded");
    assert_eq!(reencoded, bytes);
}

/// The fixed header sizes per version: the two older layouts carry the
/// two extra fields, the two newer ones the locator tables.
#[test]
fn header_sizes() {
    assert_eq!(BlpHeader::size(BlpVersion::Blp0), 28);
    assert_eq!(BlpHeader::size(BlpVersion::Blp1), 156);
    assert_eq!(BlpHeader::size(BlpVersion::Blp2), 148);
}

/// Raw BGRA reading stops quietly at the first level after the root whose
/// recorded size is zero.
#[test]
fn raw3_stops_at_zero_size() {
    let mut b = vec![];
    b.extend_from_slice(b"BLP2");
    le32(&mut b, 1); // direct content
    b.push(3); // raw BGRA
    b.push(8);
    b.push(0);
    b.push(1); // has mipmaps
    le32(&mut b, 2);
    le32(&mut b, 2);
    let mut offsets = [0u32; 16];
    let mut sizes = [0u32; 16];
    offsets[0] = 148 + 1024;
    sizes[0] = 16; // four pixels
    // the level after the root records size zero: reading stops there
    for o in &offsets {
        le32(&mut b, *o);
    }
    for s in &sizes {
        le32(&mut b, *s);
    }
    for _ in 0..256 {
        le32(&mut b, 0);
    }
    for k in 0..16u8 {
        b.push(k);
    }
    let image = parse_blp(&b).expect("parsed");
    let raw3 = image.content_raw3().expect("raw content");
    assert_eq!(raw3.images.len(), 1);
    assert_eq!(raw3.images[0].pixels.len(), 4);
    assert_eq!(raw3.images[0].pixels[0], u32::from_le_bytes([0, 1, 2, 3]));
    let reencoded = encode_blp(&image).expect("encoded");
    assert_eq!(reencoded, b);
}

#[test]
fn push_primitives() {
    let mut out = vec![];
    image_blp::primitives::push_le_u16(0x1A2B, &mut out);
    assert_eq!(out, [0x2B, 0x1A]);
    let mut out = vec![];
    image_blp::primitives::push_le_u64(0x0102030405060708, &mut out);
    assert_eq!(out, [8, 7, 6, 5, 4, 3, 2, 1]);
}

/// A JPEG file with internal mipmaps: the stored header block keeps its
/// two uncounted padding bytes and the file survives the round trip.
#[test]
fn roundtrip_blp1_jpeg_internal() {
    let mut b = vec![];
    b.extend_from_slice(b"BLP1");
    le32(&mut b, 0); // jpeg content
    le32(&mut b, 8);
    le32(&mut b, 2);
    le32(&mut b, 1);
    le32(&mut b, 5);
    le32(&mut b, 1); // has mipmaps: one extra level
    let mut offsets = [0u32; 16];
    let mut sizes = [0u32; 16];
    // content starts behind the header, the size field and a three-byte
    // stored header block (one counted byte plus the two padding bytes)
    offsets[0] = 156 + 4 + 3;
    sizes[0] = 5;
    offsets[1] = offsets[0] + 5;
    sizes[1] = 2;
    for o in &offsets {
        le32(&mut b, *o);
    }
    for s in &sizes {
        le32(&mut b, *s);
    }
    le32(&mut b, 1); // stored header size, two padding bytes uncounted
    b.extend_from_slice(&[0xFF, 0, 0]);
    b.extend_from_slice(&[10, 11, 12, 13, 14]);
    b.extend_from_slice(&[20, 21]);
    let image = parse_blp(&b).expect("parsed");
    let jpeg = image.content_jpeg().expect("jpeg content");
    assert_eq!(jpeg.header, vec![0xFF, 0, 0]);
    assert_eq!(jpeg.images.len(), 2);
    assert_eq!(jpeg.images[0], vec![10, 11, 12, 13, 14]);
    assert_eq!(jpeg.images[1], vec![20, 21]);
    assert_eq!(jpeg.full_jpeg(0).expect("level"), vec![0xFF, 10, 11, 12, 13, 14]);
    let reencoded = encode_blp(&image).expect("encoded");
    assert_eq!(reencoded, b);
}

/// An unknown content field value falls back to JPEG content rather than
/// failing: the lenient read the format's history calls for.
#[test]
fn lenient_unknown_content_field() {
    let mut b = vec![];
    b.extend_from_slice(b"BLP1");
    le32(&mut b, 7); // no such content value: read as jpeg
    le32(&mut b, 8);
    le32(&mut b, 1);
    le32(&mut b, 1);
    le32(&mut b, 5);
    le32(&mut b, 0);
    let mut offsets = [0u32; 16];
    let mut sizes = [0u32; 16];
    offsets[0] = 156 + 4 + 2;
    sizes[0] = 1;
    for o in &offsets {
        le32(&mut b, *o);
    }
    for s in &sizes {
        le32(&mut b, *s);
    }
    le32(&mut b, 0); // empty stored header, the two padding bytes remain
    b.extend_from_slice(&[0, 0]);
    b.push(42);
    let image = parse_blp(&b).expect("parsed");
    assert_eq!(image.header.content, BlpContentTag::Jpeg);
    assert!(image.content_jpeg().is_some());
}

/// An old-layout header whose stored alpha depth is not one the content
/// allows is coerced to zero while parsing; such a file does not survive
/// the round trip, which is the one deliberately lossy read.
#[test]
fn lenient_alpha_coercion() {
    let mut offsets = [0u32; 16];
    let mut sizes = [0u32; 16];
    offsets[0] = 156 + 1024;
    sizes[0] = 4;
    let mut b = vec![];
    b.extend_from_slice(b"BLP1");
    le32(&mut b, 1); // direct content
    le32(&mut b, 3); // no such alpha depth: coerced to zero
    le32(&mut b, 2);
    le32(&mut b, 2);
    le32(&mut b, 5);
    le32(&mut b, 0);
    for o in &offsets {
        le32(&mut b, *o);
    }
    for s in &sizes {
        le32(&mut b, *s);
    }
    for _ in 0..256 {
        le32(&mut b, 0);
    }
    b.extend_from_slice(&[1, 2, 3, 4]);
    let image = parse_blp(&b).expect("parsed");
    match &image.header.flags {
        BlpFlags::Old { alpha_bits, .. } => assert_eq!(*alpha_bits, 0),
        _ => panic!("wrong flags kind"),
    }
}

/// A paletted file of the oldest version keeps its levels in sibling
/// files: parsing splits each file into indices and packed alpha, and
/// encoding writes the root and every sibling back byte-for-byte.
#[test]
fn roundtrip_blp0_raw1_external() {
    let mut root = vec![];
    root.extend_from_slice(b"BLP0");
    le32(&mut root, 1); // direct content
    le32(&mut root, 8);
    le32(&mut root, 2);
    le32(&mut root, 1);
    le32(&mut root, 5);
    le32(&mut root, 1); // has mipmaps
    for k in 0..256u32 {
        le32(&mut root, k * 3);
    }
    // two pixels at the root, one at the next level, 8-bit alpha each
    let externals: Vec<Vec<u8>> = vec![vec![1, 2, 0xAA, 0xBB], vec![3, 0xCC]];
    let image = parse_blp_with_externals(&root, &externals).expect("parsed");
    let raw1 = image.content_raw1().expect("paletted content");
    assert_eq!(raw1.images.len(), 2);
    assert_eq!(raw1.images[0].indexed_rgb, vec![1, 2]);
    assert_eq!(raw1.images[0].indexed_alpha, vec![0xAA, 0xBB]);
    assert_eq!(raw1.images[1].indexed_rgb, vec![3]);
    assert_eq!(raw1.images[1].indexed_alpha, vec![0xCC]);
    let out = encode_blp0(&image).expect("encoded");
    assert_eq!(out.blp_bytes, root);
    assert_eq!(out.blp_mipmaps, externals);
}

/// Paletted content under the newest version parses from the compression
/// field and survives the round trip.
#[test]
fn roundtrip_blp2_raw1_internal() {
    let mut b = vec![];
    b.extend_from_slice(b"BLP2");
    le32(&mut b, 1); // direct content
    b.push(1); // paletted compression
    b.push(8);
    b.push(0);
    b.push(0); // no mipmaps
    le32(&mut b, 2);
    le32(&mut b, 1);
    let mut offsets = [0u32; 16];
    let mut sizes = [0u32; 16];
    offsets[0] = 148 + 1024;
    sizes[0] = 4; // two indices and two alpha bytes
    for o in &offsets {
        le32(&mut b, *o);
    }
    for s in &sizes {
        le32(&mut b, *s);
    }
    for k in 0..256u32 {
        le32(&mut b, k);
    }
    b.extend_from_slice(&[7, 8, 0x11, 0x22]);
    let image = parse_blp(&b).expect("parsed");
    let raw1 = image.content_raw1().expect("paletted content");
    assert_eq!(raw1.images[0].indexed_rgb, vec![7, 8]);
    assert_eq!(raw1.images[0].indexed_alpha, vec![0x11, 0x22]);
    let reencoded = encode_blp(&image).expect("encoded");
    assert_eq!(reencoded, b);
}
