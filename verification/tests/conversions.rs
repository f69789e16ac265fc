use image_blp::bitmap::{fill_opaque_alpha, switch_red_blue, Bitmap, RgbaBitmap};
use image_blp::convert::{
    index_alpha, index_alpha_1bit, index_alpha_4bit, index_alpha_8bit, ConvertError,
};
use image_blp::direct::{BlpRaw1, BlpRaw3, DxtnFormat, Raw1Image, Raw3Image};
use image_blp::dxt_codec::{dxtn_to_image, image_to_dxtn, DxtAlgorithm};
use image_blp::header::{BlpContentTag, BlpFlags, BlpHeader};
use image_blp::jpeg::{jpeg_content_from_streams, BlpJpeg};
use image_blp::locator::MipmapLocator;
use image_blp::quantize::image_to_raw1;
use image_blp::raster::{image_to_raw3, raw1_to_image, raw3_to_image};
use image_blp::version::BlpVersion;

fn rgba(width: u32, height: u32, px: &[[u8; 4]]) -> RgbaBitmap {
    let mut pixels = vec![];
    for p in px {
        pixels.extend_from_slice(p);
    }
    assert_eq!(pixels.len(), (width * height * 4) as usize);
    RgbaBitmap {
        width,
        height,
        pixels,
    }
}

fn old_direct_header(width: u32, height: u32, alpha_bits: u32) -> BlpHeader {
    BlpHeader {
        version: BlpVersion::Blp1,
        content: BlpContentTag::Direct,
        flags: BlpFlags::Old {
            alpha_bits,
            extra: 5,
            has_mipmaps: 0,
        },
        width,
        height,
        mipmap_locator: MipmapLocator::Internal {
            offsets: [0; 16],
            sizes: [0; 16],
        },
    }
}

/// One bit per pixel, least significant bit first; a transparent pixel
/// leaves its bit clear.
#[test]
fn alpha_pack_one_bit() {
    let img = rgba(
        2,
        2,
        &[[0, 0, 0, 1], [0, 0, 0, 0], [0, 0, 0, 200], [0, 0, 0, 1]],
    );
    assert_eq!(index_alpha_1bit(&img), vec![0b1101]);
    let nine = rgba(
        3,
        3,
        &[
            [0, 0, 0, 1],
            [0, 0, 0, 1],
            [0, 0, 0, 1],
            [0, 0, 0, 0],
            [0, 0, 0, 0],
            [0, 0, 0, 0],
            [0, 0, 0, 1],
            [0, 0, 0, 1],
            [0, 0, 0, 1],
        ],
    );
    assert_eq!(index_alpha_1bit(&nine), vec![0b1100_0111, 0b0000_0001]);
}

/// The four-bit scale is the stored formula: alpha times 123, divided by
/// 255. The value runs past the low nibble on purpose; the second pixel's
/// shifted value is laid over it.
#[test]
fn alpha_pack_four_bit_formula() {
    let img = rgba(2, 1, &[[0, 0, 0, 255], [0, 0, 0, 0]]);
    assert_eq!(index_alpha_4bit(&img), vec![123]);
    let img2 = rgba(2, 1, &[[0, 0, 0, 255], [0, 0, 0, 255]]);
    assert_eq!(index_alpha_4bit(&img2), vec![123 | (123u8 << 4)]);
    let img3 = rgba(1, 1, &[[0, 0, 0, 100]]);
    assert_eq!(index_alpha_4bit(&img3), vec![(100 * 123 / 255) as u8]);
}

/// Eight bits per pixel stores the channel verbatim, and unpacking it
/// through the paletted decoder recovers it exactly.
#[test]
fn alpha_pack_eight_bit_roundtrip() {
    let img = rgba(
        2,
        2,
        &[
            [0, 0, 0, 10],
            [0, 0, 0, 20],
            [0, 0, 0, 30],
            [0, 0, 0, 255],
        ],
    );
    let packed = index_alpha_8bit(&img);
    assert_eq!(packed, vec![10, 20, 30, 255]);
    let content = BlpRaw1 {
        cmap: (0..256u32).collect(),
        images: vec![Raw1Image {
            indexed_rgb: vec![0, 1, 2, 3],
            indexed_alpha: packed,
        }],
    };
    let header = old_direct_header(2, 2, 8);
    match raw1_to_image(&header, &content, 0).expect("decoded") {
        Bitmap::Rgba(bm) => {
            assert_eq!(bm.pixels[3], 10);
            assert_eq!(bm.pixels[7], 20);
            assert_eq!(bm.pixels[11], 30);
            assert_eq!(bm.pixels[15], 255);
        }
        _ => panic!("expected an image with alpha"),
    }
}

/// Unpacking a one-bit channel recovers pixels that were a single bit to
/// begin with.
#[test]
fn alpha_pack_one_bit_roundtrip() {
    let img = rgba(
        2,
        2,
        &[[0, 0, 0, 1], [0, 0, 0, 0], [0, 0, 0, 1], [0, 0, 0, 1]],
    );
    let packed = index_alpha_1bit(&img);
    let content = BlpRaw1 {
        cmap: (0..256u32).collect(),
        images: vec![Raw1Image {
            indexed_rgb: vec![0, 1, 2, 3],
            indexed_alpha: packed,
        }],
    };
    let header = old_direct_header(2, 2, 1);
    match raw1_to_image(&header, &content, 0).expect("decoded") {
        Bitmap::Rgba(bm) => {
            assert_eq!(
                vec![bm.pixels[3], bm.pixels[7], bm.pixels[11], bm.pixels[15]],
                vec![1, 0, 1, 1]
            );
        }
        _ => panic!("expected an image with alpha"),
    }
}

#[test]
fn alpha_invalid_depth() {
    let img = rgba(1, 1, &[[0, 0, 0, 0]]);
    assert_eq!(
        index_alpha(&img, 5),
        Err(ConvertError::Raw1InvalidAlphaBits(5))
    );
}

/// The shared JPEG header is the longest common prefix plus the two
/// padding bytes, and gluing the trimmed header back onto each residual
/// recovers every original stream.
#[test]
fn jpeg_factoring_reconstructs() {
    let streams: Vec<Vec<u8>> = vec![
        vec![1, 2, 3, 4, 5, 6],
        vec![1, 2, 3, 9, 9],
        vec![1, 2, 3],
    ];
    let jpeg = jpeg_content_from_streams(streams.clone());
    assert_eq!(jpeg.header, vec![1, 2, 3, 0, 0]);
    assert!(jpeg.header.len() <= 626);
    for (i, s) in streams.iter().enumerate() {
        assert_eq!(jpeg.full_jpeg(i).expect("level"), *s);
    }
    assert_eq!(jpeg.full_jpeg(3), None);
}

/// A predicted locator lays the levels out one after another behind the
/// header and the stored JPEG header block.
#[test]
fn jpeg_predicted_locator() {
    let jpeg = BlpJpeg {
        header: vec![1, 2, 0, 0],
        images: vec![vec![5; 10], vec![6; 3]],
    };
    match jpeg.mipmap_locator(BlpVersion::Blp1) {
        MipmapLocator::Internal { offsets, sizes } => {
            assert_eq!(offsets[0], 156 + 4 + 4);
            assert_eq!(sizes[0], 10);
            assert_eq!(offsets[1], 156 + 4 + 4 + 10);
            assert_eq!(sizes[1], 3);
            assert_eq!(offsets[2], 0);
        }
        _ => panic!("expected an internal locator"),
    }
}

/// Raw content keeps each channel in its own byte lane of the stored
/// 32-bit pixel.
#[test]
fn raw3_conversion_roundtrip() {
    let img = rgba(2, 1, &[[1, 2, 3, 4], [250, 251, 252, 253]]);
    let content = image_to_raw3(&vec![img.clone()]);
    assert_eq!(content.cmap, vec![0; 256]);
    assert_eq!(content.images.len(), 1);
    assert_eq!(
        content.images[0].pixels[0],
        (1u32 << 16) | (2 << 8) | 3 | (4u32 << 24)
    );
    let header = old_direct_header(2, 1, 8);
    let back = raw3_to_image(&header, &content, 0).expect("decoded");
    assert_eq!(back.pixels, img.pixels);
}

#[test]
fn raw3_level_size_checked() {
    let header = old_direct_header(2, 2, 8);
    let content = BlpRaw3 {
        cmap: vec![0; 256],
        images: vec![Raw3Image { pixels: vec![0; 3] }],
    };
    assert_eq!(
        raw3_to_image(&header, &content, 0),
        Err(ConvertError::MismatchSizes(0, 2, 2, 3))
    );
    assert_eq!(
        raw3_to_image(&header, &content, 1),
        Err(ConvertError::MissingImage(1))
    );
}

/// Too few alpha bytes for the claimed pixel count is its own error;
/// spare trailing bytes are tolerated.
#[test]
fn raw1_alpha_size_checked() {
    let header = old_direct_header(2, 2, 1);
    let content = BlpRaw1 {
        cmap: vec![0; 256],
        images: vec![Raw1Image {
            indexed_rgb: vec![0; 4],
            indexed_alpha: vec![],
        }],
    };
    assert_eq!(
        raw1_to_image(&header, &content, 0),
        Err(ConvertError::MismatchAlphaSizes(0, 2, 2, 0))
    );
    let content_pad = BlpRaw1 {
        cmap: vec![0; 256],
        images: vec![Raw1Image {
            indexed_rgb: vec![0; 4],
            indexed_alpha: vec![0b1010, 0xFF],
        }],
    };
    assert!(raw1_to_image(&header, &content_pad, 0).is_ok());
}

#[test]
fn raw1_decode_checks() {
    let header = old_direct_header(2, 2, 8);
    let content = BlpRaw1 {
        cmap: vec![0; 100],
        images: vec![Raw1Image {
            indexed_rgb: vec![0; 4],
            indexed_alpha: vec![0; 4],
        }],
    };
    assert_eq!(
        raw1_to_image(&header, &content, 0),
        Err(ConvertError::ColorMapLengthInvalid(100))
    );
    let header9 = old_direct_header(2, 2, 9);
    let content9 = BlpRaw1 {
        cmap: vec![0; 256],
        images: vec![Raw1Image {
            indexed_rgb: vec![0; 4],
            indexed_alpha: vec![0; 4],
        }],
    };
    assert_eq!(
        raw1_to_image(&header9, &content9, 0),
        Err(ConvertError::Raw1InvalidAlphaBits(9))
    );
}

#[test]
fn channel_helpers() {
    let mut img = rgba(1, 1, &[[1, 2, 3, 4]]);
    switch_red_blue(&mut img);
    assert_eq!(img.pixels, vec![3, 2, 1, 4]);
    fill_opaque_alpha(&mut img);
    assert_eq!(img.pixels, vec![3, 2, 1, 255]);
}

/// The quantizer produces the 255-color palette and one index per pixel;
/// a solid image maps every pixel to the same index.
#[test]
fn quantize_solid_image() {
    let img = rgba(
        2,
        2,
        &[
            [10, 20, 30, 255],
            [10, 20, 30, 255],
            [10, 20, 30, 255],
            [10, 20, 30, 255],
        ],
    );
    let content = image_to_raw1(&vec![img], 8).expect("quantized");
    assert_eq!(content.cmap.len(), 255);
    // entries pack three palette bytes as 0x00BBGGRR: the top byte stays clear
    assert!(content.cmap.iter().all(|&c| c <= 0x00FF_FFFF));
    assert_eq!(content.images.len(), 1);
    assert_eq!(content.images[0].indexed_rgb.len(), 4);
    let first = content.images[0].indexed_rgb[0];
    assert!(content.images[0].indexed_rgb.iter().all(|&i| i == first));
    assert_eq!(content.images[0].indexed_alpha, vec![255, 255, 255, 255]);
}

/// The block compressor turns a 4-by-4 image into exactly one block, and
/// decompressing a solid-color block recovers the solid color.
#[test]
fn dxt_compress_decompress_solid() {
    let px = [[200u8, 100, 50, 255]; 16];
    let img = rgba(4, 4, &px);
    let content = image_to_dxtn(
        &vec![img.clone()],
        DxtnFormat::Dxt1,
        DxtAlgorithm::RangeFit,
    );
    assert_eq!(content.format, DxtnFormat::Dxt1);
    assert_eq!(content.images.len(), 1);
    assert_eq!(content.images[0].content.len(), 8);
    let header = BlpHeader {
        version: BlpVersion::Blp2,
        content: BlpContentTag::Direct,
        flags: BlpFlags::Blp2 {
            compression: image_blp::header::Compression::Dxtc,
            alpha_bits: 0,
            alpha_type: 0,
            has_mipmaps: 0,
        },
        width: 4,
        height: 4,
        mipmap_locator: MipmapLocator::Internal {
            offsets: [0; 16],
            sizes: [0; 16],
        },
    };
    let back = dxtn_to_image(&header, &content, 0).expect("decoded");
    assert_eq!(back.width, 4);
    assert_eq!(back.height, 4);
    // a solid color survives block compression pixel-for-pixel, up to
    // the 5-6-5 rounding of the color endpoints
    for p in back.pixels.chunks(4) {
        assert!((p[0] as i32 - 200).abs() <= 8);
        assert!((p[1] as i32 - 100).abs() <= 8);
        assert!((p[2] as i32 - 50).abs() <= 8);
        assert_eq!(p[3], 255);
    }
}

/// The four-bit unpack quirk: an even pixel reads its whole byte back,
/// the neighbouring nibble included; an odd pixel reads the high nibble.
#[test]
fn alpha_unpack_four_bit_quirk() {
    let header = old_direct_header(2, 1, 4);
    let content = BlpRaw1 {
        cmap: vec![0; 256],
        images: vec![Raw1Image {
            indexed_rgb: vec![0, 0],
            indexed_alpha: vec![0xAB],
        }],
    };
    match raw1_to_image(&header, &content, 0).expect("decoded") {
        Bitmap::Rgba(bm) => {
            assert_eq!(bm.pixels[3], 0xAB);
            assert_eq!(bm.pixels[7], 0x0A);
        }
        _ => panic!("expected an image with alpha"),
    }
}
