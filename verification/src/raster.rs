//! Decoding stored content layouts into raster images and encoding
//! raster images back into them.

use vstd::prelude::*;
use crate::bitmap::{rgba_pixel_count, rgba_wf, RgbaBitmap};
use crate::convert::{
    spec_unpack_alpha_1, spec_unpack_alpha_4, ConvertError,
};
use crate::direct::BlpRaw1;
use crate::header::BlpHeader;

verus! {

/// The red component of a color table entry: its lowest byte.
pub open spec fn spec_cmap_red(c: u32) -> u8 {
    (c & 0xFF) as u8
}

/// The green component of a color table entry: its second byte.
pub open spec fn spec_cmap_green(c: u32) -> u8 {
    ((c >> 8u32) & 0xFF) as u8
}

/// The blue component of a color table entry: its third byte.
pub open spec fn spec_cmap_blue(c: u32) -> u8 {
    ((c >> 16u32) & 0xFF) as u8
}

/// The alpha read back for pixel `i` at the given depth.
pub open spec fn spec_raw1_alpha(ab: u32, packed: Seq<u8>, i: int) -> u8 {
    if ab == 1u32 {
        spec_unpack_alpha_1(packed, i)
    } else if ab == 4u32 {
        spec_unpack_alpha_4(packed, i)
    } else {
        packed[i]
    }
}

/// The first rule a paletted level violates when turned into a raster
/// image: the level must exist, the color table must hold 256 entries,
/// the indices must cover the level's pixels exactly, and the packed
/// alpha must cover them at the header's depth, which must be known.
pub open spec fn spec_raw1_to_image_err(h: BlpHeader, c: BlpRaw1, l: int) -> Option<ConvertError> {
    if l >= c.images@.len() {
        Some(ConvertError::MissingImage(l as usize))
    } else if c.cmap@.len() != 256 {
        Some(ConvertError::ColorMapLengthInvalid(c.cmap@.len() as usize))
    } else {
        let size = crate::header::spec_mipmap_size(h, l as u32);
        let n = (size.0 as int) * (size.1 as int);
        let img = c.images@[l];
        let rgb_len = img.indexed_rgb@.len() as int;
        let alen = img.indexed_alpha@.len() as int;
        let ab = crate::header::spec_alpha_bits(h.flags);
        if n != rgb_len {
            Some(ConvertError::MismatchSizes(l as usize, size.0, size.1, rgb_len as usize))
        } else if ab == 0u32 {
            None
        } else if ab == 1u32 {
            if n > 8 * alen {
                Some(ConvertError::MismatchAlphaSizes(l as usize, size.0, size.1, alen as usize))
            } else {
                None
            }
        } else if ab == 4u32 {
            if n > 2 * alen {
                Some(ConvertError::MismatchAlphaSizes(l as usize, size.0, size.1, alen as usize))
            } else {
                None
            }
        } else if ab == 8u32 {
            if n != alen {
                Some(ConvertError::MismatchAlphaSizes(l as usize, size.0, size.1, alen as usize))
            } else {
                None
            }
        } else {
            Some(ConvertError::Raw1InvalidAlphaBits(ab))
        }
    }
}

/// A raster image without alpha decoded from a paletted level: every
/// pixel's channels looked up in the color table.
#[verifier::opaque]
pub open spec fn spec_raw1_rgb_ok(h: BlpHeader, c: BlpRaw1, l: int, bm: crate::bitmap::RgbBitmap) -> bool {
    let size = crate::header::spec_mipmap_size(h, l as u32);
    let img = c.images@[l];
    bm.width == size.0 && bm.height == size.1 && bm.pixels@.len() == 3 * (size.0 as int) * (
    size.1 as int) && forall|i: int|
        0 <= i < (size.0 as int) * (size.1 as int) ==> {
            let color = c.cmap@[img.indexed_rgb@[i] as int];
            #[trigger] bm.pixels@[3 * i] == spec_cmap_red(color) && bm.pixels@[3 * i + 1]
                == spec_cmap_green(color) && bm.pixels@[3 * i + 2] == spec_cmap_blue(color)
        }
}

/// A raster image with alpha decoded from a paletted level: every pixel's
/// channels looked up in the color table and its alpha unpacked at the
/// header's depth.
#[verifier::opaque]
pub open spec fn spec_raw1_rgba_ok(h: BlpHeader, c: BlpRaw1, l: int, bm: RgbaBitmap) -> bool {
    let size = crate::header::spec_mipmap_size(h, l as u32);
    let img = c.images@[l];
    let ab = crate::header::spec_alpha_bits(h.flags);
    bm.width == size.0 && bm.height == size.1 && bm.pixels@.len() == 4 * (size.0 as int) * (
    size.1 as int) && forall|i: int|
        0 <= i < (size.0 as int) * (size.1 as int) ==> {
            let color = c.cmap@[img.indexed_rgb@[i] as int];
            #[trigger] bm.pixels@[4 * i] == spec_cmap_red(color) && bm.pixels@[4 * i + 1]
                == spec_cmap_green(color) && bm.pixels@[4 * i + 2] == spec_cmap_blue(color)
                && bm.pixels@[4 * i + 3] == spec_raw1_alpha(ab, img.indexed_alpha@, i)
        }
}

/// Decode one paletted mipmap level into a raster image: without an alpha
/// channel at depth zero, with one at the other known depths.
#[verifier::rlimit(100)]
#[verifier::spinoff_prover]
pub fn raw1_to_image(header: &BlpHeader, image: &BlpRaw1, mipmap_level: usize) -> (r: Result<
    crate::bitmap::Bitmap,
    ConvertError,
>)
    requires
        mipmap_level < 32,
    ensures
        match r {
            Ok(bm) => spec_raw1_to_image_err(*header, *image, mipmap_level as int) is None && (
            match bm {
                crate::bitmap::Bitmap::Rgb(v) => crate::header::spec_alpha_bits(header.flags)
                    == 0u32 && spec_raw1_rgb_ok(*header, *image, mipmap_level as int, v),
                crate::bitmap::Bitmap::Rgba(v) => crate::header::spec_alpha_bits(header.flags)
                    != 0u32 && spec_raw1_rgba_ok(*header, *image, mipmap_level as int, v),
            }),
            Err(e) => spec_raw1_to_image_err(*header, *image, mipmap_level as int) == Some(e),
        },
{
    let ghost l = mipmap_level as int;
    if mipmap_level >= image.images.len() {
        return Err(ConvertError::MissingImage(mipmap_level));
    }
    if image.cmap.len() != 256 {
        return Err(ConvertError::ColorMapLengthInvalid(image.cmap.len()));
    }
    let (width, height) = header.mipmap_size(mipmap_level as u32);
    let raw_image = &image.images[mipmap_level];
    proof {
        vstd::arithmetic::mul::lemma_mul_upper_bound(
            width as int,
            0xffff_ffff,
            height as int,
            0xffff_ffff,
        );
        vstd::arithmetic::mul::lemma_mul_nonnegative(width as int, height as int);
    }
    let n64 = (width as u64) * (height as u64);
    let rgb_len = raw_image.indexed_rgb.len();
    if n64 != (rgb_len as u64) {
        return Err(ConvertError::MismatchSizes(mipmap_level, width, height, rgb_len));
    }
    let n = rgb_len;
    let alen = raw_image.indexed_alpha.len();
    let alpha_bits = header.alpha_bits();
    if alpha_bits == 0 {
        let mut pixels: Vec<u8> = Vec::new();
        let mut i: usize = 0;
        while i < n
            invariant
                0 <= i <= n,
                n == raw_image.indexed_rgb@.len(),
                raw_image == image.images@[l],
                0 <= l < image.images@.len(),
                image.cmap@.len() == 256,
                pixels@.len() == 3 * i,
                forall|j: int|
                    0 <= j < i ==> {
                        let color = image.cmap@[raw_image.indexed_rgb@[j] as int];
                        #[trigger] pixels@[3 * j] == spec_cmap_red(color) && pixels@[3 * j + 1]
                            == spec_cmap_green(color) && pixels@[3 * j + 2] == spec_cmap_blue(
                            color,
                        )
                    },
            decreases n - i,
        {
            let ci = raw_image.indexed_rgb[i];
            let color = image.cmap[ci as usize];
            pixels.push((color & 0xFF) as u8);
            pixels.push(((color >> 8u32) & 0xFF) as u8);
            pixels.push(((color >> 16u32) & 0xFF) as u8);
            proof {
                assert(pixels@[3 * (i as int)] == spec_cmap_red(color));
                assert(pixels@[3 * (i as int) + 1] == spec_cmap_green(color));
                assert(pixels@[3 * (i as int) + 2] == spec_cmap_blue(color));
            }
            i = i + 1;
        }
        let bm = crate::bitmap::RgbBitmap { width, height, pixels };
        proof {
            reveal(spec_raw1_rgb_ok);
            vstd::arithmetic::mul::lemma_mul_is_associative(3, width as int, height as int);
            assert forall|ii: int| #![trigger bm.pixels@[3 * ii]]
                0 <= ii < (width as int) * (height as int) implies ({
                let color = image.cmap@[image.images@[l].indexed_rgb@[ii] as int];
                bm.pixels@[3 * ii] == spec_cmap_red(color) && bm.pixels@[3 * ii + 1]
                    == spec_cmap_green(color) && bm.pixels@[3 * ii + 2] == spec_cmap_blue(color)
            }) by {
                assert(bm.pixels@[3 * ii] == spec_cmap_red(
                    image.cmap@[raw_image.indexed_rgb@[ii] as int],
                ));
            }
        }
        Ok(crate::bitmap::Bitmap::Rgb(bm))
    } else if alpha_bits == 1 || alpha_bits == 4 || alpha_bits == 8 {
        if alpha_bits == 1 {
            if (alen as u128) * 8 < (n64 as u128) {
                return Err(ConvertError::MismatchAlphaSizes(mipmap_level, width, height, alen));
            }
        } else if alpha_bits == 4 {
            if (alen as u128) * 2 < (n64 as u128) {
                return Err(ConvertError::MismatchAlphaSizes(mipmap_level, width, height, alen));
            }
        } else {
            if (alen as u64) != n64 {
                return Err(ConvertError::MismatchAlphaSizes(mipmap_level, width, height, alen));
            }
        }
        let ghost rgbs = raw_image.indexed_rgb@;
        let ghost alpha_bytes = raw_image.indexed_alpha@;
        let ghost cmap_s = image.cmap@;
        let mut pixels: Vec<u8> = Vec::new();
        let mut i: usize = 0;
        while i < n
            invariant
                0 <= i <= n,
                n == rgbs.len(),
                rgbs == raw_image.indexed_rgb@,
                alpha_bytes == raw_image.indexed_alpha@,
                cmap_s == image.cmap@,
                cmap_s.len() == 256,
                alen == alpha_bytes.len(),
                alpha_bits == crate::header::spec_alpha_bits(header.flags),
                alpha_bits == 1u32 ==> n <= 8 * alen,
                alpha_bits == 4u32 ==> n <= 2 * alen,
                alpha_bits == 8u32 ==> n == alen,
                alpha_bits == 1u32 || alpha_bits == 4u32 || alpha_bits == 8u32,
                pixels@.len() == 4 * i,
                forall|j: int|
                    0 <= j < i ==> #[trigger] pixels@[4 * j] == spec_cmap_red(
                        cmap_s[rgbs[j] as int],
                    ),
                forall|j: int|
                    0 <= j < i ==> #[trigger] pixels@[4 * j + 1] == spec_cmap_green(
                        cmap_s[rgbs[j] as int],
                    ),
                forall|j: int|
                    0 <= j < i ==> #[trigger] pixels@[4 * j + 2] == spec_cmap_blue(
                        cmap_s[rgbs[j] as int],
                    ),
                forall|j: int|
                    0 <= j < i ==> #[trigger] pixels@[4 * j + 3] == spec_raw1_alpha(
                        alpha_bits,
                        alpha_bytes,
                        j,
                    ),
            decreases n - i,
        {
            let ci = raw_image.indexed_rgb[i];
            let color = image.cmap[ci as usize];
            pixels.push((color & 0xFF) as u8);
            pixels.push(((color >> 8u32) & 0xFF) as u8);
            pixels.push(((color >> 16u32) & 0xFF) as u8);
            let a: u8 = if alpha_bits == 1 {
                (raw_image.indexed_alpha[i / 8] >> ((i % 8) as u8)) & 1
            } else if alpha_bits == 4 {
                let alpha_block = raw_image.indexed_alpha[i / 2];
                if i % 2 == 0 {
                    alpha_block
                } else {
                    (alpha_block >> 4u8) & 0xFF
                }
            } else {
                raw_image.indexed_alpha[i]
            };
            pixels.push(a);
            proof {
                assert(pixels@[4 * (i as int)] == spec_cmap_red(cmap_s[rgbs[i as int] as int]));
                assert(pixels@[4 * (i as int) + 1] == spec_cmap_green(
                    cmap_s[rgbs[i as int] as int],
                ));
                assert(pixels@[4 * (i as int) + 2] == spec_cmap_blue(
                    cmap_s[rgbs[i as int] as int],
                ));
                assert(pixels@[4 * (i as int) + 3] == spec_raw1_alpha(
                    alpha_bits,
                    alpha_bytes,
                    i as int,
                ));
            }
            i = i + 1;
        }
        let bm = RgbaBitmap { width, height, pixels };
        proof {
            reveal(spec_raw1_rgba_ok);
            vstd::arithmetic::mul::lemma_mul_is_associative(4, width as int, height as int);
            assert forall|ii: int| #![trigger bm.pixels@[4 * ii]]
                0 <= ii < (width as int) * (height as int) implies ({
                let color = image.cmap@[image.images@[l].indexed_rgb@[ii] as int];
                bm.pixels@[4 * ii] == spec_cmap_red(color) && bm.pixels@[4 * ii + 1]
                    == spec_cmap_green(color) && bm.pixels@[4 * ii + 2] == spec_cmap_blue(color)
                    && bm.pixels@[4 * ii + 3] == spec_raw1_alpha(
                    alpha_bits,
                    image.images@[l].indexed_alpha@,
                    ii,
                )
            }) by {
                assert(bm.pixels@[4 * ii] == spec_cmap_red(cmap_s[rgbs[ii] as int]));
                assert(bm.pixels@[4 * ii + 1] == spec_cmap_green(cmap_s[rgbs[ii] as int]));
                assert(bm.pixels@[4 * ii + 2] == spec_cmap_blue(cmap_s[rgbs[ii] as int]));
                assert(bm.pixels@[4 * ii + 3] == spec_raw1_alpha(alpha_bits, alpha_bytes, ii));
            }
        }
        Ok(crate::bitmap::Bitmap::Rgba(bm))
    } else {
        Err(ConvertError::Raw1InvalidAlphaBits(alpha_bits))
    }
}

/// The first rule a raw level violates when turned into a raster image:
/// the level must exist and hold exactly one 32-bit pixel per position.
pub open spec fn spec_raw3_to_image_err(h: BlpHeader, c: crate::direct::BlpRaw3, l: int) -> Option<
    ConvertError,
> {
    if l >= c.images@.len() {
        Some(ConvertError::MissingImage(l as usize))
    } else {
        let size = crate::header::spec_mipmap_size(h, l as u32);
        let n = (size.0 as int) * (size.1 as int);
        let plen = c.images@[l].pixels@.len() as int;
        if n != plen {
            Some(ConvertError::MismatchSizes(l as usize, size.0, size.1, plen as usize))
        } else {
            None
        }
    }
}

/// A raster image decoded from a raw level: each stored 32-bit value
/// unpacked into its four channels.
#[verifier::opaque]
pub open spec fn spec_raw3_rgba_ok(
    h: BlpHeader,
    c: crate::direct::BlpRaw3,
    l: int,
    bm: RgbaBitmap,
) -> bool {
    let size = crate::header::spec_mipmap_size(h, l as u32);
    let img = c.images@[l];
    bm.width == size.0 && bm.height == size.1 && bm.pixels@.len() == 4 * (size.0 as int) * (
    size.1 as int) && forall|i: int|
        0 <= i < (size.0 as int) * (size.1 as int) ==> {
            let color = img.pixels@[i];
            #[trigger] bm.pixels@[4 * i] == spec_cmap_blue(color) && bm.pixels@[4 * i + 1]
                == spec_cmap_green(color) && bm.pixels@[4 * i + 2] == spec_cmap_red(color)
                && bm.pixels@[4 * i + 3] == (color >> 24u32) as u8
        }
}

/// Decode one raw mipmap level into a raster image.
#[verifier::rlimit(100)]
#[verifier::spinoff_prover]
pub fn raw3_to_image(header: &BlpHeader, image: &crate::direct::BlpRaw3, mipmap_level: usize) -> (r:
    Result<RgbaBitmap, ConvertError>)
    requires
        mipmap_level < 32,
    ensures
        match r {
            Ok(bm) => spec_raw3_to_image_err(*header, *image, mipmap_level as int) is None
                && spec_raw3_rgba_ok(*header, *image, mipmap_level as int, bm),
            Err(e) => spec_raw3_to_image_err(*header, *image, mipmap_level as int) == Some(e),
        },
{
    let ghost l = mipmap_level as int;
    if mipmap_level >= image.images.len() {
        return Err(ConvertError::MissingImage(mipmap_level));
    }
    let raw_image = &image.images[mipmap_level];
    let (width, height) = header.mipmap_size(mipmap_level as u32);
    proof {
        vstd::arithmetic::mul::lemma_mul_upper_bound(
            width as int,
            0xffff_ffff,
            height as int,
            0xffff_ffff,
        );
        vstd::arithmetic::mul::lemma_mul_nonnegative(width as int, height as int);
    }
    let n64 = (width as u64) * (height as u64);
    let plen = raw_image.pixels.len();
    if n64 != (plen as u64) {
        return Err(ConvertError::MismatchSizes(mipmap_level, width, height, plen));
    }
    let n = plen;
    let ghost src = raw_image.pixels@;
    let mut pixels: Vec<u8> = Vec::new();
    let mut i: usize = 0;
    while i < n
        invariant
            0 <= i <= n,
            n == src.len(),
            src == raw_image.pixels@,
            pixels@.len() == 4 * i,
            forall|j: int| 0 <= j < i ==> #[trigger] pixels@[4 * j] == spec_cmap_blue(src[j]),
            forall|j: int|
                0 <= j < i ==> #[trigger] pixels@[4 * j + 1] == spec_cmap_green(src[j]),
            forall|j: int| 0 <= j < i ==> #[trigger] pixels@[4 * j + 2] == spec_cmap_red(src[j]),
            forall|j: int|
                0 <= j < i ==> #[trigger] pixels@[4 * j + 3] == (src[j] >> 24u32) as u8,
        decreases n - i,
    {
        let color = raw_image.pixels[i];
        pixels.push(((color >> 16u32) & 0xFF) as u8);
        pixels.push(((color >> 8u32) & 0xFF) as u8);
        pixels.push((color & 0xFF) as u8);
        pixels.push((color >> 24u32) as u8);
        proof {
            assert(pixels@[4 * (i as int)] == spec_cmap_blue(color));
            assert(pixels@[4 * (i as int) + 1] == spec_cmap_green(color));
            assert(pixels@[4 * (i as int) + 2] == spec_cmap_red(color));
            assert(pixels@[4 * (i as int) + 3] == (color >> 24u32) as u8);
        }
        i = i + 1;
    }
    let bm = RgbaBitmap { width, height, pixels };
    proof {
        reveal(spec_raw3_rgba_ok);
        vstd::arithmetic::mul::lemma_mul_is_associative(4, width as int, height as int);
        assert forall|ii: int| #![trigger bm.pixels@[4 * ii]]
            0 <= ii < (width as int) * (height as int) implies ({
            let color = image.images@[l].pixels@[ii];
            bm.pixels@[4 * ii] == spec_cmap_blue(color) && bm.pixels@[4 * ii + 1]
                == spec_cmap_green(color) && bm.pixels@[4 * ii + 2] == spec_cmap_red(color)
                && bm.pixels@[4 * ii + 3] == (color >> 24u32) as u8
        }) by {
            assert(bm.pixels@[4 * ii] == spec_cmap_blue(src[ii]));
            assert(bm.pixels@[4 * ii + 1] == spec_cmap_green(src[ii]));
            assert(bm.pixels@[4 * ii + 2] == spec_cmap_red(src[ii]));
            assert(bm.pixels@[4 * ii + 3] == (src[ii] >> 24u32) as u8);
        }
    }
    Ok(bm)
}

/// The 32-bit value a raw level stores for the pixel at `i` of a raster
/// image.
pub open spec fn spec_raw3_pixel(bm: RgbaBitmap, i: int) -> u32 {
    (((bm.pixels@[4 * i] as u32) << 16u32) + ((bm.pixels@[4 * i + 1] as u32) << 8u32) + (
    bm.pixels@[4 * i + 2] as u32) + ((bm.pixels@[4 * i + 3] as u32) << 24u32)) as u32
}

/// Encode a pyramid of raster images as raw content: each level's pixels
/// packed into 32-bit values over a zero-filled color table. The caller
/// supplies the levels, the root first.
pub fn image_to_raw3(images: &Vec<RgbaBitmap>) -> (r: crate::direct::BlpRaw3)
    requires
        forall|j: int| 0 <= j < images@.len() ==> rgba_wf(#[trigger] images@[j]),
    ensures
        r.cmap@.len() == 256,
        forall|k: int| 0 <= k < 256 ==> r.cmap@[k] == 0u32,
        r.images@.len() == images@.len(),
        forall|j: int|
            0 <= j < images@.len() ==> (#[trigger] r.images@[j]).pixels@.len()
                == rgba_pixel_count(images@[j]) && forall|i: int|
                0 <= i < rgba_pixel_count(images@[j]) ==> r.images@[j].pixels@[i]
                    == spec_raw3_pixel(images@[j], i),
{
    let cmap: Vec<u32> = vec![0u32; 256];
    let mut out: Vec<crate::direct::Raw3Image> = Vec::new();
    let mut j: usize = 0;
    while j < images.len()
        invariant
            0 <= j <= images@.len(),
            forall|k: int| 0 <= k < images@.len() ==> rgba_wf(#[trigger] images@[k]),
            out@.len() == j,
            forall|k: int|
                0 <= k < j ==> (#[trigger] out@[k]).pixels@.len() == rgba_pixel_count(images@[k])
                    && forall|i: int|
                    0 <= i < rgba_pixel_count(images@[k]) ==> out@[k].pixels@[i] == spec_raw3_pixel(
                        images@[k],
                        i,
                    ),
        decreases images@.len() - j,
    {
        let bm = &images[j];
        let n = bm.pixel_count();
        let plen = bm.pixels.len();
        proof {
            vstd::arithmetic::mul::lemma_mul_is_associative(4, bm.width as int, bm.height as int);
        }
        let mut pix: Vec<u32> = Vec::new();
        let mut i: usize = 0;
        while i < n
            invariant
                0 <= i <= n,
                bm == images@[j as int],
                0 <= j < images@.len(),
                rgba_wf(*bm),
                n == rgba_pixel_count(*bm),
                plen == bm.pixels@.len(),
                plen == 4 * n,
                pix@.len() == i,
                forall|k: int| 0 <= k < i ==> #[trigger] pix@[k] == spec_raw3_pixel(*bm, k),
            decreases n - i,
        {
            let red = (bm.pixels[4 * i] as u32) << 16u32;
            let green = (bm.pixels[4 * i + 1] as u32) << 8u32;
            let blue = bm.pixels[4 * i + 2] as u32;
            let alpha = (bm.pixels[4 * i + 3] as u32) << 24u32;
            proof {
                let r8 = bm.pixels@[4 * (i as int)];
                let g8 = bm.pixels@[4 * (i as int) + 1];
                let a8 = bm.pixels@[4 * (i as int) + 3];
                assert((r8 as u32) << 16u32 <= 0xFF0000 && (g8 as u32) << 8u32 <= 0xFF00 && (
                a8 as u32) << 24u32 <= 0xFF00_0000) by (bit_vector);
            }
            pix.push(red + green + blue + alpha);
            i = i + 1;
        }
        out.push(crate::direct::Raw3Image { pixels: pix });
        j = j + 1;
    }
    crate::direct::BlpRaw3 { cmap, images: out }
}

} // verus!
