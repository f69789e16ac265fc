//! The bit-level alpha channel packer of the paletted layout, and the
//! errors the conversions to and from raster images share.

use vstd::prelude::*;
use crate::bitmap::{rgba_pixel_count, rgba_wf, spec_alphas, RgbaBitmap};

verus! {

/// What can go wrong while converting between content and raster images.
#[derive(Debug, Clone, PartialEq, Eq, Hash)]
pub enum ConvertError {
    /// The asked-for mipmap level does not exist in the content.
    MissingImage(usize),
    /// The width field cannot hold the image's width.
    WidthTooLarge(u32),
    /// The height field cannot hold the image's height.
    HeightTooLarge(u32),
    /// A level's pixel data does not match the size its header calls for:
    /// level, width, height, and the count actually found.
    MismatchSizes(usize, u32, u32, usize),
    /// A level's alpha data does not match the size its header calls for.
    MismatchAlphaSizes(usize, u32, u32, usize),
    /// The paletted layout knows only the alpha depths 0, 1, 4 and 8.
    Raw1InvalidAlphaBits(u32),
    /// The color table must hold 256 entries.
    ColorMapLengthInvalid(usize),
    /// The quantizer must supply 255 colors.
    PaletteWrongSize(usize),
    /// The decompressed block bytes could not be shaped into an image.
    Dxt1RawConvertFail,
}

/// The single bit stored for a pixel at depth one: set when the pixel is
/// not fully transparent.
pub open spec fn pack1_bit(a: u8) -> u8 {
    if a > 0 {
        1u8
    } else {
        0u8
    }
}

/// The first `m` bits of the packed byte whose pixels start at `base`,
/// least significant bit first.
pub open spec fn spec_pack1_byte(alphas: Seq<u8>, base: int, m: int) -> u8
    decreases m,
{
    if m <= 0 {
        0u8
    } else {
        spec_pack1_byte(alphas, base, m - 1) | (pack1_bit(alphas[base + m - 1]) << ((m - 1) as u8))
    }
}

/// The alpha channel packed at depth one: one bit per pixel, eight pixels
/// per byte, least significant bit first, spare bits zero.
pub open spec fn spec_pack_alpha_1(alphas: Seq<u8>) -> Seq<u8> {
    Seq::new(
        ((alphas.len() + 7) / 8) as nat,
        |j: int|
            spec_pack1_byte(
                alphas,
                8 * j,
                if alphas.len() - 8 * j < 8 {
                    alphas.len() - 8 * j
                } else {
                    8
                },
            ),
    )
}

/// The value stored for a pixel at depth four. The scale deliberately
/// runs up to 123 and so past the low nibble; the stored bytes keep that
/// overflow, as files written by the format's original tooling do.
pub open spec fn scale4(a: u8) -> u8 {
    ((a * 123) / 255) as u8
}

/// One packed byte at depth four: the first pixel's value in the low
/// nibble position, the second shifted into the high nibble over it.
pub open spec fn spec_pack4_byte(alphas: Seq<u8>, j: int) -> u8 {
    if 2 * j + 1 < alphas.len() {
        scale4(alphas[2 * j]) | (scale4(alphas[2 * j + 1]) << 4u8)
    } else {
        scale4(alphas[2 * j])
    }
}

/// The alpha channel packed at depth four: two pixels per byte.
pub open spec fn spec_pack_alpha_4(alphas: Seq<u8>) -> Seq<u8> {
    Seq::new(((alphas.len() + 1) / 2) as nat, |j: int| spec_pack4_byte(alphas, j))
}

/// The alpha read back for pixel `i` from bytes packed at depth one.
pub open spec fn spec_unpack_alpha_1(packed: Seq<u8>, i: int) -> u8 {
    (packed[i / 8] >> ((i % 8) as u8)) & 1
}

/// The alpha read back for pixel `i` from bytes packed at depth four: the
/// whole byte for an even pixel, the high nibble for an odd one.
pub open spec fn spec_unpack_alpha_4(packed: Seq<u8>, i: int) -> u8 {
    if i % 2 == 0 {
        packed[i / 2]
    } else {
        (packed[i / 2] >> 4u8) & 0xFF
    }
}

/// One bit of an or-combination: setting bit `j` leaves every other bit
/// alone.
proof fn lemma_or_shift_bit(x: u8, v: u8, j: u8, k: u8)
    requires
        j < 8,
        k < 8,
        v <= 1,
    ensures
        ((x | (v << j)) >> k) & 1 == (((x >> k) & 1) | (if j == k {
            v
        } else {
            0u8
        })),
{
    assert(((x | (v << j)) >> k) & 1 == (((x >> k) & 1) | (if j == k {
        v
    } else {
        0u8
    }))) by (bit_vector)
        requires
            j < 8,
            k < 8,
            v <= 1,
    ;
}

/// Bits at and above `m` of a byte packed from `m` pixels are zero.
proof fn lemma_pack1_byte_high_zero(alphas: Seq<u8>, base: int, m: int, k: u8)
    requires
        0 <= m <= k < 8,
    ensures
        (spec_pack1_byte(alphas, base, m) >> k) & 1 == 0,
    decreases m,
{
    if m == 0 {
        assert((0u8 >> k) & 1 == 0) by (bit_vector);
    } else {
        lemma_pack1_byte_high_zero(alphas, base, m - 1, k);
        lemma_or_shift_bit(
            spec_pack1_byte(alphas, base, m - 1),
            pack1_bit(alphas[base + m - 1]),
            (m - 1) as u8,
            k,
        );
        assert((0u8 | 0u8) == 0u8) by (bit_vector);
        if m - 1 == k {
            assert((0u8 | pack1_bit(alphas[base + m - 1])) == pack1_bit(alphas[base + m - 1]))
                by (bit_vector);
        }
    }
}

/// Bit `k` of a byte packed from `m` pixels is the stored bit of pixel
/// `base + k`.
proof fn lemma_pack1_byte_bit(alphas: Seq<u8>, base: int, m: int, k: u8)
    requires
        0 <= k < m <= 8,
    ensures
        (spec_pack1_byte(alphas, base, m) >> k) & 1 == pack1_bit(alphas[base + k]),
    decreases m,
{
    let prev = spec_pack1_byte(alphas, base, m - 1);
    let v = pack1_bit(alphas[base + m - 1]);
    lemma_or_shift_bit(prev, v, (m - 1) as u8, k);
    if k == m - 1 {
        lemma_pack1_byte_high_zero(alphas, base, m - 1, k);
        assert((0u8 | v) == v && (v | 0u8) == v) by (bit_vector)
            requires
                v <= 1,
        ;
    } else {
        lemma_pack1_byte_bit(alphas, base, m - 1, k);
        let pb = (prev >> k) & 1;
        assert((pb | 0u8) == pb) by (bit_vector);
    }
}

/// The law of the one-bit alpha packing: for pixels whose alpha is
/// already a single bit, unpacking the packed channel recovers every
/// pixel exactly.
pub proof fn lemma_alpha_pack1_roundtrip(alphas: Seq<u8>, i: int)
    requires
        0 <= i < alphas.len(),
        forall|j: int| 0 <= j < alphas.len() ==> alphas[j] == 0u8 || alphas[j] == 1u8,
    ensures
        spec_unpack_alpha_1(spec_pack_alpha_1(alphas), i) == alphas[i],
{
    let packed = spec_pack_alpha_1(alphas);
    let j = i / 8;
    let m: int = if alphas.len() - 8 * j < 8 {
        alphas.len() - 8 * j
    } else {
        8
    };
    assert(packed[j] == spec_pack1_byte(alphas, 8 * j, m));
    assert(0 <= i % 8 < m);
    lemma_pack1_byte_bit(alphas, 8 * j, m, (i % 8) as u8);
    assert(8 * j + i % 8 == i);
    assert(pack1_bit(alphas[i]) == alphas[i]);
}

/// The law of the alpha packing inverse: at depth one, pixels that are
/// already a single bit come back exactly from the packed channel; at
/// depth eight the channel is stored verbatim, so every pixel comes
/// back. Depth zero stores nothing, and depth four keeps the scale
/// formula rather than a lossless inverse.
pub proof fn lemma_alpha_pack_unpack(alphas: Seq<u8>, ab: u32, i: int)
    requires
        0 <= i < alphas.len(),
        ab == 1u32 || ab == 8u32,
        ab == 1u32 ==> forall|j: int|
            0 <= j < alphas.len() ==> alphas[j] == 0u8 || alphas[j] == 1u8,
    ensures
        ab == 1u32 ==> crate::raster::spec_raw1_alpha(ab, spec_pack_alpha_1(alphas), i)
            == alphas[i],
        ab == 8u32 ==> crate::raster::spec_raw1_alpha(ab, alphas, i) == alphas[i],
{
    if ab == 1u32 {
        lemma_alpha_pack1_roundtrip(alphas, i);
    }
}

/// Pack the alpha channel at depth one: one bit per pixel, set when the
/// pixel is not fully transparent, least significant bit first.
pub fn index_alpha_1bit(image: &RgbaBitmap) -> (r: Vec<u8>)
    requires
        rgba_wf(*image),
    ensures
        r@ == spec_pack_alpha_1(spec_alphas(*image)),
{
    let ghost alphas = spec_alphas(*image);
    let n = image.pixel_count();
    let plen = image.pixels.len();
    proof {
        vstd::arithmetic::mul::lemma_mul_is_associative(
            4,
            image.width as int,
            image.height as int,
        );
    }
    let mut res: Vec<u8> = Vec::new();
    let mut cur: u8 = 0;
    let mut bits: usize = 0;
    let mut i: usize = 0;
    while i < n
        invariant
            0 <= i <= n,
            n == rgba_pixel_count(*image),
            rgba_wf(*image),
            alphas == spec_alphas(*image),
            plen == image.pixels@.len(),
            plen == 4 * n,
            bits == i % 8,
            res@.len() == i / 8,
            forall|j: int| 0 <= j < i / 8 ==> #[trigger] res@[j] == spec_pack1_byte(
                alphas,
                8 * j,
                8,
            ),
            cur == spec_pack1_byte(alphas, 8 * ((i as int) / 8), (i as int) % 8),
        decreases n - i,
    {
        let a = image.pixels[4 * i + 3];
        proof {
            assert(alphas[i as int] == a);
        }
        let bit: u8 = if a > 0 {
            1
        } else {
            0
        };
        cur = cur | (bit << (bits as u8));
        proof {
            assert(cur == spec_pack1_byte(alphas, 8 * ((i as int) / 8), (i as int) % 8 + 1));
        }
        bits = bits + 1;
        i = i + 1;
        if bits == 8 {
            res.push(cur);
            cur = 0;
            bits = 0;
        }
    }
    if bits > 0 {
        res.push(cur);
    }
    proof {
        assert(res@ =~= spec_pack_alpha_1(alphas));
    }
    res
}

/// Pack the alpha channel at depth four: the scaled value of the first
/// pixel of each pair, with the second pixel's scaled value shifted into
/// the high nibble over it.
pub fn index_alpha_4bit(image: &RgbaBitmap) -> (r: Vec<u8>)
    requires
        rgba_wf(*image),
    ensures
        r@ == spec_pack_alpha_4(spec_alphas(*image)),
{
    let ghost alphas = spec_alphas(*image);
    let n = image.pixel_count();
    let plen = image.pixels.len();
    proof {
        vstd::arithmetic::mul::lemma_mul_is_associative(
            4,
            image.width as int,
            image.height as int,
        );
    }
    let bytes = (n + 1) / 2;
    let mut res: Vec<u8> = Vec::new();
    let mut j: usize = 0;
    while j < bytes
        invariant
            0 <= j <= bytes,
            bytes == (n + 1) / 2,
            n == rgba_pixel_count(*image),
            rgba_wf(*image),
            alphas == spec_alphas(*image),
            plen == image.pixels@.len(),
            plen == 4 * n,
            res@.len() == j,
            forall|k: int| 0 <= k < j ==> #[trigger] res@[k] == spec_pack4_byte(alphas, k),
        decreases bytes - j,
    {
        let a0 = image.pixels[4 * (2 * j) + 3];
        let s0 = (((a0 as u64) * 123) / 255) as u8;
        proof {
            assert(alphas[2 * (j as int)] == a0);
            assert(s0 == scale4(a0));
        }
        if 2 * j + 1 < n {
            let a1 = image.pixels[4 * (2 * j + 1) + 3];
            let s1 = (((a1 as u64) * 123) / 255) as u8;
            proof {
                assert(alphas[2 * (j as int) + 1] == a1);
                assert(s1 == scale4(a1));
            }
            res.push(s0 | (s1 << 4u8));
        } else {
            res.push(s0);
        }
        j = j + 1;
    }
    proof {
        assert(res@ =~= spec_pack_alpha_4(alphas));
    }
    res
}

/// Pack the alpha channel at depth eight: one byte per pixel, verbatim.
pub fn index_alpha_8bit(image: &RgbaBitmap) -> (r: Vec<u8>)
    requires
        rgba_wf(*image),
    ensures
        r@ == spec_alphas(*image),
{
    let ghost alphas = spec_alphas(*image);
    let n = image.pixel_count();
    let plen = image.pixels.len();
    proof {
        vstd::arithmetic::mul::lemma_mul_is_associative(
            4,
            image.width as int,
            image.height as int,
        );
    }
    let mut res: Vec<u8> = Vec::new();
    let mut i: usize = 0;
    while i < n
        invariant
            0 <= i <= n,
            n == rgba_pixel_count(*image),
            rgba_wf(*image),
            alphas == spec_alphas(*image),
            plen == image.pixels@.len(),
            plen == 4 * n,
            res@.len() == i,
            forall|j: int| 0 <= j < i ==> #[trigger] res@[j] == alphas[j],
        decreases n - i,
    {
        res.push(image.pixels[4 * i + 3]);
        i = i + 1;
    }
    proof {
        assert(res@ =~= spec_alphas(*image));
    }
    res
}

/// Pack the alpha channel of an image at the given depth. Depth zero
/// stores nothing; any depth but 0, 1, 4 and 8 is refused.
pub fn index_alpha(image: &RgbaBitmap, alpha_bits: u32) -> (r: Result<Vec<u8>, ConvertError>)
    requires
        rgba_wf(*image),
    ensures
        match r {
            Ok(v) => (alpha_bits == 0u32 ==> v@ == Seq::<u8>::empty()) && (alpha_bits == 1u32
                ==> v@ == spec_pack_alpha_1(spec_alphas(*image))) && (alpha_bits == 4u32 ==> v@
                == spec_pack_alpha_4(spec_alphas(*image))) && (alpha_bits == 8u32 ==> v@
                == spec_alphas(*image)) && (alpha_bits == 0u32 || alpha_bits == 1u32 || alpha_bits
                == 4u32 || alpha_bits == 8u32),
            Err(e) => e == ConvertError::Raw1InvalidAlphaBits(alpha_bits) && alpha_bits != 0u32
                && alpha_bits != 1u32 && alpha_bits != 4u32 && alpha_bits != 8u32,
        },
{
    if alpha_bits == 0 {
        let r: Vec<u8> = Vec::new();
        proof {
            assert(r@ =~= Seq::<u8>::empty());
        }
        Ok(r)
    } else if alpha_bits == 1 {
        Ok(index_alpha_1bit(image))
    } else if alpha_bits == 4 {
        Ok(index_alpha_4bit(image))
    } else if alpha_bits == 8 {
        Ok(index_alpha_8bit(image))
    } else {
        Err(ConvertError::Raw1InvalidAlphaBits(alpha_bits))
    }
}

} // verus!
