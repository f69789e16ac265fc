//! Building paletted content from raster images, with the color
//! quantization done by an outside crate. The quantizer is deterministic,
//! so its palette and its per-pixel indices are named results of the
//! bytes it was trained on.

use vstd::prelude::*;
use crate::bitmap::{rgba_pixel_count, rgba_wf, spec_alphas, RgbaBitmap};
use crate::convert::{index_alpha, spec_pack_alpha_1, spec_pack_alpha_4, ConvertError};
use crate::direct::{BlpRaw1, Raw1Image};

verus! {

#[verifier::external_type_specification]
#[verifier::external_body]
pub struct ExNeuQuant(color_quant::NeuQuant);

/// The palette bytes a quantizer trained with the given sample factor,
/// color count and training bytes reports, three bytes per color. They
/// depend on those arguments alone.
pub uninterp spec fn nq_palette(samplefac: int, colors: int, training: Seq<u8>) -> Seq<u8>;

/// The palette index such a quantizer picks as closest to the given RGBA
/// pixel. It depends on those arguments alone.
pub uninterp spec fn nq_index(
    samplefac: int,
    colors: int,
    training: Seq<u8>,
    r: u8,
    g: u8,
    b: u8,
    a: u8,
) -> int;

/// A trained quantizer together with the record of what trained it, so
/// that contracts can speak of its results as functions of that record.
pub struct Quantizer {
    nq: color_quant::NeuQuant,
    trained_with: Ghost<(int, int, Seq<u8>)>,
}

impl Quantizer {
    /// The sample factor the quantizer was trained with.
    pub closed spec fn samplefac(&self) -> int {
        self.trained_with@.0
    }

    /// The color count the quantizer was trained for.
    pub closed spec fn colors(&self) -> int {
        self.trained_with@.1
    }

    /// The bytes the quantizer was trained on.
    pub closed spec fn training(&self) -> Seq<u8> {
        self.trained_with@.2
    }
}

/// Relies on color_quant::NeuQuant::new: trains a quantizer network on
/// the given RGBA bytes. The sample factor must lie in the documented one
/// to thirty range and at least one color must be asked for, else the
/// training indexes out of bounds.
#[verifier::external_body]
fn nq_train(samplefac: i32, colors: usize, pixels: &Vec<u8>) -> color_quant::NeuQuant
    requires
        1 <= samplefac <= 30,
        colors >= 1,
{
    color_quant::NeuQuant::new(samplefac, colors, pixels.as_slice())
}

/// Train a quantizer and record what trained it.
fn nq_new(samplefac: i32, colors: usize, pixels: &Vec<u8>) -> (q: Quantizer)
    requires
        1 <= samplefac <= 30,
        colors >= 1,
    ensures
        q.samplefac() == samplefac as int,
        q.colors() == colors as int,
        q.training() == pixels@,
{
    Quantizer {
        nq: nq_train(samplefac, colors, pixels),
        trained_with: Ghost((samplefac as int, colors as int, pixels@)),
    }
}

/// Relies on color_quant::NeuQuant::index_of: the index of the trained
/// palette color closest to the given RGBA pixel, always below the color
/// count the quantizer was built with, and a function of the training
/// record and the pixel alone.
#[verifier::external_body]
fn nq_index_of(q: &Quantizer, r: u8, g: u8, b: u8, a: u8) -> (idx: usize)
    requires
        q.colors() >= 1,
    ensures
        idx == nq_index(q.samplefac(), q.colors(), q.training(), r, g, b, a),
        0 <= idx < q.colors(),
{
    q.nq.index_of(&[r, g, b, a])
}

/// Relies on color_quant::NeuQuant::color_map_rgb: the trained palette as
/// exactly three bytes per color, a function of the training record
/// alone.
#[verifier::external_body]
fn nq_color_map_rgb(q: &Quantizer) -> (m: Vec<u8>)
    ensures
        m@ == nq_palette(q.samplefac(), q.colors(), q.training()),
        m@.len() == 3 * q.colors(),
{
    q.nq.color_map_rgb()
}

/// The bytes handed to the quantizer: the image's pixels with every alpha
/// zeroed, as the palette must not be trained on transparency.
pub open spec fn spec_quantizer_input(img: RgbaBitmap) -> Seq<u8> {
    Seq::new(
        img.pixels@.len(),
        |k: int|
            if k % 4 == 3 {
                0u8
            } else {
                img.pixels@[k]
            },
    )
}

/// The index the quantizer picks for pixel `i` of an image: its channels
/// looked up with the alpha taken as zero, the same normalisation the
/// training bytes get.
pub open spec fn spec_quantized_index(q_training: Seq<u8>, colors: int, img: RgbaBitmap, i: int) -> int {
    nq_index(
        10,
        colors,
        q_training,
        img.pixels@[4 * i],
        img.pixels@[4 * i + 1],
        img.pixels@[4 * i + 2],
        0u8,
    )
}

/// One packed palette entry: the three palette bytes of color `k` in the
/// stored `0x00BBGGRR` arrangement.
pub open spec fn spec_palette_entry(m: Seq<u8>, k: int) -> u32 {
    (m[3 * k] as u32) | ((m[3 * k + 1] as u32) << 8u32) | ((m[3 * k + 2] as u32) << 16u32)
}

/// Zero the alpha byte of every pixel, into a fresh buffer.
fn zero_alpha_bytes(image: &RgbaBitmap) -> (r: Vec<u8>)
    requires
        rgba_wf(*image),
    ensures
        r@ == spec_quantizer_input(*image),
{
    let mut out: Vec<u8> = Vec::new();
    let plen = image.pixels.len();
    let mut k: usize = 0;
    while k < plen
        invariant
            0 <= k <= plen,
            plen == image.pixels@.len(),
            out@.len() == k,
            forall|j: int|
                0 <= j < k ==> #[trigger] out@[j] == (if j % 4 == 3 {
                    0u8
                } else {
                    image.pixels@[j]
                }),
        decreases plen - k,
    {
        if k % 4 == 3 {
            out.push(0);
        } else {
            out.push(image.pixels[k]);
        }
        k = k + 1;
    }
    proof {
        assert(out@ =~= spec_quantizer_input(*image));
    }
    out
}

/// Map every pixel of the image to its index in the trained palette, the
/// alpha looked up as zero.
fn map_indices(image: &RgbaBitmap, q: &Quantizer) -> (r: Vec<u8>)
    requires
        rgba_wf(*image),
        q.samplefac() == 10,
        1 <= q.colors() <= 256,
    ensures
        r@.len() == rgba_pixel_count(*image),
        forall|i: int|
            0 <= i < rgba_pixel_count(*image) ==> #[trigger] r@[i] as int == spec_quantized_index(
                q.training(),
                q.colors(),
                *image,
                i,
            ),
{
    let n = image.pixel_count();
    let plen = image.pixels.len();
    proof {
        vstd::arithmetic::mul::lemma_mul_is_associative(
            4,
            image.width as int,
            image.height as int,
        );
    }
    let mut out: Vec<u8> = Vec::new();
    let mut i: usize = 0;
    while i < n
        invariant
            0 <= i <= n,
            n == rgba_pixel_count(*image),
            rgba_wf(*image),
            q.samplefac() == 10,
            1 <= q.colors() <= 256,
            plen == image.pixels@.len(),
            plen == 4 * n,
            out@.len() == i,
            forall|j: int|
                0 <= j < i ==> #[trigger] out@[j] as int == spec_quantized_index(
                    q.training(),
                    q.colors(),
                    *image,
                    j,
                ),
        decreases n - i,
    {
        let idx = nq_index_of(
            q,
            image.pixels[4 * i],
            image.pixels[4 * i + 1],
            image.pixels[4 * i + 2],
            0,
        );
        out.push(idx as u8);
        i = i + 1;
    }
    out
}

/// Train a quantizer on the image with its alpha zeroed and return the
/// per-pixel palette indices, the palette packed as `0x00BBGGRR` values,
/// and the quantizer itself for reuse on further levels. The quantizer is
/// asked for 255 colors, so the palette holds 255 entries; the indices
/// and palette bytes are its named results over the training bytes.
pub fn quantize_rgba(img: &RgbaBitmap) -> (r: (Vec<u8>, Vec<u32>, Quantizer))
    requires
        rgba_wf(*img),
    ensures
        r.2.samplefac() == 10,
        r.2.colors() == 255,
        r.2.training() == spec_quantizer_input(*img),
        r.0@.len() == rgba_pixel_count(*img),
        forall|i: int|
            0 <= i < rgba_pixel_count(*img) ==> #[trigger] r.0@[i] as int == spec_quantized_index(
                spec_quantizer_input(*img),
                255,
                *img,
                i,
            ),
        r.1@.len() == 255,
        forall|k: int|
            0 <= k < 255 ==> #[trigger] r.1@[k] == spec_palette_entry(
                nq_palette(10, 255, spec_quantizer_input(*img)),
                k,
            ),
{
    let buf = zero_alpha_bytes(img);
    let q = nq_new(10, 255, &buf);
    let quantized = map_indices(img, &q);
    let map = nq_color_map_rgb(&q);
    let ghost palette_bytes = nq_palette(10, 255, spec_quantizer_input(*img));
    let mlen = map.len();
    let entries = mlen / 3;
    let mut palette: Vec<u32> = Vec::new();
    let mut k: usize = 0;
    while k < entries
        invariant
            0 <= k <= entries,
            mlen == map@.len(),
            map@ == palette_bytes,
            3 * entries <= mlen,
            palette@.len() == k,
            forall|j: int|
                0 <= j < k ==> #[trigger] palette@[j] == spec_palette_entry(palette_bytes, j),
        decreases entries - k,
    {
        let red = map[3 * k] as u32;
        let green = (map[3 * k + 1] as u32) << 8u32;
        let blue = (map[3 * k + 2] as u32) << 16u32;
        proof {
            let r8 = map@[3 * (k as int)];
            let g8 = map@[3 * (k as int) + 1];
            let b8 = map@[3 * (k as int) + 2];
            assert((g8 as u32) << 8u32 <= 0xFF00 && (b8 as u32) << 16u32 <= 0xFF0000 && (
            r8 as u32) + ((g8 as u32) << 8u32) + ((b8 as u32) << 16u32) == (r8 as u32) | ((
            g8 as u32) << 8u32) | ((b8 as u32) << 16u32)) by (bit_vector);
        }
        palette.push(red + green + blue);
        k = k + 1;
    }
    (quantized, palette, q)
}

/// Map an image's pixels through an already trained quantizer.
pub fn quantize_rgba_known(img: &RgbaBitmap, q: &Quantizer) -> (r: Vec<u8>)
    requires
        rgba_wf(*img),
        q.samplefac() == 10,
        1 <= q.colors() <= 256,
    ensures
        r@.len() == rgba_pixel_count(*img),
        forall|i: int|
            0 <= i < rgba_pixel_count(*img) ==> #[trigger] r@[i] as int == spec_quantized_index(
                q.training(),
                q.colors(),
                *img,
                i,
            ),
{
    map_indices(img, q)
}

/// Build paletted content from a pyramid of raster images, the root
/// first: the root trains the 255-color palette, every level is mapped
/// through it, and each level's alpha channel is packed at the given
/// depth. This succeeds exactly when there is a root image and the depth
/// is a known one; the indices and palette are the quantizer's named
/// results over the root's zero-alpha bytes.
pub fn image_to_raw1(images: &Vec<RgbaBitmap>, alpha_bits: u32) -> (r: Result<
    BlpRaw1,
    ConvertError,
>)
    requires
        forall|j: int| 0 <= j < images@.len() ==> rgba_wf(#[trigger] images@[j]),
    ensures
        r is Ok <==> images@.len() > 0 && (alpha_bits == 0u32 || alpha_bits == 1u32 || alpha_bits
            == 4u32 || alpha_bits == 8u32),
        match r {
            Ok(c) => ({
                let training = spec_quantizer_input(images@[0]);
                c.cmap@.len() == 255 && (forall|k: int|
                    0 <= k < 255 ==> #[trigger] c.cmap@[k] == spec_palette_entry(
                        nq_palette(10, 255, training),
                        k,
                    )) && c.images@.len() == images@.len() && (forall|j: int, i: int|
                    0 <= j < images@.len() && 0 <= i < rgba_pixel_count(images@[j])
                        ==> #[trigger] c.images@[j].indexed_rgb@[i] as int == spec_quantized_index(
                        training,
                        255,
                        images@[j],
                        i,
                    )) && (forall|j: int|
                    0 <= j < images@.len() ==> (#[trigger] c.images@[j]).indexed_rgb@.len()
                        == rgba_pixel_count(images@[j])) && (forall|j: int|
                    0 <= j < images@.len() ==> (#[trigger] c.images@[j]).indexed_alpha@ == (
                    if alpha_bits == 0u32 {
                        Seq::<u8>::empty()
                    } else if alpha_bits == 1u32 {
                        spec_pack_alpha_1(spec_alphas(images@[j]))
                    } else if alpha_bits == 4u32 {
                        spec_pack_alpha_4(spec_alphas(images@[j]))
                    } else {
                        spec_alphas(images@[j])
                    }))
            }),
            Err(e) => match e {
                ConvertError::MissingImage(l) => l == 0 && images@.len() == 0,
                ConvertError::Raw1InvalidAlphaBits(ab) => ab == alpha_bits && alpha_bits != 0u32
                    && alpha_bits != 1u32 && alpha_bits != 4u32 && alpha_bits != 8u32,
                _ => false,
            },
        },
{
    if images.len() == 0 {
        return Err(ConvertError::MissingImage(0));
    }
    let root = &images[0];
    let indexed_alpha = match index_alpha(root, alpha_bits) {
        Ok(v) => v,
        Err(e) => {
            return Err(e);
        },
    };
    let (root_quantized, cmap, q) = quantize_rgba(root);
    let ghost training = spec_quantizer_input(images@[0]);
    let mut out: Vec<Raw1Image> = Vec::new();
    out.push(Raw1Image { indexed_rgb: root_quantized, indexed_alpha });
    let mut j: usize = 1;
    while j < images.len()
        invariant
            1 <= j <= images@.len(),
            images@.len() >= 1,
            alpha_bits == 0u32 || alpha_bits == 1u32 || alpha_bits == 4u32 || alpha_bits == 8u32,
            forall|k: int| 0 <= k < images@.len() ==> rgba_wf(#[trigger] images@[k]),
            q.samplefac() == 10,
            q.colors() == 255,
            q.training() == training,
            training == spec_quantizer_input(images@[0]),
            out@.len() == j,
            forall|k: int, i: int|
                0 <= k < j && 0 <= i < rgba_pixel_count(images@[k])
                    ==> #[trigger] out@[k].indexed_rgb@[i] as int == spec_quantized_index(
                    training,
                    255,
                    images@[k],
                    i,
                ),
            forall|k: int|
                0 <= k < j ==> (#[trigger] out@[k]).indexed_rgb@.len() == rgba_pixel_count(
                    images@[k],
                ),
            forall|k: int|
                0 <= k < j ==> (#[trigger] out@[k]).indexed_alpha@ == (if alpha_bits == 0u32 {
                    Seq::<u8>::empty()
                } else if alpha_bits == 1u32 {
                    spec_pack_alpha_1(spec_alphas(images@[k]))
                } else if alpha_bits == 4u32 {
                    spec_pack_alpha_4(spec_alphas(images@[k]))
                } else {
                    spec_alphas(images@[k])
                }),
        decreases images@.len() - j,
    {
        let bm = &images[j];
        let lvl_alpha = match index_alpha(bm, alpha_bits) {
            Ok(v) => v,
            Err(_) => {
                proof {
                    assert(false);
                }
                return Err(ConvertError::Raw1InvalidAlphaBits(alpha_bits));
            },
        };
        let quantized = quantize_rgba_known(bm, &q);
        out.push(Raw1Image { indexed_rgb: quantized, indexed_alpha: lvl_alpha });
        j = j + 1;
    }
    Ok(BlpRaw1 { cmap, images: out })
}

} // verus!
