//! Block compression and decompression of raster images, done by an
//! outside crate; the codec here only shapes and validates the byte
//! ranges around it.

use vstd::prelude::*;
use crate::bitmap::{rgba_pixel_count, rgba_wf, RgbaBitmap};
use crate::convert::ConvertError;
use crate::direct::{spec_block_size, BlpDxtn, DxtnFormat, DxtnImage};
use crate::header::BlpHeader;

verus! {

/// Which speed and quality trade-off the block compressor uses.
#[derive(Debug, Clone, Copy, PartialEq, Eq, Structural, Hash)]
pub enum DxtAlgorithm {
    /// Fast, low quality.
    RangeFit,
    /// Slow, high quality.
    ClusterFit,
    /// Very slow, best quality.
    IterativeClusterFit,
}

/// The bytes a block compressor produces for the given image bytes at the
/// given scheme and trade-off. They depend on those arguments alone.
pub uninterp spec fn dxt_encoded(
    fmt: DxtnFormat,
    algo: DxtAlgorithm,
    rgba: Seq<u8>,
    width: int,
    height: int,
) -> Seq<u8>;

/// The pixel bytes a block decompressor recovers from the given block
/// bytes at the given scheme. They depend on those arguments alone.
pub uninterp spec fn dxt_decoded(fmt: DxtnFormat, data: Seq<u8>, width: int, height: int) -> Seq<
    u8,
>;

/// The byte size of an image's block-compressed form: whole 4-by-4 blocks
/// cover the image, each at the scheme's block size.
pub open spec fn spec_compressed_size(fmt: DxtnFormat, width: int, height: int) -> int {
    ((width + 3) / 4) * ((height + 3) / 4) * spec_block_size(fmt)
}

/// The byte size of an image's block-compressed form, computed as the
/// compressor defines it: whole blocks across and down, at the scheme's
/// block size.
fn compressed_size_bytes(fmt: DxtnFormat, width: usize, height: usize) -> (r: usize)
    requires
        width <= 65535,
        height <= 65535,
        spec_compressed_size(fmt, width as int, height as int) <= usize::MAX,
    ensures
        r == spec_compressed_size(fmt, width as int, height as int),
{
    proof {
        vstd::arithmetic::mul::lemma_mul_upper_bound(
            ((width + 3) / 4) as int,
            16385,
            ((height + 3) / 4) as int,
            16385,
        );
        vstd::arithmetic::mul::lemma_mul_nonnegative(
            ((width + 3) / 4) as int,
            ((height + 3) / 4) as int,
        );
    }
    let blocks = ((width + 3) / 4) * ((height + 3) / 4);
    blocks * fmt.block_size()
}

/// Relies on texpresso::Format::compress: fills the output with the
/// blocks of the given pixels, a deterministic function of the scheme,
/// the trade-off, the pixels and the dimensions. The output must hold
/// exactly the compressed size, the pixel buffer all the pixels, and the
/// width must not be zero, or the call aborts.
#[verifier::external_body]
fn tx_compress(
    fmt: DxtnFormat,
    algo: DxtAlgorithm,
    rgba: &Vec<u8>,
    width: usize,
    height: usize,
    output: &mut Vec<u8>,
)
    requires
        width >= 1,
        width <= 65535,
        height <= 65535,
        rgba@.len() == 4 * width * height,
        old(output)@.len() == spec_compressed_size(fmt, width as int, height as int),
    ensures
        final(output)@.len() == old(output)@.len(),
        final(output)@ == dxt_encoded(fmt, algo, rgba@, width as int, height as int),
{
    let f: texpresso::Format = match fmt {
        DxtnFormat::Dxt1 => texpresso::Format::Bc1,
        DxtnFormat::Dxt3 => texpresso::Format::Bc2,
        DxtnFormat::Dxt5 => texpresso::Format::Bc3,
    };
    let params = texpresso::Params {
        algorithm: match algo {
            DxtAlgorithm::RangeFit => texpresso::Algorithm::RangeFit,
            DxtAlgorithm::ClusterFit => texpresso::Algorithm::ClusterFit,
            DxtAlgorithm::IterativeClusterFit => texpresso::Algorithm::IterativeClusterFit,
        },
        ..Default::default()
    };
    f.compress(rgba.as_slice(), width, height, params, output.as_mut_slice());
}

/// Relies on texpresso::Format::decompress: fills the output with the
/// pixels of the given blocks, a deterministic function of the scheme,
/// the blocks and the dimensions. The blocks must cover the whole image,
/// the output must hold exactly the pixels, and the width must not be
/// zero, or the call aborts.
#[verifier::external_body]
fn tx_decompress(fmt: DxtnFormat, data: &Vec<u8>, width: usize, height: usize, output: &mut Vec<
    u8,
>)
    requires
        width >= 1,
        width <= 65535,
        height <= 65535,
        data@.len() >= spec_compressed_size(fmt, width as int, height as int),
        old(output)@.len() == 4 * width * height,
    ensures
        final(output)@.len() == old(output)@.len(),
        final(output)@ == dxt_decoded(fmt, data@, width as int, height as int),
{
    let f: texpresso::Format = match fmt {
        DxtnFormat::Dxt1 => texpresso::Format::Bc1,
        DxtnFormat::Dxt3 => texpresso::Format::Bc2,
        DxtnFormat::Dxt5 => texpresso::Format::Bc3,
    };
    f.decompress(data.as_slice(), width, height, output.as_mut_slice());
}

/// Decode one block-compressed mipmap level into a raster image. The
/// level's bytes must cover the whole block grid of its dimensions, which
/// in turn must lie in the range the format records.
pub fn dxtn_to_image(header: &BlpHeader, image: &BlpDxtn, mipmap_level: usize) -> (r: Result<
    RgbaBitmap,
    ConvertError,
>)
    requires
        mipmap_level < 32,
        header.width >= 1,
        header.width <= 65535,
        header.height <= 65535,
        4 * (crate::header::spec_mipmap_size(*header, mipmap_level as u32).0 as int) * (
        crate::header::spec_mipmap_size(*header, mipmap_level as u32).1 as int) <= usize::MAX,
        mipmap_level < image.images@.len() ==> image.images@[mipmap_level as int].content@.len()
            >= spec_compressed_size(
            image.format,
            crate::header::spec_mipmap_size(*header, mipmap_level as u32).0 as int,
            crate::header::spec_mipmap_size(*header, mipmap_level as u32).1 as int,
        ),
    ensures
        match r {
            Ok(bm) => mipmap_level < image.images@.len() && bm.width == crate::header::spec_mipmap_size(
                *header,
                mipmap_level as u32,
            ).0 && bm.height == crate::header::spec_mipmap_size(*header, mipmap_level as u32).1
                && rgba_wf(bm) && bm.pixels@ == dxt_decoded(
                image.format,
                image.images@[mipmap_level as int].content@,
                bm.width as int,
                bm.height as int,
            ),
            Err(e) => e == ConvertError::MissingImage(mipmap_level) && mipmap_level
                >= image.images@.len(),
        },
{
    if mipmap_level >= image.images.len() {
        return Err(ConvertError::MissingImage(mipmap_level));
    }
    let raw_image = &image.images[mipmap_level];
    let (width, height) = header.mipmap_size(mipmap_level as u32);
    proof {
        let fw = header.width;
        let fh = header.height;
        let i = mipmap_level as u32;
        assert(fw >> i <= fw && fh >> i <= fh) by (bit_vector)
            requires
                i < 32u32,
        ;
        vstd::arithmetic::mul::lemma_mul_upper_bound(width as int, 65535, height as int, 65535);
        vstd::arithmetic::mul::lemma_mul_nonnegative(width as int, height as int);
        vstd::arithmetic::mul::lemma_mul_is_associative(4, width as int, height as int);
    }
    let size = 4 * ((width as usize) * (height as usize));
    let mut output: Vec<u8> = vec![0u8; size];
    tx_decompress(image.format, &raw_image.content, width as usize, height as usize, &mut output);
    Ok(RgbaBitmap { width, height, pixels: output })
}

/// Encode a pyramid of raster images as block-compressed content, the
/// root first, each level compressed on its own over a zero-filled color
/// table.
pub fn image_to_dxtn(images: &Vec<RgbaBitmap>, format: DxtnFormat, algorithm: DxtAlgorithm) -> (r:
    BlpDxtn)
    requires
        forall|j: int|
            0 <= j < images@.len() ==> rgba_wf(#[trigger] images@[j]) && 1 <= images@[j].width
                <= 65535 && images@[j].height <= 65535 && spec_compressed_size(
                format,
                images@[j].width as int,
                images@[j].height as int,
            ) <= usize::MAX,
    ensures
        r.format == format,
        r.cmap@.len() == 256,
        forall|k: int| 0 <= k < 256 ==> r.cmap@[k] == 0u32,
        r.images@.len() == images@.len(),
        forall|j: int|
            0 <= j < images@.len() ==> (#[trigger] r.images@[j]).content@ == dxt_encoded(
                format,
                algorithm,
                images@[j].pixels@,
                images@[j].width as int,
                images@[j].height as int,
            ) && r.images@[j].content@.len() == spec_compressed_size(
                format,
                images@[j].width as int,
                images@[j].height as int,
            ),
{
    let cmap: Vec<u32> = vec![0u32; 256];
    let mut out: Vec<DxtnImage> = Vec::new();
    let mut j: usize = 0;
    while j < images.len()
        invariant
            0 <= j <= images@.len(),
            forall|k: int|
                0 <= k < images@.len() ==> rgba_wf(#[trigger] images@[k]) && 1 <= images@[k].width
                    <= 65535 && images@[k].height <= 65535 && spec_compressed_size(
                    format,
                    images@[k].width as int,
                    images@[k].height as int,
                ) <= usize::MAX,
            out@.len() == j,
            forall|k: int|
                0 <= k < j ==> (#[trigger] out@[k]).content@ == dxt_encoded(
                    format,
                    algorithm,
                    images@[k].pixels@,
                    images@[k].width as int,
                    images@[k].height as int,
                ) && out@[k].content@.len() == spec_compressed_size(
                    format,
                    images@[k].width as int,
                    images@[k].height as int,
                ),
        decreases images@.len() - j,
    {
        let bm = &images[j];
        let width = bm.width as usize;
        let height = bm.height as usize;
        let output_size = compressed_size_bytes(format, width, height);
        let mut output: Vec<u8> = vec![0u8; output_size];
        proof {
            vstd::arithmetic::mul::lemma_mul_is_associative(4, width as int, height as int);
        }
        tx_compress(format, algorithm, &bm.pixels, width, height, &mut output);
        out.push(DxtnImage { content: output });
        j = j + 1;
    }
    BlpDxtn { format, cmap, images: out }
}

} // verus!
