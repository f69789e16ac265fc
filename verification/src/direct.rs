//! Directly readable pixel content: paletted, raw BGRA and
//! block-compressed layouts.

use vstd::prelude::*;
use crate::header::{spec_header_size, BlpHeader};
use crate::jpeg::{images_len_prefix, lemma_images_len_prefix_nonneg, predict_locator, spec_predicted_locator};
use crate::locator::MipmapLocator;
use crate::version::BlpVersion;

verus! {

/// Paletted content: a 256-entry color table and one indexed image per
/// mipmap level.
#[derive(Debug, Clone, PartialEq, Eq, Hash)]
pub struct BlpRaw1 {
    /// The color lookup table for the indexed color model. Each entry
    /// packs 24-bit color component values as `0x00BBGGRR`; the top byte
    /// is alignment padding.
    pub cmap: Vec<u32>,
    /// The image itself and all mipmap levels. If there are no mipmaps,
    /// the length of the vector is one.
    pub images: Vec<Raw1Image>,
}

/// One paletted mipmap level: an index per pixel and the packed alpha
/// channel.
#[derive(Debug, Clone, PartialEq, Eq, Hash)]
pub struct Raw1Image {
    /// One color table index per pixel, rows first.
    pub indexed_rgb: Vec<u8>,
    /// The alpha channel, packed at the header's alpha depth: pixels are
    /// ordered from least significant to most significant bit within each
    /// byte, in the same pixel order as the indices.
    pub indexed_alpha: Vec<u8>,
}

/// The serialised byte length of one paletted level.
pub open spec fn spec_raw1_image_len(img: Raw1Image) -> int {
    img.indexed_rgb@.len() + img.indexed_alpha@.len() as int
}

impl Raw1Image {
    /// Get the size in bytes of the serialised image.
    pub fn len(&self) -> (r: usize)
        requires
            spec_raw1_image_len(*self) <= usize::MAX,
        ensures
            r == spec_raw1_image_len(*self),
    {
        self.indexed_rgb.len() + self.indexed_alpha.len()
    }

    /// Whether the serialised image holds no bytes at all.
    pub fn is_empty(&self) -> (r: bool)
        ensures
            r == (spec_raw1_image_len(*self) == 0),
    {
        self.indexed_rgb.is_empty() && self.indexed_alpha.is_empty()
    }
}

/// Paletted content under its older name; the codec itself works with
/// the paletted type above, this one only spells the same layout out for
/// callers that keep the older name.
#[derive(Debug, Clone, PartialEq, Eq, Hash)]
pub struct BlpDirect {
    /// The color lookup table used for the indexed color model, packed as
    /// `0x00BBGGRR` with the top byte as alignment padding.
    pub cmap: Vec<u32>,
    /// The image itself and all mipmap levels. If there are no mipmaps,
    /// the length of the vector is one.
    pub images: Vec<DirectImage>,
}

/// One paletted mipmap level under its older name.
#[derive(Debug, Clone, PartialEq, Eq, Hash)]
pub struct DirectImage {
    /// One color table index per pixel, rows first.
    pub indexed_rgb: Vec<u8>,
    /// The alpha channel, packed at the header's alpha depth, pixels from
    /// least significant to most significant bit within each byte.
    pub indexed_alpha: Vec<u8>,
}

/// Raw BGRA content: one full 32-bit pixel per image position.
#[derive(Debug, Clone, PartialEq, Eq, Hash)]
pub struct BlpRaw3 {
    /// Unused color table, kept only so the bytes of a file survive the
    /// round trip; zero-filled when the library builds the content.
    pub cmap: Vec<u32>,
    /// The image itself and all mipmap levels. If there are no mipmaps,
    /// the length of the vector is one.
    pub images: Vec<Raw3Image>,
}

/// One raw mipmap level. Each pixel packs the channels as
/// `alpha<<24 | red<<16 | green<<8 | blue`.
#[derive(Debug, Clone, PartialEq, Eq, Hash)]
pub struct Raw3Image {
    pub pixels: Vec<u32>,
}

/// The serialised byte length of one raw level: four bytes per pixel.
pub open spec fn spec_raw3_image_len(img: Raw3Image) -> int {
    img.pixels@.len() * 4int
}

impl Raw3Image {
    /// Get the size in bytes of the serialised image.
    pub fn len(&self) -> (r: usize)
        requires
            spec_raw3_image_len(*self) <= usize::MAX,
        ensures
            r == spec_raw3_image_len(*self),
    {
        self.pixels.len() * 4
    }

    /// Whether the serialised image holds no bytes at all.
    pub fn is_empty(&self) -> (r: bool)
        ensures
            r == (spec_raw3_image_len(*self) == 0),
    {
        self.pixels.is_empty()
    }
}

/// Which block-compression scheme the content uses.
#[derive(Debug, Clone, Copy, PartialEq, Eq, Structural, Hash)]
pub enum DxtnFormat {
    Dxt1,
    Dxt3,
    Dxt5,
}

/// Bytes per compressed 4-by-4 pixel block of the given scheme.
pub open spec fn spec_block_size(f: DxtnFormat) -> int {
    match f {
        DxtnFormat::Dxt1 => 8,
        DxtnFormat::Dxt3 => 16,
        DxtnFormat::Dxt5 => 16,
    }
}

impl DxtnFormat {
    /// Bytes per compressed 4-by-4 pixel block.
    pub fn block_size(&self) -> (r: usize)
        ensures
            r == spec_block_size(*self),
    {
        match self {
            DxtnFormat::Dxt1 => 8,
            DxtnFormat::Dxt3 => 16,
            DxtnFormat::Dxt5 => 16,
        }
    }
}

/// Block-compressed content.
#[derive(Debug, Clone, PartialEq, Eq, Hash)]
pub struct BlpDxtn {
    pub format: DxtnFormat,
    /// Unused color table, kept only so the bytes of a file survive the
    /// round trip; zero-filled when the library builds the content.
    pub cmap: Vec<u32>,
    /// The image itself and all mipmap levels. If there are no mipmaps,
    /// the length of the vector is one.
    pub images: Vec<DxtnImage>,
}

/// One block-compressed mipmap level, kept as its raw block bytes.
#[derive(Debug, Clone, PartialEq, Eq, Hash)]
pub struct DxtnImage {
    pub content: Vec<u8>,
}

impl DxtnImage {
    /// Get the size in bytes of the serialised image.
    pub fn len(&self) -> (r: usize)
        ensures
            r == self.content@.len(),
    {
        self.content.len()
    }

    /// Whether the serialised image holds no bytes at all.
    pub fn is_empty(&self) -> (r: bool)
        ensures
            r == (self.content@.len() == 0),
    {
        self.content.is_empty()
    }
}

impl BlpRaw1 {
    /// Predict the internal locator under which the levels would be
    /// written down, one directly after another, behind the fixed header
    /// and the color map.
    pub fn mipmap_locator(&self, version: BlpVersion) -> (r: MipmapLocator)
        requires
            spec_header_size(version) + self.cmap@.len() * 4 + images_len_prefix(
                self.images@.map_values(|v: Raw1Image| v.indexed_rgb@ + v.indexed_alpha@),
                self.images@.len() as int,
            ) <= u32::MAX,
        ensures
            spec_predicted_locator(
                spec_header_size(version) + self.cmap@.len() * 4,
                self.images@.map_values(|v: Raw1Image| v.indexed_rgb@ + v.indexed_alpha@),
                r,
            ),
    {
        let ghost imgs = self.images@.map_values(
            |v: Raw1Image| v.indexed_rgb@ + v.indexed_alpha@,
        );
        let mut lens: Vec<usize> = Vec::new();
        let mut i: usize = 0;
        while i < self.images.len()
            invariant
                0 <= i <= self.images@.len(),
                imgs == self.images@.map_values(
                    |v: Raw1Image| v.indexed_rgb@ + v.indexed_alpha@,
                ),
                images_len_prefix(imgs, imgs.len() as int) <= u32::MAX,
                lens@.len() == i,
                forall|j: int| 0 <= j < i ==> lens@[j] == imgs[j].len(),
            decreases self.images@.len() - i,
        {
            proof {
                lemma_level_len_bound(imgs, i as int);
            }
            let img = &self.images[i];
            lens.push(img.indexed_rgb.len() + img.indexed_alpha.len());
            i = i + 1;
        }
        proof {
            lemma_images_len_prefix_nonneg(imgs, imgs.len() as int);
        }
        let start = BlpHeader::size(version) + self.cmap.len() * 4;
        predict_locator(start, &lens, Ghost(imgs))
    }
}

impl BlpRaw3 {
    /// Predict the internal locator under which the levels would be
    /// written down, one directly after another, behind the fixed header
    /// and the color map.
    pub fn mipmap_locator(&self, version: BlpVersion) -> (r: MipmapLocator)
        requires
            spec_header_size(version) + self.cmap@.len() * 4 + images_len_prefix(
                self.images@.map_values(|v: Raw3Image| Seq::new((v.pixels@.len() * 4) as nat, |k: int| 0u8)),
                self.images@.len() as int,
            ) <= u32::MAX,
        ensures
            spec_predicted_locator(
                spec_header_size(version) + self.cmap@.len() * 4,
                self.images@.map_values(|v: Raw3Image| Seq::new((v.pixels@.len() * 4) as nat, |k: int| 0u8)),
                r,
            ),
    {
        let ghost imgs = self.images@.map_values(
            |v: Raw3Image| Seq::new((v.pixels@.len() * 4) as nat, |k: int| 0u8),
        );
        let mut lens: Vec<usize> = Vec::new();
        let mut i: usize = 0;
        while i < self.images.len()
            invariant
                0 <= i <= self.images@.len(),
                imgs == self.images@.map_values(
                    |v: Raw3Image| Seq::new((v.pixels@.len() * 4) as nat, |k: int| 0u8),
                ),
                images_len_prefix(imgs, imgs.len() as int) <= u32::MAX,
                lens@.len() == i,
                forall|j: int| 0 <= j < i ==> lens@[j] == imgs[j].len(),
            decreases self.images@.len() - i,
        {
            proof {
                lemma_level_len_bound(imgs, i as int);
            }
            lens.push(self.images[i].pixels.len() * 4);
            i = i + 1;
        }
        proof {
            lemma_images_len_prefix_nonneg(imgs, imgs.len() as int);
        }
        let start = BlpHeader::size(version) + self.cmap.len() * 4;
        predict_locator(start, &lens, Ghost(imgs))
    }
}

impl BlpDxtn {
    /// Predict the internal locator under which the levels would be
    /// written down, one directly after another, behind the fixed header
    /// and the color map.
    pub fn mipmap_locator(&self, version: BlpVersion) -> (r: MipmapLocator)
        requires
            spec_header_size(version) + self.cmap@.len() * 4 + images_len_prefix(
                self.images@.map_values(|v: DxtnImage| v.content@),
                self.images@.len() as int,
            ) <= u32::MAX,
        ensures
            spec_predicted_locator(
                spec_header_size(version) + self.cmap@.len() * 4,
                self.images@.map_values(|v: DxtnImage| v.content@),
                r,
            ),
    {
        let ghost imgs = self.images@.map_values(|v: DxtnImage| v.content@);
        let mut lens: Vec<usize> = Vec::new();
        let mut i: usize = 0;
        while i < self.images.len()
            invariant
                0 <= i <= self.images@.len(),
                imgs == self.images@.map_values(|v: DxtnImage| v.content@),
                lens@.len() == i,
                forall|j: int| 0 <= j < i ==> lens@[j] == imgs[j].len(),
            decreases self.images@.len() - i,
        {
            lens.push(self.images[i].content.len());
            i = i + 1;
        }
        proof {
            lemma_images_len_prefix_nonneg(imgs, imgs.len() as int);
        }
        let start = BlpHeader::size(version) + self.cmap.len() * 4;
        predict_locator(start, &lens, Ghost(imgs))
    }
}

/// One level's byte length is bounded by the sum over all levels.
proof fn lemma_level_len_bound(imgs: Seq<Seq<u8>>, i: int)
    requires
        0 <= i < imgs.len(),
        images_len_prefix(imgs, imgs.len() as int) <= u32::MAX,
    ensures
        imgs[i].len() <= u32::MAX,
{
    crate::jpeg::lemma_images_len_prefix_bound(imgs, i + 1, imgs.len() as int);
    crate::jpeg::lemma_images_len_prefix_bound(imgs, 0, i);
    assert(images_len_prefix(imgs, i + 1) == images_len_prefix(imgs, i) + imgs[i].len());
}

} // verus!
