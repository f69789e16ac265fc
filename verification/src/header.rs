//! The file header: version, content tag, version-dependent flags,
//! dimensions and the mipmap locator, with the quantities derived from them.

use vstd::prelude::*;
use crate::locator::MipmapLocator;
use crate::version::BlpVersion;

verus! {

/// How the image data is stored: either a non-standard JPEG stream per
/// mipmap level, or one of the directly readable pixel layouts.
#[derive(Debug, Clone, Copy, PartialEq, Eq, Structural, Hash)]
pub enum BlpContentTag {
    Jpeg,
    Direct,
}

/// Holder for a content field value that the library does not know.
#[derive(Debug, Clone, Copy, PartialEq, Eq, Structural, Hash)]
pub struct UnknownContent(pub u32);

/// The value that encodes the content tag in the header.
pub open spec fn spec_content_code(t: BlpContentTag) -> u32 {
    match t {
        BlpContentTag::Jpeg => 0u32,
        BlpContentTag::Direct => 1u32,
    }
}

/// The content tag a header field value denotes when read leniently:
/// unknown values fall back to JPEG content.
pub open spec fn spec_content_lenient(x: u32) -> BlpContentTag {
    if x == 1u32 {
        BlpContentTag::Direct
    } else {
        BlpContentTag::Jpeg
    }
}

impl BlpContentTag {
    /// The value written to the content field of the header.
    pub fn to_code(self) -> (r: u32)
        ensures
            r == spec_content_code(self),
    {
        match self {
            BlpContentTag::Jpeg => 0u32,
            BlpContentTag::Direct => 1u32,
        }
    }

    /// The content tag for a header field value, if the value is known.
    pub fn from_code(x: u32) -> (r: Result<BlpContentTag, UnknownContent>)
        ensures
            x == 0u32 ==> r == Ok::<BlpContentTag, UnknownContent>(BlpContentTag::Jpeg),
            x == 1u32 ==> r == Ok::<BlpContentTag, UnknownContent>(BlpContentTag::Direct),
            x != 0u32 && x != 1u32 ==> r == Err::<BlpContentTag, UnknownContent>(
                UnknownContent(x),
            ),
    {
        if x == 0u32 {
            Ok(BlpContentTag::Jpeg)
        } else if x == 1u32 {
            Ok(BlpContentTag::Direct)
        } else {
            Err(UnknownContent(x))
        }
    }
}

/// Which compression scheme a header of the newest version selects.
#[derive(Debug, Clone, Copy, PartialEq, Eq, Structural, Hash)]
pub enum Compression {
    Raw1,
    Raw3,
    Dxtc,
}

/// Holder for a compression field value that the library does not know.
#[derive(Debug, Clone, Copy, PartialEq, Eq, Structural, Hash)]
pub struct UnknownCompression(pub u8);

/// The value written to the compression field of the header.
pub open spec fn spec_compression_code(c: Compression) -> u8 {
    match c {
        Compression::Raw1 => 1u8,
        Compression::Dxtc => 2u8,
        Compression::Raw3 => 3u8,
    }
}

/// The compression a header field value denotes, if the value is known.
pub open spec fn spec_compression_from(x: u8) -> Option<Compression> {
    if x == 1u8 {
        Some(Compression::Raw1)
    } else if x == 2u8 {
        Some(Compression::Dxtc)
    } else if x == 3u8 {
        Some(Compression::Raw3)
    } else {
        None
    }
}

impl Compression {
    /// The value written to the compression field of the header.
    pub fn to_code(self) -> (r: u8)
        ensures
            r == spec_compression_code(self),
    {
        match self {
            Compression::Raw1 => 1u8,
            Compression::Dxtc => 2u8,
            Compression::Raw3 => 3u8,
        }
    }

    /// The compression for a header field value, if the value is known.
    pub fn from_code(x: u8) -> (r: Result<Compression, UnknownCompression>)
        ensures
            match r {
                Ok(c) => spec_compression_from(x) == Some(c),
                Err(u) => spec_compression_from(x) == None::<Compression> && u == UnknownCompression(x),
            },
    {
        if x == 1u8 {
            Ok(Compression::Raw1)
        } else if x == 2u8 {
            Ok(Compression::Dxtc)
        } else if x == 3u8 {
            Ok(Compression::Raw3)
        } else {
            Err(UnknownCompression(x))
        }
    }
}

/// Part of the header that depends on the version.
#[derive(Debug, Clone, PartialEq, Eq, Structural, Hash)]
pub enum BlpFlags {
    /// For the newest version.
    Blp2 { compression: Compression, alpha_bits: u8, alpha_type: u8, has_mipmaps: u8 },
    /// For the two older versions. `extra` has no known purpose but is
    /// preserved verbatim for the round trip.
    Old { alpha_bits: u32, extra: u32, has_mipmaps: u32 },
}

impl Default for BlpFlags {
    fn default() -> (r: Self)
        ensures
            r == (BlpFlags::Old { alpha_bits: 8u32, extra: 8u32, has_mipmaps: 1u32 }),
    {
        BlpFlags::Old { alpha_bits: 8, extra: 8, has_mipmaps: 1 }
    }
}

/// Whether the flags declare that mipmap levels are present.
pub open spec fn spec_has_mipmaps(f: BlpFlags) -> bool {
    match f {
        BlpFlags::Blp2 { has_mipmaps, .. } => has_mipmaps != 0u8,
        BlpFlags::Old { has_mipmaps, .. } => has_mipmaps != 0u32,
    }
}

/// The alpha depth the flags declare. Raw3 compression always reports 4,
/// whatever the stored field holds.
pub open spec fn spec_alpha_bits(f: BlpFlags) -> u32 {
    match f {
        BlpFlags::Blp2 { compression, alpha_bits, .. } => {
            if compression == Compression::Raw3 {
                4u32
            } else {
                alpha_bits as u32
            }
        },
        BlpFlags::Old { alpha_bits, .. } => alpha_bits,
    }
}

impl BlpFlags {
    /// Returns true if the header defines that the image has mipmaps.
    pub fn has_mipmaps(&self) -> (r: bool)
        ensures
            r == spec_has_mipmaps(*self),
    {
        match self {
            BlpFlags::Blp2 { has_mipmaps, .. } => *has_mipmaps != 0,
            BlpFlags::Old { has_mipmaps, .. } => *has_mipmaps != 0,
        }
    }

    /// Get the count of bits the alpha channel is encoded in.
    pub fn alpha_bits(&self) -> (r: u32)
        ensures
            r == spec_alpha_bits(*self),
    {
        match self {
            BlpFlags::Blp2 { compression, alpha_bits, .. } => {
                if *compression == Compression::Raw3 {
                    4
                } else {
                    *alpha_bits as u32
                }
            },
            BlpFlags::Old { alpha_bits, .. } => *alpha_bits,
        }
    }
}

/// The parsed fixed-size part of a file.
#[derive(Debug, Clone, PartialEq, Eq, Hash)]
pub struct BlpHeader {
    pub version: BlpVersion,
    pub content: BlpContentTag,
    pub flags: BlpFlags,
    pub width: u32,
    pub height: u32,
    pub mipmap_locator: MipmapLocator,
}

/// The whole-number part of the base-two logarithm; zero for inputs
/// below two.
pub open spec fn log2_floor(x: nat) -> nat
    decreases x,
{
    if x < 2 {
        0
    } else {
        log2_floor(x / 2) + 1
    }
}

/// Values below a power of two have logarithms below its exponent.
pub proof fn lemma_log2_floor_le(x: nat, k: nat)
    requires
        x < vstd::arithmetic::power2::pow2(k + 1),
    ensures
        log2_floor(x) <= k,
    decreases k,
{
    if x < 2 {
    } else if k == 0 {
        vstd::arithmetic::power2::lemma_pow2_unfold(1);
        assert(vstd::arithmetic::power2::pow2(0) == 1) by {
            vstd::arithmetic::power::lemma_pow0(2);
        }
    } else {
        vstd::arithmetic::power2::lemma_pow2_unfold(k + 1);
        lemma_log2_floor_le(x / 2, (k - 1) as nat);
    }
}

/// The logarithm of a 32-bit value fits well under 32.
pub proof fn lemma_log2_floor_u32(x: u32)
    ensures
        log2_floor(x as nat) <= 31,
{
    vstd::arithmetic::power2::lemma2_to64();
    lemma_log2_floor_le(x as nat, 31);
}

/// How many mipmap levels beyond the root the header calls for: zero when
/// mipmaps are disabled, else the logarithm of the larger dimension.
pub open spec fn spec_mipmaps_count(h: BlpHeader) -> nat {
    if spec_has_mipmaps(h.flags) {
        log2_floor((if h.width >= h.height {
            h.width
        } else {
            h.height
        }) as nat)
    } else {
        0
    }
}

/// The pixel dimensions of the given mipmap level: the root dimensions at
/// level zero, else each dimension halved per level, never below one.
pub open spec fn spec_mipmap_size(h: BlpHeader, i: u32) -> (u32, u32) {
    if i == 0 {
        (h.width, h.height)
    } else {
        (
            if h.width >> i == 0u32 {
                1u32
            } else {
                h.width >> i
            },
            if h.height >> i == 0u32 {
                1u32
            } else {
                h.height >> i
            },
        )
    }
}

/// The count of pixels in the given mipmap level.
pub open spec fn spec_mipmap_pixels(h: BlpHeader, i: u32) -> int {
    spec_mipmap_size(h, i).0 * spec_mipmap_size(h, i).1
}

/// Size in bytes of the fixed header of the given version. Does not count
/// the JPEG header block or the color map.
pub open spec fn spec_header_size(version: BlpVersion) -> int {
    20 + (if version != BlpVersion::Blp2 {
        8int
    } else {
        0int
    }) + (if version != BlpVersion::Blp0 {
        128int
    } else {
        0int
    })
}

/// The law of mipmap geometry: level zero keeps the full dimensions;
/// every further level halves both, never below one. Levels from 32 on
/// are left out: the dimensions are 32-bit, so the shift is a machine
/// limit, and readers of the format stop at sixteen levels anyway.
pub proof fn lemma_mipmap_geometry(h: BlpHeader, i: u32)
    requires
        i < 32,
    ensures
        i == 0 ==> spec_mipmap_size(h, i) == (h.width, h.height),
        i > 0 ==> spec_mipmap_size(h, i) == (
            (if h.width >> i == 0u32 {
                1u32
            } else {
                h.width >> i
            }),
            (if h.height >> i == 0u32 {
                1u32
            } else {
                h.height >> i
            }),
        ),
{
}

impl BlpHeader {
    /// Calculate the needed count of mipmaps for the defined size.
    pub fn mipmaps_count(&self) -> (r: u32)
        ensures
            r as nat == spec_mipmaps_count(*self),
    {
        if !self.flags.has_mipmaps() {
            return 0;
        }
        let mut n: u32 = if self.width >= self.height {
            self.width
        } else {
            self.height
        };
        let ghost n0: u32 = n;
        let mut c: u32 = 0;
        proof {
            lemma_log2_floor_u32(n0);
        }
        while n >= 2
            invariant
                c + log2_floor(n as nat) == log2_floor(n0 as nat),
                log2_floor(n0 as nat) <= 31,
            decreases n,
        {
            n = n / 2;
            c = c + 1;
        }
        c
    }

    /// Returns true if the header defines that the image has mipmaps.
    pub fn has_mipmaps(&self) -> (r: bool)
        ensures
            r == spec_has_mipmaps(self.flags),
    {
        self.flags.has_mipmaps()
    }

    /// Return the expected size of the mipmap for the given level.
    /// Level zero means the original image.
    pub fn mipmap_size(&self, i: u32) -> (r: (u32, u32))
        requires
            i < 32,
        ensures
            r == spec_mipmap_size(*self, i),
    {
        if i == 0 {
            (self.width, self.height)
        } else {
            let w = self.width >> i;
            let h = self.height >> i;
            (
                if w == 0 {
                    1
                } else {
                    w
                },
                if h == 0 {
                    1
                } else {
                    h
                },
            )
        }
    }

    /// Return the expected count of pixels in the mipmap at the given
    /// level. Level zero means the original image.
    pub fn mipmap_pixels(&self, i: u32) -> (r: u32)
        requires
            i < 32,
            self.width <= 65535,
            self.height <= 65535,
        ensures
            r == spec_mipmap_pixels(*self, i),
    {
        let (w, h) = self.mipmap_size(i);
        proof {
            let fw = self.width;
            let fh = self.height;
            assert(fw >> i <= 65535 && fh >> i <= 65535) by (bit_vector)
                requires
                    fw <= 65535,
                    fh <= 65535,
                    i < 32u32,
            ;
            vstd::arithmetic::mul::lemma_mul_upper_bound(w as int, 65535, h as int, 65535);
        }
        w * h
    }

    /// Return the alpha depth of the encoding.
    pub fn alpha_bits(&self) -> (r: u32)
        ensures
            r == spec_alpha_bits(self.flags),
    {
        self.flags.alpha_bits()
    }

    /// Return offsets and sizes of internal mipmaps, or nothing when the
    /// mipmaps live in external files.
    pub fn internal_mipmaps(&self) -> (r: Option<([u32; 16], [u32; 16])>)
        ensures
            match self.mipmap_locator {
                MipmapLocator::Internal { offsets, sizes } => r matches Some(p) && p.0@ == offsets@
                    && p.1@ == sizes@,
                MipmapLocator::External => r is None,
            },
    {
        match &self.mipmap_locator {
            MipmapLocator::Internal { offsets, sizes } => Some((*offsets, *sizes)),
            MipmapLocator::External => None,
        }
    }

    /// Get the size of the fixed header in bytes. Does not count the JPEG
    /// header block or the color map.
    pub fn size(version: BlpVersion) -> (r: usize)
        ensures
            r == spec_header_size(version),
    {
        let base: usize = 20;
        let old_part: usize = if version != BlpVersion::Blp2 {
            8
        } else {
            0
        };
        let locator_part: usize = if version != BlpVersion::Blp0 {
            128
        } else {
            0
        };
        base + old_part + locator_part
    }
}

impl Default for BlpHeader {
    fn default() -> (r: Self)
        ensures
            r.version == BlpVersion::Blp1,
            r.content == BlpContentTag::Jpeg,
            r.flags == (BlpFlags::Old { alpha_bits: 8u32, extra: 8u32, has_mipmaps: 1u32 }),
            r.width == 1u32,
            r.height == 1u32,
            r.mipmap_locator matches MipmapLocator::Internal { offsets, sizes }
                && offsets@ =~= Seq::new(16, |i: int| 0u32)
                && sizes@ =~= Seq::new(16, |i: int| 0u32),
    {
        BlpHeader {
            version: BlpVersion::Blp1,
            content: BlpContentTag::Jpeg,
            flags: Default::default(),
            width: 1,
            height: 1,
            mipmap_locator: Default::default(),
        }
    }
}

} // verus!
