//! The choices a caller makes when building a file from a raster image:
//! the version and the content layout, with its alpha depth and, for
//! block compression, the compressor trade-off.

use vstd::prelude::*;
use crate::dxt_codec::DxtAlgorithm;

verus! {

/// The alpha depths the paletted layout can store.
#[derive(Debug, Clone, Copy, PartialEq, Eq, Structural, Hash)]
pub enum AlphaBits {
    /// No alpha channel.
    NoAlpha,
    /// One bit: a pixel is transparent or opaque.
    Bit1,
    /// Four bits per pixel.
    Bit4,
    /// Eight bits per pixel.
    Bit8,
}

/// The depth as the number a header stores.
pub open spec fn spec_alpha_bits_num(a: AlphaBits) -> u32 {
    match a {
        AlphaBits::NoAlpha => 0u32,
        AlphaBits::Bit1 => 1u32,
        AlphaBits::Bit4 => 4u32,
        AlphaBits::Bit8 => 8u32,
    }
}

impl AlphaBits {
    /// The depth as the number an old-layout header stores.
    pub fn to_bits(self) -> (r: u32)
        ensures
            r == spec_alpha_bits_num(self),
    {
        match self {
            AlphaBits::NoAlpha => 0,
            AlphaBits::Bit1 => 1,
            AlphaBits::Bit4 => 4,
            AlphaBits::Bit8 => 8,
        }
    }

    /// The depth as the byte the newest header layout stores.
    pub fn to_bits_u8(self) -> (r: u8)
        ensures
            r as u32 == spec_alpha_bits_num(self),
    {
        match self {
            AlphaBits::NoAlpha => 0,
            AlphaBits::Bit1 => 1,
            AlphaBits::Bit4 => 4,
            AlphaBits::Bit8 => 8,
        }
    }
}

impl Default for AlphaBits {
    fn default() -> (r: Self)
        ensures
            r == AlphaBits::Bit8,
    {
        AlphaBits::Bit8
    }
}

/// Content choices of the two older versions.
#[derive(Debug, Clone, Copy, PartialEq, Eq, Structural, Hash)]
pub enum BlpOldFormat {
    /// Paletted 256-color image, with or without alpha.
    Raw1 { alpha_bits: AlphaBits },
    /// JPEG-compressed image, with or without alpha.
    Jpeg { has_alpha: bool },
}

impl Default for BlpOldFormat {
    fn default() -> (r: Self)
        ensures
            r == (BlpOldFormat::Jpeg { has_alpha: true }),
    {
        BlpOldFormat::Jpeg { has_alpha: true }
    }
}

/// Content choices of the newest version.
#[derive(Debug, Clone, Copy, PartialEq, Eq, Structural, Hash)]
pub enum Blp2Format {
    /// Paletted 256-color image, with or without alpha.
    Raw1 { alpha_bits: AlphaBits },
    /// Raw BGRA bitmap.
    Raw3,
    /// JPEG-compressed image; real files of this version never use it.
    Jpeg { has_alpha: bool },
    /// Block compression with one optional alpha bit.
    Dxt1 { has_alpha: bool, compress_algorithm: DxtAlgorithm },
    /// Block compression with paletted alpha.
    Dxt3 { has_alpha: bool, compress_algorithm: DxtAlgorithm },
    /// Block compression with interpolated alpha.
    Dxt5 { has_alpha: bool, compress_algorithm: DxtAlgorithm },
}

impl Default for Blp2Format {
    fn default() -> (r: Self)
        ensures
            r == (Blp2Format::Dxt5 {
                has_alpha: true,
                compress_algorithm: DxtAlgorithm::ClusterFit,
            }),
    {
        Blp2Format::Dxt5 { has_alpha: true, compress_algorithm: DxtAlgorithm::ClusterFit }
    }
}

/// Which file version and content layout to build.
#[derive(Debug, Clone, Copy, PartialEq, Eq, Structural, Hash)]
pub enum BlpTarget {
    /// The oldest version; mipmaps live in external files.
    Blp0(BlpOldFormat),
    /// The common version; mipmaps live inside the file.
    Blp1(BlpOldFormat),
    /// The newest version; mipmaps live inside the file.
    Blp2(Blp2Format),
}

impl Default for BlpTarget {
    fn default() -> (r: Self)
        ensures
            r == BlpTarget::Blp1(BlpOldFormat::Jpeg { has_alpha: true }),
    {
        BlpTarget::Blp1(Default::default())
    }
}

} // verus!
