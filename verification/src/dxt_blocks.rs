//! Field-level descriptions of the block-compression layouts. The codec
//! itself carries block bytes opaquely; these types spell the layout out
//! for callers that want to pick blocks apart.

use vstd::prelude::*;

verus! {

/// Content split into blocks of the alpha-free scheme.
#[derive(Debug, Clone, PartialEq, Eq, Hash)]
pub struct BlpDxt1 {
    pub images: Vec<Dxt1Image>,
}

/// One mipmap level of the alpha-free scheme.
#[derive(Debug, Clone, PartialEq, Eq, Hash)]
pub struct Dxt1Image {
    pub blocks: Vec<Dxt1Block>,
}

/// Each block is 64 bits and begins with two 16-bit values interpreted as
/// 565 RGB colors, least significant bits holding blue; they give the
/// first two entries of a four-color palette. When the first value is not
/// above the second, the final palette entry is reserved: black without
/// alpha, transparent with one alpha bit. The remaining entries come from
/// interpolating the first two colors. The last 32 bits are sixteen 2-bit
/// lookups choosing a palette color per pixel.
#[derive(Debug, Clone, Copy, PartialEq, Eq, Structural, Hash)]
pub struct Dxt1Block {
    pub color1: u16,
    pub color2: u16,
    pub color_indecies: u32,
}

/// Content split into blocks of the paletted-alpha scheme.
#[derive(Debug, Clone, PartialEq, Eq, Hash)]
pub struct BlpDxt3 {
    pub images: Vec<Dxt3Image>,
}

/// One mipmap level of the paletted-alpha scheme.
#[derive(Debug, Clone, PartialEq, Eq, Hash)]
pub struct Dxt3Image {
    pub blocks: Vec<Dxt3Block>,
}

/// Each block is 128 bits and begins like the alpha-free block, except
/// that no palette entry is reserved. It is followed by sixteen 4-bit
/// values giving the alpha for each pixel of the block.
#[derive(Debug, Clone, Copy, PartialEq, Eq, Structural, Hash)]
pub struct Dxt3Block {
    pub color1: u16,
    pub color2: u16,
    pub color_indecies: u32,
    pub alphas: u64,
}

/// Content split into blocks of the interpolated-alpha scheme.
#[derive(Debug, Clone, PartialEq, Eq, Hash)]
pub struct BlpDxt5 {
    pub images: Vec<Dxt5Image>,
}

/// One mipmap level of the interpolated-alpha scheme.
#[derive(Debug, Clone, PartialEq, Eq, Hash)]
pub struct Dxt5Image {
    pub blocks: Vec<Dxt5Block>,
}

/// Each block is 128 bits and begins with two 8-bit values that seed an
/// eight-entry alpha lookup table: the first two entries are those values
/// themselves; when the first is not above the second, the last two
/// entries are reserved for transparent and opaque; the rest come from
/// interpolation. The next 48 bits are sixteen 3-bit lookups choosing an
/// alpha per pixel, and the final 64 bits hold colors as in the
/// alpha-free block with no reserved entry.
#[derive(Debug, Clone, Copy, PartialEq, Eq, Structural, Hash)]
pub struct Dxt5Block {
    pub alpha1: u8,
    pub alpha2: u8,
    pub alpha_indecies1: u32,
    pub alpha_indecies2: u16,
    pub color1: u16,
    pub color2: u16,
    pub color_indecies: u32,
}

} // verus!
