//! Plain in-memory raster images that the conversions work on: pixels as
//! raw channel bytes, rows first.

use vstd::prelude::*;

verus! {

/// An image of three-channel pixels: red, green, blue, one byte each.
#[derive(Debug, Clone, PartialEq, Eq, Hash)]
pub struct RgbBitmap {
    pub width: u32,
    pub height: u32,
    /// Three bytes per pixel, rows first.
    pub pixels: Vec<u8>,
}

/// An image of four-channel pixels: red, green, blue, alpha, one byte
/// each.
#[derive(Debug, Clone, PartialEq, Eq, Hash)]
pub struct RgbaBitmap {
    pub width: u32,
    pub height: u32,
    /// Four bytes per pixel, rows first.
    pub pixels: Vec<u8>,
}

/// A raster image with or without an alpha channel.
#[derive(Debug, Clone, PartialEq, Eq, Hash)]
pub enum Bitmap {
    Rgb(RgbBitmap),
    Rgba(RgbaBitmap),
}

/// The pixel buffer holds exactly three bytes per pixel.
pub open spec fn rgb_wf(img: RgbBitmap) -> bool {
    img.pixels@.len() == 3 * (img.width as int) * (img.height as int)
}

/// The pixel buffer holds exactly four bytes per pixel.
pub open spec fn rgba_wf(img: RgbaBitmap) -> bool {
    img.pixels@.len() == 4 * (img.width as int) * (img.height as int)
}

/// The pixel count of a four-channel image.
pub open spec fn rgba_pixel_count(img: RgbaBitmap) -> int {
    (img.width as int) * (img.height as int)
}

/// The alpha channel of a four-channel image, one byte per pixel.
pub open spec fn spec_alphas(img: RgbaBitmap) -> Seq<u8> {
    Seq::new(rgba_pixel_count(img) as nat, |i: int| img.pixels@[4 * i + 3])
}

impl RgbaBitmap {
    /// The pixel count, as the dimensions give it.
    pub fn pixel_count(&self) -> (r: usize)
        requires
            rgba_wf(*self),
        ensures
            r == rgba_pixel_count(*self),
    {
        proof {
            vstd::arithmetic::mul::lemma_mul_upper_bound(
                self.width as int,
                0xffff_ffff,
                self.height as int,
                0xffff_ffff,
            );
            vstd::arithmetic::mul::lemma_mul_nonnegative(self.width as int, self.height as int);
            vstd::arithmetic::mul::lemma_mul_is_associative(
                4,
                self.width as int,
                self.height as int,
            );
            vstd::arithmetic::div_mod::lemma_div_multiples_vanish(
                (self.width as int) * (self.height as int),
                4,
            );
        }
        self.pixels.len() / 4
    }
}

/// Swap the red and blue channels of every pixel, in place.
pub fn switch_red_blue(image: &mut RgbaBitmap)
    requires
        rgba_wf(*old(image)),
    ensures
        rgba_wf(*final(image)),
        final(image).width == old(image).width,
        final(image).height == old(image).height,
        final(image).pixels@.len() == old(image).pixels@.len(),
        forall|i: int|
            0 <= i < rgba_pixel_count(*old(image)) ==> #[trigger] final(image).pixels@[4 * i]
                == old(image).pixels@[4 * i + 2] && final(image).pixels@[4 * i + 1] == old(
                image,
            ).pixels@[4 * i + 1] && final(image).pixels@[4 * i + 2] == old(image).pixels@[4 * i]
                && final(image).pixels@[4 * i + 3] == old(image).pixels@[4 * i + 3],
{
    let ghost orig = *image;
    let n = image.pixel_count();
    let plen = image.pixels.len();
    proof {
        vstd::arithmetic::mul::lemma_mul_is_associative(4, orig.width as int, orig.height as int);
    }
    let mut out: Vec<u8> = Vec::new();
    let mut i: usize = 0;
    while i < n
        invariant
            0 <= i <= n,
            n == rgba_pixel_count(orig),
            *image == orig,
            rgba_wf(orig),
            plen == orig.pixels@.len(),
            plen == 4 * n,
            out@.len() == 4 * i,
            forall|j: int|
                0 <= j < i ==> #[trigger] out@[4 * j] == orig.pixels@[4 * j + 2] && out@[4 * j + 1]
                    == orig.pixels@[4 * j + 1] && out@[4 * j + 2] == orig.pixels@[4 * j] && out@[4
                    * j + 3] == orig.pixels@[4 * j + 3],
        decreases n - i,
    {
        proof {
            vstd::arithmetic::mul::lemma_mul_nonnegative(orig.width as int, orig.height as int);
            vstd::arithmetic::mul::lemma_mul_is_associative(
                4,
                orig.width as int,
                orig.height as int,
            );
        }
        out.push(image.pixels[4 * i + 2]);
        out.push(image.pixels[4 * i + 1]);
        out.push(image.pixels[4 * i]);
        out.push(image.pixels[4 * i + 3]);
        proof {
            assert(out@[4 * (i as int)] == orig.pixels@[4 * (i as int) + 2]);
            assert(out@[4 * (i as int) + 1] == orig.pixels@[4 * (i as int) + 1]);
            assert(out@[4 * (i as int) + 2] == orig.pixels@[4 * (i as int)]);
            assert(out@[4 * (i as int) + 3] == orig.pixels@[4 * (i as int) + 3]);
        }
        i = i + 1;
    }
    proof {
        vstd::arithmetic::mul::lemma_mul_is_associative(4, orig.width as int, orig.height as int);
    }
    image.pixels = out;
}

/// Assign the fully opaque value to the alpha channel of every pixel, in
/// place.
pub fn fill_opaque_alpha(image: &mut RgbaBitmap)
    requires
        rgba_wf(*old(image)),
    ensures
        rgba_wf(*final(image)),
        final(image).width == old(image).width,
        final(image).height == old(image).height,
        final(image).pixels@.len() == old(image).pixels@.len(),
        forall|i: int|
            0 <= i < rgba_pixel_count(*old(image)) ==> #[trigger] final(image).pixels@[4 * i]
                == old(image).pixels@[4 * i] && final(image).pixels@[4 * i + 1] == old(
                image,
            ).pixels@[4 * i + 1] && final(image).pixels@[4 * i + 2] == old(image).pixels@[4 * i + 2]
                && final(image).pixels@[4 * i + 3] == 0xFFu8,
{
    let ghost orig = *image;
    let n = image.pixel_count();
    let plen = image.pixels.len();
    proof {
        vstd::arithmetic::mul::lemma_mul_is_associative(4, orig.width as int, orig.height as int);
    }
    let mut out: Vec<u8> = Vec::new();
    let mut i: usize = 0;
    while i < n
        invariant
            0 <= i <= n,
            n == rgba_pixel_count(orig),
            *image == orig,
            rgba_wf(orig),
            plen == orig.pixels@.len(),
            plen == 4 * n,
            out@.len() == 4 * i,
            forall|j: int|
                0 <= j < i ==> #[trigger] out@[4 * j] == orig.pixels@[4 * j] && out@[4 * j + 1]
                    == orig.pixels@[4 * j + 1] && out@[4 * j + 2] == orig.pixels@[4 * j + 2]
                    && out@[4 * j + 3] == 0xFFu8,
        decreases n - i,
    {
        proof {
            vstd::arithmetic::mul::lemma_mul_nonnegative(orig.width as int, orig.height as int);
            vstd::arithmetic::mul::lemma_mul_is_associative(
                4,
                orig.width as int,
                orig.height as int,
            );
        }
        out.push(image.pixels[4 * i]);
        out.push(image.pixels[4 * i + 1]);
        out.push(image.pixels[4 * i + 2]);
        out.push(0xFF);
        proof {
            assert(out@[4 * (i as int)] == orig.pixels@[4 * (i as int)]);
            assert(out@[4 * (i as int) + 1] == orig.pixels@[4 * (i as int) + 1]);
            assert(out@[4 * (i as int) + 2] == orig.pixels@[4 * (i as int) + 2]);
            assert(out@[4 * (i as int) + 3] == 0xFFu8);
        }
        i = i + 1;
    }
    proof {
        vstd::arithmetic::mul::lemma_mul_is_associative(4, orig.width as int, orig.height as int);
    }
    image.pixels = out;
}

} // verus!
