//! Parsing raw bytes into the structured representation.

use vstd::prelude::*;
use crate::content::{BlpContent, BlpImage};
use crate::direct::{BlpRaw1, BlpRaw3, Raw1Image, Raw3Image};
use crate::header::{
    spec_alpha_bits, spec_compression_from, spec_content_lenient, spec_has_mipmaps,
    spec_header_size, spec_mipmap_pixels, spec_mipmaps_count, BlpContentTag, BlpFlags, BlpHeader,
    Compression,
};
use crate::locator::MipmapLocator;
use crate::primitives::{read_le_u32, spec_u32le};
use crate::version::{spec_from_magic, BlpVersion};

verus! {

/// What can go wrong while parsing.
#[derive(Debug, Clone, PartialEq, Eq, Hash)]
pub enum ParseError {
    /// The first four bytes name no known version; they are carried here.
    WrongMagic(Vec<u8>),
    /// The input ends before a field or a level payload is complete.
    Truncated,
    /// An external mipmap level is called for but no file holds it.
    MissingImage(usize),
    /// A level's recorded offset or size points outside the input.
    OutOfBounds(usize),
    /// The newest version cannot store its mipmaps in external files.
    Blp2NoExternalMips,
    /// The compression field value is not known.
    Blp2UnknownCompression(u8),
    /// The alpha type value is not known for block compression.
    Blp2UnknownAlphaType(u8),
}

/// The input is too short to hold the magic bytes.
pub open spec fn magic_missing(b: Seq<u8>) -> bool {
    b.len() < 4
}

/// The magic bytes are present but name no known version.
pub open spec fn magic_bad(b: Seq<u8>) -> bool {
    b.len() >= 4 && spec_from_magic(b.subrange(0, 4)) is None
}

/// The version the magic bytes name.
pub open spec fn spec_version_of(b: Seq<u8>) -> BlpVersion {
    spec_from_magic(b.subrange(0, 4))->Some_0
}

/// For the newest version, the byte holding the compression field is
/// missing.
pub open spec fn compression_missing(b: Seq<u8>, v: BlpVersion) -> bool {
    v == BlpVersion::Blp2 && b.len() < 9
}

/// For the newest version, the compression field holds no known value.
pub open spec fn compression_bad(b: Seq<u8>, v: BlpVersion) -> bool {
    v == BlpVersion::Blp2 && b.len() >= 9 && spec_compression_from(b[8]) is None
}

/// The header of the named version parses whole from the input.
pub open spec fn header_ok(b: Seq<u8>) -> bool {
    !magic_missing(b) && !magic_bad(b) && {
        let v = spec_version_of(b);
        !compression_missing(b, v) && !compression_bad(b, v) && b.len() >= spec_header_size(v)
    }
}

/// The alpha depth stored in an old-layout header, normalised: values the
/// content tag does not allow are coerced to zero.
pub open spec fn spec_old_alpha(content: BlpContentTag, raw: u32) -> u32 {
    if content == BlpContentTag::Jpeg && raw != 0u32 && raw != 8u32 {
        0u32
    } else if content == BlpContentTag::Direct && raw != 0u32 && raw != 1u32 && raw != 4u32 && raw
        != 8u32 {
        0u32
    } else {
        raw
    }
}

/// The header `h` is what the input bytes describe.
pub open spec fn spec_parsed_header(b: Seq<u8>, h: BlpHeader) -> bool {
    header_ok(b) && {
        let v = spec_version_of(b);
        let content = spec_content_lenient(spec_u32le(b, 4));
        h.version == v && h.content == content && (match v {
            BlpVersion::Blp2 => {
                h.width == spec_u32le(b, 12) && h.height == spec_u32le(b, 16) && h.flags
                    == (BlpFlags::Blp2 {
                    compression: spec_compression_from(b[8])->Some_0,
                    alpha_bits: b[9],
                    alpha_type: b[10],
                    has_mipmaps: b[11],
                }) && (h.mipmap_locator matches MipmapLocator::Internal { offsets, sizes }
                    && (forall|i: int| 0 <= i < 16 ==> offsets@[i] == spec_u32le(b, 20 + 4 * i))
                    && (forall|i: int| 0 <= i < 16 ==> sizes@[i] == spec_u32le(b, 84 + 4 * i)))
            },
            _ => {
                h.width == spec_u32le(b, 12) && h.height == spec_u32le(b, 16) && h.flags
                    == (BlpFlags::Old {
                    alpha_bits: spec_old_alpha(content, spec_u32le(b, 8)),
                    extra: spec_u32le(b, 20),
                    has_mipmaps: spec_u32le(b, 24),
                }) && (match v {
                    BlpVersion::Blp0 => h.mipmap_locator is External,
                    _ => h.mipmap_locator matches MipmapLocator::Internal { offsets, sizes }
                        && (forall|i: int|
                            0 <= i < 16 ==> offsets@[i] == spec_u32le(b, 28 + 4 * i)) && (
                        forall|i: int| 0 <= i < 16 ==> sizes@[i] == spec_u32le(b, 92 + 4 * i)),
                })
            },
        })
    }
}

/// Which error the header parser reports: the first rule the input
/// violates, in reading order.
pub open spec fn spec_header_err_matches(b: Seq<u8>, e: ParseError) -> bool {
    if magic_missing(b) {
        e == ParseError::Truncated
    } else if magic_bad(b) {
        e matches ParseError::WrongMagic(m) && m@ == b.subrange(0, 4)
    } else {
        let v = spec_version_of(b);
        if compression_missing(b, v) {
            e == ParseError::Truncated
        } else if compression_bad(b, v) {
            e == ParseError::Blp2UnknownCompression(b[8])
        } else if b.len() < spec_header_size(v) {
            e == ParseError::Truncated
        } else {
            false
        }
    }
}

/// The pixel count of a mipmap level, as the level geometry gives it.
pub open spec fn spec_level_pixels(h: BlpHeader, i: int) -> int {
    spec_mipmap_pixels(h, i as u32)
}

/// How many bytes the packed alpha channel of `n` pixels takes at the
/// given depth: the bits rounded up to whole bytes.
pub open spec fn spec_alpha_len(n: int, ab: u32) -> int {
    (n * ab + 7) / 8
}

/// Bytes a paletted level must hold: one index per pixel and the packed
/// alpha channel.
pub open spec fn spec_raw1_need(h: BlpHeader) -> spec_fn(int) -> int {
    |i: int|
        spec_level_pixels(h, i) + spec_alpha_len(
            spec_level_pixels(h, i),
            spec_alpha_bits(h.flags),
        )
}

/// Bytes a raw level must hold: four per pixel.
pub open spec fn spec_raw3_need(h: BlpHeader) -> spec_fn(int) -> int {
    |i: int| 4 * spec_level_pixels(h, i)
}

/// Bytes a block-compressed level must hold: sixteen pixels per block,
/// rounded up, at the scheme's block size.
pub open spec fn spec_dxtn_need(h: BlpHeader, f: crate::direct::DxtnFormat) -> spec_fn(int) -> int {
    |i: int| ((spec_level_pixels(h, i) + 15) / 16) * crate::direct::spec_block_size(f)
}

/// A JPEG level takes its recorded slice whole, whatever its size.
pub open spec fn spec_jpeg_need() -> spec_fn(int) -> int {
    |i: int| 0
}

/// How many levels the parser reads: one more than the mipmap count when
/// mipmaps are present, capped by the table depth, else just the root.
pub open spec fn spec_level_count(h: BlpHeader) -> int {
    crate::encode::spec_take_count(h)
}

/// How many levels an external JPEG file set must supply; the cap of the
/// internal tables does not apply to it.
pub open spec fn spec_ext_jpeg_count(h: BlpHeader) -> int {
    if spec_has_mipmaps(h.flags) {
        spec_mipmaps_count(h) as int + 1
    } else {
        1
    }
}

/// The first rule an internal level violates: its offset must lie inside
/// the input, the recorded slice must end inside the input, and the slice
/// must be long enough for the level's payload.
pub open spec fn spec_level_err(b: Seq<u8>, off: u32, size: u32, need: int) -> Option<ParseError> {
    if off >= b.len() {
        Some(ParseError::OutOfBounds(0))
    } else if off + size > b.len() {
        Some(ParseError::OutOfBounds(0))
    } else if size < need {
        Some(ParseError::Truncated)
    } else {
        None
    }
}

/// The first error among the internal levels `i` up to `end`, if any.
pub open spec fn spec_levels_err(
    b: Seq<u8>,
    offsets: Seq<u32>,
    sizes: Seq<u32>,
    need: spec_fn(int) -> int,
    i: int,
    end: int,
) -> Option<ParseError>
    decreases end - i,
{
    if i >= end {
        None
    } else {
        match spec_level_err(b, offsets[i], sizes[i], need(i)) {
            Some(e) => Some(e),
            None => spec_levels_err(b, offsets, sizes, need, i + 1, end),
        }
    }
}

/// While the levels below `i` pass their checks, the first error from
/// zero and the first error from `i` agree.
pub proof fn lemma_levels_err_stable(
    b: Seq<u8>,
    offsets: Seq<u32>,
    sizes: Seq<u32>,
    need: spec_fn(int) -> int,
    i: int,
    end: int,
)
    requires
        0 <= i <= end,
        forall|j: int| 0 <= j < i ==> spec_level_err(b, offsets[j], sizes[j], #[trigger] need(j))
            is None,
    ensures
        spec_levels_err(b, offsets, sizes, need, 0, end) == spec_levels_err(
            b,
            offsets,
            sizes,
            need,
            i,
            end,
        ),
    decreases i,
{
    if i > 0 {
        lemma_levels_err_stable(b, offsets, sizes, need, i - 1, end);
    }
}

/// The law of bounds rejection: when every earlier level passes its
/// checks and level `j` is recorded outside the input — its offset at or
/// past the end, or its end past the end — parsing those levels fails
/// with the bounds error, whatever the content kind needs.
pub proof fn lemma_bounds_rejection(
    b: Seq<u8>,
    offsets: Seq<u32>,
    sizes: Seq<u32>,
    need: spec_fn(int) -> int,
    j: int,
    end: int,
)
    requires
        0 <= j < end,
        forall|i: int|
            0 <= i < j ==> spec_level_err(b, offsets[i], sizes[i], #[trigger] need(i)) is None,
        offsets[j] >= b.len() || offsets[j] + sizes[j] > b.len(),
    ensures
        spec_levels_err(b, offsets, sizes, need, 0, end) == Some(ParseError::OutOfBounds(0)),
{
    lemma_levels_err_stable(b, offsets, sizes, need, j, end);
}

/// The first error among external levels `i` up to `end`: each level must
/// have its file, and the file must hold the level's payload.
pub open spec fn spec_ext_levels_err(
    exts: Seq<Seq<u8>>,
    need: spec_fn(int) -> int,
    i: int,
    end: int,
) -> Option<ParseError>
    decreases end - i,
{
    if i >= end {
        None
    } else if i >= exts.len() {
        Some(ParseError::MissingImage(i as usize))
    } else if exts[i].len() < need(i) {
        Some(ParseError::Truncated)
    } else {
        spec_ext_levels_err(exts, need, i + 1, end)
    }
}

/// The external levels below `i` all pass their checks: each has its
/// file, and the file holds the level's payload.
pub open spec fn ext_levels_ok(exts: Seq<Seq<u8>>, need: spec_fn(int) -> int, i: int) -> bool {
    forall|j: int| 0 <= j < i ==> j < exts.len() && #[trigger] exts[j].len() >= need(j)
}

/// While the external levels below `i` pass their checks, the first error
/// from zero and the first error from `i` agree.
pub proof fn lemma_ext_levels_err_stable(
    exts: Seq<Seq<u8>>,
    need: spec_fn(int) -> int,
    i: int,
    end: int,
)
    requires
        0 <= i <= end,
        ext_levels_ok(exts, need, i),
    ensures
        spec_ext_levels_err(exts, need, 0, end) == spec_ext_levels_err(exts, need, i, end),
    decreases i,
{
    if i > 0 {
        assert(exts[i - 1].len() >= need(i - 1));
        assert(ext_levels_ok(exts, need, i - 1));
        lemma_ext_levels_err_stable(exts, need, i - 1, end);
    }
}

/// The levels of raw content stop at the first entry after the root whose
/// recorded size is zero; this gives the index of that entry, or `end`.
pub open spec fn spec_first_zero(sizes: Seq<u32>, i: int, end: int) -> int
    decreases end - i,
{
    if i >= end {
        end
    } else if sizes[i] == 0u32 {
        i
    } else {
        spec_first_zero(sizes, i + 1, end)
    }
}

/// The stop index never falls below where the search began, nor beyond
/// `end`, and no entry before it is zero.
pub proof fn lemma_first_zero_props(sizes: Seq<u32>, i: int, end: int)
    requires
        0 <= i <= end,
    ensures
        i <= spec_first_zero(sizes, i, end) <= end,
        forall|j: int| i <= j < spec_first_zero(sizes, i, end) ==> sizes[j] != 0u32,
    decreases end - i,
{
    if i < end && sizes[i] != 0u32 {
        lemma_first_zero_props(sizes, i + 1, end);
    }
}

/// While the entries from the search start up to `i` are not zero, the
/// search from there and the search from `i` agree.
pub proof fn lemma_first_zero_stable(sizes: Seq<u32>, s: int, i: int, end: int)
    requires
        0 <= s <= i <= end,
        forall|j: int| s <= j < i ==> sizes[j] != 0u32,
    ensures
        spec_first_zero(sizes, s, end) == spec_first_zero(sizes, i, end),
    decreases i - s,
{
    if s < i {
        lemma_first_zero_stable(sizes, s + 1, i, end);
    }
}

/// One parsed paletted level: the indices, then the packed alpha, both
/// cut from the recorded slice.
pub open spec fn spec_raw1_level(b: Seq<u8>, h: BlpHeader, off: int, i: int, img: Raw1Image) -> bool {
    let n = spec_level_pixels(h, i);
    let an = spec_alpha_len(n, spec_alpha_bits(h.flags));
    img.indexed_rgb@ == b.subrange(off, off + n) && img.indexed_alpha@ == b.subrange(
        off + n,
        off + n + an,
    )
}

/// One parsed raw level: one 32-bit pixel per position, read
/// little-endian from the recorded slice.
pub open spec fn spec_raw3_level(b: Seq<u8>, h: BlpHeader, off: int, i: int, img: Raw3Image) -> bool {
    let n = spec_level_pixels(h, i);
    img.pixels@.len() == n && forall|k: int|
        0 <= k < n ==> #[trigger] img.pixels@[k] == spec_u32le(b, off + 4 * k)
}

/// One parsed block-compressed level: the block bytes cut from the
/// recorded slice.
pub open spec fn spec_dxtn_level(
    b: Seq<u8>,
    h: BlpHeader,
    f: crate::direct::DxtnFormat,
    off: int,
    i: int,
    img: crate::direct::DxtnImage,
) -> bool {
    img.content@ == b.subrange(off, off + spec_dxtn_need(h, f)(i))
}

/// One parsed paletted level cut from its own external file: the indices,
/// then the packed alpha.
pub open spec fn spec_raw1_ext_level(exts: Seq<Seq<u8>>, h: BlpHeader, i: int, img: Raw1Image) -> bool {
    let n = spec_level_pixels(h, i);
    let an = spec_alpha_len(n, spec_alpha_bits(h.flags));
    img.indexed_rgb@ == exts[i].subrange(0, n) && img.indexed_alpha@ == exts[i].subrange(n, n + an)
}

/// The pixel count of a level, computed exactly in 64 bits.
fn level_pixels(header: &BlpHeader, i: u32) -> (r: u64)
    requires
        i < 32,
    ensures
        r == spec_level_pixels(*header, i as int),
{
    let (w, h) = header.mipmap_size(i);
    proof {
        vstd::arithmetic::mul::lemma_mul_upper_bound(w as int, 0xffff_ffff, h as int, 0xffff_ffff);
    }
    (w as u64) * (h as u64)
}

/// The count of levels the tables are read for.
fn level_count(header: &BlpHeader) -> (r: usize)
    ensures
        r == spec_level_count(*header),
        r <= 16,
{
    let count = header.mipmaps_count();
    proof {
        crate::header::lemma_log2_floor_u32(
            if header.width >= header.height {
                header.width
            } else {
                header.height
            },
        );
    }
    if count + 1 < 16 {
        (count + 1) as usize
    } else {
        16
    }
}

/// Parse the paletted levels recorded by an internal locator, appending
/// one image per level.
pub fn parse_raw1(
    blp_header: &BlpHeader,
    original_input: &[u8],
    offsets: &[u32; 16],
    sizes: &[u32; 16],
    images: &mut Vec<Raw1Image>,
) -> (r: Result<(), ParseError>)
    ensures
        match r {
            Ok(_) => spec_levels_err(
                original_input@,
                offsets@,
                sizes@,
                spec_raw1_need(*blp_header),
                0,
                spec_level_count(*blp_header),
            ) is None && final(images)@.len() == old(images)@.len() + spec_level_count(
                *blp_header,
            ) && (forall|j: int|
                0 <= j < old(images)@.len() ==> final(images)@[j] == old(images)@[j]) && (
            forall|i: int|
                0 <= i < spec_level_count(*blp_header) ==> spec_raw1_level(
                    original_input@,
                    *blp_header,
                    offsets@[i] as int,
                    i,
                    #[trigger] final(images)@[old(images)@.len() + i],
                )),
            Err(e) => spec_levels_err(
                original_input@,
                offsets@,
                sizes@,
                spec_raw1_need(*blp_header),
                0,
                spec_level_count(*blp_header),
            ) == Some(e),
        },
{
    let ghost b = original_input@;
    let ghost need = spec_raw1_need(*blp_header);
    let end = level_count(blp_header);
    let ilen = original_input.len();
    let mut i: usize = 0;
    while i < end
        invariant
            0 <= i <= end,
            end == spec_level_count(*blp_header),
            b == original_input@,
            need == spec_raw1_need(*blp_header),
            ilen == b.len(),
            images@.len() == old(images)@.len() + i,
            forall|j: int| 0 <= j < old(images)@.len() ==> images@[j] == old(images)@[j],
            forall|j: int|
                0 <= j < i ==> spec_raw1_level(
                    b,
                    *blp_header,
                    offsets@[j] as int,
                    j,
                    #[trigger] images@[old(images)@.len() + j],
                ),
            forall|j: int|
                0 <= j < i ==> spec_level_err(b, offsets@[j], sizes@[j], #[trigger] need(j))
                    is None,
        decreases end - i,
    {
        let off32 = offsets[i];
        let size = sizes[i];
        let off = off32 as usize;
        if off >= ilen {
            proof {
                lemma_levels_err_stable(b, offsets@, sizes@, need, i as int, end as int);
            }
            return Err(ParseError::OutOfBounds(0));
        }
        if (off32 as u64) + (size as u64) > (ilen as u64) {
            proof {
                lemma_levels_err_stable(b, offsets@, sizes@, need, i as int, end as int);
            }
            return Err(ParseError::OutOfBounds(0));
        }
        let n64 = level_pixels(blp_header, i as u32);
        let ab = blp_header.alpha_bits();
        proof {
            vstd::arithmetic::mul::lemma_mul_upper_bound(
                n64 as int,
                0xffff_ffff_ffff_ffff,
                ab as int,
                0xffff_ffff,
            );
        }
        let an128: u128 = ((n64 as u128) * (ab as u128) + 7) / 8;
        let need128: u128 = (n64 as u128) + an128;
        proof {
            assert(need(i as int) == spec_level_pixels(*blp_header, i as int) + spec_alpha_len(
                spec_level_pixels(*blp_header, i as int),
                spec_alpha_bits(blp_header.flags),
            ));
            assert(an128 == spec_alpha_len(
                spec_level_pixels(*blp_header, i as int),
                spec_alpha_bits(blp_header.flags),
            ));
        }
        if (size as u128) < need128 {
            proof {
                lemma_levels_err_stable(b, offsets@, sizes@, need, i as int, end as int);
            }
            return Err(ParseError::Truncated);
        }
        proof {
            assert(n64 + an128 <= size);
            assert(off + n64 + an128 <= ilen);
        }
        let n = n64 as usize;
        let an = an128 as usize;
        let mut rgb: Vec<u8> = Vec::new();
        let mut k: usize = 0;
        while k < n
            invariant
                0 <= k <= n,
                b == original_input@,
                ilen == b.len(),
                off + n + an <= b.len(),
                rgb@ == b.subrange(off as int, off + k),
            decreases n - k,
        {
            rgb.push(original_input[off + k]);
            proof {
                assert(rgb@ =~= b.subrange(off as int, off + k + 1));
            }
            k = k + 1;
        }
        let mut alpha: Vec<u8> = Vec::new();
        let mut k: usize = 0;
        while k < an
            invariant
                0 <= k <= an,
                b == original_input@,
                ilen == b.len(),
                off + n + an <= b.len(),
                alpha@ == b.subrange(off + n, off + n + k),
            decreases an - k,
        {
            alpha.push(original_input[off + n + k]);
            proof {
                assert(alpha@ =~= b.subrange(off + n, off + n + k + 1));
            }
            k = k + 1;
        }
        images.push(Raw1Image { indexed_rgb: rgb, indexed_alpha: alpha });
        i = i + 1;
    }
    proof {
        lemma_levels_err_stable(b, offsets@, sizes@, need, end as int, end as int);
    }
    Ok(())
}

/// Parse the raw BGRA levels recorded by an internal locator, appending
/// one image per level. Reading stops quietly at the first level after
/// the root whose recorded size is zero.
pub fn parse_raw3(
    blp_header: &BlpHeader,
    original_input: &[u8],
    offsets: &[u32; 16],
    sizes: &[u32; 16],
    images: &mut Vec<Raw3Image>,
) -> (r: Result<(), ParseError>)
    ensures
        ({
            let rend = spec_first_zero(sizes@, 1, spec_level_count(*blp_header));
            match r {
                Ok(_) => spec_levels_err(
                    original_input@,
                    offsets@,
                    sizes@,
                    spec_raw3_need(*blp_header),
                    0,
                    rend,
                ) is None && final(images)@.len() == old(images)@.len() + rend && (forall|j: int|
                    0 <= j < old(images)@.len() ==> final(images)@[j] == old(images)@[j]) && (
                forall|i: int|
                    0 <= i < rend ==> spec_raw3_level(
                        original_input@,
                        *blp_header,
                        offsets@[i] as int,
                        i,
                        #[trigger] final(images)@[old(images)@.len() + i],
                    )),
                Err(e) => spec_levels_err(
                    original_input@,
                    offsets@,
                    sizes@,
                    spec_raw3_need(*blp_header),
                    0,
                    rend,
                ) == Some(e),
            }
        }),
{
    let ghost b = original_input@;
    let ghost need = spec_raw3_need(*blp_header);
    let end = level_count(blp_header);
    let ghost rend = spec_first_zero(sizes@, 1, end as int);
    proof {
        lemma_first_zero_props(sizes@, 1, end as int);
    }
    let ilen = original_input.len();
    let mut i: usize = 0;
    let mut stopped: bool = false;
    while i < end && !stopped
        invariant
            0 <= i <= end,
            end == spec_level_count(*blp_header),
            1 <= end <= 16,
            rend == spec_first_zero(sizes@, 1, end as int),
            b == original_input@,
            need == spec_raw3_need(*blp_header),
            ilen == b.len(),
            images@.len() == old(images)@.len() + (if stopped {
                rend
            } else {
                i as int
            }),
            !stopped && i >= 1 ==> spec_first_zero(sizes@, 1, end as int) == spec_first_zero(
                sizes@,
                i as int,
                end as int,
            ),
            !stopped ==> i as int <= rend,
            stopped ==> i as int == rend,
            forall|j: int| 0 <= j < old(images)@.len() ==> images@[j] == old(images)@[j],
            forall|j: int|
                0 <= j < images@.len() - old(images)@.len() ==> spec_raw3_level(
                    b,
                    *blp_header,
                    offsets@[j] as int,
                    j,
                    #[trigger] images@[old(images)@.len() + j],
                ),
            forall|j: int|
                0 <= j < images@.len() - old(images)@.len() ==> spec_level_err(
                    b,
                    offsets@[j],
                    sizes@[j],
                    #[trigger] need(j),
                ) is None,
        decreases end - i, (if stopped {
            0int
        } else {
            1int
        }),
    {
        if i >= 1 && sizes[i] == 0 {
            proof {
                assert(spec_first_zero(sizes@, i as int, end as int) == i);
            }
            stopped = true;
        } else {
            proof {
                if i >= 1 {
                    assert(spec_first_zero(sizes@, i as int, end as int) == spec_first_zero(
                        sizes@,
                        i + 1,
                        end as int,
                    ));
                    lemma_first_zero_props(sizes@, i + 1, end as int);
                }
                if i == 0 && end > 1 {
                    lemma_first_zero_props(sizes@, 1, end as int);
                }
            }
            let off32 = offsets[i];
            let size = sizes[i];
            let off = off32 as usize;
            if off >= ilen {
                proof {
                    lemma_levels_err_stable(b, offsets@, sizes@, need, i as int, rend);
                }
                return Err(ParseError::OutOfBounds(0));
            }
            if (off32 as u64) + (size as u64) > (ilen as u64) {
                proof {
                    lemma_levels_err_stable(b, offsets@, sizes@, need, i as int, rend);
                }
                return Err(ParseError::OutOfBounds(0));
            }
            let n64 = level_pixels(blp_header, i as u32);
            proof {
                vstd::arithmetic::mul::lemma_mul_upper_bound(
                    n64 as int,
                    0xffff_ffff_ffff_ffff,
                    4,
                    4,
                );
            }
            let need128: u128 = (n64 as u128) * 4;
            if (size as u128) < need128 {
                proof {
                    lemma_levels_err_stable(b, offsets@, sizes@, need, i as int, rend);
                }
                return Err(ParseError::Truncated);
            }
            proof {
                assert(off + 4 * n64 <= ilen);
            }
            let n = n64 as usize;
            let mut pixels: Vec<u32> = Vec::new();
            let mut k: usize = 0;
            while k < n
                invariant
                    0 <= k <= n,
                    b == original_input@,
                    ilen == b.len(),
                    off + 4 * n <= b.len(),
                    pixels@.len() == k,
                    forall|m: int|
                        0 <= m < k ==> #[trigger] pixels@[m] == spec_u32le(b, off + 4 * m),
                decreases n - k,
            {
                pixels.push(read_le_u32(original_input, off + 4 * k));
                k = k + 1;
            }
            images.push(Raw3Image { pixels });
            i = i + 1;
        }
    }
    proof {
        if !stopped {
            assert(i == end);
            if end > 1 {
                assert(spec_first_zero(sizes@, 1, end as int) == spec_first_zero(
                    sizes@,
                    end as int,
                    end as int,
                ));
            }
            assert(rend == end);
        }
        lemma_levels_err_stable(b, offsets@, sizes@, need, rend, rend);
    }
    Ok(())
}

/// Parse the block-compressed levels recorded by an internal locator,
/// appending one image per level.
pub fn parse_dxtn(
    blp_header: &BlpHeader,
    dxtn: crate::direct::DxtnFormat,
    original_input: &[u8],
    offsets: &[u32; 16],
    sizes: &[u32; 16],
    images: &mut Vec<crate::direct::DxtnImage>,
) -> (r: Result<(), ParseError>)
    ensures
        match r {
            Ok(_) => spec_levels_err(
                original_input@,
                offsets@,
                sizes@,
                spec_dxtn_need(*blp_header, dxtn),
                0,
                spec_level_count(*blp_header),
            ) is None && final(images)@.len() == old(images)@.len() + spec_level_count(
                *blp_header,
            ) && (forall|j: int|
                0 <= j < old(images)@.len() ==> final(images)@[j] == old(images)@[j]) && (
            forall|i: int|
                0 <= i < spec_level_count(*blp_header) ==> spec_dxtn_level(
                    original_input@,
                    *blp_header,
                    dxtn,
                    offsets@[i] as int,
                    i,
                    #[trigger] final(images)@[old(images)@.len() + i],
                )),
            Err(e) => spec_levels_err(
                original_input@,
                offsets@,
                sizes@,
                spec_dxtn_need(*blp_header, dxtn),
                0,
                spec_level_count(*blp_header),
            ) == Some(e),
        },
{
    let ghost b = original_input@;
    let ghost need = spec_dxtn_need(*blp_header, dxtn);
    let end = level_count(blp_header);
    let ilen = original_input.len();
    let mut i: usize = 0;
    while i < end
        invariant
            0 <= i <= end,
            end == spec_level_count(*blp_header),
            b == original_input@,
            need == spec_dxtn_need(*blp_header, dxtn),
            ilen == b.len(),
            images@.len() == old(images)@.len() + i,
            forall|j: int| 0 <= j < old(images)@.len() ==> images@[j] == old(images)@[j],
            forall|j: int|
                0 <= j < i ==> spec_dxtn_level(
                    b,
                    *blp_header,
                    dxtn,
                    offsets@[j] as int,
                    j,
                    #[trigger] images@[old(images)@.len() + j],
                ),
            forall|j: int|
                0 <= j < i ==> spec_level_err(b, offsets@[j], sizes@[j], #[trigger] need(j))
                    is None,
        decreases end - i,
    {
        let off32 = offsets[i];
        let size = sizes[i];
        let off = off32 as usize;
        if off >= ilen {
            proof {
                lemma_levels_err_stable(b, offsets@, sizes@, need, i as int, end as int);
            }
            return Err(ParseError::OutOfBounds(0));
        }
        if (off32 as u64) + (size as u64) > (ilen as u64) {
            proof {
                lemma_levels_err_stable(b, offsets@, sizes@, need, i as int, end as int);
            }
            return Err(ParseError::OutOfBounds(0));
        }
        let n64 = level_pixels(blp_header, i as u32);
        let bs = dxtn.block_size();
        proof {
            vstd::arithmetic::mul::lemma_mul_upper_bound(
                ((n64 + 15) / 16) as int,
                0x1000_0000_0000_0000,
                bs as int,
                16,
            );
        }
        let need128: u128 = (((n64 as u128) + 15) / 16) * (bs as u128);
        if (size as u128) < need128 {
            proof {
                lemma_levels_err_stable(b, offsets@, sizes@, need, i as int, end as int);
            }
            return Err(ParseError::Truncated);
        }
        proof {
            assert(off + need(i as int) <= ilen);
        }
        let cnt = need128 as usize;
        let mut content: Vec<u8> = Vec::new();
        let mut k: usize = 0;
        while k < cnt
            invariant
                0 <= k <= cnt,
                b == original_input@,
                ilen == b.len(),
                off + cnt <= b.len(),
                content@ == b.subrange(off as int, off + k),
            decreases cnt - k,
        {
            content.push(original_input[off + k]);
            proof {
                assert(content@ =~= b.subrange(off as int, off + k + 1));
            }
            k = k + 1;
        }
        images.push(crate::direct::DxtnImage { content });
        i = i + 1;
    }
    proof {
        lemma_levels_err_stable(b, offsets@, sizes@, need, end as int, end as int);
    }
    Ok(())
}

/// Parse the paletted levels of the oldest version, each from its own
/// external file, appending one image per level.
pub fn parse_blp0(
    blp_header: &BlpHeader,
    external_mipmaps: &Vec<Vec<u8>>,
    images: &mut Vec<Raw1Image>,
) -> (r: Result<(), ParseError>)
    ensures
        ({
            let exts = external_mipmaps@.map_values(|v: Vec<u8>| v@);
            match r {
                Ok(_) => spec_ext_levels_err(
                    exts,
                    spec_raw1_need(*blp_header),
                    0,
                    spec_level_count(*blp_header),
                ) is None && final(images)@.len() == old(images)@.len() + spec_level_count(
                    *blp_header,
                ) && (forall|j: int|
                    0 <= j < old(images)@.len() ==> final(images)@[j] == old(images)@[j]) && (
                forall|i: int|
                    0 <= i < spec_level_count(*blp_header) ==> spec_raw1_ext_level(
                        exts,
                        *blp_header,
                        i,
                        #[trigger] final(images)@[old(images)@.len() + i],
                    )),
                Err(e) => spec_ext_levels_err(
                    exts,
                    spec_raw1_need(*blp_header),
                    0,
                    spec_level_count(*blp_header),
                ) == Some(e),
            }
        }),
{
    let ghost exts = external_mipmaps@.map_values(|v: Vec<u8>| v@);
    let ghost need = spec_raw1_need(*blp_header);
    let end = level_count(blp_header);
    let mut i: usize = 0;
    while i < end
        invariant
            0 <= i <= end,
            end == spec_level_count(*blp_header),
            exts == external_mipmaps@.map_values(|v: Vec<u8>| v@),
            need == spec_raw1_need(*blp_header),
            images@.len() == old(images)@.len() + i,
            forall|j: int| 0 <= j < old(images)@.len() ==> images@[j] == old(images)@[j],
            forall|j: int|
                0 <= j < i ==> spec_raw1_ext_level(
                    exts,
                    *blp_header,
                    j,
                    #[trigger] images@[old(images)@.len() + j],
                ),
            ext_levels_ok(exts, need, i as int),
        decreases end - i,
    {
        if i >= external_mipmaps.len() {
            proof {
                assert(exts.len() == external_mipmaps@.len());
                lemma_ext_levels_err_stable(exts, need, i as int, end as int);
            }
            return Err(ParseError::MissingImage(i));
        }
        let image_bytes = &external_mipmaps[i];
        let elen = image_bytes.len();
        let n64 = level_pixels(blp_header, i as u32);
        let ab = blp_header.alpha_bits();
        proof {
            vstd::arithmetic::mul::lemma_mul_upper_bound(
                n64 as int,
                0xffff_ffff_ffff_ffff,
                ab as int,
                0xffff_ffff,
            );
        }
        let an128: u128 = ((n64 as u128) * (ab as u128) + 7) / 8;
        let need128: u128 = (n64 as u128) + an128;
        if (elen as u128) < need128 {
            proof {
                lemma_ext_levels_err_stable(exts, need, i as int, end as int);
            }
            return Err(ParseError::Truncated);
        }
        let n = n64 as usize;
        let an = an128 as usize;
        let mut rgb: Vec<u8> = Vec::new();
        let mut k: usize = 0;
        while k < n
            invariant
                0 <= k <= n,
                image_bytes == external_mipmaps@[i as int],
                i < external_mipmaps@.len(),
                elen == image_bytes@.len(),
                n + an <= image_bytes@.len(),
                rgb@ == image_bytes@.subrange(0, k as int),
            decreases n - k,
        {
            rgb.push(image_bytes[k]);
            proof {
                assert(rgb@ =~= image_bytes@.subrange(0, k + 1));
            }
            k = k + 1;
        }
        let mut alpha: Vec<u8> = Vec::new();
        let mut k: usize = 0;
        while k < an
            invariant
                0 <= k <= an,
                image_bytes == external_mipmaps@[i as int],
                i < external_mipmaps@.len(),
                elen == image_bytes@.len(),
                n + an <= image_bytes@.len(),
                alpha@ == image_bytes@.subrange(n as int, n + k),
            decreases an - k,
        {
            alpha.push(image_bytes[n + k]);
            proof {
                assert(alpha@ =~= image_bytes@.subrange(n as int, n + k + 1));
            }
            k = k + 1;
        }
        proof {
            assert(exts[i as int] == image_bytes@);
            assert(ext_levels_ok(exts, need, i + 1));
        }
        images.push(Raw1Image { indexed_rgb: rgb, indexed_alpha: alpha });
        i = i + 1;
    }
    proof {
        lemma_ext_levels_err_stable(exts, need, end as int, end as int);
    }
    Ok(())
}

/// One parsed JPEG level: the recorded slice, taken whole.
pub open spec fn spec_jpeg_level(b: Seq<u8>, off: int, size: int, img: Seq<u8>) -> bool {
    img == b.subrange(off, off + size)
}

/// The first error of JPEG content at `pos`: the size field and the
/// header block must lie inside the input, then the levels must pass
/// their checks, internal or external as the locator says.
pub open spec fn spec_jpeg_err(b: Seq<u8>, exts: Seq<Seq<u8>>, h: BlpHeader, pos: int) -> Option<
    ParseError,
> {
    if pos + 4 > b.len() {
        Some(ParseError::Truncated)
    } else if pos + 4 + spec_u32le(b, pos) + 2 > b.len() {
        Some(ParseError::Truncated)
    } else {
        match h.mipmap_locator {
            MipmapLocator::External => spec_ext_levels_err(
                exts,
                spec_jpeg_need(),
                0,
                spec_ext_jpeg_count(h),
            ),
            MipmapLocator::Internal { offsets, sizes } => spec_levels_err(
                b,
                offsets@,
                sizes@,
                spec_jpeg_need(),
                0,
                spec_level_count(h),
            ),
        }
    }
}

/// The JPEG content `j` is what the input and the external files hold.
pub open spec fn spec_parsed_jpeg(
    b: Seq<u8>,
    exts: Seq<Seq<u8>>,
    h: BlpHeader,
    pos: int,
    j: crate::jpeg::BlpJpeg,
) -> bool {
    let hsz = spec_u32le(b, pos) as int;
    j.header@ == b.subrange(pos + 4, pos + 4 + hsz + 2) && (match h.mipmap_locator {
        MipmapLocator::External => {
            let cnt = spec_ext_jpeg_count(h);
            j.images@.len() == cnt && forall|i: int|
                0 <= i < cnt ==> #[trigger] j.images@[i]@ == exts[i]
        },
        MipmapLocator::Internal { offsets, sizes } => {
            let cnt = spec_level_count(h);
            j.images@.len() == cnt && forall|i: int|
                0 <= i < cnt ==> spec_jpeg_level(
                    b,
                    offsets@[i] as int,
                    sizes@[i] as int,
                    #[trigger] j.images@[i]@,
                )
        },
    })
}

/// The parsed color map: 256 values read little-endian from `pos` on.
pub open spec fn spec_cmap_ok(b: Seq<u8>, pos: int, cmap: Seq<u32>) -> bool {
    cmap.len() == 256 && forall|k: int| 0 <= k < 256 ==> #[trigger] cmap[k] == spec_u32le(
        b,
        pos + 4 * k,
    )
}

/// The first error of direct content at `pos`: the color map must lie
/// inside the input; the newest version must keep its mipmaps internal
/// and name a known alpha type for block compression; and the levels must
/// pass their checks.
pub open spec fn spec_direct_err(b: Seq<u8>, exts: Seq<Seq<u8>>, h: BlpHeader, pos: int) -> Option<
    ParseError,
> {
    if pos + 1024 > b.len() {
        Some(ParseError::Truncated)
    } else {
        match h.flags {
            BlpFlags::Blp2 { compression, alpha_type, .. } => {
                match h.mipmap_locator {
                    MipmapLocator::External => Some(ParseError::Blp2NoExternalMips),
                    MipmapLocator::Internal { offsets, sizes } => {
                        match compression {
                            Compression::Raw1 => spec_levels_err(
                                b,
                                offsets@,
                                sizes@,
                                spec_raw1_need(h),
                                0,
                                spec_level_count(h),
                            ),
                            Compression::Raw3 => spec_levels_err(
                                b,
                                offsets@,
                                sizes@,
                                spec_raw3_need(h),
                                0,
                                spec_first_zero(sizes@, 1, spec_level_count(h)),
                            ),
                            Compression::Dxtc => {
                                if alpha_type == 0u8 {
                                    spec_levels_err(
                                        b,
                                        offsets@,
                                        sizes@,
                                        spec_dxtn_need(h, crate::direct::DxtnFormat::Dxt1),
                                        0,
                                        spec_level_count(h),
                                    )
                                } else if alpha_type == 1u8 {
                                    spec_levels_err(
                                        b,
                                        offsets@,
                                        sizes@,
                                        spec_dxtn_need(h, crate::direct::DxtnFormat::Dxt3),
                                        0,
                                        spec_level_count(h),
                                    )
                                } else if alpha_type == 7u8 {
                                    spec_levels_err(
                                        b,
                                        offsets@,
                                        sizes@,
                                        spec_dxtn_need(h, crate::direct::DxtnFormat::Dxt5),
                                        0,
                                        spec_level_count(h),
                                    )
                                } else {
                                    Some(ParseError::Blp2UnknownAlphaType(alpha_type))
                                }
                            },
                        }
                    },
                }
            },
            BlpFlags::Old { .. } => {
                match h.mipmap_locator {
                    MipmapLocator::External => spec_ext_levels_err(
                        exts,
                        spec_raw1_need(h),
                        0,
                        spec_level_count(h),
                    ),
                    MipmapLocator::Internal { offsets, sizes } => spec_levels_err(
                        b,
                        offsets@,
                        sizes@,
                        spec_raw1_need(h),
                        0,
                        spec_level_count(h),
                    ),
                }
            },
        }
    }
}

/// The paletted levels `imgs` are what an internal locator records.
pub open spec fn spec_parsed_raw1_levels(
    b: Seq<u8>,
    h: BlpHeader,
    offsets: Seq<u32>,
    imgs: Seq<Raw1Image>,
) -> bool {
    imgs.len() == spec_level_count(h) && forall|i: int|
        0 <= i < imgs.len() ==> spec_raw1_level(b, h, offsets[i] as int, i, #[trigger] imgs[i])
}

/// One parsed block-compressed content: its declared scheme, color table
/// and levels are what the input holds.
pub open spec fn spec_parsed_dxtn_content(
    b: Seq<u8>,
    h: BlpHeader,
    pos: int,
    fmt: crate::direct::DxtnFormat,
    offsets: Seq<u32>,
    d: crate::direct::BlpDxtn,
) -> bool {
    d.format == fmt && spec_cmap_ok(b, pos, d.cmap@) && d.images@.len() == spec_level_count(h)
        && forall|i: int|
        0 <= i < d.images@.len() ==> spec_dxtn_level(
            b,
            h,
            fmt,
            offsets[i] as int,
            i,
            #[trigger] d.images@[i],
        )
}

/// The direct content `c` is what the input and the external files hold.
pub open spec fn spec_parsed_direct(
    b: Seq<u8>,
    exts: Seq<Seq<u8>>,
    h: BlpHeader,
    pos: int,
    c: BlpContent,
) -> bool {
    match h.flags {
        BlpFlags::Blp2 { compression, alpha_type, .. } => {
            h.mipmap_locator matches MipmapLocator::Internal { offsets, sizes } && (
            match compression {
                Compression::Raw1 => c matches BlpContent::Raw1(r) && spec_cmap_ok(b, pos, r.cmap@)
                    && spec_parsed_raw1_levels(b, h, offsets@, r.images@),
                Compression::Raw3 => c matches BlpContent::Raw3(r) && spec_cmap_ok(b, pos, r.cmap@)
                    && {
                    let rend = spec_first_zero(sizes@, 1, spec_level_count(h));
                    r.images@.len() == rend && forall|i: int|
                        0 <= i < rend ==> spec_raw3_level(
                            b,
                            h,
                            offsets@[i] as int,
                            i,
                            #[trigger] r.images@[i],
                        )
                },
                Compression::Dxtc => {
                    if alpha_type == 0u8 {
                        c matches BlpContent::Dxt1(d) && spec_parsed_dxtn_content(
                            b,
                            h,
                            pos,
                            crate::direct::DxtnFormat::Dxt1,
                            offsets@,
                            d,
                        )
                    } else if alpha_type == 1u8 {
                        c matches BlpContent::Dxt3(d) && spec_parsed_dxtn_content(
                            b,
                            h,
                            pos,
                            crate::direct::DxtnFormat::Dxt3,
                            offsets@,
                            d,
                        )
                    } else {
                        alpha_type == 7u8 && (c matches BlpContent::Dxt5(d)
                            && spec_parsed_dxtn_content(
                            b,
                            h,
                            pos,
                            crate::direct::DxtnFormat::Dxt5,
                            offsets@,
                            d,
                        ))
                    }
                },
            })
        },
        BlpFlags::Old { .. } => {
            c matches BlpContent::Raw1(r) && spec_cmap_ok(b, pos, r.cmap@) && (
            match h.mipmap_locator {
                MipmapLocator::External => {
                    r.images@.len() == spec_level_count(h) && forall|i: int|
                        0 <= i < r.images@.len() ==> spec_raw1_ext_level(
                            exts,
                            h,
                            i,
                            #[trigger] r.images@[i],
                        )
                },
                MipmapLocator::Internal { offsets, sizes } => spec_parsed_raw1_levels(
                    b,
                    h,
                    offsets@,
                    r.images@,
                ),
            })
        },
    }
}

/// The first error of the content at `pos`, whichever layout the header's
/// content tag selects.
pub open spec fn spec_content_err(b: Seq<u8>, exts: Seq<Seq<u8>>, h: BlpHeader, pos: int) -> Option<
    ParseError,
> {
    match h.content {
        BlpContentTag::Jpeg => spec_jpeg_err(b, exts, h, pos),
        BlpContentTag::Direct => spec_direct_err(b, exts, h, pos),
    }
}

/// The content `c` is what the input and the external files hold,
/// whichever layout the header's content tag selects.
pub open spec fn spec_parsed_content(
    b: Seq<u8>,
    exts: Seq<Seq<u8>>,
    h: BlpHeader,
    pos: int,
    c: BlpContent,
) -> bool {
    match h.content {
        BlpContentTag::Jpeg => c matches BlpContent::Jpeg(j) && spec_parsed_jpeg(
            b,
            exts,
            h,
            pos,
            j,
        ),
        BlpContentTag::Direct => spec_parsed_direct(b, exts, h, pos, c),
    }
}

/// The image `img` is what the input and the external files describe: its
/// header parses from the front and its content parses behind it.
pub open spec fn spec_parsed_blp(b: Seq<u8>, exts: Seq<Seq<u8>>, img: BlpImage) -> bool {
    spec_parsed_header(b, img.header) && spec_content_err(
        b,
        exts,
        img.header,
        spec_header_size(img.header.version),
    ) is None && spec_parsed_content(
        b,
        exts,
        img.header,
        spec_header_size(img.header.version),
        img.content,
    )
}

/// Read the sixteen offsets and sizes of an internal locator starting at
/// the given position.
fn parse_locator_tables(input: &[u8], pos: usize) -> (r: ([u32; 16], [u32; 16]))
    requires
        pos + 128 <= input@.len(),
    ensures
        forall|i: int| 0 <= i < 16 ==> r.0@[i] == spec_u32le(input@, pos + 4 * i),
        forall|i: int| 0 <= i < 16 ==> r.1@[i] == spec_u32le(input@, pos + 64 + 4 * i),
{
    let mut offsets: [u32; 16] = [0; 16];
    let mut sizes: [u32; 16] = [0; 16];
    let ilen: usize = input.len();
    let mut i: usize = 0;
    while i < 16
        invariant
            0 <= i <= 16,
            pos + 128 <= ilen,
            ilen == input@.len(),
            forall|j: int| 0 <= j < i ==> offsets@[j] == spec_u32le(input@, pos + 4 * j),
        decreases 16 - i,
    {
        offsets[i] = read_le_u32(input, pos + 4 * i);
        i = i + 1;
    }
    let mut i: usize = 0;
    while i < 16
        invariant
            0 <= i <= 16,
            pos + 128 <= ilen,
            ilen == input@.len(),
            forall|j: int| 0 <= j < i ==> sizes@[j] == spec_u32le(input@, pos + 64 + 4 * j),
        decreases 16 - i,
    {
        sizes[i] = read_le_u32(input, pos + 64 + 4 * i);
        i = i + 1;
    }
    (offsets, sizes)
}

/// Parse the fixed header from the start of the input.
pub fn parse_header(input: &[u8]) -> (r: Result<BlpHeader, ParseError>)
    ensures
        match r {
            Ok(h) => spec_parsed_header(input@, h),
            Err(e) => !header_ok(input@) && spec_header_err_matches(input@, e),
        },
{
    if input.len() < 4 {
        return Err(ParseError::Truncated);
    }
    let magic: [u8; 4] = [input[0], input[1], input[2], input[3]];
    proof {
        assert(magic@ =~= input@.subrange(0, 4));
    }
    let version = match BlpVersion::from_magic(magic) {
        Some(v) => v,
        None => {
            let mut m: Vec<u8> = Vec::new();
            m.push(input[0]);
            m.push(input[1]);
            m.push(input[2]);
            m.push(input[3]);
            proof {
                assert(m@ =~= input@.subrange(0, 4));
            }
            return Err(ParseError::WrongMagic(m));
        },
    };
    match version {
        BlpVersion::Blp2 => {
            if input.len() < 9 {
                return Err(ParseError::Truncated);
            }
            let compression = match Compression::from_code(input[8]) {
                Ok(c) => c,
                Err(_) => {
                    return Err(ParseError::Blp2UnknownCompression(input[8]));
                },
            };
            if input.len() < 148 {
                return Err(ParseError::Truncated);
            }
            let content_field = read_le_u32(input, 4);
            let content = match BlpContentTag::from_code(content_field) {
                Ok(c) => c,
                Err(_) => BlpContentTag::Jpeg,
            };
            let alpha_bits = input[9];
            let alpha_type = input[10];
            let has_mipmaps = input[11];
            let width = read_le_u32(input, 12);
            let height = read_le_u32(input, 16);
            let (offsets, sizes) = parse_locator_tables(input, 20);
            Ok(
                BlpHeader {
                    version,
                    content,
                    flags: BlpFlags::Blp2 { compression, alpha_bits, alpha_type, has_mipmaps },
                    width,
                    height,
                    mipmap_locator: MipmapLocator::Internal { offsets, sizes },
                },
            )
        },
        _ => {
            let header_size = BlpHeader::size(version);
            if input.len() < header_size {
                return Err(ParseError::Truncated);
            }
            let content_field = read_le_u32(input, 4);
            let content = match BlpContentTag::from_code(content_field) {
                Ok(c) => c,
                Err(_) => BlpContentTag::Jpeg,
            };
            let alpha_raw = read_le_u32(input, 8);
            let alpha_bits = if matches!(content, BlpContentTag::Jpeg) && alpha_raw != 0
                && alpha_raw != 8 {
                0
            } else if matches!(content, BlpContentTag::Direct) && alpha_raw != 0 && alpha_raw != 1
                && alpha_raw != 4 && alpha_raw != 8 {
                0
            } else {
                alpha_raw
            };
            let width = read_le_u32(input, 12);
            let height = read_le_u32(input, 16);
            let extra = read_le_u32(input, 20);
            let has_mipmaps = read_le_u32(input, 24);
            let mipmap_locator = if matches!(version, BlpVersion::Blp0) {
                MipmapLocator::External
            } else {
                let (offsets, sizes) = parse_locator_tables(input, 28);
                MipmapLocator::Internal { offsets, sizes }
            };
            Ok(
                BlpHeader {
                    version,
                    content,
                    flags: BlpFlags::Old { alpha_bits, extra, has_mipmaps },
                    width,
                    height,
                    mipmap_locator,
                },
            )
        },
    }
}


/// Parse JPEG content at `pos`: the stored header block, then every level
/// the header calls for, internal or external as the locator says.
pub fn parse_jpeg_content(
    blp_header: &BlpHeader,
    external_mipmaps: &Vec<Vec<u8>>,
    original_input: &[u8],
    pos: usize,
) -> (r: Result<crate::jpeg::BlpJpeg, ParseError>)
    ensures
        ({
            let b = original_input@;
            let exts = external_mipmaps@.map_values(|v: Vec<u8>| v@);
            match r {
                Ok(j) => spec_jpeg_err(b, exts, *blp_header, pos as int) is None
                    && spec_parsed_jpeg(b, exts, *blp_header, pos as int, j),
                Err(e) => spec_jpeg_err(b, exts, *blp_header, pos as int) == Some(e),
            }
        }),
{
    let ghost b = original_input@;
    let ghost exts = external_mipmaps@.map_values(|v: Vec<u8>| v@);
    let ilen = original_input.len();
    if (pos as u128) + 4 > (ilen as u128) {
        return Err(ParseError::Truncated);
    }
    let header_size = read_le_u32(original_input, pos);
    if (pos as u128) + 4 + (header_size as u128) + 2 > (ilen as u128) {
        return Err(ParseError::Truncated);
    }
    let ghost hsz = spec_u32le(b, pos as int);
    let hlen = (header_size as usize) + 2;
    let hstart = pos + 4;
    let mut header: Vec<u8> = Vec::new();
    let mut k: usize = 0;
    while k < hlen
        invariant
            0 <= k <= hlen,
            b == original_input@,
            ilen == b.len(),
            hstart + hlen <= ilen,
            header@ == b.subrange(hstart as int, hstart + k),
        decreases hlen - k,
    {
        header.push(original_input[hstart + k]);
        proof {
            assert(header@ =~= b.subrange(hstart as int, hstart + k + 1));
        }
        k = k + 1;
    }
    let ghost need = spec_jpeg_need();
    match &blp_header.mipmap_locator {
        MipmapLocator::External => {
            let count = blp_header.mipmaps_count();
            proof {
                crate::header::lemma_log2_floor_u32(
                    if blp_header.width >= blp_header.height {
                        blp_header.width
                    } else {
                        blp_header.height
                    },
                );
            }
            let cnt: usize = if blp_header.has_mipmaps() {
                (count + 1) as usize
            } else {
                1
            };
            proof {
                assert(cnt as int == spec_ext_jpeg_count(*blp_header));
            }
            let mut images: Vec<Vec<u8>> = Vec::new();
            let mut i: usize = 0;
            while i < cnt
                invariant
                    0 <= i <= cnt,
                    b == original_input@,
                    ilen == b.len(),
                    pos + 4 + hsz + 2 <= b.len(),
                    hsz == spec_u32le(b, pos as int),
                    cnt as int == spec_ext_jpeg_count(*blp_header),
                    blp_header.mipmap_locator is External,
                    exts == external_mipmaps@.map_values(|v: Vec<u8>| v@),
                    need == spec_jpeg_need(),
                    images@.len() == i,
                    forall|j: int| 0 <= j < i ==> #[trigger] images@[j]@ == exts[j],
                    ext_levels_ok(exts, need, i as int),
                decreases cnt - i,
            {
                if i >= external_mipmaps.len() {
                    proof {
                        lemma_ext_levels_err_stable(exts, need, i as int, cnt as int);
                    }
                    return Err(ParseError::MissingImage(i));
                }
                let src = &external_mipmaps[i];
                let mut lvl: Vec<u8> = Vec::new();
                let mut k: usize = 0;
                while k < src.len()
                    invariant
                        0 <= k <= src@.len(),
                        src == external_mipmaps@[i as int],
                        lvl@ == src@.subrange(0, k as int),
                    decreases src@.len() - k,
                {
                    lvl.push(src[k]);
                    proof {
                        assert(lvl@ =~= src@.subrange(0, k + 1));
                    }
                    k = k + 1;
                }
                proof {
                    assert(lvl@ =~= exts[i as int]);
                    assert(ext_levels_ok(exts, need, i + 1));
                }
                images.push(lvl);
                i = i + 1;
            }
            proof {
                lemma_ext_levels_err_stable(exts, need, cnt as int, cnt as int);
            }
            Ok(crate::jpeg::BlpJpeg { header, images })
        },
        MipmapLocator::Internal { offsets, sizes } => {
            let end = level_count(blp_header);
            let mut images: Vec<Vec<u8>> = Vec::new();
            let mut i: usize = 0;
            while i < end
                invariant
                    0 <= i <= end,
                    end == spec_level_count(*blp_header),
                    b == original_input@,
                    ilen == b.len(),
                    pos + 4 + hsz + 2 <= b.len(),
                    hsz == spec_u32le(b, pos as int),
                    need == spec_jpeg_need(),
                    blp_header.mipmap_locator matches MipmapLocator::Internal {
                        offsets: o,
                        sizes: z,
                    } && o == offsets && z == sizes,
                    images@.len() == i,
                    forall|j: int|
                        0 <= j < i ==> spec_jpeg_level(
                            b,
                            offsets@[j] as int,
                            sizes@[j] as int,
                            #[trigger] images@[j]@,
                        ),
                    forall|j: int|
                        0 <= j < i ==> spec_level_err(b, offsets@[j], sizes@[j], #[trigger] need(
                            j,
                        )) is None,
                decreases end - i,
            {
                let off32 = offsets[i];
                let size = sizes[i];
                let off = off32 as usize;
                if off >= ilen {
                    proof {
                        lemma_levels_err_stable(b, offsets@, sizes@, need, i as int, end as int);
                    }
                    return Err(ParseError::OutOfBounds(0));
                }
                if (off32 as u64) + (size as u64) > (ilen as u64) {
                    proof {
                        lemma_levels_err_stable(b, offsets@, sizes@, need, i as int, end as int);
                    }
                    return Err(ParseError::OutOfBounds(0));
                }
                let sz = size as usize;
                let mut lvl: Vec<u8> = Vec::new();
                let mut k: usize = 0;
                while k < sz
                    invariant
                        0 <= k <= sz,
                        b == original_input@,
                        ilen == b.len(),
                        off + sz <= ilen,
                        lvl@ == b.subrange(off as int, off + k),
                    decreases sz - k,
                {
                    lvl.push(original_input[off + k]);
                    proof {
                        assert(lvl@ =~= b.subrange(off as int, off + k + 1));
                    }
                    k = k + 1;
                }
                images.push(lvl);
                i = i + 1;
            }
            proof {
                lemma_levels_err_stable(b, offsets@, sizes@, need, end as int, end as int);
            }
            Ok(crate::jpeg::BlpJpeg { header, images })
        },
    }
}

/// Parse direct content at `pos`: the color map, then the levels of the
/// layout the flags select.
pub fn parse_direct_content(
    blp_header: &BlpHeader,
    external_mipmaps: &Vec<Vec<u8>>,
    original_input: &[u8],
    pos: usize,
) -> (r: Result<BlpContent, ParseError>)
    ensures
        ({
            let b = original_input@;
            let exts = external_mipmaps@.map_values(|v: Vec<u8>| v@);
            match r {
                Ok(c) => spec_direct_err(b, exts, *blp_header, pos as int) is None
                    && spec_parsed_direct(b, exts, *blp_header, pos as int, c),
                Err(e) => spec_direct_err(b, exts, *blp_header, pos as int) == Some(e),
            }
        }),
{
    let ghost b = original_input@;
    let ghost exts = external_mipmaps@.map_values(|v: Vec<u8>| v@);
    let ilen = original_input.len();
    if (pos as u128) + 1024 > (ilen as u128) {
        return Err(ParseError::Truncated);
    }
    let mut cmap: Vec<u32> = Vec::new();
    let mut k: usize = 0;
    while k < 256
        invariant
            0 <= k <= 256,
            b == original_input@,
            ilen == b.len(),
            pos + 1024 <= ilen,
            cmap@.len() == k,
            forall|j: int| 0 <= j < k ==> #[trigger] cmap@[j] == spec_u32le(b, pos + 4 * j),
        decreases 256 - k,
    {
        cmap.push(read_le_u32(original_input, pos + 4 * k));
        k = k + 1;
    }
    match &blp_header.flags {
        BlpFlags::Blp2 { compression, alpha_type, .. } => {
            match &blp_header.mipmap_locator {
                MipmapLocator::External => Err(ParseError::Blp2NoExternalMips),
                MipmapLocator::Internal { offsets, sizes } => {
                    match compression {
                        Compression::Raw1 => {
                            let mut images: Vec<Raw1Image> = Vec::new();
                            match parse_raw1(
                                blp_header,
                                original_input,
                                offsets,
                                sizes,
                                &mut images,
                            ) {
                                Ok(_) => {
                                    proof {
                                        assert forall|i: int|
                                            0 <= i < images@.len() implies spec_raw1_level(
                                            b,
                                            *blp_header,
                                            offsets@[i] as int,
                                            i,
                                            #[trigger] images@[i],
                                        ) by {
                                            assert(images@[0 + i] == images@[i]);
                                        }
                                    }
                                    Ok(BlpContent::Raw1(BlpRaw1 { cmap, images }))
                                },
                                Err(e) => Err(e),
                            }
                        },
                        Compression::Raw3 => {
                            let mut images: Vec<Raw3Image> = Vec::new();
                            match parse_raw3(
                                blp_header,
                                original_input,
                                offsets,
                                sizes,
                                &mut images,
                            ) {
                                Ok(_) => {
                                    proof {
                                        assert forall|i: int|
                                            0 <= i < images@.len() implies spec_raw3_level(
                                            b,
                                            *blp_header,
                                            offsets@[i] as int,
                                            i,
                                            #[trigger] images@[i],
                                        ) by {
                                            assert(images@[0 + i] == images@[i]);
                                        }
                                    }
                                    Ok(BlpContent::Raw3(BlpRaw3 { cmap, images }))
                                },
                                Err(e) => Err(e),
                            }
                        },
                        Compression::Dxtc => {
                            if *alpha_type == 0 {
                                let mut images: Vec<crate::direct::DxtnImage> = Vec::new();
                                match parse_dxtn(
                                    blp_header,
                                    crate::direct::DxtnFormat::Dxt1,
                                    original_input,
                                    offsets,
                                    sizes,
                                    &mut images,
                                ) {
                                    Ok(_) => {
                                        proof {
                                            assert forall|i: int|
                                                0 <= i < images@.len() implies spec_dxtn_level(
                                                b,
                                                *blp_header,
                                                crate::direct::DxtnFormat::Dxt1,
                                                offsets@[i] as int,
                                                i,
                                                #[trigger] images@[i],
                                            ) by {
                                                assert(images@[0 + i] == images@[i]);
                                            }
                                        }
                                        Ok(
                                            BlpContent::Dxt1(
                                                crate::direct::BlpDxtn {
                                                    format: crate::direct::DxtnFormat::Dxt1,
                                                    cmap,
                                                    images,
                                                },
                                            ),
                                        )
                                    },
                                    Err(e) => Err(e),
                                }
                            } else if *alpha_type == 1 {
                                let mut images: Vec<crate::direct::DxtnImage> = Vec::new();
                                match parse_dxtn(
                                    blp_header,
                                    crate::direct::DxtnFormat::Dxt3,
                                    original_input,
                                    offsets,
                                    sizes,
                                    &mut images,
                                ) {
                                    Ok(_) => {
                                        proof {
                                            assert forall|i: int|
                                                0 <= i < images@.len() implies spec_dxtn_level(
                                                b,
                                                *blp_header,
                                                crate::direct::DxtnFormat::Dxt3,
                                                offsets@[i] as int,
                                                i,
                                                #[trigger] images@[i],
                                            ) by {
                                                assert(images@[0 + i] == images@[i]);
                                            }
                                        }
                                        Ok(
                                            BlpContent::Dxt3(
                                                crate::direct::BlpDxtn {
                                                    format: crate::direct::DxtnFormat::Dxt3,
                                                    cmap,
                                                    images,
                                                },
                                            ),
                                        )
                                    },
                                    Err(e) => Err(e),
                                }
                            } else if *alpha_type == 7 {
                                let mut images: Vec<crate::direct::DxtnImage> = Vec::new();
                                match parse_dxtn(
                                    blp_header,
                                    crate::direct::DxtnFormat::Dxt5,
                                    original_input,
                                    offsets,
                                    sizes,
                                    &mut images,
                                ) {
                                    Ok(_) => {
                                        proof {
                                            assert forall|i: int|
                                                0 <= i < images@.len() implies spec_dxtn_level(
                                                b,
                                                *blp_header,
                                                crate::direct::DxtnFormat::Dxt5,
                                                offsets@[i] as int,
                                                i,
                                                #[trigger] images@[i],
                                            ) by {
                                                assert(images@[0 + i] == images@[i]);
                                            }
                                        }
                                        Ok(
                                            BlpContent::Dxt5(
                                                crate::direct::BlpDxtn {
                                                    format: crate::direct::DxtnFormat::Dxt5,
                                                    cmap,
                                                    images,
                                                },
                                            ),
                                        )
                                    },
                                    Err(e) => Err(e),
                                }
                            } else {
                                Err(ParseError::Blp2UnknownAlphaType(*alpha_type))
                            }
                        },
                    }
                },
            }
        },
        BlpFlags::Old { .. } => {
            match &blp_header.mipmap_locator {
                MipmapLocator::External => {
                    let mut images: Vec<Raw1Image> = Vec::new();
                    match parse_blp0(blp_header, external_mipmaps, &mut images) {
                        Ok(_) => {
                            proof {
                                assert forall|i: int|
                                    0 <= i < images@.len() implies spec_raw1_ext_level(
                                    exts,
                                    *blp_header,
                                    i,
                                    #[trigger] images@[i],
                                ) by {
                                    assert(images@[0 + i] == images@[i]);
                                }
                            }
                            Ok(BlpContent::Raw1(BlpRaw1 { cmap, images }))
                        },
                        Err(e) => Err(e),
                    }
                },
                MipmapLocator::Internal { offsets, sizes } => {
                    let mut images: Vec<Raw1Image> = Vec::new();
                    match parse_raw1(blp_header, original_input, offsets, sizes, &mut images) {
                        Ok(_) => {
                            proof {
                                assert forall|i: int|
                                    0 <= i < images@.len() implies spec_raw1_level(
                                    b,
                                    *blp_header,
                                    offsets@[i] as int,
                                    i,
                                    #[trigger] images@[i],
                                ) by {
                                    assert(images@[0 + i] == images@[i]);
                                }
                            }
                            Ok(BlpContent::Raw1(BlpRaw1 { cmap, images }))
                        },
                        Err(e) => Err(e),
                    }
                },
            }
        },
    }
}

/// An empty set of external mipmap files, for parsing a file whose levels
/// are all internal.
pub fn no_mipmaps() -> (r: Vec<Vec<u8>>)
    ensures
        r@.len() == 0,
{
    Vec::new()
}

/// The external mipmap file of the given level from a preloaded list, or
/// nothing when the list ends before it.
pub fn preloaded_mipmaps(mipmaps: &Vec<Vec<u8>>, i: usize) -> (r: Option<&Vec<u8>>)
    ensures
        match r {
            Some(v) => i < mipmaps@.len() && v == mipmaps@[i as int],
            None => i >= mipmaps@.len(),
        },
{
    if i >= mipmaps.len() {
        None
    } else {
        Some(&mipmaps[i])
    }
}

/// Parse a file from its bytes and the preloaded external mipmap files
/// that the oldest version stores beside it.
pub fn parse_blp_with_externals(root_input: &[u8], external_mipmaps: &Vec<Vec<u8>>) -> (r: Result<
    BlpImage,
    ParseError,
>)
    ensures
        ({
            let b = root_input@;
            let exts = external_mipmaps@.map_values(|v: Vec<u8>| v@);
            match r {
                Ok(img) => spec_parsed_blp(b, exts, img),
                Err(e) => {
                    if header_ok(b) {
                        forall|h: BlpHeader|
                            spec_parsed_header(b, h) ==> #[trigger] spec_content_err(
                                b,
                                exts,
                                h,
                                spec_header_size(h.version),
                            ) == Some(e)
                    } else {
                        spec_header_err_matches(b, e)
                    }
                },
            }
        }),
{
    let ghost b = root_input@;
    let ghost exts = external_mipmaps@.map_values(|v: Vec<u8>| v@);
    let header = match parse_header(root_input) {
        Ok(h) => h,
        Err(e) => {
            return Err(e);
        },
    };
    let pos = BlpHeader::size(header.version);
    let content = match header.content {
        BlpContentTag::Jpeg => {
            match parse_jpeg_content(&header, external_mipmaps, root_input, pos) {
                Ok(j) => BlpContent::Jpeg(j),
                Err(e) => {
                    proof {
                        lemma_parsed_header_unique(b, exts, header, e);
                    }
                    return Err(e);
                },
            }
        },
        BlpContentTag::Direct => {
            match parse_direct_content(&header, external_mipmaps, root_input, pos) {
                Ok(c) => c,
                Err(e) => {
                    proof {
                        lemma_parsed_header_unique(b, exts, header, e);
                    }
                    return Err(e);
                },
            }
        },
    };
    Ok(BlpImage { header, content })
}

/// Two headers parsed from the same bytes drive the content parser the
/// same way: the first content error is the same for both.
proof fn lemma_parsed_header_unique(b: Seq<u8>, exts: Seq<Seq<u8>>, h0: BlpHeader, e: ParseError)
    requires
        spec_parsed_header(b, h0),
        spec_content_err(b, exts, h0, spec_header_size(h0.version)) == Some(e),
    ensures
        forall|h: BlpHeader|
            spec_parsed_header(b, h) ==> #[trigger] spec_content_err(
                b,
                exts,
                h,
                spec_header_size(h.version),
            ) == Some(e),
{
    assert forall|h: BlpHeader| spec_parsed_header(b, h) implies #[trigger] spec_content_err(
        b,
        exts,
        h,
        spec_header_size(h.version),
    ) == Some(e) by {
        lemma_parsed_header_same(b, h0, h);
    }
}

/// Two headers parsed from the same bytes are the same header.
proof fn lemma_parsed_header_same(b: Seq<u8>, h0: BlpHeader, h1: BlpHeader)
    requires
        spec_parsed_header(b, h0),
        spec_parsed_header(b, h1),
    ensures
        h0 == h1,
{
    match (h0.mipmap_locator, h1.mipmap_locator) {
        (
            MipmapLocator::Internal { offsets: o0, sizes: s0 },
            MipmapLocator::Internal { offsets: o1, sizes: s1 },
        ) => {
            assert(o0@ =~= o1@);
            assert(s0@ =~= s1@);
            assert(o0 == o1);
            assert(s0 == s1);
        },
        _ => {},
    }
}

/// Parse a file whose mipmap levels all live inside its own bytes.
pub fn parse_blp(input: &[u8]) -> (r: Result<BlpImage, ParseError>)
    ensures
        ({
            let b = input@;
            let exts = Seq::<Seq<u8>>::empty();
            match r {
                Ok(img) => spec_parsed_blp(b, exts, img),
                Err(e) => {
                    if header_ok(b) {
                        forall|h: BlpHeader|
                            spec_parsed_header(b, h) ==> #[trigger] spec_content_err(
                                b,
                                exts,
                                h,
                                spec_header_size(h.version),
                            ) == Some(e)
                    } else {
                        spec_header_err_matches(b, e)
                    }
                },
            }
        }),
{
    let empty = no_mipmaps();
    proof {
        assert(empty@.map_values(|v: Vec<u8>| v@) =~= Seq::<Seq<u8>>::empty());
    }
    parse_blp_with_externals(input, &empty)
}

} // verus!
