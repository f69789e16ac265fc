//! Serialising a parsed image back into bytes.

use vstd::prelude::*;
use crate::content::{BlpContent, BlpImage};
use crate::direct::{BlpDxtn, BlpRaw1, BlpRaw3, Raw1Image, Raw3Image};
use crate::header::{
    spec_compression_code, spec_content_code, spec_has_mipmaps, spec_mipmaps_count, BlpFlags,
    BlpHeader,
};
use crate::jpeg::BlpJpeg;
use crate::locator::MipmapLocator;
use crate::primitives::{push_le_u32, spec_u32_bytes};
use crate::version::{spec_magic, BlpVersion};

verus! {

/// What can go wrong while encoding.
#[derive(Debug, Clone, PartialEq, Eq, Hash)]
pub enum EncodeError {
    /// The width field cannot hold the value.
    WidthTooHigh(u32),
    /// The height field cannot hold the value.
    HeightTooHigh(u32),
    /// Only the oldest version stores mipmaps in external files.
    ExternalMipmapsNotSupported(BlpVersion),
    /// A level's recorded offset lies inside bytes already written.
    InvalidOffset { mipmap: usize, offset: usize, filled: usize },
    /// A level's serialised size differs from the recorded size.
    InvalidMipmapSize { mipmap: usize, in_header: usize, actual: usize },
}

/// A file's bytes together with the encoded external mipmap files, in
/// level order. The list is empty when the mipmaps are internal.
#[derive(Debug, Clone, PartialEq, Eq)]
pub struct BlpWithMipmaps {
    pub blp_bytes: Vec<u8>,
    pub blp_mipmaps: Vec<Vec<u8>>,
}

/// A run of zero bytes.
pub open spec fn spec_zeros(n: int) -> Seq<u8> {
    Seq::new(if n >= 0 {
        n as nat
    } else {
        0
    }, |i: int| 0u8)
}

/// The values of a sequence, each written as four little-endian bytes.
pub open spec fn le_u32_run(vals: Seq<u32>) -> Seq<u8>
    decreases vals.len(),
{
    if vals.len() == 0 {
        Seq::empty()
    } else {
        le_u32_run(vals.drop_last()) + spec_u32_bytes(vals.last())
    }
}

/// The four bytes of the version-dependent flags block.
pub open spec fn spec_flags_bytes(f: BlpFlags) -> Seq<u8> {
    match f {
        BlpFlags::Old { alpha_bits, .. } => spec_u32_bytes(alpha_bits),
        BlpFlags::Blp2 { compression, alpha_bits, alpha_type, has_mipmaps } => seq![
            spec_compression_code(compression),
            alpha_bits,
            alpha_type,
            has_mipmaps,
        ],
    }
}

/// The bytes of the mipmap locator: the two sixteen-entry tables for an
/// internal locator, nothing for an external one.
pub open spec fn spec_locator_bytes(l: MipmapLocator) -> Seq<u8> {
    match l {
        MipmapLocator::Internal { offsets, sizes } => le_u32_run(offsets@) + le_u32_run(sizes@),
        MipmapLocator::External => Seq::empty(),
    }
}

/// The serialised header: magic, content field, flags block, dimensions,
/// the two extra fields of the old flags layout, and the locator tables.
pub open spec fn spec_header_bytes(h: BlpHeader) -> Seq<u8> {
    spec_magic(h.version) + spec_u32_bytes(spec_content_code(h.content)) + spec_flags_bytes(h.flags)
        + spec_u32_bytes(h.width) + spec_u32_bytes(h.height) + (match h.flags {
        BlpFlags::Old { extra, has_mipmaps, .. } => spec_u32_bytes(extra) + spec_u32_bytes(
            has_mipmaps,
        ),
        BlpFlags::Blp2 { .. } => Seq::empty(),
    }) + spec_locator_bytes(h.mipmap_locator)
}

/// The header is written whole when the dimensions fit their fields and
/// an external locator comes with the one version that allows it; the
/// first violated rule names the error.
pub open spec fn spec_encode_header(h: BlpHeader) -> Result<Seq<u8>, EncodeError> {
    if h.width > 65535 {
        Err(EncodeError::WidthTooHigh(h.width))
    } else if h.height > 65535 {
        Err(EncodeError::HeightTooHigh(h.height))
    } else if h.mipmap_locator is External && h.version != BlpVersion::Blp0 {
        Err(EncodeError::ExternalMipmapsNotSupported(h.version))
    } else {
        Ok(spec_header_bytes(h))
    }
}

/// How many entries of the locator tables the encoder reads: one more
/// than the mipmap count, never more than the tables hold.
pub open spec fn spec_take_count(h: BlpHeader) -> int {
    if spec_mipmaps_count(h) + 1 < 16 {
        spec_mipmaps_count(h) as int + 1
    } else {
        16
    }
}

/// The offset and size pairs of the first `n` table entries whose size is
/// not zero, in table order.
pub open spec fn spec_active_pairs(offsets: Seq<u32>, sizes: Seq<u32>, n: int) -> Seq<(u32, u32)>
    decreases n,
{
    if n <= 0 {
        Seq::empty()
    } else {
        let prev = spec_active_pairs(offsets, sizes, n - 1);
        if sizes[n - 1] > 0u32 {
            prev.push((offsets[n - 1], sizes[n - 1]))
        } else {
            prev
        }
    }
}

/// Insert a pair into a sequence sorted by offset, behind any entry whose
/// offset does not exceed the new one.
pub open spec fn spec_insert_pair(s: Seq<(u32, u32)>, p: (u32, u32)) -> Seq<(u32, u32)>
    decreases s.len(),
{
    if s.len() == 0 {
        seq![p]
    } else if p.0 < s.last().0 {
        spec_insert_pair(s.drop_last(), p).push(s.last())
    } else {
        s.push(p)
    }
}

/// Sort pairs by their offset, keeping the order of equal offsets.
pub open spec fn spec_sort_pairs(s: Seq<(u32, u32)>) -> Seq<(u32, u32)>
    decreases s.len(),
{
    if s.len() == 0 {
        Seq::empty()
    } else {
        spec_insert_pair(spec_sort_pairs(s.drop_last()), s.last())
    }
}

/// Lay the level payloads out behind `acc`, each at its recorded offset
/// with zero bytes filling any gap. A level whose offset lies inside what
/// is already written, or whose payload length differs from its recorded
/// size, stops the encoding; pairs and payloads beyond the shorter of the
/// two lists are ignored.
pub open spec fn spec_place_levels(
    pairs: Seq<(u32, u32)>,
    imgs: Seq<Seq<u8>>,
    acc: Seq<u8>,
    idx: int,
) -> Result<Seq<u8>, EncodeError>
    decreases pairs.len() - idx,
{
    let n = if pairs.len() <= imgs.len() {
        pairs.len() as int
    } else {
        imgs.len() as int
    };
    if idx < 0 || idx >= n {
        Ok(acc)
    } else {
        let off = pairs[idx].0 as int;
        let size = pairs[idx].1 as int;
        if off < acc.len() {
            Err(EncodeError::InvalidOffset {
                mipmap: idx as usize,
                offset: pairs[idx].0 as usize,
                filled: acc.len() as usize,
            })
        } else if imgs[idx].len() != size {
            Err(EncodeError::InvalidMipmapSize {
                mipmap: idx as usize,
                in_header: size as usize,
                actual: imgs[idx].len() as usize,
            })
        } else {
            spec_place_levels(pairs, imgs, acc + spec_zeros(off - acc.len()) + imgs[idx], idx + 1)
        }
    }
}

/// The serialised bytes of each level payload of the content.
pub open spec fn spec_content_levels(c: BlpContent) -> Seq<Seq<u8>> {
    match c {
        BlpContent::Jpeg(j) => j.images@.map_values(|v: Vec<u8>| v@),
        BlpContent::Raw1(r) => r.images@.map_values(
            |v: Raw1Image| v.indexed_rgb@ + v.indexed_alpha@,
        ),
        BlpContent::Raw3(r) => r.images@.map_values(|v: Raw3Image| le_u32_run(v.pixels@)),
        BlpContent::Dxt1(d) => d.images@.map_values(|v: crate::direct::DxtnImage| v.content@),
        BlpContent::Dxt3(d) => d.images@.map_values(|v: crate::direct::DxtnImage| v.content@),
        BlpContent::Dxt5(d) => d.images@.map_values(|v: crate::direct::DxtnImage| v.content@),
    }
}

/// The bytes the content writes before its levels: the size field and the
/// stored JPEG header for JPEG content, the color map for paletted and
/// raw content, nothing for block-compressed content.
pub open spec fn spec_content_prelude(c: BlpContent) -> Seq<u8> {
    match c {
        BlpContent::Jpeg(j) => spec_u32_bytes((j.header@.len() - 2) as u32) + j.header@,
        BlpContent::Raw1(r) => le_u32_run(r.cmap@),
        BlpContent::Raw3(r) => le_u32_run(r.cmap@),
        BlpContent::Dxt1(_) => Seq::empty(),
        BlpContent::Dxt3(_) => Seq::empty(),
        BlpContent::Dxt5(_) => Seq::empty(),
    }
}

/// Serialise the content behind `acc`: the prelude, then the levels. An
/// external locator hands every level out as its own byte vector instead
/// of placing them; block-compressed content refuses an external locator.
pub open spec fn spec_encode_content(h: BlpHeader, c: BlpContent, acc: Seq<u8>) -> Result<
    (Seq<u8>, Seq<Seq<u8>>),
    EncodeError,
> {
    let acc1 = acc + spec_content_prelude(c);
    let lvls = spec_content_levels(c);
    match c {
        BlpContent::Dxt1(_) | BlpContent::Dxt3(_) | BlpContent::Dxt5(_) => {
            match h.mipmap_locator {
                MipmapLocator::External => Err(
                    EncodeError::ExternalMipmapsNotSupported(BlpVersion::Blp2),
                ),
                MipmapLocator::Internal { offsets, sizes } => {
                    let pairs = spec_sort_pairs(
                        spec_active_pairs(offsets@, sizes@, spec_take_count(h)),
                    );
                    match spec_place_levels(pairs, lvls, acc1, 0) {
                        Ok(out) => Ok((out, Seq::empty())),
                        Err(e) => Err(e),
                    }
                },
            }
        },
        _ => {
            match h.mipmap_locator {
                MipmapLocator::External => Ok((acc1, lvls)),
                MipmapLocator::Internal { offsets, sizes } => {
                    let pairs = spec_sort_pairs(
                        spec_active_pairs(offsets@, sizes@, spec_take_count(h)),
                    );
                    match spec_place_levels(pairs, lvls, acc1, 0) {
                        Ok(out) => Ok((out, Seq::empty())),
                        Err(e) => Err(e),
                    }
                },
            }
        },
    }
}

/// Serialise a whole image: the header, then the content behind it.
pub open spec fn spec_encode_blp(img: BlpImage) -> Result<(Seq<u8>, Seq<Seq<u8>>), EncodeError> {
    match spec_encode_header(img.header) {
        Err(e) => Err(e),
        Ok(hb) => spec_encode_content(img.header, img.content, hb),
    }
}

/// The stored JPEG header always carries its two padding bytes, and its
/// length less those two fits the stored size field.
pub open spec fn spec_jpeg_header_ok(c: BlpContent) -> bool {
    match c {
        BlpContent::Jpeg(j) => 2 <= j.header@.len() <= u32::MAX + 2,
        _ => true,
    }
}

/// Append the values of a vector, each as four little-endian bytes.
fn write_u32_run(vals: &Vec<u32>, output: &mut Vec<u8>)
    ensures
        final(output)@ == old(output)@ + le_u32_run(vals@),
{
    let mut k: usize = 0;
    while k < vals.len()
        invariant
            0 <= k <= vals@.len(),
            output@ == old(output)@ + le_u32_run(vals@.take(k as int)),
        decreases vals@.len() - k,
    {
        push_le_u32(vals[k], output);
        proof {
            assert(vals@.take(k + 1).drop_last() =~= vals@.take(k as int));
            assert(vals@.take(k + 1).last() == vals@[k as int]);
            assert(output@ =~= old(output)@ + le_u32_run(vals@.take(k + 1)));
        }
        k = k + 1;
    }
    proof {
        assert(vals@.take(vals@.len() as int) =~= vals@);
    }
}

/// Append the given bytes to the output.
fn write_bytes(bytes: &Vec<u8>, output: &mut Vec<u8>)
    ensures
        final(output)@ == old(output)@ + bytes@,
{
    let mut k: usize = 0;
    while k < bytes.len()
        invariant
            0 <= k <= bytes@.len(),
            output@ == old(output)@ + bytes@.take(k as int),
        decreases bytes@.len() - k,
    {
        output.push(bytes[k]);
        proof {
            assert(output@ =~= old(output)@ + bytes@.take(k + 1));
        }
        k = k + 1;
    }
    proof {
        assert(bytes@.take(bytes@.len() as int) =~= bytes@);
    }
}

/// Appending a vector to a list appends its view to the list of views.
proof fn lemma_views_push(vs: Seq<Vec<u8>>, lvl: Vec<u8>)
    ensures
        vs.push(lvl).map_values(|v: Vec<u8>| v@) == vs.map_values(|v: Vec<u8>| v@).push(lvl@),
{
    let l = vs.push(lvl).map_values(|v: Vec<u8>| v@);
    let r = vs.map_values(|v: Vec<u8>| v@).push(lvl@);
    assert forall|k: int| 0 <= k < l.len() implies #[trigger] l[k] == r[k] by {
        if k < vs.len() {
            assert(vs.push(lvl)[k] == vs[k]);
        } else {
            assert(vs.push(lvl)[k] == lvl);
        }
    }
    assert(l =~= r);
}

/// A prefix of a sequence stays a prefix when more is appended behind it.
proof fn lemma_prefix_append(a: Seq<u8>, b: Seq<u8>, c: Seq<u8>)
    requires
        a.is_prefix_of(b),
    ensures
        a.is_prefix_of(b + c),
{
    assert(a =~= (b + c).subrange(0, a.len() as int));
}

/// A prefix of a prefix is a prefix.
proof fn lemma_prefix_trans(a: Seq<u8>, b: Seq<u8>, c: Seq<u8>)
    requires
        a.is_prefix_of(b),
        b.is_prefix_of(c),
    ensures
        a.is_prefix_of(c),
{
    assert(a =~= c.subrange(0, a.len() as int));
}

/// Inserting a pair behind the entries that do not exceed it is the same
/// as splicing it in at that position.
proof fn lemma_insert_pair_at(s: Seq<(u32, u32)>, p: (u32, u32), k: int)
    requires
        0 <= k <= s.len(),
        forall|j: int| k <= j < s.len() ==> s[j].0 > p.0,
        k > 0 ==> s[k - 1].0 <= p.0,
    ensures
        spec_insert_pair(s, p) == s.take(k) + seq![p] + s.skip(k),
    decreases s.len(),
{
    if s.len() == 0 {
        assert(spec_insert_pair(s, p) =~= s.take(k) + seq![p] + s.skip(k));
    } else if k == s.len() {
        assert(s[k - 1].0 <= p.0);
        assert(spec_insert_pair(s, p) == s.push(p));
        assert(s.push(p) =~= s.take(k) + seq![p] + s.skip(k));
    } else {
        assert(s[s.len() - 1].0 > p.0);
        lemma_insert_pair_at(s.drop_last(), p, k);
        assert((s.drop_last().take(k) + seq![p] + s.drop_last().skip(k)).push(s.last()) =~= s.take(
            k,
        ) + seq![p] + s.skip(k));
    }
}

/// Sort pairs ascending by their offsets, keeping the relative order of
/// pairs with equal offsets.
pub fn sort_mipmap_pairs(pairs: Vec<(u32, u32)>) -> (r: Vec<(u32, u32)>)
    ensures
        r@ == spec_sort_pairs(pairs@),
{
    let mut out: Vec<(u32, u32)> = Vec::new();
    let mut i: usize = 0;
    while i < pairs.len()
        invariant
            0 <= i <= pairs@.len(),
            out@ == spec_sort_pairs(pairs@.take(i as int)),
        decreases pairs@.len() - i,
    {
        let p = pairs[i];
        let mut k: usize = out.len();
        while k > 0 && out[k - 1].0 > p.0
            invariant
                0 <= k <= out@.len(),
                forall|j: int| k <= j < out@.len() ==> out@[j].0 > p.0,
            decreases k,
        {
            k = k - 1;
        }
        proof {
            lemma_insert_pair_at(out@, p, k as int);
        }
        out.insert(k, p);
        proof {
            assert(out@ =~= spec_sort_pairs(pairs@.take(i as int)).take(k as int) + seq![p]
                + spec_sort_pairs(pairs@.take(i as int)).skip(k as int));
            assert(pairs@.take(i + 1).drop_last() =~= pairs@.take(i as int));
            assert(pairs@.take(i + 1).last() == pairs@[i as int]);
        }
        i = i + 1;
    }
    proof {
        assert(pairs@.take(pairs@.len() as int) =~= pairs@);
    }
    out
}

/// The active offset and size pairs of the locator tables, sorted by
/// offset: entries up to the table count the header calls for, with the
/// zero-size entries dropped.
fn collect_sorted_pairs(header: &BlpHeader, offsets: &[u32; 16], sizes: &[u32; 16]) -> (r: Vec<
    (u32, u32),
>)
    ensures
        r@ == spec_sort_pairs(spec_active_pairs(offsets@, sizes@, spec_take_count(*header))),
{
    let count = header.mipmaps_count();
    proof {
        crate::header::lemma_log2_floor_u32(
            if header.width >= header.height {
                header.width
            } else {
                header.height
            },
        );
    }
    let take_n: usize = if count + 1 < 16 {
        (count + 1) as usize
    } else {
        16
    };
    proof {
        assert(take_n as int == spec_take_count(*header));
    }
    let mut pairs: Vec<(u32, u32)> = Vec::new();
    let mut i: usize = 0;
    while i < take_n
        invariant
            0 <= i <= take_n,
            take_n <= 16,
            pairs@ == spec_active_pairs(offsets@, sizes@, i as int),
        decreases take_n - i,
    {
        if sizes[i] > 0 {
            pairs.push((offsets[i], sizes[i]));
        }
        i = i + 1;
    }
    sort_mipmap_pairs(pairs)
}

/// Write the level payloads at their recorded offsets, padding any gap
/// with zero bytes; see `spec_place_levels` for the rules.
fn place_mipmaps(pairs: &Vec<(u32, u32)>, levels: &Vec<Vec<u8>>, output: &mut Vec<u8>) -> (r:
    Result<(), EncodeError>)
    ensures
        ({
            let lvls = levels@.map_values(|v: Vec<u8>| v@);
            match r {
                Ok(_) => spec_place_levels(pairs@, lvls, old(output)@, 0) == Ok::<
                    Seq<u8>,
                    EncodeError,
                >(final(output)@),
                Err(e) => spec_place_levels(pairs@, lvls, old(output)@, 0) == Err::<
                    Seq<u8>,
                    EncodeError,
                >(e) && old(output)@.is_prefix_of(final(output)@),
            }
        }),
{
    let ghost lvls = levels@.map_values(|v: Vec<u8>| v@);
    let n: usize = if pairs.len() <= levels.len() {
        pairs.len()
    } else {
        levels.len()
    };
    let mut idx: usize = 0;
    while idx < n
        invariant
            0 <= idx <= n,
            n == (if pairs@.len() <= lvls.len() {
                pairs@.len() as int
            } else {
                lvls.len() as int
            }),
            lvls == levels@.map_values(|v: Vec<u8>| v@),
            old(output)@.is_prefix_of(output@),
            spec_place_levels(pairs@, lvls, old(output)@, 0) == spec_place_levels(
                pairs@,
                lvls,
                output@,
                idx as int,
            ),
        decreases n - idx,
    {
        let ghost entry = output@;
        let (offset, size) = pairs[idx];
        let off = offset as usize;
        if off < output.len() {
            return Err(
                EncodeError::InvalidOffset { mipmap: idx, offset: off, filled: output.len() },
            );
        }
        while output.len() < off
            invariant
                output@.len() <= off,
                entry.len() <= off,
                output@ == entry + spec_zeros(output@.len() - entry.len()),
            decreases off - output@.len(),
        {
            output.push(0);
            proof {
                assert(output@ =~= entry + spec_zeros(output@.len() - entry.len()));
            }
        }
        proof {
            assert(output@ =~= entry + spec_zeros(off - entry.len()));
        }
        let level = &levels[idx];
        if level.len() != size as usize {
            proof {
                lemma_prefix_append(old(output)@, entry, spec_zeros(off - entry.len()));
            }
            return Err(
                EncodeError::InvalidMipmapSize {
                    mipmap: idx,
                    in_header: size as usize,
                    actual: level.len(),
                },
            );
        }
        write_bytes(level, output);
        proof {
            assert(output@ =~= entry + spec_zeros(off - entry.len()) + lvls[idx as int]);
            lemma_prefix_append(
                old(output)@,
                entry,
                spec_zeros(off - entry.len()) + lvls[idx as int],
            );
        }
        idx = idx + 1;
    }
    Ok(())
}

/// Serialise the header into the output; see `spec_encode_header` for
/// when that succeeds.
#[verifier::rlimit(100)]
#[verifier::spinoff_prover]
pub fn encode_header(header: &BlpHeader, output: &mut Vec<u8>) -> (r: Result<(), EncodeError>)
    ensures
        match r {
            Ok(_) => spec_encode_header(*header) == Ok::<Seq<u8>, EncodeError>(
                spec_header_bytes(*header),
            ) && final(output)@ == old(output)@ + spec_header_bytes(*header),
            Err(e) => spec_encode_header(*header) == Err::<Seq<u8>, EncodeError>(e) && old(
                output,
            )@.is_prefix_of(final(output)@),
        },
{
    let magic = header.version.to_magic();
    output.push(magic[0]);
    output.push(magic[1]);
    output.push(magic[2]);
    output.push(magic[3]);
    proof {
        assert(output@ =~= old(output)@ + spec_magic(header.version));
    }
    push_le_u32(header.content.to_code(), output);
    match &header.flags {
        BlpFlags::Old { alpha_bits, .. } => {
            push_le_u32(*alpha_bits, output);
        },
        BlpFlags::Blp2 { compression, alpha_bits, alpha_type, has_mipmaps } => {
            output.push(compression.to_code());
            output.push(*alpha_bits);
            output.push(*alpha_type);
            output.push(*has_mipmaps);
            proof {
                assert(output@ =~= old(output)@ + spec_magic(header.version) + spec_u32_bytes(
                    spec_content_code(header.content),
                ) + spec_flags_bytes(header.flags));
            }
        },
    }
    let ghost after_flags = old(output)@ + spec_magic(header.version) + spec_u32_bytes(
        spec_content_code(header.content),
    ) + spec_flags_bytes(header.flags);
    proof {
        assert(output@ =~= after_flags);
    }
    if header.width > crate::content::BLP_MAX_WIDTH {
        proof {
            assert(old(output)@ =~= output@.subrange(0, old(output)@.len() as int));
        }
        return Err(EncodeError::WidthTooHigh(header.width));
    }
    push_le_u32(header.width, output);
    if header.height > crate::content::BLP_MAX_HEIGHT {
        proof {
            assert(old(output)@ =~= output@.subrange(0, old(output)@.len() as int));
        }
        return Err(EncodeError::HeightTooHigh(header.height));
    }
    push_le_u32(header.height, output);
    if let BlpFlags::Old { extra, has_mipmaps, .. } = &header.flags {
        push_le_u32(*extra, output);
        push_le_u32(*has_mipmaps, output);
    }
    let ghost after_extra = after_flags + spec_u32_bytes(header.width) + spec_u32_bytes(
        header.height,
    ) + (match header.flags {
        BlpFlags::Old { extra, has_mipmaps, .. } => spec_u32_bytes(extra) + spec_u32_bytes(
            has_mipmaps,
        ),
        BlpFlags::Blp2 { .. } => Seq::<u8>::empty(),
    });
    proof {
        assert(output@ =~= after_extra);
    }
    match &header.mipmap_locator {
        MipmapLocator::Internal { offsets, sizes } => {
            let mut k: usize = 0;
            while k < 16
                invariant
                    0 <= k <= 16,
                    header.mipmap_locator matches MipmapLocator::Internal { offsets: o, .. }
                        && o == offsets,
                    output@ == after_extra + le_u32_run(offsets@.take(k as int)),
                decreases 16 - k,
            {
                push_le_u32(offsets[k], output);
                proof {
                    assert(offsets@.take(k + 1).drop_last() =~= offsets@.take(k as int));
                    assert(output@ =~= after_extra + le_u32_run(offsets@.take(k + 1)));
                }
                k = k + 1;
            }
            proof {
                assert(offsets@.take(16) =~= offsets@);
            }
            let mut k: usize = 0;
            while k < 16
                invariant
                    0 <= k <= 16,
                    header.mipmap_locator matches MipmapLocator::Internal {
                        offsets: o,
                        sizes: z,
                    } && o == offsets && z == sizes,
                    output@ == after_extra + le_u32_run(offsets@) + le_u32_run(
                        sizes@.take(k as int),
                    ),
                decreases 16 - k,
            {
                push_le_u32(sizes[k], output);
                proof {
                    assert(sizes@.take(k + 1).drop_last() =~= sizes@.take(k as int));
                    assert(output@ =~= after_extra + le_u32_run(offsets@) + le_u32_run(
                        sizes@.take(k + 1),
                    ));
                }
                k = k + 1;
            }
            proof {
                assert(sizes@.take(16) =~= sizes@);
                assert(output@ =~= old(output)@ + spec_header_bytes(*header));
            }
        },
        MipmapLocator::External => {
            if !matches!(header.version, BlpVersion::Blp0) {
                proof {
                    assert(old(output)@ =~= output@.subrange(0, old(output)@.len() as int));
                }
                return Err(EncodeError::ExternalMipmapsNotSupported(header.version));
            }
            proof {
                assert(output@ =~= old(output)@ + spec_header_bytes(*header));
            }
        },
    }
    Ok(())
}

/// Append one paletted level: the pixel indices, then the packed alpha.
pub fn encode_raw1_image(image: &Raw1Image, output: &mut Vec<u8>)
    ensures
        final(output)@ == old(output)@ + image.indexed_rgb@ + image.indexed_alpha@,
{
    write_bytes(&image.indexed_rgb, output);
    write_bytes(&image.indexed_alpha, output);
}

/// Append one raw level: every pixel as four little-endian bytes.
pub fn encode_raw3_image(image: &Raw3Image, output: &mut Vec<u8>)
    ensures
        final(output)@ == old(output)@ + le_u32_run(image.pixels@),
{
    write_u32_run(&image.pixels, output);
}

/// Serialise JPEG content: the stored header size, the header block, and
/// the levels, either placed internally or handed out as external files.
fn encode_jpeg(
    header: &BlpHeader,
    content: &BlpJpeg,
    output: &mut Vec<u8>,
    mipmaps: &mut Vec<Vec<u8>>,
) -> (r: Result<(), EncodeError>)
    requires
        2 <= content.header@.len() <= u32::MAX + 2,
    ensures
        ({
            let res = spec_encode_content(
                *header,
                BlpContent::Jpeg(*content),
                old(output)@,
            );
            match r {
                Ok(_) => res matches Ok(p) && p.0 == final(output)@ && final(mipmaps)@.map_values(|v: Vec<u8>| v@) == old(mipmaps)@.map_values(|v: Vec<u8>| v@)
                    + p.1,
                Err(e) => res == Err::<(Seq<u8>, Seq<Seq<u8>>), EncodeError>(e) && old(
                    output,
                )@.is_prefix_of(final(output)@),
            }
        }),
{
    let ghost lvls = spec_content_levels(BlpContent::Jpeg(*content));
    push_le_u32((content.header.len() - 2) as u32, output);
    write_bytes(&content.header, output);
    proof {
        assert(output@ =~= old(output)@ + spec_content_prelude(BlpContent::Jpeg(*content)));
    }
    match &header.mipmap_locator {
        MipmapLocator::External => {
            let mut i: usize = 0;
            while i < content.images.len()
                invariant
                    0 <= i <= content.images@.len(),
                    lvls == content.images@.map_values(|v: Vec<u8>| v@),
                    mipmaps@.map_values(|v: Vec<u8>| v@) == old(mipmaps)@.map_values(
                        |v: Vec<u8>| v@,
                    ) + lvls.take(i as int),
                decreases content.images@.len() - i,
            {
                let mut lvl: Vec<u8> = Vec::new();
                write_bytes(&content.images[i], &mut lvl);
                proof {
                    assert(lvl@ =~= lvls[i as int]);
                }
                proof {
                    lemma_views_push(mipmaps@, lvl);
                }
                mipmaps.push(lvl);
                proof {
                    assert(mipmaps@.map_values(|v: Vec<u8>| v@) == (old(mipmaps)@.map_values(
                        |v: Vec<u8>| v@,
                    ) + lvls.take(i as int)).push(lvls[i as int]));
                    assert((old(mipmaps)@.map_values(|v: Vec<u8>| v@) + lvls.take(
                        i as int,
                    )).push(lvls[i as int]) =~= old(mipmaps)@.map_values(|v: Vec<u8>| v@)
                        + lvls.take(i + 1));
                }
                i = i + 1;
            }
            proof {
                assert(lvls.take(lvls.len() as int) =~= lvls);
            }
            Ok(())
        },
        MipmapLocator::Internal { offsets, sizes } => {
            let pairs = collect_sorted_pairs(header, offsets, sizes);
            let ghost before_place = output@;
            match place_mipmaps(&pairs, &content.images, output) {
                Ok(_) => {
                    proof {
                        assert(mipmaps@.map_values(|v: Vec<u8>| v@) =~= old(
                            mipmaps,
                        )@.map_values(|v: Vec<u8>| v@) + Seq::<Seq<u8>>::empty());
                    }
                    Ok(())
                },
                Err(e) => {
                    proof {
                        assert(old(output)@.is_prefix_of(before_place)) by {
                            assert(old(output)@ =~= before_place.subrange(
                                0,
                                old(output)@.len() as int,
                            ));
                        }
                        lemma_prefix_trans(old(output)@, before_place, output@);
                    }
                    Err(e)
                },
            }
        },
    }
}

/// Serialise paletted content: the color map, then the levels.
fn encode_raw1(
    header: &BlpHeader,
    content: &BlpRaw1,
    output: &mut Vec<u8>,
    mipmaps: &mut Vec<Vec<u8>>,
) -> (r: Result<(), EncodeError>)
    ensures
        ({
            let res = spec_encode_content(
                *header,
                BlpContent::Raw1(*content),
                old(output)@,
            );
            match r {
                Ok(_) => res matches Ok(p) && p.0 == final(output)@ && final(mipmaps)@.map_values(|v: Vec<u8>| v@) == old(mipmaps)@.map_values(|v: Vec<u8>| v@)
                    + p.1,
                Err(e) => res == Err::<(Seq<u8>, Seq<Seq<u8>>), EncodeError>(e) && old(
                    output,
                )@.is_prefix_of(final(output)@),
            }
        }),
{
    let ghost lvls = spec_content_levels(BlpContent::Raw1(*content));
    write_u32_run(&content.cmap, output);
    match &header.mipmap_locator {
        MipmapLocator::External => {
            let mut i: usize = 0;
            while i < content.images.len()
                invariant
                    0 <= i <= content.images@.len(),
                    lvls == content.images@.map_values(
                        |v: Raw1Image| v.indexed_rgb@ + v.indexed_alpha@,
                    ),
                    mipmaps@.map_values(|v: Vec<u8>| v@) == old(mipmaps)@.map_values(
                        |v: Vec<u8>| v@,
                    ) + lvls.take(i as int),
                decreases content.images@.len() - i,
            {
                let mut lvl: Vec<u8> = Vec::new();
                encode_raw1_image(&content.images[i], &mut lvl);
                proof {
                    assert(lvl@ =~= lvls[i as int]);
                }
                proof {
                    lemma_views_push(mipmaps@, lvl);
                }
                mipmaps.push(lvl);
                proof {
                    assert(mipmaps@.map_values(|v: Vec<u8>| v@) == (old(mipmaps)@.map_values(
                        |v: Vec<u8>| v@,
                    ) + lvls.take(i as int)).push(lvls[i as int]));
                    assert((old(mipmaps)@.map_values(|v: Vec<u8>| v@) + lvls.take(
                        i as int,
                    )).push(lvls[i as int]) =~= old(mipmaps)@.map_values(|v: Vec<u8>| v@)
                        + lvls.take(i + 1));
                }
                i = i + 1;
            }
            proof {
                assert(lvls.take(lvls.len() as int) =~= lvls);
            }
            Ok(())
        },
        MipmapLocator::Internal { offsets, sizes } => {
            let mut levels: Vec<Vec<u8>> = Vec::new();
            let mut i: usize = 0;
            while i < content.images.len()
                invariant
                    0 <= i <= content.images@.len(),
                    lvls == content.images@.map_values(
                        |v: Raw1Image| v.indexed_rgb@ + v.indexed_alpha@,
                    ),
                    levels@.len() == i,
                    forall|j: int| 0 <= j < i ==> levels@[j]@ == lvls[j],
                decreases content.images@.len() - i,
            {
                let mut lvl: Vec<u8> = Vec::new();
                encode_raw1_image(&content.images[i], &mut lvl);
                levels.push(lvl);
                i = i + 1;
            }
            proof {
                assert(levels@.map_values(|v: Vec<u8>| v@) =~= lvls);
            }
            let pairs = collect_sorted_pairs(header, offsets, sizes);
            let ghost before_place = output@;
            match place_mipmaps(&pairs, &levels, output) {
                Ok(_) => {
                    proof {
                        assert(mipmaps@.map_values(|v: Vec<u8>| v@) =~= old(
                            mipmaps,
                        )@.map_values(|v: Vec<u8>| v@) + Seq::<Seq<u8>>::empty());
                    }
                    Ok(())
                },
                Err(e) => {
                    proof {
                        assert(old(output)@.is_prefix_of(before_place)) by {
                            assert(old(output)@ =~= before_place.subrange(
                                0,
                                old(output)@.len() as int,
                            ));
                        }
                        lemma_prefix_trans(old(output)@, before_place, output@);
                    }
                    Err(e)
                },
            }
        },
    }
}

/// Serialise raw BGRA content: the color map, then the levels.
fn encode_raw3(
    header: &BlpHeader,
    content: &BlpRaw3,
    output: &mut Vec<u8>,
    mipmaps: &mut Vec<Vec<u8>>,
) -> (r: Result<(), EncodeError>)
    ensures
        ({
            let res = spec_encode_content(
                *header,
                BlpContent::Raw3(*content),
                old(output)@,
            );
            match r {
                Ok(_) => res matches Ok(p) && p.0 == final(output)@ && final(mipmaps)@.map_values(|v: Vec<u8>| v@) == old(mipmaps)@.map_values(|v: Vec<u8>| v@)
                    + p.1,
                Err(e) => res == Err::<(Seq<u8>, Seq<Seq<u8>>), EncodeError>(e) && old(
                    output,
                )@.is_prefix_of(final(output)@),
            }
        }),
{
    let ghost lvls = spec_content_levels(BlpContent::Raw3(*content));
    write_u32_run(&content.cmap, output);
    match &header.mipmap_locator {
        MipmapLocator::External => {
            let mut i: usize = 0;
            while i < content.images.len()
                invariant
                    0 <= i <= content.images@.len(),
                    lvls == content.images@.map_values(|v: Raw3Image| le_u32_run(v.pixels@)),
                    mipmaps@.map_values(|v: Vec<u8>| v@) == old(mipmaps)@.map_values(
                        |v: Vec<u8>| v@,
                    ) + lvls.take(i as int),
                decreases content.images@.len() - i,
            {
                let mut lvl: Vec<u8> = Vec::new();
                encode_raw3_image(&content.images[i], &mut lvl);
                proof {
                    assert(lvl@ =~= lvls[i as int]);
                }
                proof {
                    lemma_views_push(mipmaps@, lvl);
                }
                mipmaps.push(lvl);
                proof {
                    assert(mipmaps@.map_values(|v: Vec<u8>| v@) == (old(mipmaps)@.map_values(
                        |v: Vec<u8>| v@,
                    ) + lvls.take(i as int)).push(lvls[i as int]));
                    assert((old(mipmaps)@.map_values(|v: Vec<u8>| v@) + lvls.take(
                        i as int,
                    )).push(lvls[i as int]) =~= old(mipmaps)@.map_values(|v: Vec<u8>| v@)
                        + lvls.take(i + 1));
                }
                i = i + 1;
            }
            proof {
                assert(lvls.take(lvls.len() as int) =~= lvls);
            }
            Ok(())
        },
        MipmapLocator::Internal { offsets, sizes } => {
            let mut levels: Vec<Vec<u8>> = Vec::new();
            let mut i: usize = 0;
            while i < content.images.len()
                invariant
                    0 <= i <= content.images@.len(),
                    lvls == content.images@.map_values(|v: Raw3Image| le_u32_run(v.pixels@)),
                    levels@.len() == i,
                    forall|j: int| 0 <= j < i ==> levels@[j]@ == lvls[j],
                decreases content.images@.len() - i,
            {
                let mut lvl: Vec<u8> = Vec::new();
                encode_raw3_image(&content.images[i], &mut lvl);
                levels.push(lvl);
                i = i + 1;
            }
            proof {
                assert(levels@.map_values(|v: Vec<u8>| v@) =~= lvls);
            }
            let pairs = collect_sorted_pairs(header, offsets, sizes);
            let ghost before_place = output@;
            match place_mipmaps(&pairs, &levels, output) {
                Ok(_) => {
                    proof {
                        assert(mipmaps@.map_values(|v: Vec<u8>| v@) =~= old(
                            mipmaps,
                        )@.map_values(|v: Vec<u8>| v@) + Seq::<Seq<u8>>::empty());
                    }
                    Ok(())
                },
                Err(e) => {
                    proof {
                        assert(old(output)@.is_prefix_of(before_place)) by {
                            assert(old(output)@ =~= before_place.subrange(
                                0,
                                old(output)@.len() as int,
                            ));
                        }
                        lemma_prefix_trans(old(output)@, before_place, output@);
                    }
                    Err(e)
                },
            }
        },
    }
}

/// Serialise block-compressed content: the levels at their recorded
/// offsets. No color map is written; the gap the offsets leave for it is
/// filled with zero bytes by the placement.
fn encode_dxtn(header: &BlpHeader, content: &BlpDxtn, output: &mut Vec<u8>, Ghost(c): Ghost<
    BlpContent,
>) -> (r: Result<(), EncodeError>)
    requires
        c == BlpContent::Dxt1(*content) || c == BlpContent::Dxt3(*content) || c
            == BlpContent::Dxt5(*content),
    ensures
        ({
            let res = spec_encode_content(*header, c, old(output)@);
            match r {
                Ok(_) => res matches Ok(p) && p.0 == final(output)@ && p.1 =~= Seq::<
                    Seq<u8>,
                >::empty(),
                Err(e) => res == Err::<(Seq<u8>, Seq<Seq<u8>>), EncodeError>(e) && old(
                    output,
                )@.is_prefix_of(final(output)@),
            }
        }),
{
    let ghost lvls = spec_content_levels(c);
    match &header.mipmap_locator {
        MipmapLocator::External => {
            proof {
                assert(old(output)@ =~= output@.subrange(0, old(output)@.len() as int));
            }
            Err(EncodeError::ExternalMipmapsNotSupported(BlpVersion::Blp2))
        },
        MipmapLocator::Internal { offsets, sizes } => {
            let mut levels: Vec<Vec<u8>> = Vec::new();
            let mut i: usize = 0;
            while i < content.images.len()
                invariant
                    0 <= i <= content.images@.len(),
                    lvls == content.images@.map_values(
                        |v: crate::direct::DxtnImage| v.content@,
                    ),
                    levels@.len() == i,
                    forall|j: int| 0 <= j < i ==> levels@[j]@ == lvls[j],
                decreases content.images@.len() - i,
            {
                let mut lvl: Vec<u8> = Vec::new();
                write_bytes(&content.images[i].content, &mut lvl);
                levels.push(lvl);
                i = i + 1;
            }
            proof {
                assert(levels@.map_values(|v: Vec<u8>| v@) =~= lvls);
                assert(old(output)@ + spec_content_prelude(c) =~= old(output)@);
            }
            let pairs = collect_sorted_pairs(header, offsets, sizes);
            match place_mipmaps(&pairs, &levels, output) {
                Ok(_) => Ok(()),
                Err(e) => {
                    proof {
                        assert(old(output)@.is_prefix_of(output@));
                    }
                    Err(e)
                },
            }
        },
    }
}

/// Serialise the content behind the already written header bytes.
fn encode_content(
    header: &BlpHeader,
    content: &BlpContent,
    output: &mut Vec<u8>,
    mipmaps: &mut Vec<Vec<u8>>,
) -> (r: Result<(), EncodeError>)
    requires
        spec_jpeg_header_ok(*content),
    ensures
        ({
            let res = spec_encode_content(*header, *content, old(output)@);
            match r {
                Ok(_) => res matches Ok(p) && p.0 == final(output)@ && final(mipmaps)@.map_values(|v: Vec<u8>| v@) == old(mipmaps)@.map_values(|v: Vec<u8>| v@)
                    + p.1,
                Err(e) => res == Err::<(Seq<u8>, Seq<Seq<u8>>), EncodeError>(e) && old(
                    output,
                )@.is_prefix_of(final(output)@),
            }
        }),
{
    match content {
        BlpContent::Jpeg(c) => encode_jpeg(header, c, output, mipmaps),
        BlpContent::Raw1(c) => encode_raw1(header, c, output, mipmaps),
        BlpContent::Raw3(c) => encode_raw3(header, c, output, mipmaps),
        BlpContent::Dxt1(c) => {
            let r = encode_dxtn(header, c, output, Ghost(*content));
            proof {
                if r is Ok {
                    assert(mipmaps@.map_values(|v: Vec<u8>| v@) =~= old(mipmaps)@.map_values(
                        |v: Vec<u8>| v@,
                    ) + Seq::<Seq<u8>>::empty());
                }
            }
            r
        },
        BlpContent::Dxt3(c) => {
            let r = encode_dxtn(header, c, output, Ghost(*content));
            proof {
                if r is Ok {
                    assert(mipmaps@.map_values(|v: Vec<u8>| v@) =~= old(mipmaps)@.map_values(
                        |v: Vec<u8>| v@,
                    ) + Seq::<Seq<u8>>::empty());
                }
            }
            r
        },
        BlpContent::Dxt5(c) => {
            let r = encode_dxtn(header, c, output, Ghost(*content));
            proof {
                if r is Ok {
                    assert(mipmaps@.map_values(|v: Vec<u8>| v@) =~= old(mipmaps)@.map_values(
                        |v: Vec<u8>| v@,
                    ) + Seq::<Seq<u8>>::empty());
                }
            }
            r
        },
    }
}

/// Encode an image into the root file bytes and the external mipmap
/// files, if its locator calls for any.
pub fn encode_blp_with_external(image: &BlpImage) -> (r: Result<BlpWithMipmaps, EncodeError>)
    requires
        spec_jpeg_header_ok(image.content),
    ensures
        match r {
            Ok(bm) => spec_encode_blp(*image) matches Ok(p) && p.0 == bm.blp_bytes@ && p.1
                == bm.blp_mipmaps@.map_values(|v: Vec<u8>| v@),
            Err(e) => spec_encode_blp(*image) == Err::<(Seq<u8>, Seq<Seq<u8>>), EncodeError>(e),
        },
{
    let mut output: Vec<u8> = Vec::new();
    let mut mipmaps: Vec<Vec<u8>> = Vec::new();
    match encode_header(&image.header, &mut output) {
        Ok(_) => {},
        Err(e) => {
            return Err(e);
        },
    }
    match encode_content(&image.header, &image.content, &mut output, &mut mipmaps) {
        Ok(_) => {},
        Err(e) => {
            return Err(e);
        },
    }
    proof {
        assert(mipmaps@.map_values(|v: Vec<u8>| v@) =~= Seq::<Seq<u8>>::empty()
            + mipmaps@.map_values(|v: Vec<u8>| v@));
    }
    Ok(BlpWithMipmaps { blp_bytes: output, blp_mipmaps: mipmaps })
}

/// Encode an image of the oldest version together with its external
/// mipmap files.
pub fn encode_blp0(image: &BlpImage) -> (r: Result<BlpWithMipmaps, EncodeError>)
    requires
        spec_jpeg_header_ok(image.content),
    ensures
        match r {
            Ok(bm) => spec_encode_blp(*image) matches Ok(p) && p.0 == bm.blp_bytes@ && p.1
                == bm.blp_mipmaps@.map_values(|v: Vec<u8>| v@),
            Err(e) => spec_encode_blp(*image) == Err::<(Seq<u8>, Seq<Seq<u8>>), EncodeError>(e),
        },
{
    encode_blp_with_external(image)
}

/// Encode an image whose mipmaps live inside the file into its bytes.
pub fn encode_blp(image: &BlpImage) -> (r: Result<Vec<u8>, EncodeError>)
    requires
        spec_jpeg_header_ok(image.content),
    ensures
        match r {
            Ok(v) => spec_encode_blp(*image) matches Ok(p) && p.0 == v@,
            Err(e) => spec_encode_blp(*image) == Err::<(Seq<u8>, Seq<Seq<u8>>), EncodeError>(e),
        },
{
    match encode_blp_with_external(image) {
        Ok(bm) => Ok(bm.blp_bytes),
        Err(e) => Err(e),
    }
}

} // verus!
