//! The round-trip law: a well-formed file that parses re-encodes to the
//! very bytes it came from.

use vstd::prelude::*;
use crate::content::{BlpContent, BlpImage};
use crate::encode::{
    le_u32_run, spec_active_pairs, spec_content_levels, spec_content_prelude, spec_encode_blp,
    spec_encode_content, spec_encode_header, spec_flags_bytes, spec_header_bytes,
    spec_insert_pair, spec_locator_bytes, spec_place_levels, spec_sort_pairs, spec_take_count,
    spec_zeros, EncodeError,
};
use crate::header::{
    spec_compression_code, spec_compression_from, spec_content_code, spec_header_size,
    BlpContentTag, BlpFlags, BlpHeader,
};
use crate::locator::MipmapLocator;
use crate::parser::{spec_level_count, spec_parsed_blp, spec_parsed_content, spec_parsed_header};
use crate::primitives::{spec_u32_bytes, spec_u32le};
use crate::version::{spec_magic, BlpVersion};

verus! {

/// Four bytes read back from a little-endian write give the write's
/// input, as a byte range of the surrounding sequence.
proof fn lemma_u32_field_bytes(b: Seq<u8>, pos: int)
    requires
        0 <= pos,
        pos + 4 <= b.len(),
    ensures
        spec_u32_bytes(spec_u32le(b, pos)) == b.subrange(pos, pos + 4),
{
    crate::primitives::lemma_le_bytes_roundtrip(b[pos], b[pos + 1], b[pos + 2], b[pos + 3]);
    assert(seq![b[pos], b[pos + 1], b[pos + 2], b[pos + 3]] =~= b.subrange(pos, pos + 4));
}

/// A run of values that were read little-endian from a byte range writes
/// back as exactly that byte range.
proof fn lemma_u32_run_reads(b: Seq<u8>, pos: int, vals: Seq<u32>)
    requires
        0 <= pos,
        pos + 4 * vals.len() <= b.len(),
        forall|i: int| 0 <= i < vals.len() ==> vals[i] == spec_u32le(b, pos + 4 * i),
    ensures
        le_u32_run(vals) == b.subrange(pos, pos + 4 * vals.len()),
    decreases vals.len(),
{
    if vals.len() == 0 {
        assert(le_u32_run(vals) =~= b.subrange(pos, pos));
    } else {
        let n = vals.len() as int;
        lemma_u32_run_reads(b, pos, vals.drop_last());
        lemma_u32_field_bytes(b, pos + 4 * (n - 1));
        assert(vals.last() == spec_u32le(b, pos + 4 * (n - 1)));
        assert(le_u32_run(vals) == b.subrange(pos, pos + 4 * (n - 1)) + b.subrange(
            pos + 4 * (n - 1),
            pos + 4 * n,
        ));
        assert(b.subrange(pos, pos + 4 * (n - 1)) + b.subrange(pos + 4 * (n - 1), pos + 4 * n)
            =~= b.subrange(pos, pos + 4 * n));
    }
}

/// The extra conditions under which the header's bytes are rebuilt
/// verbatim: the content field holds one of the two known values, the
/// stored alpha depth is one the content tag allows, and the dimensions
/// fit their checks.
pub open spec fn rt_header_wf(b: Seq<u8>, h: BlpHeader) -> bool {
    spec_u32le(b, 4) == spec_content_code(h.content) && h.width <= 65535 && h.height <= 65535 && (
    match h.flags {
        BlpFlags::Old { alpha_bits, .. } => alpha_bits == spec_u32le(b, 8),
        BlpFlags::Blp2 { .. } => true,
    })
}

/// A parsed header together with the round-trip conditions writes back as
/// the first bytes of its file.
pub proof fn lemma_header_roundtrip(b: Seq<u8>, h: BlpHeader)
    requires
        spec_parsed_header(b, h),
        rt_header_wf(b, h),
    ensures
        spec_encode_header(h) == Ok::<Seq<u8>, EncodeError>(spec_header_bytes(h)),
        spec_header_bytes(h) == b.take(spec_header_size(h.version)),
{
    let v = h.version;
    let hs = spec_header_size(v);
    assert(spec_magic(v) =~= b.subrange(0, 4)) by {
        assert(crate::version::spec_from_magic(b.subrange(0, 4)) == Some(v));
    }
    lemma_u32_field_bytes(b, 4);
    assert(spec_u32_bytes(spec_content_code(h.content)) == b.subrange(4, 8));
    lemma_u32_field_bytes(b, 12);
    lemma_u32_field_bytes(b, 16);
    match v {
        BlpVersion::Blp2 => {
            assert(spec_compression_code(spec_compression_from(b[8])->Some_0) == b[8]);
            assert(spec_flags_bytes(h.flags) =~= b.subrange(8, 12));
            let offsets = h.mipmap_locator->Internal_offsets;
            let sizes = h.mipmap_locator->Internal_sizes;
            assert forall|i: int| 0 <= i < 16 implies offsets@[i] == spec_u32le(
                b,
                20 + 4 * i,
            ) by {}
            lemma_u32_run_reads(b, 20, offsets@);
            lemma_u32_run_reads(b, 84, sizes@);
            assert(spec_locator_bytes(h.mipmap_locator) == b.subrange(20, 84) + b.subrange(
                84,
                148,
            ));
            assert(spec_header_bytes(h) == b.subrange(0, 4) + b.subrange(4, 8) + b.subrange(8, 12)
                + b.subrange(12, 16) + b.subrange(16, 20) + Seq::<u8>::empty() + (b.subrange(
                20,
                84,
            ) + b.subrange(84, 148)));
            assert(spec_header_bytes(h) =~= b.take(148));
        },
        _ => {
            lemma_u32_field_bytes(b, 8);
            assert(spec_flags_bytes(h.flags) == b.subrange(8, 12));
            lemma_u32_field_bytes(b, 20);
            lemma_u32_field_bytes(b, 24);
            match v {
                BlpVersion::Blp0 => {
                    assert(spec_locator_bytes(h.mipmap_locator) == Seq::<u8>::empty());
                    assert(spec_header_bytes(h) =~= b.take(28));
                },
                _ => {
                    let offsets = h.mipmap_locator->Internal_offsets;
                    let sizes = h.mipmap_locator->Internal_sizes;
                    lemma_u32_run_reads(b, 28, offsets@);
                    lemma_u32_run_reads(b, 92, sizes@);
                    assert(spec_locator_bytes(h.mipmap_locator) == b.subrange(28, 92)
                        + b.subrange(92, 156));
                    assert(spec_header_bytes(h) =~= b.take(156));
                },
            }
        },
    }
}

/// The level payloads tile the file bytes from `cur` on: each level sits
/// at its recorded offset with only zero bytes before it, its payload is
/// exactly the recorded slice, and the last level ends exactly at the end
/// of the file.
pub open spec fn layout_ok(
    b: Seq<u8>,
    pairs: Seq<(u32, u32)>,
    lvls: Seq<Seq<u8>>,
    cur: int,
    idx: int,
) -> bool
    decreases pairs.len() - idx,
{
    if idx < 0 || idx >= pairs.len() {
        cur == b.len()
    } else {
        let off = pairs[idx].0 as int;
        let size = pairs[idx].1 as int;
        cur <= off && off + size <= b.len() && (forall|k: int| cur <= k < off ==> b[k] == 0u8)
            && idx < lvls.len() && lvls[idx].len() == size && lvls[idx] == b.subrange(
            off,
            off + size,
        ) && layout_ok(b, pairs, lvls, off + size, idx + 1)
    }
}

/// Placing levels that tile the file from `cur` on rebuilds the whole
/// file behind its first `cur` bytes.
proof fn lemma_place_reconstruct(
    b: Seq<u8>,
    pairs: Seq<(u32, u32)>,
    lvls: Seq<Seq<u8>>,
    cur: int,
    idx: int,
)
    requires
        0 <= idx <= pairs.len(),
        pairs.len() == lvls.len(),
        0 <= cur <= b.len(),
        layout_ok(b, pairs, lvls, cur, idx),
    ensures
        spec_place_levels(pairs, lvls, b.take(cur), idx) == Ok::<Seq<u8>, EncodeError>(b),
    decreases pairs.len() - idx,
{
    if idx >= pairs.len() {
        assert(b.take(cur) =~= b);
    } else {
        let off = pairs[idx].0 as int;
        let size = pairs[idx].1 as int;
        assert(b.take(cur) + spec_zeros(off - cur) + lvls[idx] =~= b.take(off + size));
        lemma_place_reconstruct(b, pairs, lvls, off + size, idx + 1);
    }
}

/// Sorting pairs whose offsets already never decrease changes nothing.
proof fn lemma_sort_pairs_id(s: Seq<(u32, u32)>)
    requires
        forall|i: int, j: int| 0 <= i < j < s.len() ==> (#[trigger] s[i]).0 <= (#[trigger] s[j]).0,
    ensures
        spec_sort_pairs(s) == s,
    decreases s.len(),
{
    if s.len() > 0 {
        lemma_sort_pairs_id(s.drop_last());
        if s.len() == 1 {
            assert(spec_insert_pair(Seq::empty(), s.last()) =~= s);
        } else {
            assert(s.drop_last().last().0 <= s.last().0);
            assert(spec_insert_pair(s.drop_last(), s.last()) == s.drop_last().push(s.last()));
            assert(s.drop_last().push(s.last()) =~= s);
        }
    }
}

/// When no entry in range records size zero, the active pairs are simply
/// all the entries in range, in table order.
proof fn lemma_active_pairs_all(offsets: Seq<u32>, sizes: Seq<u32>, n: int)
    requires
        0 <= n,
        forall|i: int| 0 <= i < n ==> sizes[i] > 0u32,
    ensures
        spec_active_pairs(offsets, sizes, n).len() == n,
        forall|i: int|
            0 <= i < n ==> #[trigger] spec_active_pairs(offsets, sizes, n)[i] == (
            offsets[i],
            sizes[i],
        ),
    decreases n,
{
    if n > 0 {
        lemma_active_pairs_all(offsets, sizes, n - 1);
    }
}

/// The layout of a file tiled by ascending levels has never-decreasing
/// offsets.
proof fn lemma_layout_sorted(b: Seq<u8>, pairs: Seq<(u32, u32)>, lvls: Seq<Seq<u8>>, cur: int, idx: int)
    requires
        0 <= idx <= pairs.len(),
        layout_ok(b, pairs, lvls, cur, idx),
    ensures
        forall|i: int, j: int|
            idx <= i < j < pairs.len() ==> (#[trigger] pairs[i]).0 <= (#[trigger] pairs[j]).0,
        forall|i: int| idx <= i < pairs.len() ==> cur <= (#[trigger] pairs[i]).0,
    decreases pairs.len() - idx,
{
    if idx < pairs.len() {
        let off = pairs[idx].0 as int;
        let size = pairs[idx].1 as int;
        lemma_layout_sorted(b, pairs, lvls, off + size, idx + 1);
    }
}

/// The recorded offsets and sizes tile the file bytes from `cur` on:
/// every entry in range starts at or after the bytes already covered,
/// with only zero bytes in any gap before it, ends inside the file, and
/// the last entry ends exactly at the end of the file.
pub open spec fn tiling_ok(
    b: Seq<u8>,
    offsets: Seq<u32>,
    sizes: Seq<u32>,
    count: int,
    cur: int,
    idx: int,
) -> bool
    decreases count - idx,
{
    if idx < 0 || idx >= count {
        cur == b.len()
    } else {
        let off = offsets[idx] as int;
        let size = sizes[idx] as int;
        cur <= off && off + size <= b.len() && (forall|k: int| cur <= k < off ==> b[k] == 0u8)
            && tiling_ok(b, offsets, sizes, count, off + size, idx + 1)
    }
}

/// Every entry of a tiling layout lies inside the file, at or after the
/// point the layout starts from.
proof fn lemma_tiling_props(
    b: Seq<u8>,
    offsets: Seq<u32>,
    sizes: Seq<u32>,
    count: int,
    cur: int,
    idx: int,
)
    requires
        0 <= idx,
        tiling_ok(b, offsets, sizes, count, cur, idx),
    ensures
        forall|i: int|
            idx <= i < count ==> cur <= #[trigger] (offsets[i] as int) && offsets[i] + sizes[i]
                <= b.len(),
    decreases count - idx,
{
    if idx < count {
        lemma_tiling_props(b, offsets, sizes, count, offsets[idx] + sizes[idx], idx + 1);
    }
}

/// Levels whose payloads are exactly the recorded slices of a tiling
/// layout tile the file in the layout's sense.
proof fn lemma_layout_from_tiling(
    b: Seq<u8>,
    offsets: Seq<u32>,
    sizes: Seq<u32>,
    lvls: Seq<Seq<u8>>,
    pairs: Seq<(u32, u32)>,
    count: int,
    cur: int,
    idx: int,
)
    requires
        0 <= idx <= count,
        pairs.len() == count,
        lvls.len() == count,
        forall|i: int| idx <= i < count ==> #[trigger] pairs[i] == (offsets[i], sizes[i]),
        tiling_ok(b, offsets, sizes, count, cur, idx),
        forall|i: int|
            idx <= i < count ==> (#[trigger] lvls[i]).len() == sizes[i] && lvls[i] == b.subrange(
                offsets[i] as int,
                offsets[i] + sizes[i],
            ),
    ensures
        layout_ok(b, pairs, lvls, cur, idx),
    decreases count - idx,
{
    if idx < count {
        lemma_layout_from_tiling(
            b,
            offsets,
            sizes,
            lvls,
            pairs,
            count,
            offsets[idx] + sizes[idx],
            idx + 1,
        );
    }
}

/// Place-and-pad reconstruction for one internal-locator content kind:
/// given the per-level payloads as the recorded slices of a tiling
/// layout, the encoder's placement rebuilds the file.
proof fn lemma_internal_levels_roundtrip(
    b: Seq<u8>,
    h: BlpHeader,
    offsets: [u32; 16],
    sizes: [u32; 16],
    lvls: Seq<Seq<u8>>,
    cstart: int,
)
    requires
        0 <= cstart <= b.len(),
        lvls.len() == spec_level_count(h),
        forall|i: int| 0 <= i < spec_level_count(h) ==> sizes@[i] > 0u32,
        tiling_ok(b, offsets@, sizes@, spec_level_count(h), cstart, 0),
        forall|i: int|
            0 <= i < spec_level_count(h) ==> (#[trigger] lvls[i]).len() == sizes@[i] && lvls[i]
                == b.subrange(offsets@[i] as int, offsets@[i] + sizes@[i]),
    ensures
        spec_place_levels(
            spec_sort_pairs(spec_active_pairs(offsets@, sizes@, spec_take_count(h))),
            lvls,
            b.take(cstart),
            0,
        ) == Ok::<Seq<u8>, EncodeError>(b),
{
    let count = spec_level_count(h);
    let pairs = Seq::new(count as nat, |i: int| (offsets@[i], sizes@[i]));
    lemma_active_pairs_all(offsets@, sizes@, count);
    assert(spec_active_pairs(offsets@, sizes@, spec_take_count(h)) =~= pairs);
    lemma_layout_from_tiling(b, offsets@, sizes@, lvls, pairs, count, cstart, 0);
    lemma_layout_sorted(b, pairs, lvls, cstart, 0);
    lemma_sort_pairs_id(pairs);
    lemma_place_reconstruct(b, pairs, lvls, cstart, 0);
}

/// The conditions under which the content bytes of a parsed file are
/// rebuilt verbatim: every level in range is recorded with a nonzero size
/// that matches its payload exactly, the recorded ranges tile the file to
/// its very end with only zero bytes between them, and external files
/// hold exactly the levels the header calls for, nothing more.
pub open spec fn rt_content_wf(b: Seq<u8>, exts: Seq<Seq<u8>>, h: BlpHeader) -> bool {
    let hs = spec_header_size(h.version);
    let count = spec_level_count(h);
    match h.content {
        BlpContentTag::Jpeg => {
            let cstart = hs + 4 + spec_u32le(b, hs) + 2;
            match h.mipmap_locator {
                MipmapLocator::External => exts.len() == crate::parser::spec_ext_jpeg_count(h)
                    && b.len() == cstart,
                MipmapLocator::Internal { offsets, sizes } => (forall|i: int|
                    0 <= i < count ==> sizes@[i] > 0u32) && tiling_ok(
                    b,
                    offsets@,
                    sizes@,
                    count,
                    cstart,
                    0,
                ),
            }
        },
        BlpContentTag::Direct => {
            match h.flags {
                BlpFlags::Blp2 { compression, alpha_type, .. } => {
                    h.mipmap_locator matches MipmapLocator::Internal { offsets, sizes } && (forall|
                        i: int,
                    |
                        0 <= i < count ==> sizes@[i] > 0u32) && (match compression {
                        crate::header::Compression::Raw1 => tiling_ok(
                            b,
                            offsets@,
                            sizes@,
                            count,
                            hs + 1024,
                            0,
                        ) && forall|i: int|
                            0 <= i < count ==> sizes@[i] == crate::parser::spec_raw1_need(h)(i),
                        crate::header::Compression::Raw3 => tiling_ok(
                            b,
                            offsets@,
                            sizes@,
                            count,
                            hs + 1024,
                            0,
                        ) && forall|i: int|
                            0 <= i < count ==> sizes@[i] == crate::parser::spec_raw3_need(h)(i),
                        crate::header::Compression::Dxtc => tiling_ok(
                            b,
                            offsets@,
                            sizes@,
                            count,
                            hs,
                            0,
                        ) && forall|i: int|
                            0 <= i < count ==> sizes@[i] == crate::parser::spec_dxtn_need(
                                h,
                                if alpha_type == 0u8 {
                                    crate::direct::DxtnFormat::Dxt1
                                } else if alpha_type == 1u8 {
                                    crate::direct::DxtnFormat::Dxt3
                                } else {
                                    crate::direct::DxtnFormat::Dxt5
                                },
                            )(i),
                    })
                },
                BlpFlags::Old { .. } => {
                    match h.mipmap_locator {
                        MipmapLocator::External => exts.len() == count && b.len() == hs + 1024 && (
                        forall|i: int|
                            0 <= i < count ==> (#[trigger] exts[i]).len()
                                == crate::parser::spec_raw1_need(h)(i)),
                        MipmapLocator::Internal { offsets, sizes } => (forall|i: int|
                            0 <= i < count ==> sizes@[i] > 0u32) && tiling_ok(
                            b,
                            offsets@,
                            sizes@,
                            count,
                            hs + 1024,
                            0,
                        ) && forall|i: int|
                            0 <= i < count ==> sizes@[i] == crate::parser::spec_raw1_need(h)(i),
                    }
                },
            }
        },
    }
}

/// The law of the round trip: a file whose bytes meet the round-trip
/// conditions parses to an image that encodes back to those very bytes,
/// with external level files reproduced one for one.
#[verifier::rlimit(100)]
#[verifier::spinoff_prover]
pub proof fn lemma_parse_encode_roundtrip(b: Seq<u8>, exts: Seq<Seq<u8>>, img: BlpImage)
    requires
        spec_parsed_blp(b, exts, img),
        rt_header_wf(b, img.header),
        rt_content_wf(b, exts, img.header),
    ensures
        spec_encode_blp(img) matches Ok(p) && p.0 == b && (match img.header.mipmap_locator {
            MipmapLocator::External => p.1 == exts,
            MipmapLocator::Internal { .. } => p.1 == Seq::<Seq<u8>>::empty(),
        }),
{
    let h = img.header;
    let hs = spec_header_size(h.version);
    let count = spec_level_count(h);
    lemma_header_roundtrip(b, h);
    let hb = spec_header_bytes(h);
    let lvls = spec_content_levels(img.content);
    match img.content {
        BlpContent::Jpeg(j) => {
            let hsz = spec_u32le(b, hs) as int;
            let cstart = hs + 4 + hsz + 2;
            assert(j.header@.len() == hsz + 2);
            lemma_u32_field_bytes(b, hs);
            assert((j.header@.len() - 2) as u32 == spec_u32le(b, hs));
            assert(hb + spec_content_prelude(img.content) =~= b.take(cstart));
            match h.mipmap_locator {
                MipmapLocator::External => {
                    assert(b.take(cstart) =~= b);
                    assert(lvls =~= exts) by {
                        assert forall|i: int| 0 <= i < lvls.len() implies lvls[i] == exts[i] by {
                            assert(j.images@[i]@ == exts[i]);
                        }
                    }
                    assert(spec_encode_content(h, img.content, hb) == Ok::<
                        (Seq<u8>, Seq<Seq<u8>>),
                        EncodeError,
                    >((b, exts)));
                },
                MipmapLocator::Internal { offsets, sizes } => {
                    lemma_tiling_props(b, offsets@, sizes@, count, cstart, 0);
                    assert forall|i: int|
                        0 <= i < count implies (#[trigger] lvls[i]).len() == sizes@[i] && lvls[i]
                        == b.subrange(offsets@[i] as int, offsets@[i] + sizes@[i]) by {
                        assert(crate::parser::spec_jpeg_level(
                            b,
                            offsets@[i] as int,
                            sizes@[i] as int,
                            j.images@[i]@,
                        ));
                        assert(lvls[i] == j.images@[i]@);
                    }
                    lemma_internal_levels_roundtrip(b, h, offsets, sizes, lvls, cstart);
                    assert(spec_encode_content(h, img.content, hb) == Ok::<
                        (Seq<u8>, Seq<Seq<u8>>),
                        EncodeError,
                    >((b, Seq::empty())));
                },
            }
        },
        BlpContent::Raw1(r) => {
            lemma_u32_run_reads(b, hs, r.cmap@);
            assert(hb + spec_content_prelude(img.content) =~= b.take(hs + 1024));
            match h.mipmap_locator {
                MipmapLocator::External => {
                    assert(b.take(hs + 1024) =~= b);
                    assert(lvls =~= exts) by {
                        assert forall|i: int| 0 <= i < lvls.len() implies lvls[i] == exts[i] by {
                            let n = crate::parser::spec_level_pixels(h, i);
                            let an = crate::parser::spec_alpha_len(
                                n,
                                crate::header::spec_alpha_bits(h.flags),
                            );
                            assert(crate::parser::spec_raw1_ext_level(exts, h, i, r.images@[i]));
                            assert(lvls[i] == r.images@[i].indexed_rgb@
                                + r.images@[i].indexed_alpha@);
                            assert(exts[i].len() == crate::parser::spec_raw1_need(h)(i));
                            assert(exts[i].subrange(0, n) + exts[i].subrange(n, n + an)
                                =~= exts[i]);
                        }
                    }
                    assert(spec_encode_content(h, img.content, hb) == Ok::<
                        (Seq<u8>, Seq<Seq<u8>>),
                        EncodeError,
                    >((b, exts)));
                },
                MipmapLocator::Internal { offsets, sizes } => {
                    lemma_tiling_props(b, offsets@, sizes@, count, hs + 1024, 0);
                    assert forall|i: int|
                        0 <= i < count implies (#[trigger] lvls[i]).len() == sizes@[i] && lvls[i]
                        == b.subrange(offsets@[i] as int, offsets@[i] + sizes@[i]) by {
                        let off = offsets@[i] as int;
                        let n = crate::parser::spec_level_pixels(h, i);
                        let an = crate::parser::spec_alpha_len(
                            n,
                            crate::header::spec_alpha_bits(h.flags),
                        );
                        assert(crate::parser::spec_raw1_level(b, h, off, i, r.images@[i]));
                        assert(lvls[i] == r.images@[i].indexed_rgb@ + r.images@[i].indexed_alpha@);
                        assert(sizes@[i] == crate::parser::spec_raw1_need(h)(i));
                        assert(b.subrange(off, off + n) + b.subrange(off + n, off + n + an)
                            =~= b.subrange(off, off + sizes@[i]));
                    }
                    lemma_internal_levels_roundtrip(b, h, offsets, sizes, lvls, hs + 1024);
                    assert(spec_encode_content(h, img.content, hb) == Ok::<
                        (Seq<u8>, Seq<Seq<u8>>),
                        EncodeError,
                    >((b, Seq::empty())));
                },
            }
        },
        BlpContent::Raw3(r) => {
            lemma_u32_run_reads(b, hs, r.cmap@);
            assert(hb + spec_content_prelude(img.content) =~= b.take(hs + 1024));
            let sizes = h.mipmap_locator->Internal_sizes;
            let offsets = h.mipmap_locator->Internal_offsets;
            assert(crate::parser::spec_first_zero(sizes@, 1, count) == count) by {
                crate::parser::lemma_first_zero_stable(sizes@, 1, count, count);
            }
            assert(r.images@.len() == count);
            lemma_tiling_props(b, offsets@, sizes@, count, hs + 1024, 0);
            assert forall|i: int|
                0 <= i < count implies (#[trigger] lvls[i]).len() == sizes@[i] && lvls[i]
                == b.subrange(offsets@[i] as int, offsets@[i] + sizes@[i]) by {
                let off = offsets@[i] as int;
                let n = crate::parser::spec_level_pixels(h, i);
                assert(crate::parser::spec_raw3_level(b, h, off, i, r.images@[i]));
                assert(lvls[i] == le_u32_run(r.images@[i].pixels@));
                assert(sizes@[i] == crate::parser::spec_raw3_need(h)(i));
                lemma_u32_run_reads(b, off, r.images@[i].pixels@);
            }
            lemma_internal_levels_roundtrip(b, h, offsets, sizes, lvls, hs + 1024);
            assert(spec_encode_content(h, img.content, hb) == Ok::<
                (Seq<u8>, Seq<Seq<u8>>),
                EncodeError,
            >((b, Seq::empty())));
        },
        BlpContent::Dxt1(d) => {
            lemma_rt_dxtn(b, exts, h, d, lvls, crate::direct::DxtnFormat::Dxt1);
            assert(hb + spec_content_prelude(img.content) =~= b.take(hs));
            assert(spec_encode_content(h, img.content, hb) == Ok::<
                (Seq<u8>, Seq<Seq<u8>>),
                EncodeError,
            >((b, Seq::empty())));
        },
        BlpContent::Dxt3(d) => {
            lemma_rt_dxtn(b, exts, h, d, lvls, crate::direct::DxtnFormat::Dxt3);
            assert(hb + spec_content_prelude(img.content) =~= b.take(hs));
            assert(spec_encode_content(h, img.content, hb) == Ok::<
                (Seq<u8>, Seq<Seq<u8>>),
                EncodeError,
            >((b, Seq::empty())));
        },
        BlpContent::Dxt5(d) => {
            lemma_rt_dxtn(b, exts, h, d, lvls, crate::direct::DxtnFormat::Dxt5);
            assert(hb + spec_content_prelude(img.content) =~= b.take(hs));
            assert(spec_encode_content(h, img.content, hb) == Ok::<
                (Seq<u8>, Seq<Seq<u8>>),
                EncodeError,
            >((b, Seq::empty())));
        },
    }
}

/// The block-compressed case of the round trip: the levels are placed
/// from the end of the fixed header, the zero padding re-creating the
/// unused color map region.
proof fn lemma_rt_dxtn(
    b: Seq<u8>,
    exts: Seq<Seq<u8>>,
    h: BlpHeader,
    d: crate::direct::BlpDxtn,
    lvls: Seq<Seq<u8>>,
    fmt: crate::direct::DxtnFormat,
)
    requires
        spec_parsed_content(
            b,
            exts,
            h,
            spec_header_size(h.version),
            match fmt {
                crate::direct::DxtnFormat::Dxt1 => BlpContent::Dxt1(d),
                crate::direct::DxtnFormat::Dxt3 => BlpContent::Dxt3(d),
                crate::direct::DxtnFormat::Dxt5 => BlpContent::Dxt5(d),
            },
        ),
        rt_content_wf(b, exts, h),
        h.content == BlpContentTag::Direct,
        lvls == spec_content_levels(
            match fmt {
                crate::direct::DxtnFormat::Dxt1 => BlpContent::Dxt1(d),
                crate::direct::DxtnFormat::Dxt3 => BlpContent::Dxt3(d),
                crate::direct::DxtnFormat::Dxt5 => BlpContent::Dxt5(d),
            },
        ),
    ensures
        spec_place_levels(
            spec_sort_pairs(
                spec_active_pairs(
                    h.mipmap_locator->Internal_offsets@,
                    h.mipmap_locator->Internal_sizes@,
                    spec_take_count(h),
                ),
            ),
            lvls,
            b.take(spec_header_size(h.version)),
            0,
        ) == Ok::<Seq<u8>, EncodeError>(b),
        h.mipmap_locator is Internal,
{
    let hs = spec_header_size(h.version);
    let count = spec_level_count(h);
    assert(h.flags is Blp2);
    let alpha_type = h.flags->Blp2_alpha_type;
    assert(h.flags->Blp2_compression == crate::header::Compression::Dxtc);
    assert(match fmt {
        crate::direct::DxtnFormat::Dxt1 => alpha_type == 0u8,
        crate::direct::DxtnFormat::Dxt3 => alpha_type == 1u8,
        crate::direct::DxtnFormat::Dxt5 => alpha_type == 7u8,
    });
    let offsets = h.mipmap_locator->Internal_offsets;
    let sizes = h.mipmap_locator->Internal_sizes;
    lemma_tiling_props(b, offsets@, sizes@, count, hs, 0);
    assert forall|i: int|
        0 <= i < count implies (#[trigger] lvls[i]).len() == sizes@[i] && lvls[i] == b.subrange(
        offsets@[i] as int,
        offsets@[i] + sizes@[i],
    ) by {
        let off = offsets@[i] as int;
        match fmt {
            crate::direct::DxtnFormat::Dxt1 => {
                assert(crate::parser::spec_dxtn_level(b, h, fmt, off, i, d.images@[i]));
                assert(lvls[i] == d.images@[i].content@);
            },
            crate::direct::DxtnFormat::Dxt3 => {
                assert(crate::parser::spec_dxtn_level(b, h, fmt, off, i, d.images@[i]));
                assert(lvls[i] == d.images@[i].content@);
            },
            crate::direct::DxtnFormat::Dxt5 => {
                assert(crate::parser::spec_dxtn_level(b, h, fmt, off, i, d.images@[i]));
                assert(lvls[i] == d.images@[i].content@);
            },
        }
        assert(sizes@[i] == crate::parser::spec_dxtn_need(h, fmt)(i));
    }
    lemma_internal_levels_roundtrip(b, h, offsets, sizes, lvls, hs);
}

} // verus!
