//! JPEG content: per-level streams that share one stored header block.

use vstd::prelude::*;
use crate::header::spec_header_size;
use crate::locator::MipmapLocator;
use crate::version::BlpVersion;

verus! {

/// Limit on the size of the shared JPEG header block. Some readers of the
/// format crash on larger values, so the shared prefix is never taken
/// beyond this many bytes.
pub const MAX_JPEG_HEADER: usize = 624;

/// JPEG-compressed content: a header block shared by every level and the
/// per-level residual streams.
#[derive(Debug, Clone, PartialEq, Eq, Hash)]
pub struct BlpJpeg {
    /// JPEG header that is prepended to each mipmap level data. Its last
    /// two bytes are padding that the stored size field does not cover.
    pub header: Vec<u8>,
    /// The image itself and all mipmap levels. If there are no mipmaps,
    /// the length of the vector is one.
    pub images: Vec<Vec<u8>>,
}

/// The sum of the byte lengths of the first `i` levels.
pub open spec fn images_len_prefix(images: Seq<Seq<u8>>, i: int) -> int
    decreases i,
{
    if i <= 0 {
        0
    } else {
        images_len_prefix(images, i - 1) + images[i - 1].len()
    }
}

/// The offset table that places every level directly after the previous
/// one, the first at `start`.
pub open spec fn spec_predicted_locator(start: int, images: Seq<Seq<u8>>, loc: MipmapLocator) -> bool {
    let n = if images.len() < 16 {
        images.len() as int
    } else {
        16
    };
    loc matches MipmapLocator::Internal { offsets, sizes }
        && (forall|i: int| 0 <= i < n ==> offsets@[i] == start + images_len_prefix(images, i))
        && (forall|i: int| 0 <= i < n ==> sizes@[i] == images[i].len())
        && (forall|i: int| n <= i < 16 ==> offsets@[i] == 0u32 && sizes@[i] == 0u32)
}

/// Prefix sums of byte lengths are never negative.
pub proof fn lemma_images_len_prefix_nonneg(images: Seq<Seq<u8>>, i: int)
    ensures
        0 <= images_len_prefix(images, i),
    decreases i,
{
    if i > 0 {
        lemma_images_len_prefix_nonneg(images, i - 1);
    }
}

/// Each prefix sum is bounded by the whole sum.
pub proof fn lemma_images_len_prefix_bound(images: Seq<Seq<u8>>, i: int, n: int)
    requires
        0 <= i <= n,
    ensures
        images_len_prefix(images, i) <= images_len_prefix(images, n),
        0 <= images_len_prefix(images, i),
    decreases n - i,
{
    lemma_images_len_prefix_nonneg(images, i);
    if i < n {
        lemma_images_len_prefix_bound(images, i + 1, n);
    }
}

/// Compute the internal locator for levels laid out one after another,
/// starting at the given offset. The levels are given by their byte
/// lengths; the ghost argument carries the level contents they measure.
pub(crate) fn predict_locator(start: usize, lens: &Vec<usize>, Ghost(imgs): Ghost<
    Seq<Seq<u8>>,
>) -> (r: MipmapLocator)
    requires
        lens@.len() == imgs.len(),
        forall|j: int| 0 <= j < imgs.len() ==> lens@[j] == imgs[j].len(),
        start + images_len_prefix(imgs, imgs.len() as int) <= u32::MAX,
    ensures
        spec_predicted_locator(start as int, imgs, r),
{
    let mut offsets: [u32; 16] = [0; 16];
    let mut sizes: [u32; 16] = [0; 16];
    let mut cur_offset: usize = start;
    let n: usize = if lens.len() < 16 {
        lens.len()
    } else {
        16
    };
    let mut i: usize = 0;
    while i < n
        invariant
            0 <= i <= n,
            n == (if imgs.len() < 16 {
                imgs.len() as int
            } else {
                16
            }),
            lens@.len() == imgs.len(),
            forall|j: int| 0 <= j < imgs.len() ==> lens@[j] == imgs[j].len(),
            n <= imgs.len(),
            start + images_len_prefix(imgs, imgs.len() as int) <= u32::MAX,
            cur_offset == start + images_len_prefix(imgs, i as int),
            forall|j: int| 0 <= j < i ==> offsets@[j] == start + images_len_prefix(imgs, j),
            forall|j: int| 0 <= j < i ==> sizes@[j] == imgs[j].len(),
            forall|j: int| i <= j < 16 ==> offsets@[j] == 0u32 && sizes@[j] == 0u32,
        decreases n - i,
    {
        proof {
            lemma_images_len_prefix_bound(imgs, i as int, imgs.len() as int);
            lemma_images_len_prefix_bound(imgs, i + 1, imgs.len() as int);
            assert(images_len_prefix(imgs, i + 1) == images_len_prefix(imgs, i as int)
                + imgs[i as int].len());
        }
        offsets[i] = cur_offset as u32;
        sizes[i] = lens[i] as u32;
        cur_offset = cur_offset + lens[i];
        i = i + 1;
    }
    MipmapLocator::Internal { offsets, sizes }
}

/// The byte at position `i` exists in every stream and agrees with the
/// first stream there.
pub open spec fn common_at(ss: Seq<Seq<u8>>, i: int) -> bool {
    0 <= i < ss[0].len() && forall|j: int|
        0 <= j < ss.len() ==> i < ss[j].len() && ss[j][i] == ss[0][i]
}

/// The length of the longest byte prefix shared by all streams, counted
/// from position `i` on and never beyond the header size limit.
pub open spec fn common_prefix_len_from(ss: Seq<Seq<u8>>, i: nat) -> nat
    decreases 624 - i,
    when i <= 624
{
    if i >= 624 || ss.len() == 0 || !common_at(ss, i as int) {
        i
    } else {
        common_prefix_len_from(ss, i + 1)
    }
}

/// The length of the longest byte prefix shared by all streams, bounded
/// by the header size limit.
pub open spec fn common_prefix_len(ss: Seq<Seq<u8>>) -> nat {
    common_prefix_len_from(ss, 0)
}

/// Every position below the common prefix length is shared by all
/// streams, and the length never exceeds the limit.
pub proof fn lemma_common_prefix_from_props(ss: Seq<Seq<u8>>, i: nat)
    requires
        i <= 624,
    ensures
        i <= common_prefix_len_from(ss, i) <= 624,
        forall|k: int| i <= k < common_prefix_len_from(ss, i) ==> common_at(ss, k),
    decreases 624 - i,
{
    if !(i >= 624 || ss.len() == 0 || !common_at(ss, i as int)) {
        lemma_common_prefix_from_props(ss, i + 1);
    }
}

/// While every position below `i` is shared, the search from zero and the
/// search from `i` agree.
pub proof fn lemma_common_prefix_stable(ss: Seq<Seq<u8>>, i: nat)
    requires
        i <= 624,
        ss.len() > 0,
        forall|k: int| 0 <= k < i ==> common_at(ss, k),
    ensures
        common_prefix_len(ss) == common_prefix_len_from(ss, i),
    decreases i,
{
    if i > 0 {
        lemma_common_prefix_stable(ss, (i - 1) as nat);
        assert(common_prefix_len_from(ss, (i - 1) as nat) == common_prefix_len_from(ss, i));
    }
}

/// Whether all streams share the byte at the given position; false when
/// the position runs past any stream.
fn all_match_at(images: &Vec<Vec<u8>>, i: usize) -> (r: bool)
    requires
        images@.len() > 0,
    ensures
        r == common_at(images@.map_values(|v: Vec<u8>| v@), i as int),
{
    let ghost ss = images@.map_values(|v: Vec<u8>| v@);
    proof {
        assert(ss[0] == images@[0]@);
    }
    if i >= images[0].len() {
        return false;
    }
    let cur = images[0][i];
    let mut j: usize = 0;
    while j < images.len()
        invariant
            0 <= j <= ss.len(),
            ss == images@.map_values(|v: Vec<u8>| v@),
            ss.len() == images@.len(),
            i < ss[0].len(),
            cur == ss[0][i as int],
            forall|jj: int| 0 <= jj < j ==> i < ss[jj].len() && ss[jj][i as int] == ss[0][i as int],
        decreases images@.len() - j,
    {
        proof {
            assert(ss[j as int] == images@[j as int]@);
        }
        if images[j].len() <= i {
            return false;
        }
        if images[j][i] != cur {
            return false;
        }
        j = j + 1;
    }
    true
}

/// Find the longest byte prefix, up to the header size limit, that all
/// given streams share; remove it from the front of every stream and
/// return it. With no streams, or an empty first stream, nothing is
/// shared and nothing changes.
pub fn fetch_common_header(images: &mut Vec<Vec<u8>>) -> (header: Vec<u8>)
    ensures
        ({
            let ss = old(images)@.map_values(|v: Vec<u8>| v@);
            let cpl = common_prefix_len(ss) as int;
            final(images)@.len() == old(images)@.len() && header@ == (if ss.len() > 0 {
                ss[0].take(cpl)
            } else {
                Seq::<u8>::empty()
            }) && forall|j: int| 0 <= j < ss.len() ==> final(images)@[j]@ == ss[j].skip(cpl)
        }),
{
    let ghost ss = images@.map_values(|v: Vec<u8>| v@);
    let mut header: Vec<u8> = Vec::new();
    if images.len() == 0 {
        return header;
    }
    if images[0].len() == 0 {
        proof {
            assert(!common_at(ss, 0));
            assert(common_prefix_len(ss) == 0);
            assert(forall|j: int| 0 <= j < ss.len() ==> images@[j]@ =~= ss[j].skip(0));
        }
        return header;
    }
    let mut i: usize = 0;
    let mut go: bool = all_match_at(images, 0);
    while go && i < MAX_JPEG_HEADER
        invariant
            0 <= i <= 624,
            ss == images@.map_values(|v: Vec<u8>| v@),
            ss.len() > 0,
            i < 624 ==> go == common_at(ss, i as int),
            forall|k: int| 0 <= k < i ==> common_at(ss, k),
        decreases 624 - i,
    {
        i = i + 1;
        if i < MAX_JPEG_HEADER {
            go = all_match_at(images, i);
        }
    }
    proof {
        lemma_common_prefix_stable(ss, i as nat);
        assert(common_prefix_len_from(ss, i as nat) == i);
        assert(common_prefix_len(ss) == i);
    }
    let common_bytes = i;
    if common_bytes > 0 {
        proof {
            lemma_common_prefix_from_props(ss, 0);
            assert(common_at(ss, common_bytes - 1));
            assert(ss[0] == images@[0]@);
        }
        let mut k: usize = 0;
        while k < common_bytes
            invariant
                0 <= k <= common_bytes,
                common_bytes <= images@[0]@.len(),
                images@.len() > 0,
                ss == images@.map_values(|v: Vec<u8>| v@),
                header@ == ss[0].take(k as int),
            decreases common_bytes - k,
        {
            proof {
                lemma_common_prefix_from_props(ss, 0);
            }
            header.push(images[0][k]);
            proof {
                assert(header@ =~= ss[0].take(k + 1));
            }
            k = k + 1;
        }
        let mut trimmed: Vec<Vec<u8>> = Vec::new();
        let mut j: usize = 0;
        while j < images.len()
            invariant
                0 <= j <= images@.len(),
                ss == images@.map_values(|v: Vec<u8>| v@),
                common_bytes == common_prefix_len(ss),
                0 < common_bytes <= 624,
                trimmed@.len() == j,
                forall|jj: int| 0 <= jj < j ==> trimmed@[jj]@ == ss[jj].skip(common_bytes as int),
            decreases images@.len() - j,
        {
            proof {
                lemma_common_prefix_from_props(ss, 0);
                assert(common_at(ss, common_bytes - 1));
                assert(common_bytes <= ss[j as int].len());
            }
            let src = &images[j];
            let mut rest: Vec<u8> = Vec::new();
            let mut k: usize = common_bytes;
            while k < src.len()
                invariant
                    common_bytes <= k <= src@.len(),
                    src@ == ss[j as int],
                    j < ss.len(),
                    rest@ == ss[j as int].subrange(common_bytes as int, k as int),
                decreases src@.len() - k,
            {
                rest.push(src[k]);
                proof {
                    assert(rest@ =~= ss[j as int].subrange(common_bytes as int, k + 1));
                }
                k = k + 1;
            }
            proof {
                assert(rest@ =~= ss[j as int].skip(common_bytes as int));
            }
            trimmed.push(rest);
            j = j + 1;
        }
        *images = trimmed;
    } else {
        proof {
            assert(forall|j: int| 0 <= j < ss.len() ==> images@[j]@ =~= ss[j].skip(0));
        }
    }
    header
}

/// Build JPEG content from the full per-level streams: the longest shared
/// prefix, bounded by the header size limit, is stored once as the header
/// with two padding bytes behind it, and each level keeps its residual.
pub fn jpeg_content_from_streams(streams: Vec<Vec<u8>>) -> (r: BlpJpeg)
    ensures
        ({
            let ss = streams@.map_values(|v: Vec<u8>| v@);
            let cpl = common_prefix_len(ss) as int;
            r.header@ == (if ss.len() > 0 {
                ss[0].take(cpl)
            } else {
                Seq::<u8>::empty()
            }) + seq![0u8, 0u8] && r.images@.len() == ss.len() && forall|j: int|
                0 <= j < ss.len() ==> r.images@[j]@ == ss[j].skip(cpl)
        }),
{
    let mut images = streams;
    let mut header = fetch_common_header(&mut images);
    header.push(0);
    header.push(0);
    BlpJpeg { header, images }
}

/// The law of header factoring: taking the stored header without its two
/// padding bytes and putting a level's residual stream behind it yields
/// that level's original stream again, and the stored header never
/// exceeds the limit plus the two padding bytes.
pub proof fn lemma_jpeg_reconstruct(ss: Seq<Seq<u8>>, i: int)
    requires
        0 <= i < ss.len(),
    ensures
        ({
            let cpl = common_prefix_len(ss) as int;
            let header = ss[0].take(cpl) + seq![0u8, 0u8];
            header.len() <= 626 && header.take(header.len() - 2) + ss[i].skip(cpl) == ss[i]
        }),
{
    let cpl = common_prefix_len(ss) as int;
    lemma_common_prefix_from_props(ss, 0);
    assert(cpl <= ss[0].len() && cpl <= ss[i].len()) by {
        if cpl > 0 {
            assert(common_at(ss, cpl - 1));
        }
    }
    let header = ss[0].take(cpl) + seq![0u8, 0u8];
    assert(header.take(header.len() - 2) =~= ss[0].take(cpl));
    assert forall|k: int| 0 <= k < cpl implies ss[i][k] == ss[0][k] by {
        assert(common_at(ss, k));
    }
    assert(ss[0].take(cpl) =~= ss[i].take(cpl));
    assert(ss[i].take(cpl) + ss[i].skip(cpl) =~= ss[i]);
}

impl BlpJpeg {
    /// Concatenate the JPEG header with a level body to recover the full
    /// per-level stream. The two padding bytes at the end of the stored
    /// header are left out.
    pub fn full_jpeg(&self, i: usize) -> (r: Option<Vec<u8>>)
        requires
            self.header@.len() >= 2,
        ensures
            match r {
                Some(v) => i < self.images@.len() && v@ == self.header@.take(
                    self.header@.len() - 2,
                ) + self.images@[i as int]@,
                None => i >= self.images@.len(),
            },
    {
        if i >= self.images.len() {
            None
        } else {
            let header_size = self.header.len() - 2;
            let mut buffer: Vec<u8> = Vec::new();
            let mut k: usize = 0;
            while k < header_size
                invariant
                    header_size == self.header@.len() - 2,
                    0 <= k <= header_size,
                    buffer@ == self.header@.take(k as int),
                decreases header_size - k,
            {
                buffer.push(self.header[k]);
                proof {
                    assert(buffer@ =~= self.header@.take(k + 1));
                }
                k = k + 1;
            }
            let body = &self.images[i];
            let mut k: usize = 0;
            while k < body.len()
                invariant
                    body == self.images@[i as int],
                    i < self.images@.len(),
                    0 <= k <= body@.len(),
                    buffer@ == self.header@.take(self.header@.len() - 2) + body@.take(k as int),
                decreases body@.len() - k,
            {
                buffer.push(body[k]);
                proof {
                    assert(buffer@ =~= self.header@.take(self.header@.len() - 2) + body@.take(
                        k + 1,
                    ));
                }
                k = k + 1;
            }
            proof {
                assert(body@.take(body@.len() as int) =~= body@);
            }
            Some(buffer)
        }
    }

    /// Predict the internal locator under which the levels would be
    /// written down, one directly after another, behind the fixed header,
    /// the size field and the stored JPEG header block.
    pub fn mipmap_locator(&self, version: BlpVersion) -> (r: MipmapLocator)
        requires
            spec_header_size(version) + self.header@.len() + 4 + images_len_prefix(
                self.images@.map_values(|v: Vec<u8>| v@),
                self.images@.len() as int,
            ) <= u32::MAX,
        ensures
            spec_predicted_locator(
                spec_header_size(version) + self.header@.len() + 4,
                self.images@.map_values(|v: Vec<u8>| v@),
                r,
            ),
    {
        let ghost imgs = self.images@.map_values(|v: Vec<u8>| v@);
        proof {
            lemma_images_len_prefix_nonneg(imgs, self.images@.len() as int);
        }
        let start = crate::header::BlpHeader::size(version) + self.header.len() + 4;
        let mut lens: Vec<usize> = Vec::new();
        let mut i: usize = 0;
        while i < self.images.len()
            invariant
                0 <= i <= self.images@.len(),
                imgs == self.images@.map_values(|v: Vec<u8>| v@),
                lens@.len() == i,
                forall|j: int| 0 <= j < i ==> lens@[j] == imgs[j].len(),
            decreases self.images@.len() - i,
        {
            lens.push(self.images[i].len());
            i = i + 1;
        }
        predict_locator(start, &lens, Ghost(imgs))
    }
}

} // verus!
