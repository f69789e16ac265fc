//! The naming convention for external mipmap files: the root file's stem
//! with a two-digit level number as the extension.

use vstd::prelude::*;

verus! {

/// The length of the directory part of a path, the final separator
/// included; zero when the path holds no separator.
pub open spec fn spec_dir_len(p: Seq<u8>) -> int
    decreases p.len(),
{
    if p.len() == 0 {
        0
    } else if p.last() == 47u8 {
        p.len() as int
    } else {
        spec_dir_len(p.drop_last())
    }
}

/// Scan for the rightmost dot at a positive position, from `i` down; the
/// sequence length when there is none.
pub open spec fn spec_stem_scan(name: Seq<u8>, i: int) -> int
    decreases i,
{
    if i <= 0 {
        name.len() as int
    } else if name[i] == 46u8 {
        i
    } else {
        spec_stem_scan(name, i - 1)
    }
}

/// The length of a file name's stem: everything before the rightmost dot,
/// unless that dot starts the name or there is none.
pub open spec fn spec_stem_len(name: Seq<u8>) -> int {
    spec_stem_scan(name, name.len() - 1)
}

/// A name for which no stem exists: empty, or one of the two relative
/// directory names.
pub open spec fn spec_no_stem(name: Seq<u8>) -> bool {
    name.len() == 0 || name =~= seq![46u8] || name =~= seq![46u8, 46u8]
}

/// The sibling file name of the given mipmap level: the directory part,
/// the root file's stem, and the level as a dot, the letter `b` and two
/// decimal digits.
pub open spec fn spec_mipmap_path(p: Seq<u8>, i: int) -> Seq<u8> {
    let dl = spec_dir_len(p);
    let name = p.skip(dl);
    p.take(dl) + name.take(spec_stem_len(name)) + seq![
        46u8,
        98u8,
        (48 + i / 10) as u8,
        (48 + i % 10) as u8,
    ]
}

/// The directory part ends exactly where the scan from the back stopped:
/// at the separator, or at the front when there is none.
proof fn lemma_dir_len_eq(p: Seq<u8>, dl: int)
    requires
        0 <= dl <= p.len(),
        forall|j: int| dl <= j < p.len() ==> p[j] != 47u8,
        dl > 0 ==> p[dl - 1] == 47u8,
    ensures
        spec_dir_len(p) == dl,
    decreases p.len(),
{
    if p.len() == 0 {
    } else if p.last() == 47u8 {
        assert(dl == p.len());
    } else {
        assert(dl < p.len());
        lemma_dir_len_eq(p.drop_last(), dl);
    }
}

/// Build the path of an external mipmap file from the root file's path,
/// given as its bytes: the directory part is kept, the name's stem gets
/// the two-digit level number as its extension. Nothing is returned when
/// the path ends in a separator or names only a directory.
pub fn make_mipmap_path(path: &[u8], i: usize) -> (r: Option<Vec<u8>>)
    requires
        i < 100,
    ensures
        ({
            let dl = spec_dir_len(path@);
            let name = path@.skip(dl);
            match r {
                Some(v) => !spec_no_stem(name) && v@ == spec_mipmap_path(path@, i as int),
                None => spec_no_stem(name),
            }
        }),
{
    let plen = path.len();
    let ghost p = path@;
    let mut dl: usize = plen;
    while dl > 0 && path[dl - 1] != 47
        invariant
            0 <= dl <= plen,
            plen == p.len(),
            p == path@,
            forall|j: int| dl <= j < plen ==> p[j] != 47u8,
        decreases dl,
    {
        dl = dl - 1;
    }
    proof {
        lemma_dir_len_eq(p, dl as int);
    }
    let ghost name = p.skip(dl as int);
    let nlen = plen - dl;
    if nlen == 0 {
        return None;
    }
    if nlen == 1 && path[dl] == 46 {
        proof {
            assert(name[0] == p[dl as int]);
            assert(name =~= seq![46u8]);
        }
        return None;
    }
    if nlen == 2 && path[dl] == 46 && path[dl + 1] == 46 {
        proof {
            assert(name[0] == p[dl as int] && name[1] == p[dl + 1]);
            assert(name =~= seq![46u8, 46u8]);
        }
        return None;
    }
    proof {
        if name =~= seq![46u8] {
            assert(p[dl as int] == name[0]);
        }
        if name =~= seq![46u8, 46u8] {
            assert(p[dl as int] == name[0] && p[dl + 1] == name[1]);
        }
        assert(!spec_no_stem(name));
    }
    let mut k: usize = nlen - 1;
    while k > 0 && path[dl + k] != 46
        invariant
            0 <= k <= nlen - 1,
            1 <= nlen == name.len(),
            name == p.skip(dl as int),
            p == path@,
            plen == p.len(),
            nlen == plen - dl,
            spec_stem_scan(name, nlen - 1) == spec_stem_scan(name, k as int),
        decreases k,
    {
        proof {
            assert(name[k as int] == p[dl + k]);
        }
        k = k - 1;
    }
    let stem_len: usize = if k > 0 {
        proof {
            assert(name[k as int] == p[dl + k]);
            assert(spec_stem_scan(name, k as int) == k);
        }
        k
    } else {
        proof {
            assert(spec_stem_scan(name, 0) == name.len());
        }
        nlen
    };
    proof {
        assert(stem_len == spec_stem_len(name));
    }
    let mut out: Vec<u8> = Vec::new();
    let mut j: usize = 0;
    while j < dl + stem_len
        invariant
            0 <= j <= dl + stem_len,
            dl + stem_len <= plen,
            p == path@,
            plen == p.len(),
            out@ == p.take(j as int),
        decreases dl + stem_len - j,
    {
        out.push(path[j]);
        proof {
            assert(out@ =~= p.take(j + 1));
        }
        j = j + 1;
    }
    out.push(46);
    out.push(98);
    out.push(48 + (i / 10) as u8);
    out.push(48 + (i % 10) as u8);
    proof {
        assert(p.take(dl + stem_len) =~= p.take(dl as int) + name.take(stem_len as int));
        assert(out@ =~= spec_mipmap_path(p, i as int));
    }
    Some(out)
}

} // verus!
