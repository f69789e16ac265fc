//! Format versions and their four-byte magic tags.

use vstd::prelude::*;

verus! {

/// Version of the container format. It determines the overall structure of
/// a file and is encoded as four ASCII bytes at the start of the file.
#[derive(Debug, Clone, Copy, PartialEq, Eq, Structural, Hash)]
pub enum BlpVersion {
    Blp0,
    Blp1,
    Blp2,
}

/// The magic bytes that mark a file as holding the given version:
/// `BLP0`, `BLP1` or `BLP2` in ASCII.
pub open spec fn spec_magic(v: BlpVersion) -> Seq<u8> {
    match v {
        BlpVersion::Blp0 => seq![66u8, 76u8, 80u8, 48u8],
        BlpVersion::Blp1 => seq![66u8, 76u8, 80u8, 49u8],
        BlpVersion::Blp2 => seq![66u8, 76u8, 80u8, 50u8],
    }
}

/// Which version a four-byte magic denotes, if any.
pub open spec fn spec_from_magic(magic: Seq<u8>) -> Option<BlpVersion> {
    if magic.len() == 4 && magic[0] == 66u8 && magic[1] == 76u8 && magic[2] == 80u8 {
        if magic[3] == 48u8 {
            Some(BlpVersion::Blp0)
        } else if magic[3] == 49u8 {
            Some(BlpVersion::Blp1)
        } else if magic[3] == 50u8 {
            Some(BlpVersion::Blp2)
        } else {
            None
        }
    } else {
        None
    }
}

impl BlpVersion {
    /// Convert to the four ASCII bytes that are put at the beginning of a
    /// file to mark that the file has this version of the format.
    pub fn to_magic(&self) -> (r: [u8; 4])
        ensures
            r@ == spec_magic(*self),
    {
        let r: [u8; 4] = match self {
            BlpVersion::Blp0 => [66u8, 76u8, 80u8, 48u8],
            BlpVersion::Blp1 => [66u8, 76u8, 80u8, 49u8],
            BlpVersion::Blp2 => [66u8, 76u8, 80u8, 50u8],
        };
        proof {
            assert(r@ =~= spec_magic(*self));
        }
        r
    }

    /// Convert four bytes from the start of a file to a known version tag.
    pub fn from_magic(magic: [u8; 4]) -> (r: Option<BlpVersion>)
        ensures
            r == spec_from_magic(magic@),
    {
        if magic[0] == 66u8 && magic[1] == 76u8 && magic[2] == 80u8 {
            if magic[3] == 48u8 {
                Some(BlpVersion::Blp0)
            } else if magic[3] == 49u8 {
                Some(BlpVersion::Blp1)
            } else if magic[3] == 50u8 {
                Some(BlpVersion::Blp2)
            } else {
                None
            }
        } else {
            None
        }
    }
}

/// Every version is recovered from its own magic bytes.
pub proof fn lemma_magic_roundtrip(v: BlpVersion)
    ensures
        spec_from_magic(spec_magic(v)) == Some(v),
{
}

/// Holder for a version name that the library does not know.
#[derive(Debug, Clone, PartialEq, Eq, Hash)]
pub struct UnknownBlpVersion(pub String);

} // verus!
