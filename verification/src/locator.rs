//! Where the mipmap levels of a file are stored.

use vstd::prelude::*;

verus! {

/// Describes where to search for mipmaps.
#[derive(Debug, Clone, PartialEq, Eq, Hash)]
pub enum MipmapLocator {
    /// Mipmaps are located inside the root file at the given offsets with
    /// the given byte sizes. Entries beyond the mipmap count or with size
    /// zero are inactive.
    Internal { offsets: [u32; 16], sizes: [u32; 16] },
    /// Mipmaps are located in sibling files, one file per level. Only the
    /// oldest version of the format stores them this way.
    External,
}

impl Default for MipmapLocator {
    /// An internal locator with no active entries.
    fn default() -> (r: Self)
        ensures
            r matches MipmapLocator::Internal { offsets, sizes }
                && offsets@ =~= Seq::new(16, |i: int| 0u32)
                && sizes@ =~= Seq::new(16, |i: int| 0u32),
    {
        MipmapLocator::Internal { offsets: [0u32; 16], sizes: [0u32; 16] }
    }
}

} // verus!
