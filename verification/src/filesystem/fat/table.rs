//! FAT32 table entry classification.

use vstd::prelude::*;

verus! {

/// The entry ends a cluster chain.
pub fn is_end_of_chain(entry: u32) -> (r: bool)
    ensures
        r == (entry >= 0x0FFF_FFF8),
{
    entry >= 0x0FFF_FFF8
}

/// The entry marks a bad cluster.
pub fn is_bad_cluster(entry: u32) -> (r: bool)
    ensures
        r == (entry == 0x0FFF_FFF7),
{
    entry == 0x0FFF_FFF7
}

/// The entry marks a free cluster.
pub fn is_free(entry: u32) -> (r: bool)
    ensures
        r == (entry == 0),
{
    entry == 0
}

} // verus!
