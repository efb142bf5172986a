//! Read-only NTFS, FAT32 and exFAT parsers, and file-system detection.

pub mod exfat;
pub mod fat;
pub mod ntfs;

use crate::error::Error;
use crate::filesystem::exfat::has_exfat_oem;
use crate::filesystem::fat::bpb::has_fat32_id;
use crate::filesystem::ntfs::boot::has_ntfs_oem;
use crate::storage::{read_result, SectorReader};
use crate::types::PartitionInfo;
use vstd::prelude::*;

verus! {

/// Detected file-system identity.
#[derive(Debug, Clone, Copy, PartialEq, Eq, Structural)]
pub enum FsKind {
    Ntfs,
    Fat32,
    ExFat,
    Unknown,
}

impl FsKind {
    /// Short lower-case name.
    pub fn name(self) -> (r: &'static str)
        ensures
            r@ == (match self {
                FsKind::Ntfs => "ntfs"@,
                FsKind::Fat32 => "fat32"@,
                FsKind::ExFat => "exfat"@,
                FsKind::Unknown => "unknown"@,
            }),
    {
        match self {
            FsKind::Ntfs => "ntfs",
            FsKind::Fat32 => "fat32",
            FsKind::ExFat => "exfat",
            FsKind::Unknown => "unknown",
        }
    }
}

/// File system announced by a boot sector.
pub open spec fn spec_sniff(bs: Seq<u8>) -> FsKind {
    if bs.len() < 512 {
        FsKind::Unknown
    } else if has_ntfs_oem(bs) {
        FsKind::Ntfs
    } else if bs.subrange(3, 11) == seq![0x45u8, 0x58u8, 0x46u8, 0x41u8, 0x54u8, 0x20u8, 0x20u8, 0x20u8] {
        FsKind::ExFat
    } else if has_fat32_id(bs) {
        FsKind::Fat32
    } else {
        FsKind::Unknown
    }
}

fn bytes_eq_at(b: &[u8], off: usize, want: &[u8; 8]) -> (r: bool)
    requires
        off + 8 <= b@.len(),
    ensures
        r == (b@.subrange(off as int, off + 8) == want@),
{
    let mut i: usize = 0;
    while i < 8
        invariant
            i <= 8,
            off + 8 <= b@.len(),
            b@.len() == b.len(),
            want@.len() == 8,
            forall|j: int| 0 <= j < i ==> #[trigger] b@[off + j] == want@[j],
        decreases 8 - i,
    {
        if b[off + i] != want[i] {
            assert(b@.subrange(off as int, off + 8)[i as int] != want@[i as int]);
            return false;
        }
        i += 1;
    }
    assert forall|j: int| 0 <= j < 8 implies #[trigger] b@.subrange(off as int, off + 8)[j] == want@[j] by {
        assert(b@[off + j] == want@[j]);
    }
    assert(b@.subrange(off as int, off + 8) =~= want@);
    true
}

/// File system announced by a boot sector.
pub fn sniff(bs: &[u8]) -> (r: FsKind)
    ensures
        r == spec_sniff(bs@),
{
    if bs.len() < 512 {
        return FsKind::Unknown;
    }
    let ntfs: [u8; 8] = [0x4E, 0x54, 0x46, 0x53, 0x20, 0x20, 0x20, 0x20];
    let exfat: [u8; 8] = [0x45, 0x58, 0x46, 0x41, 0x54, 0x20, 0x20, 0x20];
    let fat32: [u8; 8] = [0x46, 0x41, 0x54, 0x33, 0x32, 0x20, 0x20, 0x20];
    assert(ntfs@ == seq![0x4Eu8, 0x54u8, 0x46u8, 0x53u8, 0x20u8, 0x20u8, 0x20u8, 0x20u8]);
    assert(exfat@ == seq![0x45u8, 0x58u8, 0x46u8, 0x41u8, 0x54u8, 0x20u8, 0x20u8, 0x20u8]);
    assert(fat32@ == seq![0x46u8, 0x41u8, 0x54u8, 0x33u8, 0x32u8, 0x20u8, 0x20u8, 0x20u8]);
    if bytes_eq_at(bs, 3, &ntfs) {
        return FsKind::Ntfs;
    }
    if bytes_eq_at(bs, 3, &exfat) {
        return FsKind::ExFat;
    }
    if bytes_eq_at(bs, 0x52, &fat32) {
        return FsKind::Fat32;
    }
    FsKind::Unknown
}

/// Sniff the file system of a partition from its boot sector.
pub fn detect<R: SectorReader>(reader: &R, partition: &PartitionInfo) -> (r: Result<FsKind, Error>)
    requires
        partition.start_lba * reader.spec_sector_size() <= u64::MAX,
    ensures
        r matches Ok(k) ==> k == spec_sniff(
            read_result(
                reader.spec_contents(),
                partition.start_lba * reader.spec_sector_size(),
                reader.spec_sector_size() as int,
            ),
        ),
        reader.spec_reliable() ==> r is Ok,
{
    let bs: Vec<u8> = match reader.read_lba(partition.start_lba) {
        Ok(b) => b,
        Err(e) => return Err(e),
    };
    Ok(sniff(bs.as_slice()))
}

} // verus!
