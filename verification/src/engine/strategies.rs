//! Scan strategies: what each one does, how fast it is, and which one to use.
//!
//! | Strategy      | Partition table   | FS metadata   | Carve unalloc | Carve whole disk |
//! |---------------|:-----------------:|:-------------:|:-------------:|:----------------:|
//! | Quick         | yes               | yes           | no            | no               |
//! | Deep          | yes               | yes           | yes           | no               |
//! | Raw           | no                | no            | no            | yes              |
//! | Partition     | yes (reconstruct) | yes           | no            | no               |
//! | Formatted     | no                | no            | no            | yes              |
//! | CorruptedFs   | yes (lenient)     | yes (lenient) | yes           | no               |

use crate::types::RecoveryStrategy;
use vstd::prelude::*;

verus! {

/// The user-facing description of each strategy.
pub open spec fn description_text(s: RecoveryStrategy) -> Seq<char> {
    match s {
        RecoveryStrategy::Quick => "Scans filesystem metadata (MFT, FAT directory) to find recently \
             deleted files. Fastest option — takes seconds to minutes."@,
        RecoveryStrategy::Deep => "Quick scan + signature-based carving of unallocated space. Finds \
             files that no longer appear in the filesystem. Medium speed."@,
        RecoveryStrategy::Raw => "Pure signature carving across the entire device, ignoring all \
             filesystem structures. Use when the filesystem is completely \
             unreadable. Slowest but most thorough."@,
        RecoveryStrategy::Partition => "Attempts to reconstruct missing or damaged partition tables, then \
             performs a Quick scan on each discovered partition."@,
        RecoveryStrategy::Formatted => "Treats the drive as if it was recently formatted. Ignores all \
             existing metadata and carves the entire surface. Similar to Raw \
             but may apply format-specific heuristics."@,
        RecoveryStrategy::CorruptedFs => "Best-effort scan of a corrupted filesystem. Reads whatever \
             metadata is still intact, then carves unallocated space to \
             recover files the damaged metadata missed."@,
    }
}

/// User-facing description of each strategy.
pub fn description(s: RecoveryStrategy) -> (d: &'static str)
    ensures
        d@ == description_text(s),
{
    match s {
        RecoveryStrategy::Quick => "Scans filesystem metadata (MFT, FAT directory) to find recently \
             deleted files. Fastest option — takes seconds to minutes.",
        RecoveryStrategy::Deep => "Quick scan + signature-based carving of unallocated space. Finds \
             files that no longer appear in the filesystem. Medium speed.",
        RecoveryStrategy::Raw => "Pure signature carving across the entire device, ignoring all \
             filesystem structures. Use when the filesystem is completely \
             unreadable. Slowest but most thorough.",
        RecoveryStrategy::Partition => "Attempts to reconstruct missing or damaged partition tables, then \
             performs a Quick scan on each discovered partition.",
        RecoveryStrategy::Formatted => "Treats the drive as if it was recently formatted. Ignores all \
             existing metadata and carves the entire surface. Similar to Raw \
             but may apply format-specific heuristics.",
        RecoveryStrategy::CorruptedFs => "Best-effort scan of a corrupted filesystem. Reads whatever \
             metadata is still intact, then carves unallocated space to \
             recover files the damaged metadata missed.",
    }
}

/// The progress label of the first phase a strategy runs.
pub open spec fn first_phase_text(s: RecoveryStrategy) -> Seq<char> {
    match s {
        RecoveryStrategy::Quick | RecoveryStrategy::Deep => "Detecting partitions"@,
        RecoveryStrategy::Raw => "Raw carving entire device"@,
        RecoveryStrategy::Partition => "Reconstructing partitions"@,
        RecoveryStrategy::Formatted => "Scanning formatted drive"@,
        RecoveryStrategy::CorruptedFs => "Best-effort corrupted FS scan"@,
    }
}

/// Progress label of the first phase of a scan with this strategy.
pub fn first_phase(s: RecoveryStrategy) -> (d: &'static str)
    ensures
        d@ == first_phase_text(s),
{
    match s {
        RecoveryStrategy::Quick | RecoveryStrategy::Deep => "Detecting partitions",
        RecoveryStrategy::Raw => "Raw carving entire device",
        RecoveryStrategy::Partition => "Reconstructing partitions",
        RecoveryStrategy::Formatted => "Scanning formatted drive",
        RecoveryStrategy::CorruptedFs => "Best-effort corrupted FS scan",
    }
}

/// Relative speed of each strategy (1 = fastest, 5 = slowest).
pub open spec fn spec_speed_rating(s: RecoveryStrategy) -> u8 {
    match s {
        RecoveryStrategy::Quick => 1,
        RecoveryStrategy::Partition => 2,
        RecoveryStrategy::Deep => 3,
        RecoveryStrategy::CorruptedFs => 4,
        RecoveryStrategy::Formatted | RecoveryStrategy::Raw => 5,
    }
}

/// Estimated relative speed (1 = fastest, 5 = slowest).
pub fn speed_rating(s: RecoveryStrategy) -> (r: u8)
    ensures
        r == spec_speed_rating(s),
        1 <= r <= 5,
{
    match s {
        RecoveryStrategy::Quick => 1,
        RecoveryStrategy::Partition => 2,
        RecoveryStrategy::Deep => 3,
        RecoveryStrategy::CorruptedFs => 4,
        RecoveryStrategy::Formatted | RecoveryStrategy::Raw => 5,
    }
}

/// The strategy suited to a scenario: a formatted drive is carved whole, a
/// missing table is reconstructed, a damaged filesystem gets the lenient
/// scan, and anything else the deep scan.
pub open spec fn spec_recommend(has_valid_partition_table: bool, has_valid_filesystem: bool, was_formatted: bool) -> RecoveryStrategy {
    if was_formatted {
        RecoveryStrategy::Formatted
    } else if !has_valid_partition_table {
        RecoveryStrategy::Partition
    } else if !has_valid_filesystem {
        RecoveryStrategy::CorruptedFs
    } else {
        RecoveryStrategy::Deep
    }
}

/// Recommended strategy based on the user's scenario.
pub fn recommend(has_valid_partition_table: bool, has_valid_filesystem: bool, was_formatted: bool) -> (r: RecoveryStrategy)
    ensures
        r == spec_recommend(has_valid_partition_table, has_valid_filesystem, was_formatted),
{
    if was_formatted {
        return RecoveryStrategy::Formatted;
    }
    if !has_valid_partition_table {
        return RecoveryStrategy::Partition;
    }
    if !has_valid_filesystem {
        return RecoveryStrategy::CorruptedFs;
    }
    RecoveryStrategy::Deep
}

/// The phases a strategy runs, in the order of the table above.
#[derive(Debug, Clone, Copy, PartialEq, Eq, Structural)]
pub struct ScanPlan {
    /// Read (or reconstruct) the partition table.
    pub read_partition_table: bool,
    /// Walk filesystem metadata on each partition.
    pub scan_filesystems: bool,
    /// Tolerate damaged metadata during the filesystem walk.
    pub lenient: bool,
    /// Carve the space between partitions.
    pub carve_unallocated: bool,
    /// Carve the whole device, ignoring all structures.
    pub carve_whole_device: bool,
}

/// The table above, row by row.
pub open spec fn spec_plan(s: RecoveryStrategy) -> ScanPlan {
    match s {
        RecoveryStrategy::Quick => ScanPlan {
            read_partition_table: true,
            scan_filesystems: true,
            lenient: false,
            carve_unallocated: false,
            carve_whole_device: false,
        },
        RecoveryStrategy::Deep => ScanPlan {
            read_partition_table: true,
            scan_filesystems: true,
            lenient: false,
            carve_unallocated: true,
            carve_whole_device: false,
        },
        RecoveryStrategy::Raw | RecoveryStrategy::Formatted => ScanPlan {
            read_partition_table: false,
            scan_filesystems: false,
            lenient: false,
            carve_unallocated: false,
            carve_whole_device: true,
        },
        RecoveryStrategy::Partition => ScanPlan {
            read_partition_table: true,
            scan_filesystems: true,
            lenient: true,
            carve_unallocated: false,
            carve_whole_device: false,
        },
        RecoveryStrategy::CorruptedFs => ScanPlan {
            read_partition_table: true,
            scan_filesystems: true,
            lenient: true,
            carve_unallocated: true,
            carve_whole_device: false,
        },
    }
}

/// The phases that a scan with strategy `s` runs.
pub fn plan(s: RecoveryStrategy) -> (p: ScanPlan)
    ensures
        p == spec_plan(s),
        p.scan_filesystems == p.read_partition_table,
        !(p.carve_unallocated && p.carve_whole_device),
        p.carve_whole_device ==> !p.read_partition_table,
{
    match s {
        RecoveryStrategy::Quick => ScanPlan {
            read_partition_table: true,
            scan_filesystems: true,
            lenient: false,
            carve_unallocated: false,
            carve_whole_device: false,
        },
        RecoveryStrategy::Deep => ScanPlan {
            read_partition_table: true,
            scan_filesystems: true,
            lenient: false,
            carve_unallocated: true,
            carve_whole_device: false,
        },
        RecoveryStrategy::Raw | RecoveryStrategy::Formatted => ScanPlan {
            read_partition_table: false,
            scan_filesystems: false,
            lenient: false,
            carve_unallocated: false,
            carve_whole_device: true,
        },
        RecoveryStrategy::Partition => ScanPlan {
            read_partition_table: true,
            scan_filesystems: true,
            lenient: true,
            carve_unallocated: false,
            carve_whole_device: false,
        },
        RecoveryStrategy::CorruptedFs => ScanPlan {
            read_partition_table: true,
            scan_filesystems: true,
            lenient: true,
            carve_unallocated: true,
            carve_whole_device: false,
        },
    }
}

} // verus!
