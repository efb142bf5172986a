//! MBR partition table: four 16-byte entries at `0x1BE` and the `55 AA`
//! signature. Extended entries are reported like any other entry.

use crate::bytes::{le32, read_u32_le};
use crate::error::Error;
use crate::filesystem::ntfs::boot::is_bad_magic;
use crate::strings::{hex_byte, push_char, push_hex_byte};
use crate::types::{PartitionInfo, PartitionScheme};
use vstd::prelude::*;

verus! {

pub const SIG_OFFSET: usize = 0x1FE;

pub const PART_TABLE_OFFSET: usize = 0x1BE;

pub const ENTRY_SIZE: usize = 16;

/// Type byte of primary entry `i`.
pub open spec fn entry_type(s: Seq<u8>, i: int) -> u8 {
    s[0x1BE + 16 * i + 4]
}

/// The `55 AA` signature is in place.
pub open spec fn has_mbr_signature(s: Seq<u8>) -> bool {
    s[0x1FE] == 0x55u8 && s[0x1FF] == 0xAAu8
}

/// Protective MBR: signature present and the first non-empty entry is of
/// type `0xEE`.
pub open spec fn spec_is_protective(s: Seq<u8>) -> bool {
    s.len() >= 512 && has_mbr_signature(s) && exists|i: int|
        0 <= i < 4 && entry_type(s, i) == 0xEEu8 && forall|j: int| 0 <= j < i ==> #[trigger] entry_type(s, j) == 0u8
}

/// Whether `sector0` is a protective MBR of a GPT disk.
pub fn is_protective_mbr(sector0: &[u8]) -> (r: bool)
    ensures
        r == spec_is_protective(sector0@),
{
    if sector0.len() < 512 {
        return false;
    }
    if sector0[SIG_OFFSET] != 0x55 || sector0[SIG_OFFSET + 1] != 0xAA {
        return false;
    }
    let mut i: usize = 0;
    while i < 4
        invariant
            i <= 4,
            sector0@.len() >= 512,
            has_mbr_signature(sector0@),
            forall|j: int| 0 <= j < i ==> #[trigger] entry_type(sector0@, j) == 0u8,
        decreases 4 - i,
    {
        let t: u8 = sector0[PART_TABLE_OFFSET + i * ENTRY_SIZE + 4];
        if t == 0xEE {
            assert(entry_type(sector0@, i as int) == 0xEEu8);
            return true;
        }
        if t != 0 {
            assert forall|k: int| 0 <= k < 4 && entry_type(sector0@, k) == 0xEEu8 implies !(forall|j: int|
                0 <= j < k ==> #[trigger] entry_type(sector0@, j) == 0u8) by {
                if k > i {
                    assert(entry_type(sector0@, i as int) != 0u8);
                }
            }
            return false;
        }
        i += 1;
    }
    false
}

/// Extended-partition type bytes.
pub fn is_extended(ty: u8) -> (r: bool)
    ensures
        r == (ty == 0x05 || ty == 0x0F || ty == 0x85),
{
    ty == 0x05 || ty == 0x0F || ty == 0x85
}

/// Display name of an MBR type byte.
pub open spec fn spec_type_name(ty: u8) -> Seq<char> {
    if ty == 0x00 {
        "Empty"@
    } else if ty == 0x01 {
        "FAT12"@
    } else if ty == 0x04 || ty == 0x06 || ty == 0x0E {
        "FAT16"@
    } else if ty == 0x05 || ty == 0x0F || ty == 0x85 {
        "Extended"@
    } else if ty == 0x07 {
        "NTFS / exFAT / IFS"@
    } else if ty == 0x0B || ty == 0x0C {
        "FAT32"@
    } else if ty == 0x82 {
        "Linux swap"@
    } else if ty == 0x83 {
        "Linux"@
    } else if ty == 0x8E {
        "Linux LVM"@
    } else if ty == 0xA5 {
        "FreeBSD"@
    } else if ty == 0xA6 {
        "OpenBSD"@
    } else if ty == 0xA8 {
        "Darwin UFS"@
    } else if ty == 0xAB {
        "Darwin boot"@
    } else if ty == 0xAF {
        "HFS+"@
    } else if ty == 0xEE {
        "GPT protective"@
    } else if ty == 0xEF {
        "EFI System"@
    } else if ty == 0xFD {
        "Linux RAID"@
    } else {
        "Unknown"@
    }
}

/// Display name of an MBR type byte.
pub fn mbr_type_name(ty: u8) -> (r: &'static str)
    ensures
        r@ == spec_type_name(ty),
{
    match ty {
        0x00 => "Empty",
        0x01 => "FAT12",
        0x04 | 0x06 | 0x0E => "FAT16",
        0x05 | 0x0F | 0x85 => "Extended",
        0x07 => "NTFS / exFAT / IFS",
        0x0B | 0x0C => "FAT32",
        0x82 => "Linux swap",
        0x83 => "Linux",
        0x8E => "Linux LVM",
        0xA5 => "FreeBSD",
        0xA6 => "OpenBSD",
        0xA8 => "Darwin UFS",
        0xAB => "Darwin boot",
        0xAF => "HFS+",
        0xEE => "GPT protective",
        0xEF => "EFI System",
        0xFD => "Linux RAID",
        _ => "Unknown",
    }
}

/// Start sector of primary entry `i`.
pub open spec fn entry_start(s: Seq<u8>, i: int) -> u64 {
    le32(s, 0x1BE + 16 * i + 8) as u64
}

/// Sector count of primary entry `i`.
pub open spec fn entry_count(s: Seq<u8>, i: int) -> u64 {
    le32(s, 0x1BE + 16 * i + 12) as u64
}

/// Entry `i` describes a partition: a type, a start and a length.
pub open spec fn entry_used(s: Seq<u8>, i: int) -> bool {
    entry_type(s, i) != 0 && entry_start(s, i) != 0 && entry_count(s, i) != 0
}

/// Indices of the used entries among the first `n`.
pub open spec fn used_entries(s: Seq<u8>, n: int) -> Seq<int>
    decreases n,
{
    if n <= 0 {
        Seq::empty()
    } else if entry_used(s, n - 1) {
        used_entries(s, n - 1).push(n - 1)
    } else {
        used_entries(s, n - 1)
    }
}

/// `p` is the partition reported for entry `i` on a disk of `total` sectors.
pub open spec fn mbr_partition(p: PartitionInfo, s: Seq<u8>, i: int, sector_size: u32, total: u64) -> bool {
    let start = entry_start(s, i);
    let count = entry_count(s, i);
    let room: u64 = if total >= start {
        (total - start) as u64
    } else {
        0
    };
    &&& p.index == i
    &&& p.scheme == PartitionScheme::Mbr
    &&& p.type_id@ == seq!['0', 'x'] + hex_byte(entry_type(s, i))
    &&& p.name matches Some(n) && n@ == spec_type_name(entry_type(s, i))
    &&& p.filesystem is None
    &&& p.start_lba == start
    &&& p.length_sectors == (if count < room {
        count
    } else {
        room
    })
    &&& p.sector_size == sector_size
    &&& !p.reconstructed
}

/// Parse the primary table of a (non-protective) MBR. Entries past the end
/// of the device are clamped to it.
pub fn parse(sector0: &[u8], sector_size: u32, device_bytes: u64) -> (r: Result<Vec<PartitionInfo>, Error>)
    requires
        sector0@.len() >= 512 && has_mbr_signature(sector0@) ==> sector_size != 0,
    ensures
        sector0@.len() < 512 ==> r == Err::<Vec<PartitionInfo>, Error>(
            Error::UnexpectedEof { offset: 0, need: 512, have: sector0@.len() as usize },
        ),
        sector0@.len() >= 512 && !has_mbr_signature(sector0@) ==> (r matches Err(e) && is_bad_magic(
            e,
            0x1FE,
            "55 AA"@,
            hex_byte(sector0@[0x1FE]) + seq![' '] + hex_byte(sector0@[0x1FF]),
        )),
        sector0@.len() >= 512 && has_mbr_signature(sector0@) ==> (r matches Ok(parts) && parts@.len()
            == used_entries(sector0@, 4).len() && forall|k: int|
            0 <= k < parts@.len() ==> mbr_partition(
                #[trigger] parts@[k],
                sector0@,
                used_entries(sector0@, 4)[k],
                sector_size,
                device_bytes / (sector_size as u64),
            )),
{
    if sector0.len() < 512 {
        return Err(Error::UnexpectedEof { offset: 0, need: 512, have: sector0.len() });
    }
    if sector0[SIG_OFFSET] != 0x55 || sector0[SIG_OFFSET + 1] != 0xAA {
        let mut got: String = String::new();
        push_hex_byte(&mut got, sector0[SIG_OFFSET]);
        push_char(&mut got, ' ');
        push_hex_byte(&mut got, sector0[SIG_OFFSET + 1]);
        assert(got@ =~= hex_byte(sector0@[0x1FE]) + seq![' '] + hex_byte(sector0@[0x1FF]));
        return Err(Error::BadMagic { offset: SIG_OFFSET as u64, expected: "55 AA", got });
    }
    let total_sectors: u64 = device_bytes / (sector_size as u64);
    let mut parts: Vec<PartitionInfo> = Vec::new();
    let mut i: u32 = 0;
    while i < 4
        invariant
            i <= 4,
            sector0@.len() >= 512,
            sector_size != 0,
            total_sectors == device_bytes / (sector_size as u64),
            parts@.len() == used_entries(sector0@, i as int).len(),
            forall|k: int|
                0 <= k < parts@.len() ==> mbr_partition(
                    #[trigger] parts@[k],
                    sector0@,
                    used_entries(sector0@, i as int)[k],
                    sector_size,
                    total_sectors,
                ),
        decreases 4 - i,
    {
        let off: usize = PART_TABLE_OFFSET + (i as usize) * ENTRY_SIZE;
        let ty: u8 = sector0[off + 4];
        let start: u64 = read_u32_le(sector0, off + 8).unwrap() as u64;
        let count: u64 = read_u32_le(sector0, off + 12).unwrap() as u64;
        if ty == 0 || start == 0 || count == 0 {
            i += 1;
            continue;
        }
        let room: u64 = total_sectors.saturating_sub(start);
        let length_sectors: u64 = if count < room {
            count
        } else {
            room
        };
        proof {
            reveal_strlit("0x");
        }
        let mut type_id: String = String::from_str("0x");
        push_hex_byte(&mut type_id, ty);
        assert(type_id@ =~= seq!['0', 'x'] + hex_byte(ty));
        let name: String = mbr_type_name(ty).to_owned();
        let p: PartitionInfo = PartitionInfo {
            index: i,
            scheme: PartitionScheme::Mbr,
            type_id,
            name: Some(name),
            filesystem: None,
            start_lba: start,
            length_sectors,
            sector_size,
            reconstructed: false,
        };
        assert(mbr_partition(p, sector0@, i as int, sector_size, total_sectors));
        parts.push(p);
        i += 1;
    }
    Ok(parts)
}

} // verus!
