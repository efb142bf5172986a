//! FAT32 BIOS parameter block.

use crate::bytes::{le16, le32, read_u16_le, read_u32_le};
use crate::error::Error;
use crate::filesystem::ntfs::boot::{is_bad_magic, is_corrupt};
use crate::strings::{debug_byte_list, debug_list, hex_byte, push_char, push_hex_byte};
use vstd::prelude::*;

verus! {

#[derive(Debug, Clone, PartialEq, Eq, Structural)]
pub struct Fat32Bpb {
    pub bytes_per_sector: u16,
    pub sectors_per_cluster: u8,
    pub reserved_sectors: u16,
    pub num_fats: u8,
    pub total_sectors: u32,
    pub fat_size_sectors: u32,
    pub root_cluster: u32,
    pub fs_info_sector: u16,
    pub backup_boot_sector: u16,
}

/// `FAT32   ` at bytes `0x52..0x5A`.
pub open spec fn has_fat32_id(b: Seq<u8>) -> bool {
    b.subrange(0x52, 0x5A) == seq![0x46u8, 0x41u8, 0x54u8, 0x33u8, 0x32u8, 0x20u8, 0x20u8, 0x20u8]
}

/// The BPB fields of `b`.
pub open spec fn bpb_fields(b: Seq<u8>) -> Fat32Bpb {
    Fat32Bpb {
        bytes_per_sector: le16(b, 0x0B) as u16,
        sectors_per_cluster: b[0x0D],
        reserved_sectors: le16(b, 0x0E) as u16,
        num_fats: b[0x10],
        total_sectors: le32(b, 0x20) as u32,
        fat_size_sectors: le32(b, 0x24) as u32,
        root_cluster: le32(b, 0x2C) as u32,
        fs_info_sector: le16(b, 0x30) as u16,
        backup_boot_sector: le16(b, 0x32) as u16,
    }
}

/// Non-zero power of two.
pub open spec fn pow2_u16(v: u16) -> bool {
    v != 0 && v & ((v - 1) as u16) == 0
}

/// Non-zero power of two.
pub open spec fn pow2_u8(v: u8) -> bool {
    v != 0 && v & ((v - 1) as u8) == 0
}

impl Fat32Bpb {
    /// Parse the FAT32 boot sector in `buf`, read from sector `at_lba`.
    pub fn parse(buf: &[u8], at_lba: u64) -> (r: Result<Self, Error>)
        requires
            at_lba * 512 + 0x200 <= u64::MAX,
        ensures
            buf@.len() < 512 ==> r == Err::<Self, Error>(
                Error::UnexpectedEof { offset: (at_lba * 512) as u64, need: 512, have: buf@.len() as usize },
            ),
            buf@.len() >= 512 && !(buf@[0x1FE] == 0x55 && buf@[0x1FF] == 0xAA) ==> (r matches Err(e)
                && is_bad_magic(e, at_lba * 512 + 0x1FE, "55 AA"@, hex_byte(buf@[0x1FE]) + seq![' '] + hex_byte(buf@[0x1FF]))),
            buf@.len() >= 512 && buf@[0x1FE] == 0x55 && buf@[0x1FF] == 0xAA && !has_fat32_id(buf@) ==> (r matches Err(e)
                && is_bad_magic(e, at_lba * 512 + 0x52, "FAT32   "@, debug_list(buf@.subrange(0x52, 0x5A)))),
            buf@.len() >= 512 && buf@[0x1FE] == 0x55 && buf@[0x1FF] == 0xAA && has_fat32_id(buf@) ==> ({
                let f = bpb_fields(buf@);
                if !pow2_u16(f.bytes_per_sector) {
                    r matches Err(e) && is_corrupt(e, "fat32_bpb"@, at_lba * 512, "bad bytes_per_sector"@)
                } else if !pow2_u8(f.sectors_per_cluster) {
                    r matches Err(e) && is_corrupt(e, "fat32_bpb"@, at_lba * 512, "sectors_per_cluster not power of two"@)
                } else if f.num_fats == 0 || f.fat_size_sectors == 0 || f.root_cluster < 2 {
                    r matches Err(e) && is_corrupt(e, "fat32_bpb"@, at_lba * 512, "invalid FAT layout fields"@)
                } else {
                    r == Ok::<Self, Error>(f)
                }
            }),
    {
        if buf.len() < 512 {
            return Err(Error::UnexpectedEof { offset: at_lba * 512, need: 512, have: buf.len() });
        }
        if buf[0x1FE] != 0x55 || buf[0x1FF] != 0xAA {
            let mut got: String = String::new();
            push_hex_byte(&mut got, buf[0x1FE]);
            push_char(&mut got, ' ');
            push_hex_byte(&mut got, buf[0x1FF]);
            assert(got@ =~= hex_byte(buf@[0x1FE]) + seq![' '] + hex_byte(buf@[0x1FF]));
            return Err(Error::BadMagic { offset: at_lba * 512 + 0x1FE, expected: "55 AA", got });
        }
        if !(buf[0x52] == 0x46 && buf[0x53] == 0x41 && buf[0x54] == 0x54 && buf[0x55] == 0x33 && buf[0x56]
            == 0x32 && buf[0x57] == 0x20 && buf[0x58] == 0x20 && buf[0x59] == 0x20) {
            proof {
                if has_fat32_id(buf@) {
                    assert(buf@.subrange(0x52, 0x5A)[0] == buf@[0x52]);
                    assert(buf@.subrange(0x52, 0x5A)[1] == buf@[0x53]);
                    assert(buf@.subrange(0x52, 0x5A)[2] == buf@[0x54]);
                    assert(buf@.subrange(0x52, 0x5A)[3] == buf@[0x55]);
                    assert(buf@.subrange(0x52, 0x5A)[4] == buf@[0x56]);
                    assert(buf@.subrange(0x52, 0x5A)[5] == buf@[0x57]);
                    assert(buf@.subrange(0x52, 0x5A)[6] == buf@[0x58]);
                    assert(buf@.subrange(0x52, 0x5A)[7] == buf@[0x59]);
                }
            }
            return Err(
                Error::BadMagic {
                    offset: at_lba * 512 + 0x52,
                    expected: "FAT32   ",
                    got: debug_byte_list(&buf[0x52..0x5A]),
                },
            );
        }
        assert(has_fat32_id(buf@)) by {
            assert(buf@.subrange(0x52, 0x5A) =~= seq![0x46u8, 0x41u8, 0x54u8, 0x33u8, 0x32u8, 0x20u8, 0x20u8, 0x20u8]);
        }
        let bps: u16 = read_u16_le(buf, 0x0B).unwrap();
        let spc: u8 = buf[0x0D];
        if bps == 0 || (bps & (bps - 1)) != 0 {
            return Err(Error::corrupt("fat32_bpb", at_lba * 512, String::from_str("bad bytes_per_sector")));
        }
        if spc == 0 || (spc & (spc - 1)) != 0 {
            return Err(
                Error::corrupt("fat32_bpb", at_lba * 512, String::from_str("sectors_per_cluster not power of two")),
            );
        }
        let reserved: u16 = read_u16_le(buf, 0x0E).unwrap();
        let num_fats: u8 = buf[0x10];
        let total_sectors: u32 = read_u32_le(buf, 0x20).unwrap();
        let fat_size: u32 = read_u32_le(buf, 0x24).unwrap();
        let root_cluster: u32 = read_u32_le(buf, 0x2C).unwrap();
        let fs_info: u16 = read_u16_le(buf, 0x30).unwrap();
        let backup: u16 = read_u16_le(buf, 0x32).unwrap();
        if num_fats == 0 || fat_size == 0 || root_cluster < 2 {
            return Err(Error::corrupt("fat32_bpb", at_lba * 512, String::from_str("invalid FAT layout fields")));
        }
        Ok(
            Fat32Bpb {
                bytes_per_sector: bps,
                sectors_per_cluster: spc,
                reserved_sectors: reserved,
                num_fats,
                total_sectors,
                fat_size_sectors: fat_size,
                root_cluster,
                fs_info_sector: fs_info,
                backup_boot_sector: backup,
            },
        )
    }
}

} // verus!
