//! exFAT boot region and directory entries (file, stream extension and
//! file-name entries).

use crate::bytes::{le16, le32, le64, read_u16_le, read_u32_le, read_u64_le};
use crate::error::Error;
use crate::filesystem::ntfs::boot::is_bad_magic;
use crate::strings::{char_from_u32, debug_byte_list, debug_list, is_scalar, push_char};
use vstd::prelude::*;

verus! {

#[derive(Debug, Clone, PartialEq, Eq, Structural)]
pub struct ExFatBoot {
    pub partition_offset_sectors: u64,
    pub volume_length_sectors: u64,
    pub fat_offset_sectors: u32,
    pub fat_length_sectors: u32,
    pub cluster_heap_offset_sectors: u32,
    pub cluster_count: u32,
    pub root_cluster: u32,
    pub bytes_per_sector_shift: u8,
    pub sectors_per_cluster_shift: u8,
    pub num_fats: u8,
}

/// `EXFAT   ` at bytes `3..11`.
pub open spec fn has_exfat_oem(b: Seq<u8>) -> bool {
    b.subrange(3, 11) == seq![0x45u8, 0x58u8, 0x46u8, 0x41u8, 0x54u8, 0x20u8, 0x20u8, 0x20u8]
}

/// The boot fields of `b`.
pub open spec fn exfat_fields(b: Seq<u8>) -> ExFatBoot {
    ExFatBoot {
        partition_offset_sectors: le64(b, 0x40) as u64,
        volume_length_sectors: le64(b, 0x48) as u64,
        fat_offset_sectors: le32(b, 0x50) as u32,
        fat_length_sectors: le32(b, 0x54) as u32,
        cluster_heap_offset_sectors: le32(b, 0x58) as u32,
        cluster_count: le32(b, 0x5C) as u32,
        root_cluster: le32(b, 0x60) as u32,
        bytes_per_sector_shift: b[0x6C],
        sectors_per_cluster_shift: b[0x6D],
        num_fats: b[0x6E],
    }
}

impl ExFatBoot {
    /// Parse the exFAT boot sector in `buf`, read from sector `at_lba`.
    pub fn parse(buf: &[u8], at_lba: u64) -> (r: Result<Self, Error>)
        requires
            at_lba * 512 + 0x200 <= u64::MAX,
        ensures
            buf@.len() < 512 ==> r == Err::<Self, Error>(
                Error::UnexpectedEof { offset: (at_lba * 512) as u64, need: 512, have: buf@.len() as usize },
            ),
            buf@.len() >= 512 && !has_exfat_oem(buf@) ==> (r matches Err(e) && is_bad_magic(
                e,
                at_lba * 512 + 3,
                "EXFAT   "@,
                debug_list(buf@.subrange(3, 11)),
            )),
            buf@.len() >= 512 && has_exfat_oem(buf@) ==> r == Ok::<Self, Error>(exfat_fields(buf@)),
    {
        if buf.len() < 512 {
            return Err(Error::UnexpectedEof { offset: at_lba * 512, need: 512, have: buf.len() });
        }
        if !(buf[3] == 0x45 && buf[4] == 0x58 && buf[5] == 0x46 && buf[6] == 0x41 && buf[7] == 0x54
            && buf[8] == 0x20 && buf[9] == 0x20 && buf[10] == 0x20) {
            proof {
                if has_exfat_oem(buf@) {
                    assert(buf@.subrange(3, 11)[0] == buf@[3]);
                    assert(buf@.subrange(3, 11)[1] == buf@[4]);
                    assert(buf@.subrange(3, 11)[2] == buf@[5]);
                    assert(buf@.subrange(3, 11)[3] == buf@[6]);
                    assert(buf@.subrange(3, 11)[4] == buf@[7]);
                    assert(buf@.subrange(3, 11)[5] == buf@[8]);
                    assert(buf@.subrange(3, 11)[6] == buf@[9]);
                    assert(buf@.subrange(3, 11)[7] == buf@[10]);
                }
            }
            return Err(
                Error::BadMagic {
                    offset: at_lba * 512 + 3,
                    expected: "EXFAT   ",
                    got: debug_byte_list(&buf[3..11]),
                },
            );
        }
        assert(has_exfat_oem(buf@)) by {
            assert(buf@.subrange(3, 11) =~= seq![0x45u8, 0x58u8, 0x46u8, 0x41u8, 0x54u8, 0x20u8, 0x20u8, 0x20u8]);
        }
        Ok(
            ExFatBoot {
                partition_offset_sectors: read_u64_le(buf, 0x40).unwrap(),
                volume_length_sectors: read_u64_le(buf, 0x48).unwrap(),
                fat_offset_sectors: read_u32_le(buf, 0x50).unwrap(),
                fat_length_sectors: read_u32_le(buf, 0x54).unwrap(),
                cluster_heap_offset_sectors: read_u32_le(buf, 0x58).unwrap(),
                cluster_count: read_u32_le(buf, 0x5C).unwrap(),
                root_cluster: read_u32_le(buf, 0x60).unwrap(),
                bytes_per_sector_shift: buf[0x6C],
                sectors_per_cluster_shift: buf[0x6D],
                num_fats: buf[0x6E],
            },
        )
    }

    /// Bytes per sector, `2^bytes_per_sector_shift`.
    pub fn bytes_per_sector(&self) -> (r: u32)
        requires
            self.bytes_per_sector_shift < 32,
        ensures
            r == 1u32 << self.bytes_per_sector_shift,
    {
        1u32 << self.bytes_per_sector_shift
    }

    /// Sectors per cluster, `2^sectors_per_cluster_shift`.
    pub fn sectors_per_cluster(&self) -> (r: u32)
        requires
            self.sectors_per_cluster_shift < 32,
        ensures
            r == 1u32 << self.sectors_per_cluster_shift,
    {
        1u32 << self.sectors_per_cluster_shift
    }
}

/// One exFAT directory entry.
#[derive(Debug, Clone)]
pub enum ExFatDirEntry {
    File { in_use: bool, attributes: u16 },
    StreamExtension { first_cluster: u32, valid_data_length: u64, data_length: u64, no_fat_chain: bool },
    FileName { chunk: String },
    Other(u8),
    EndOfDirectory,
}

/// Characters of a file-name entry from code unit `i` on: up to the first
/// zero unit, surrogate units skipped.
pub open spec fn name_chunk_from(e: Seq<u8>, i: int) -> Seq<char>
    decreases 15 - i,
{
    if i < 0 || i >= 15 {
        Seq::empty()
    } else {
        let c = le16(e, 2 + 2 * i) as u32;
        if c == 0 {
            Seq::empty()
        } else if is_scalar(c) {
            seq![c as char] + name_chunk_from(e, i + 1)
        } else {
            name_chunk_from(e, i + 1)
        }
    }
}

/// `r` is the entry that `parse_entry` yields for `e`.
pub open spec fn entry_matches(e: Seq<u8>, r: ExFatDirEntry) -> bool {
    if e[0] == 0 {
        r is EndOfDirectory
    } else {
        let in_use = e[0] & 0x80 != 0;
        let ty = e[0] & 0x7F;
        if ty == 0x05 {
            r == (ExFatDirEntry::File { in_use, attributes: le16(e, 4) as u16 })
        } else if ty == 0x40 {
            r == (ExFatDirEntry::StreamExtension {
                first_cluster: le32(e, 20) as u32,
                valid_data_length: le64(e, 8) as u64,
                data_length: le64(e, 24) as u64,
                no_fat_chain: e[1] & 0x02 != 0,
            })
        } else if ty == 0x41 {
            r matches ExFatDirEntry::FileName { chunk } && chunk@ == name_chunk_from(e, 0)
        } else {
            r == ExFatDirEntry::Other(ty)
        }
    }
}

/// Parse one 32-byte directory entry.
#[verifier::loop_isolation(false)]
pub fn parse_entry(e: &[u8; 32]) -> (r: ExFatDirEntry)
    ensures
        entry_matches(e@, r),
{
    let s: &[u8] = e.as_slice();
    if s[0] == 0x00 {
        return ExFatDirEntry::EndOfDirectory;
    }
    let in_use: bool = s[0] & 0x80 != 0;
    let ty: u8 = s[0] & 0x7F;
    match ty {
        0x05 => {
            let attributes: u16 = read_u16_le(s, 4).unwrap();
            ExFatDirEntry::File { in_use, attributes }
        },
        0x40 => {
            let flags: u8 = s[1];
            ExFatDirEntry::StreamExtension {
                first_cluster: read_u32_le(s, 20).unwrap(),
                valid_data_length: read_u64_le(s, 8).unwrap(),
                data_length: read_u64_le(s, 24).unwrap(),
                no_fat_chain: flags & 0x02 != 0,
            }
        },
        0x41 => {
            let mut chunk: String = String::new();
            let mut i: usize = 0;
            while i < 15
                invariant
                    i <= 15,
                    s@ == e@,
                    s@.len() == 32,
                    chunk@ + name_chunk_from(e@, i as int) == name_chunk_from(e@, 0),
                decreases 15 - i,
            {
                let c: u16 = read_u16_le(s, 2 + i * 2).unwrap();
                if c == 0 {
                    assert(chunk@ + Seq::<char>::empty() =~= chunk@);
                    break;
                }
                match char_from_u32(c as u32) {
                    Some(ch) => {
                        let ghost before: Seq<char> = chunk@;
                        push_char(&mut chunk, ch);
                        assert(before + name_chunk_from(e@, i as int) =~= chunk@ + name_chunk_from(e@, i + 1));
                    },
                    None => {},
                }
                i += 1;
            }
            proof {
                if i == 15 {
                    assert(chunk@ + Seq::<char>::empty() =~= chunk@);
                }
            }
            ExFatDirEntry::FileName { chunk }
        },
        other => ExFatDirEntry::Other(other),
    }
}

} // verus!
