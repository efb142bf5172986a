//! NTFS boot sector: the BIOS parameter block plus the NTFS extension
//! (cluster geometry, MFT location, record sizes, serial).

use crate::bytes::{le16, le64, read_u16_le, read_u64_le};
use crate::error::Error;
use crate::strings::{debug_byte_list, debug_list, decimal, hex_byte, push_char, push_decimal, push_hex_byte};
use vstd::prelude::*;

verus! {

#[derive(Debug, Clone, PartialEq, Eq, Structural)]
pub struct NtfsBoot {
    /// Logical sector size (a power of two up to 8192).
    pub bytes_per_sector: u16,
    /// Sectors per cluster.
    pub sectors_per_cluster: u8,
    /// Total sectors on the volume.
    pub total_sectors: u64,
    /// Cluster number of the $MFT.
    pub mft_lcn: u64,
    /// Cluster number of the $MFTMirr.
    pub mftmirr_lcn: u64,
    /// MFT record size: `n > 0` clusters, or `2^-n` bytes when negative.
    pub mft_record_size_encoded: i8,
    /// Index buffer size, same encoding.
    pub index_buffer_size_encoded: i8,
    /// Volume serial number.
    pub volume_serial: u64,
}

/// `NTFS    ` at bytes `3..11`.
pub open spec fn has_ntfs_oem(b: Seq<u8>) -> bool {
    b.subrange(3, 11) == seq![0x4Eu8, 0x54u8, 0x46u8, 0x53u8, 0x20u8, 0x20u8, 0x20u8, 0x20u8]
}

/// A plausible sector size: a power of two in `1..=8192`.
pub open spec fn plausible_sector_size(bps: u16) -> bool {
    bps != 0 && bps <= 8192 && bps & ((bps - 1) as u16) == 0
}

/// `e` is a `Corrupt` error with these parts.
pub open spec fn is_corrupt(e: Error, what: Seq<char>, offset: int, detail: Seq<char>) -> bool {
    e matches Error::Corrupt { what: w, offset: o, detail: d } && w@ == what && o == offset && d@
        == detail
}

/// `e` is a `BadMagic` error with these parts.
pub open spec fn is_bad_magic(e: Error, offset: int, expected: Seq<char>, got: Seq<char>) -> bool {
    e matches Error::BadMagic { offset: o, expected: x, got: g } && o == offset && x@ == expected
        && g@ == got
}

/// The boot sector that `parse` yields for `b` once every check passed.
pub open spec fn boot_fields(b: Seq<u8>) -> NtfsBoot {
    NtfsBoot {
        bytes_per_sector: le16(b, 0x0B) as u16,
        sectors_per_cluster: b[0x0D],
        total_sectors: le64(b, 0x28) as u64,
        mft_lcn: le64(b, 0x30) as u64,
        mftmirr_lcn: le64(b, 0x38) as u64,
        mft_record_size_encoded: b[0x40] as i8,
        index_buffer_size_encoded: b[0x44] as i8,
        volume_serial: le64(b, 0x48) as u64,
    }
}

/// Size in bytes of an encoded record or index-buffer size.
pub open spec fn spec_decode_size(encoded: i8, cluster_bytes: u32) -> u32 {
    if encoded >= 0 {
        (encoded * cluster_bytes) as u32
    } else if -encoded >= 32 {
        0
    } else {
        (1u32 << ((-encoded) as u32)) as u32
    }
}

impl NtfsBoot {
    /// Parse the boot sector in `buf`, read from sector `at_lba` (error
    /// offsets assume 512-byte sectors).
    pub fn parse(buf: &[u8], at_lba: u64) -> (r: Result<Self, Error>)
        requires
            at_lba * 512 + 0x200 <= u64::MAX,
        ensures
            buf@.len() < 512 ==> r == Err::<Self, Error>(
                Error::UnexpectedEof { offset: (at_lba * 512) as u64, need: 512, have: buf@.len() as usize },
            ),
            buf@.len() >= 512 && !has_ntfs_oem(buf@) ==> (r matches Err(e) && is_bad_magic(
                e,
                at_lba * 512 + 3,
                "NTFS    "@,
                debug_list(buf@.subrange(3, 11)),
            )),
            buf@.len() >= 512 && has_ntfs_oem(buf@) && !plausible_sector_size(le16(buf@, 0x0B) as u16)
                ==> (r matches Err(e) && is_corrupt(
                e,
                "ntfs_boot"@,
                at_lba * 512 + 0x0B,
                "implausible bytes_per_sector "@ + decimal(le16(buf@, 0x0B) as nat),
            )),
            buf@.len() >= 512 && has_ntfs_oem(buf@) && plausible_sector_size(le16(buf@, 0x0B) as u16)
                && buf@[0x0D] == 0 ==> (r matches Err(e) && is_corrupt(
                e,
                "ntfs_boot"@,
                at_lba * 512 + 0x0D,
                "sectors_per_cluster = 0"@,
            )),
            buf@.len() >= 512 && has_ntfs_oem(buf@) && plausible_sector_size(le16(buf@, 0x0B) as u16)
                && buf@[0x0D] != 0 && !(buf@[0x1FE] == 0x55 && buf@[0x1FF] == 0xAA) ==> (r matches Err(e)
                && is_bad_magic(
                e,
                at_lba * 512 + 0x1FE,
                "55 AA"@,
                hex_byte(buf@[0x1FE]) + seq![' '] + hex_byte(buf@[0x1FF]),
            )),
            buf@.len() >= 512 && has_ntfs_oem(buf@) && plausible_sector_size(le16(buf@, 0x0B) as u16)
                && buf@[0x0D] != 0 && buf@[0x1FE] == 0x55 && buf@[0x1FF] == 0xAA ==> r == Ok::<
                Self,
                Error,
            >(boot_fields(buf@)),
    {
        if buf.len() < 512 {
            return Err(Error::UnexpectedEof { offset: at_lba * 512, need: 512, have: buf.len() });
        }
        if !(buf[3] == 0x4E && buf[4] == 0x54 && buf[5] == 0x46 && buf[6] == 0x53 && buf[7] == 0x20
            && buf[8] == 0x20 && buf[9] == 0x20 && buf[10] == 0x20) {
            proof {
                if has_ntfs_oem(buf@) {
                    assert(buf@.subrange(3, 11)[0] == buf@[3]);
                    assert(buf@.subrange(3, 11)[1] == buf@[4]);
                    assert(buf@.subrange(3, 11)[2] == buf@[5]);
                    assert(buf@.subrange(3, 11)[3] == buf@[6]);
                    assert(buf@.subrange(3, 11)[4] == buf@[7]);
                    assert(buf@.subrange(3, 11)[5] == buf@[8]);
                    assert(buf@.subrange(3, 11)[6] == buf@[9]);
                    assert(buf@.subrange(3, 11)[7] == buf@[10]);
                }
            }
            return Err(
                Error::BadMagic {
                    offset: at_lba * 512 + 3,
                    expected: "NTFS    ",
                    got: debug_byte_list(&buf[3..11]),
                },
            );
        }
        assert(has_ntfs_oem(buf@)) by {
            assert(buf@.subrange(3, 11) =~= seq![0x4Eu8, 0x54u8, 0x46u8, 0x53u8, 0x20u8, 0x20u8, 0x20u8, 0x20u8]);
        }
        let bps: u16 = read_u16_le(buf, 0x0B).unwrap();
        if bps == 0 || bps > 8192 || (bps & (bps - 1)) != 0 {
            let mut detail: String = String::from_str("implausible bytes_per_sector ");
            push_decimal(&mut detail, bps as u64);
            return Err(Error::corrupt("ntfs_boot", at_lba * 512 + 0x0B, detail));
        }
        let spc: u8 = buf[0x0D];
        if spc == 0 {
            return Err(
                Error::corrupt("ntfs_boot", at_lba * 512 + 0x0D, String::from_str("sectors_per_cluster = 0")),
            );
        }
        let total_sectors: u64 = read_u64_le(buf, 0x28).unwrap();
        let mft_lcn: u64 = read_u64_le(buf, 0x30).unwrap();
        let mftmirr_lcn: u64 = read_u64_le(buf, 0x38).unwrap();
        let mft_record_size_encoded: i8 = buf[0x40] as i8;
        let index_buffer_size_encoded: i8 = buf[0x44] as i8;
        let volume_serial: u64 = read_u64_le(buf, 0x48).unwrap();
        if buf[0x1FE] != 0x55 || buf[0x1FF] != 0xAA {
            let mut got: String = String::new();
            push_hex_byte(&mut got, buf[0x1FE]);
            push_char(&mut got, ' ');
            push_hex_byte(&mut got, buf[0x1FF]);
            assert(got@ =~= hex_byte(buf@[0x1FE]) + seq![' '] + hex_byte(buf@[0x1FF]));
            return Err(Error::BadMagic { offset: at_lba * 512 + 0x1FE, expected: "55 AA", got });
        }
        Ok(
            NtfsBoot {
                bytes_per_sector: bps,
                sectors_per_cluster: spc,
                total_sectors,
                mft_lcn,
                mftmirr_lcn,
                mft_record_size_encoded,
                index_buffer_size_encoded,
                volume_serial,
            },
        )
    }

    /// Bytes per cluster.
    pub fn cluster_bytes(&self) -> (r: u32)
        ensures
            r == self.bytes_per_sector * self.sectors_per_cluster,
            r <= 0xFFFF * 0xFF,
    {
        assert(self.bytes_per_sector * self.sectors_per_cluster <= 0xFFFF * 0xFF) by (nonlinear_arith);
        (self.bytes_per_sector as u32) * (self.sectors_per_cluster as u32)
    }

    /// Decoded MFT record size in bytes.
    pub fn mft_record_bytes(&self) -> (r: u32)
        ensures
            r == spec_decode_size(
                self.mft_record_size_encoded,
                (self.bytes_per_sector * self.sectors_per_cluster) as u32,
            ),
    {
        let c: u32 = self.cluster_bytes();
        decode_size(self.mft_record_size_encoded, c)
    }

    /// Decoded index buffer size in bytes.
    pub fn index_buffer_bytes(&self) -> (r: u32)
        ensures
            r == spec_decode_size(
                self.index_buffer_size_encoded,
                (self.bytes_per_sector * self.sectors_per_cluster) as u32,
            ),
    {
        let c: u32 = self.cluster_bytes();
        decode_size(self.index_buffer_size_encoded, c)
    }
}

/// Decode a record / index-buffer size: a positive value counts clusters, a
/// negative value `-n` means `2^n` bytes (0 when `n >= 32`).
pub fn decode_size(encoded: i8, cluster_bytes: u32) -> (r: u32)
    requires
        cluster_bytes <= 0xFFFF * 0xFF,
    ensures
        r == spec_decode_size(encoded, cluster_bytes),
{
    if encoded >= 0 {
        assert(encoded * cluster_bytes <= 127 * (0xFFFF * 0xFF)) by (nonlinear_arith)
            requires
                0 <= encoded <= 127,
                cluster_bytes <= 0xFFFF * 0xFF,
        ;
        (encoded as u8 as u32) * cluster_bytes
    } else {
        let exp: u32 = (-(encoded as i32)) as u32;
        if exp >= 32 {
            return 0;
        }
        1u32 << exp
    }
}

} // verus!
