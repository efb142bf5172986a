//! GPT: header at LBA 1 (signature, CRC-protected), partition entry array
//! (CRC-protected), mixed-endian GUIDs and UTF-16 names.

use crate::bytes::{le16, le32, le64, read_u16_le, read_u32_le, read_u64_le};
use crate::checksum::{crc32, crc32_iso_hdlc};
use crate::error::Error;
use crate::filesystem::ntfs::attribute::utf16_units;
use crate::filesystem::ntfs::boot::{is_bad_magic, is_corrupt};
use crate::strings::{debug_byte_list, debug_list, decimal, from_utf16_lossy, push_decimal, utf16_lossy_text};
use crate::types::{PartitionInfo, PartitionScheme};
use vstd::prelude::*;

verus! {

pub const HEADER_SIZE_FIXED: u32 = 92;

/// A GUID as its 16 bytes in display order.
#[derive(Debug, Clone, Copy, PartialEq, Eq)]
pub struct Guid {
    pub bytes: [u8; 16],
}

/// Display-order bytes of the mixed-endian GUID stored at `off` (first
/// three groups little-endian, the rest as stored).
pub open spec fn guid_at(b: Seq<u8>, off: int) -> Seq<u8> {
    seq![
        b[off + 3], b[off + 2], b[off + 1], b[off], b[off + 5], b[off + 4], b[off + 7], b[off + 6],
        b[off + 8], b[off + 9], b[off + 10], b[off + 11], b[off + 12], b[off + 13], b[off + 14], b[off + 15],
    ]
}

/// Lower-case hexadecimal digit.
pub open spec fn lower_hex(d: int) -> char {
    if d < 10 {
        (48 + d) as char
    } else {
        (87 + d) as char
    }
}

/// Lower-case hexadecimal text of bytes `from..to` of `g`.
pub open spec fn hex_run(g: Seq<u8>, from: int, to: int) -> Seq<char>
    decreases to - from,
{
    if from >= to {
        Seq::empty()
    } else {
        seq![lower_hex(g[from] as int / 16), lower_hex(g[from] as int % 16)] + hex_run(g, from + 1, to)
    }
}

/// Hyphenated lower-case text of a GUID (8-4-4-4-12 hex digits).
pub open spec fn guid_text(g: Seq<u8>) -> Seq<char> {
    hex_run(g, 0, 4) + seq!['-'] + hex_run(g, 4, 6) + seq!['-'] + hex_run(g, 6, 8) + seq!['-'] + hex_run(g, 8, 10)
        + seq!['-'] + hex_run(g, 10, 16)
}

/// Calls `uuid::Uuid::from_bytes` and the `Display` of `uuid::Uuid`, which
/// the crate documents as the hyphenated lower-case form.
#[verifier::external_body]
pub(crate) fn guid_to_string(g: &Guid) -> (r: String)
    ensures
        r@ == guid_text(g.bytes@),
{
    uuid::Uuid::from_bytes(g.bytes).to_string()
}

/// Read the mixed-endian GUID at the start of `bytes`.
pub fn read_guid(bytes: &[u8]) -> (r: Guid)
    requires
        bytes@.len() >= 16,
    ensures
        r.bytes@ == guid_at(bytes@, 0),
{
    let b: [u8; 16] = [
        bytes[3], bytes[2], bytes[1], bytes[0], bytes[5], bytes[4], bytes[7], bytes[6], bytes[8], bytes[9],
        bytes[10], bytes[11], bytes[12], bytes[13], bytes[14], bytes[15],
    ];
    assert(b@ =~= guid_at(bytes@, 0));
    Guid { bytes: b }
}

/// The all-zero GUID.
pub open spec fn is_nil(g: Seq<u8>) -> bool {
    forall|i: int| 0 <= i < 16 ==> #[trigger] g[i] == 0u8
}

fn guid_is_nil(g: &Guid) -> (r: bool)
    ensures
        r == is_nil(g.bytes@),
{
    let mut i: usize = 0;
    while i < 16
        invariant
            i <= 16,
            g.bytes@.len() == 16,
            forall|j: int| 0 <= j < i ==> #[trigger] g.bytes@[j] == 0u8,
        decreases 16 - i,
    {
        if g.bytes[i] != 0 {
            return false;
        }
        i += 1;
    }
    true
}

fn guid_eq(g: &Guid, want: &[u8; 16]) -> (r: bool)
    ensures
        r == (g.bytes@ == want@),
{
    let mut i: usize = 0;
    while i < 16
        invariant
            i <= 16,
            g.bytes@.len() == 16,
            want@.len() == 16,
            forall|j: int| 0 <= j < i ==> #[trigger] g.bytes@[j] == want@[j],
        decreases 16 - i,
    {
        if g.bytes[i] != want[i] {
            return false;
        }
        i += 1;
    }
    assert(g.bytes@ =~= want@);
    true
}

pub open spec fn basic_data_guid() -> Seq<u8> {
    seq![0xEBu8, 0xD0, 0xA0, 0xA2, 0xB9, 0xE5, 0x44, 0x33, 0x87, 0xC0, 0x68, 0xB6, 0xB7, 0x26, 0x99, 0xC7]
}

pub open spec fn efi_system_guid() -> Seq<u8> {
    seq![0xC1u8, 0x2A, 0x73, 0x28, 0xF8, 0x1F, 0x11, 0xD2, 0xBA, 0x4B, 0x00, 0xA0, 0xC9, 0x3E, 0xC9, 0x3B]
}

pub open spec fn linux_data_guid() -> Seq<u8> {
    seq![0x0Fu8, 0xC6, 0x3D, 0xAF, 0x84, 0x83, 0x47, 0x72, 0x8E, 0x79, 0x3D, 0x69, 0xD8, 0x47, 0x7D, 0xE4]
}

pub open spec fn bios_boot_guid() -> Seq<u8> {
    seq![0x21u8, 0x68, 0x61, 0x48, 0x64, 0x49, 0x6E, 0x6F, 0x74, 0x4E, 0x65, 0x65, 0x64, 0x45, 0x46, 0x49]
}

pub open spec fn basic_data_swapped_guid() -> Seq<u8> {
    seq![0xA2u8, 0xA0, 0xD0, 0xEB, 0xE5, 0xB9, 0x33, 0x44, 0x87, 0xC0, 0x68, 0xB6, 0xB7, 0x26, 0x99, 0xC7]
}

/// Filesystem hint for well-known partition type GUIDs.
pub open spec fn spec_fs_hint(g: Seq<u8>) -> Option<Seq<char>> {
    if g == basic_data_guid() || g == basic_data_swapped_guid() {
        Some("ntfs-or-fat"@)
    } else if g == efi_system_guid() {
        Some("fat32"@)
    } else if g == linux_data_guid() {
        Some("ext4-or-other"@)
    } else if g == bios_boot_guid() {
        Some("biosboot"@)
    } else {
        None
    }
}

/// Filesystem hint for well-known partition type GUIDs.
pub fn gpt_type_to_fs_hint(g: &Guid) -> (r: Option<&'static str>)
    ensures
        match spec_fs_hint(g.bytes@) {
            Some(t) => r matches Some(s) && s@ == t,
            None => r is None,
        },
{
    let basic: [u8; 16] = [0xEB, 0xD0, 0xA0, 0xA2, 0xB9, 0xE5, 0x44, 0x33, 0x87, 0xC0, 0x68, 0xB6, 0xB7, 0x26, 0x99, 0xC7];
    let efi: [u8; 16] = [0xC1, 0x2A, 0x73, 0x28, 0xF8, 0x1F, 0x11, 0xD2, 0xBA, 0x4B, 0x00, 0xA0, 0xC9, 0x3E, 0xC9, 0x3B];
    let linux: [u8; 16] = [0x0F, 0xC6, 0x3D, 0xAF, 0x84, 0x83, 0x47, 0x72, 0x8E, 0x79, 0x3D, 0x69, 0xD8, 0x47, 0x7D, 0xE4];
    let bios: [u8; 16] = [0x21, 0x68, 0x61, 0x48, 0x64, 0x49, 0x6E, 0x6F, 0x74, 0x4E, 0x65, 0x65, 0x64, 0x45, 0x46, 0x49];
    let swapped: [u8; 16] = [0xA2, 0xA0, 0xD0, 0xEB, 0xE5, 0xB9, 0x33, 0x44, 0x87, 0xC0, 0x68, 0xB6, 0xB7, 0x26, 0x99, 0xC7];
    assert(basic@ == basic_data_guid());
    assert(efi@ == efi_system_guid());
    assert(linux@ == linux_data_guid());
    assert(bios@ == bios_boot_guid());
    assert(swapped@ == basic_data_swapped_guid());
    if guid_eq(g, &basic) {
        Some("ntfs-or-fat")
    } else if guid_eq(g, &efi) {
        Some("fat32")
    } else if guid_eq(g, &linux) {
        Some("ext4-or-other")
    } else if guid_eq(g, &bios) {
        Some("biosboot")
    } else if guid_eq(g, &swapped) {
        Some("ntfs-or-fat")
    } else {
        None
    }
}

/// Code units of a UTF-16 name up to the first zero unit.
pub open spec fn units_until_nul(u: Seq<u16>) -> Seq<u16>
    decreases u.len(),
{
    if u.len() == 0 || u[0] == 0 {
        Seq::empty()
    } else {
        seq![u[0]] + units_until_nul(u.drop_first())
    }
}

/// Name of a partition entry: the 29 UTF-16 units at `0x38..0x72` up to
/// the first zero.
pub open spec fn entry_name_text(e: Seq<u8>) -> Seq<char> {
    utf16_lossy_text(units_until_nul(utf16_units(e, 0x38, 29)))
}

fn read_utf16_name(bytes: &[u8]) -> (r: String)
    ensures
        r@ == utf16_lossy_text(units_until_nul(utf16_units(bytes@, 0, (bytes@.len() / 2) as int))),
{
    let n: usize = bytes.len() / 2;
    let ghost all: Seq<u16> = utf16_units(bytes@, 0, n as int);
    let mut chars: Vec<u16> = Vec::new();
    let mut i: usize = 0;
    assert(all.subrange(0, n as int) =~= all);
    assert(chars@ + units_until_nul(all) =~= units_until_nul(all));
    #[verifier::loop_isolation(false)]
    while i < n
        invariant
            i <= n,
            n * 2 <= bytes@.len(),
            chars@ + units_until_nul(all.subrange(i as int, n as int)) == units_until_nul(all),
        decreases n - i,
    {
        let v: u16 = read_u16_le(bytes, 2 * i).unwrap();
        assert(v == all[i as int]);
        assert(all.subrange(i as int, n as int).drop_first() =~= all.subrange(i + 1, n as int));
        if v == 0 {
            assert(chars@ + Seq::<u16>::empty() =~= chars@);
            break;
        }
        let ghost before: Seq<u16> = chars@;
        chars.push(v);
        assert(before + units_until_nul(all.subrange(i as int, n as int)) =~= chars@ + units_until_nul(
            all.subrange(i + 1, n as int),
        ));
        i += 1;
    }
    proof {
        if i == n {
            assert(chars@ + Seq::<u16>::empty() =~= chars@);
        }
    }
    assert(all.subrange(0, n as int) =~= all);
    from_utf16_lossy(chars.as_slice())
}

/// A GPT header.
#[derive(Debug, Clone, PartialEq, Eq)]
pub struct GptHeader {
    pub revision: u32,
    pub header_size: u32,
    pub current_lba: u64,
    pub backup_lba: u64,
    pub first_usable_lba: u64,
    pub last_usable_lba: u64,
    pub disk_guid: Guid,
    pub entry_array_lba: u64,
    pub num_entries: u32,
    pub entry_size: u32,
    pub entry_array_crc32: u32,
}

/// `EFI PART` at the start.
pub open spec fn has_gpt_signature(b: Seq<u8>) -> bool {
    b.subrange(0, 8) == seq![0x45u8, 0x46u8, 0x49u8, 0x20u8, 0x50u8, 0x41u8, 0x52u8, 0x54u8]
}

/// The header bytes that the CRC covers, the CRC field zeroed.
pub open spec fn crc_region(b: Seq<u8>) -> Seq<u8> {
    b.subrange(0, le32(b, 0x0C)).update(0x10, 0).update(0x11, 0).update(0x12, 0).update(0x13, 0)
}

/// `h` holds the header fields of `b`.
pub open spec fn header_matches(h: GptHeader, b: Seq<u8>) -> bool {
    &&& h.revision == le32(b, 0x08)
    &&& h.header_size == le32(b, 0x0C)
    &&& h.current_lba == le64(b, 0x18)
    &&& h.backup_lba == le64(b, 0x20)
    &&& h.first_usable_lba == le64(b, 0x28)
    &&& h.last_usable_lba == le64(b, 0x30)
    &&& h.disk_guid.bytes@ == guid_at(b, 0x38)
    &&& h.entry_array_lba == le64(b, 0x48)
    &&& h.num_entries == le32(b, 0x50)
    &&& h.entry_size == le32(b, 0x54)
    &&& h.entry_array_crc32 == le32(b, 0x58)
}

/// The entry size is a power of two in `128..=4096`.
pub open spec fn entry_size_ok(es: u32) -> bool {
    128 <= es <= 4096 && es & ((es - 1) as u32) == 0
}

/// `r` is what parsing header `b` yields at byte offset `at`, with `crc` the
/// checksum of its CRC region.
pub open spec fn header_result(b: Seq<u8>, at: int, crc: u32, r: Result<GptHeader, Error>) -> bool {
    if b.len() < 92 {
        r == Err::<GptHeader, Error>(Error::UnexpectedEof { offset: at as u64, need: 92, have: b.len() as usize })
    } else if !has_gpt_signature(b) {
        r matches Err(e) && is_bad_magic(e, at, "EFI PART"@, debug_list(b.subrange(0, 8)))
    } else if le32(b, 0x14) != 0 {
        r matches Err(e) && is_corrupt(e, "gpt_header"@, at, "reserved field nonzero"@)
    } else if le32(b, 0x0C) < 92 || le32(b, 0x0C) > b.len() {
        r matches Err(e) && is_corrupt(e, "gpt_header"@, at, "implausible header size "@ + decimal(le32(b, 0x0C) as nat))
    } else if crc != le32(b, 0x10) {
        r == Err::<GptHeader, Error>(Error::BadCrc { offset: (at + 0x10) as u64, expected: le32(b, 0x10) as u32, got: crc })
    } else if !entry_size_ok(le32(b, 0x54) as u32) {
        r matches Err(e) && is_corrupt(e, "gpt_header"@, at, "entry_size "@ + decimal(le32(b, 0x54) as nat) + " not a power of two \u{2265}128"@)
    } else if le32(b, 0x50) > 1024 {
        r matches Err(e) && is_corrupt(e, "gpt_header"@, at, "num_entries "@ + decimal(le32(b, 0x50) as nat) + " exceeds sane limit"@)
    } else {
        r matches Ok(h) && header_matches(h, b)
    }
}

/// Checks before the header CRC: length, signature, reserved field and
/// header size.
pub open spec fn header_prechecks_pass(b: Seq<u8>) -> bool {
    b.len() >= 92 && has_gpt_signature(b) && le32(b, 0x14) == 0 && 92 <= le32(b, 0x0C) <= b.len()
}

/// Parse the GPT header in `buf`, read from `lba`, given `crc`, the CRC-32 of
/// its CRC region.
pub fn parse_header_given_crc(buf: &[u8], lba: u64, sector_size: u64, crc: u32) -> (r: Result<GptHeader, Error>)
    requires
        lba * sector_size + 0x10 <= u64::MAX,
    ensures
        header_result(buf@, lba * sector_size, crc, r),
        r matches Ok(h) ==> header_prechecks_pass(buf@) && h.num_entries <= 1024 && entry_size_ok(h.entry_size),
{
    let at: u64 = lba * sector_size;
    if buf.len() < 92 {
        return Err(Error::UnexpectedEof { offset: at, need: 92, have: buf.len() });
    }
    if !(buf[0] == 0x45 && buf[1] == 0x46 && buf[2] == 0x49 && buf[3] == 0x20 && buf[4] == 0x50 && buf[5] == 0x41
        && buf[6] == 0x52 && buf[7] == 0x54) {
        proof {
            if has_gpt_signature(buf@) {
                assert(buf@.subrange(0, 8)[0] == buf@[0]);
                assert(buf@.subrange(0, 8)[1] == buf@[1]);
                assert(buf@.subrange(0, 8)[2] == buf@[2]);
                assert(buf@.subrange(0, 8)[3] == buf@[3]);
                assert(buf@.subrange(0, 8)[4] == buf@[4]);
                assert(buf@.subrange(0, 8)[5] == buf@[5]);
                assert(buf@.subrange(0, 8)[6] == buf@[6]);
                assert(buf@.subrange(0, 8)[7] == buf@[7]);
            }
        }
        return Err(Error::BadMagic { offset: at, expected: "EFI PART", got: debug_byte_list(&buf[0..8]) });
    }
    assert(has_gpt_signature(buf@)) by {
        assert(buf@.subrange(0, 8) =~= seq![0x45u8, 0x46u8, 0x49u8, 0x20u8, 0x50u8, 0x41u8, 0x52u8, 0x54u8]);
    }
    let revision: u32 = read_u32_le(buf, 0x08).unwrap();
    let header_size: u32 = read_u32_le(buf, 0x0C).unwrap();
    let stored_crc: u32 = read_u32_le(buf, 0x10).unwrap();
    let reserved: u32 = read_u32_le(buf, 0x14).unwrap();
    if reserved != 0 {
        return Err(Error::corrupt("gpt_header", at, String::from_str("reserved field nonzero")));
    }
    if header_size < 92 || header_size as usize > buf.len() {
        let mut detail: String = String::from_str("implausible header size ");
        push_decimal(&mut detail, header_size as u64);
        return Err(Error::corrupt("gpt_header", at, detail));
    }
    if crc != stored_crc {
        return Err(Error::BadCrc { offset: at + 0x10, expected: stored_crc, got: crc });
    }
    let current_lba: u64 = read_u64_le(buf, 0x18).unwrap();
    let backup_lba: u64 = read_u64_le(buf, 0x20).unwrap();
    let first_usable: u64 = read_u64_le(buf, 0x28).unwrap();
    let last_usable: u64 = read_u64_le(buf, 0x30).unwrap();
    let disk_guid: Guid = read_guid(&buf[0x38..0x48]);
    assert(guid_at(buf@.subrange(0x38, 0x48), 0) =~= guid_at(buf@, 0x38));
    let entry_lba: u64 = read_u64_le(buf, 0x48).unwrap();
    let num_entries: u32 = read_u32_le(buf, 0x50).unwrap();
    let entry_size: u32 = read_u32_le(buf, 0x54).unwrap();
    let entry_crc: u32 = read_u32_le(buf, 0x58).unwrap();
    if entry_size < 128 || entry_size > 4096 || (entry_size & (entry_size - 1)) != 0 {
        let mut detail: String = String::from_str("entry_size ");
        push_decimal(&mut detail, entry_size as u64);
        detail.append(" not a power of two \u{2265}128");
        return Err(Error::corrupt("gpt_header", at, detail));
    }
    if num_entries > 1024 {
        let mut detail: String = String::from_str("num_entries ");
        push_decimal(&mut detail, num_entries as u64);
        detail.append(" exceeds sane limit");
        return Err(Error::corrupt("gpt_header", at, detail));
    }
    Ok(
        GptHeader {
            revision,
            header_size,
            current_lba,
            backup_lba,
            first_usable_lba: first_usable,
            last_usable_lba: last_usable,
            disk_guid,
            entry_array_lba: entry_lba,
            num_entries,
            entry_size,
            entry_array_crc32: entry_crc,
        },
    )
}

/// Parse the GPT header in `buf`, read from `lba`.
pub fn parse_header(buf: &[u8], lba: u64, sector_size: u64) -> (r: Result<GptHeader, Error>)
    requires
        lba * sector_size + 0x10 <= u64::MAX,
    ensures
        header_prechecks_pass(buf@) ==> header_result(buf@, lba * sector_size, crc32_iso_hdlc(crc_region(buf@)), r),
        !header_prechecks_pass(buf@) ==> forall|c: u32| #[trigger] header_result(buf@, lba * sector_size, c, r),
        r matches Ok(h) ==> header_prechecks_pass(buf@) && h.num_entries <= 1024 && entry_size_ok(h.entry_size),
{
    if buf.len() >= 92 && buf[0] == 0x45 && buf[1] == 0x46 && buf[2] == 0x49 && buf[3] == 0x20 && buf[4] == 0x50
        && buf[5] == 0x41 && buf[6] == 0x52 && buf[7] == 0x54 {
        let reserved: u32 = read_u32_le(buf, 0x14).unwrap();
        let hs: usize = read_u32_le(buf, 0x0C).unwrap() as usize;
        if reserved == 0 && hs >= 92 && hs <= buf.len() {
            assert(has_gpt_signature(buf@)) by {
                assert(buf@.subrange(0, 8) =~= seq![0x45u8, 0x46u8, 0x49u8, 0x20u8, 0x50u8, 0x41u8, 0x52u8, 0x54u8]);
            }
            let mut tmp: Vec<u8> = vstd::slice::slice_to_vec(&buf[0..hs]);
            tmp.set(0x10, 0);
            tmp.set(0x11, 0);
            tmp.set(0x12, 0);
            tmp.set(0x13, 0);
            assert(tmp@ =~= crc_region(buf@));
            let c: u32 = crc32(tmp.as_slice());
            return parse_header_given_crc(buf, lba, sector_size, c);
        }
    }
    let r: Result<GptHeader, Error> = parse_header_given_crc(buf, lba, sector_size, 0);
    proof {
        if !header_prechecks_pass(buf@) {
            assert forall|c: u32| #[trigger] header_result(buf@, lba * sector_size, c, r) by {
                if buf@.len() >= 92 && has_gpt_signature(buf@) {
                    assert(buf@.subrange(0, 8)[0] == buf@[0]);
                    assert(buf@.subrange(0, 8)[1] == buf@[1]);
                    assert(buf@.subrange(0, 8)[2] == buf@[2]);
                    assert(buf@.subrange(0, 8)[3] == buf@[3]);
                    assert(buf@.subrange(0, 8)[4] == buf@[4]);
                    assert(buf@.subrange(0, 8)[5] == buf@[5]);
                    assert(buf@.subrange(0, 8)[6] == buf@[6]);
                    assert(buf@.subrange(0, 8)[7] == buf@[7]);
                }
            }
        } else {
            assert(buf@.subrange(0, 8)[0] == buf@[0]);
            assert(buf@.subrange(0, 8)[1] == buf@[1]);
            assert(buf@.subrange(0, 8)[2] == buf@[2]);
            assert(buf@.subrange(0, 8)[3] == buf@[3]);
            assert(buf@.subrange(0, 8)[4] == buf@[4]);
            assert(buf@.subrange(0, 8)[5] == buf@[5]);
            assert(buf@.subrange(0, 8)[6] == buf@[6]);
            assert(buf@.subrange(0, 8)[7] == buf@[7]);
        }
    }
    r
}

/// The entry's start and inclusive end do not give a length.
pub open spec fn entry_bad(e: Seq<u8>) -> bool {
    !is_nil(guid_at(e, 0)) && (le64(e, 0x28) < le64(e, 0x20) || le64(e, 0x28) - le64(e, 0x20) + 1 > u64::MAX)
}

/// `p` is the partition of entry `e` at `index`.
pub open spec fn gpt_partition(p: PartitionInfo, e: Seq<u8>, index: u32, sector_size: u32) -> bool {
    &&& p.index == index
    &&& p.scheme == PartitionScheme::Gpt
    &&& p.type_id@ == guid_text(guid_at(e, 0))
    &&& (if entry_name_text(e).len() == 0 {
        p.name is None
    } else {
        p.name matches Some(n) && n@ == entry_name_text(e)
    })
    &&& match spec_fs_hint(guid_at(e, 0)) {
        Some(t) => p.filesystem matches Some(f) && f@ == t,
        None => p.filesystem is None,
    }
    &&& p.start_lba == le64(e, 0x20)
    &&& p.length_sectors == le64(e, 0x28) - le64(e, 0x20) + 1
    &&& p.sector_size == sector_size
    &&& !p.reconstructed
}

/// Parse one partition entry; `None` for an unused (nil-type) slot.
pub fn parse_entry(index: u32, entry: &[u8], sector_size: u32) -> (r: Result<Option<PartitionInfo>, Error>)
    ensures
        entry@.len() < 128 ==> r == Err::<Option<PartitionInfo>, Error>(
            Error::UnexpectedEof { offset: 0, need: 128, have: entry@.len() as usize },
        ),
        entry@.len() >= 128 && is_nil(guid_at(entry@, 0)) ==> r == Ok::<Option<PartitionInfo>, Error>(None),
        entry@.len() >= 128 && entry_bad(entry@) ==> (r matches Err(e) && is_corrupt(e, "gpt_entry"@, 0, "end < start"@)),
        entry@.len() >= 128 && !is_nil(guid_at(entry@, 0)) && !entry_bad(entry@) ==> (r matches Ok(Some(p))
            && gpt_partition(p, entry@, index, sector_size)),
{
    if entry.len() < 128 {
        return Err(Error::UnexpectedEof { offset: 0, need: 128, have: entry.len() });
    }
    let type_guid: Guid = read_guid(entry);
    if guid_is_nil(&type_guid) {
        return Ok(None);
    }
    let start: u64 = read_u64_le(entry, 0x20).unwrap();
    let end_inclusive: u64 = read_u64_le(entry, 0x28).unwrap();
    let length: u64 = match end_inclusive.checked_sub(start) {
        Some(n) => match n.checked_add(1) {
            Some(l) => l,
            None => return Err(Error::corrupt("gpt_entry", 0, String::from_str("end < start"))),
        },
        None => return Err(Error::corrupt("gpt_entry", 0, String::from_str("end < start"))),
    };
    let name: String = read_utf16_name(&entry[0x38..0x72]);
    assert(utf16_units(entry@.subrange(0x38, 0x72), 0, 29) =~= utf16_units(entry@, 0x38, 29));
    let filesystem: Option<String> = match gpt_type_to_fs_hint(&type_guid) {
        Some(h) => Some(h.to_owned()),
        None => None,
    };
    let type_id: String = guid_to_string(&type_guid);
    let name: Option<String> = if name.as_str().is_empty() {
        None
    } else {
        Some(name)
    };
    Ok(
        Some(
            PartitionInfo {
                index,
                scheme: PartitionScheme::Gpt,
                type_id,
                name,
                filesystem,
                start_lba: start,
                length_sectors: length,
                sector_size,
                reconstructed: false,
            },
        ),
    )
}

/// The first bad entry among the first `n` entries of size `es`.
pub open spec fn first_bad_entry(array: Seq<u8>, es: int, n: int) -> Option<int>
    decreases n,
{
    if n <= 0 {
        None
    } else {
        match first_bad_entry(array, es, n - 1) {
            Some(k) => Some(k),
            None => if entry_bad(array.subrange((n - 1) * es, n * es)) {
                Some(n - 1)
            } else {
                None
            },
        }
    }
}

/// Indices of the used entries among the first `n`.
pub open spec fn used_gpt_entries(array: Seq<u8>, es: int, n: int) -> Seq<int>
    decreases n,
{
    if n <= 0 {
        Seq::empty()
    } else if !is_nil(guid_at(array.subrange((n - 1) * es, n * es), 0)) {
        used_gpt_entries(array, es, n - 1).push(n - 1)
    } else {
        used_gpt_entries(array, es, n - 1)
    }
}

/// `r` is what parsing the entry array of `h` inside `buffer` yields.
pub open spec fn array_result(buffer: Seq<u8>, ssz: int, h: GptHeader, r: Result<Vec<PartitionInfo>, Error>) -> bool {
    let lba = h.entry_array_lba as usize as int;
    let start = lba * ssz;
    let len = h.num_entries * h.entry_size;
    if start > usize::MAX {
        r matches Err(e) && is_corrupt(e, "gpt"@, 0, "entry array LBA overflow"@)
    } else if start + len > buffer.len() {
        r == Err::<Vec<PartitionInfo>, Error>(Error::UnexpectedEof {
            offset: start as u64,
            need: len as usize,
            have: (if buffer.len() > start { buffer.len() - start } else { 0 }) as usize,
        })
    } else {
        let array = buffer.subrange(start, start + len);
        if crc32_iso_hdlc(array) != h.entry_array_crc32 {
            r == Err::<Vec<PartitionInfo>, Error>(Error::BadCrc {
                offset: start as u64,
                expected: h.entry_array_crc32,
                got: crc32_iso_hdlc(array),
            })
        } else if first_bad_entry(array, h.entry_size as int, h.num_entries as int) is Some {
            r matches Err(e) && is_corrupt(e, "gpt_entry"@, 0, "end < start"@)
        } else {
            let used = used_gpt_entries(array, h.entry_size as int, h.num_entries as int);
            r matches Ok(parts) && parts@.len() == used.len() && forall|k: int|
                0 <= k < parts@.len() ==> gpt_partition(
                    #[trigger] parts@[k],
                    array.subrange(used[k] * h.entry_size, (used[k] + 1) * h.entry_size),
                    used[k] as u32,
                    ssz as u32,
                )
        }
    }
}

/// Parse a GPT from a buffer holding LBA 0 onwards: the header at LBA 1 and
/// the entry array where the header puts it, both CRC-checked.
#[verifier::loop_isolation(false)]
pub fn parse(buffer: &[u8], sector_size: u32) -> (r: Result<Vec<PartitionInfo>, Error>)
    requires
        2 * (sector_size as int) <= usize::MAX,
    ensures
        sector_size == 0 || buffer@.len() < 2 * sector_size ==> r == Err::<Vec<PartitionInfo>, Error>(
            Error::UnexpectedEof { offset: 0, need: (2 * sector_size) as usize, have: buffer@.len() as usize },
        ),
        sector_size != 0 && buffer@.len() >= 2 * sector_size ==> ({
            let hb = buffer@.subrange(sector_size as int, 2 * sector_size);
            let crc = crc32_iso_hdlc(crc_region(hb));
            if header_prechecks_pass(hb) {
                match r {
                    Err(e) => header_result(hb, sector_size as int, crc, Err(e)) || exists|h: GptHeader|
                        header_result(hb, sector_size as int, crc, Ok(h)) && array_result(buffer@, sector_size as int, h, r),
                    Ok(_) => exists|h: GptHeader|
                        header_result(hb, sector_size as int, crc, Ok(h)) && array_result(buffer@, sector_size as int, h, r),
                }
            } else {
                r matches Err(e) && forall|c: u32| header_result(hb, sector_size as int, c, Err(e))
            }
        }),
{
    let ssz: usize = sector_size as usize;
    if ssz == 0 || buffer.len() < ssz * 2 {
        return Err(Error::UnexpectedEof { offset: 0, need: ssz * 2, have: buffer.len() });
    }
    let hb: &[u8] = &buffer[ssz..ssz * 2];
    let header: GptHeader = match parse_header(hb, 1, ssz as u64) {
        Ok(h) => h,
        Err(e) => {
            return Err(e);
        },
    };
    let ghost hdr = header;
    let ghost hbs: Seq<u8> = hb@;
    let ghost hcrc: u32 = crc32_iso_hdlc(crc_region(hbs));
    assert(hbs =~= buffer@.subrange(ssz as int, 2 * ssz));
    assert(header_result(hbs, ssz as int, hcrc, Ok::<GptHeader, Error>(hdr)));
    assert(hdr.entry_size <= 4096 && hdr.entry_size >= 128);
    let array_start: usize = match (header.entry_array_lba as usize).checked_mul(ssz) {
        Some(v) => v,
        None => {
            let r: Result<Vec<PartitionInfo>, Error> = Err(
                Error::corrupt("gpt", 0, String::from_str("entry array LBA overflow")),
            );
            assert(header_result(hbs, ssz as int, hcrc, Ok::<GptHeader, Error>(hdr)) && array_result(buffer@, ssz as int, hdr, r));
            return r;
        },
    };
    assert(header.num_entries * header.entry_size <= 1024 * 4096) by (nonlinear_arith)
        requires
            header.num_entries <= 1024,
            header.entry_size <= 4096,
    ;
    let array_len: usize = (header.num_entries as usize) * (header.entry_size as usize);
    if array_start > buffer.len() || array_len > buffer.len() - array_start {
        let have: usize = if buffer.len() > array_start {
            buffer.len() - array_start
        } else {
            0
        };
        let r: Result<Vec<PartitionInfo>, Error> = Err(
            Error::UnexpectedEof { offset: array_start as u64, need: array_len, have },
        );
        assert(header_result(hbs, ssz as int, hcrc, Ok::<GptHeader, Error>(hdr)) && array_result(buffer@, ssz as int, hdr, r));
        return r;
    }
    let array: &[u8] = &buffer[array_start..array_start + array_len];
    assert(array@ =~= buffer@.subrange(array_start as int, array_start + array_len));
    let actual: u32 = crc32(array);
    if actual != header.entry_array_crc32 {
        let r: Result<Vec<PartitionInfo>, Error> = Err(
            Error::BadCrc { offset: array_start as u64, expected: header.entry_array_crc32, got: actual },
        );
        assert(header_result(hbs, ssz as int, hcrc, Ok::<GptHeader, Error>(hdr)) && array_result(buffer@, ssz as int, hdr, r));
        return r;
    }
    let es: usize = header.entry_size as usize;
    let n: usize = header.num_entries as usize;
    let mut parts: Vec<PartitionInfo> = Vec::new();
    let mut i: usize = 0;
    while i < n
        invariant
            i <= n,
            n * es == array@.len(),
            n * es <= usize::MAX,
            array@ == buffer@.subrange(array_start as int, array_start + array_len),
            es >= 128,
            n <= 1024,
            es <= 4096,
            first_bad_entry(array@, es as int, i as int) is None,
            parts@.len() == used_gpt_entries(array@, es as int, i as int).len(),
            forall|k: int|
                0 <= k < parts@.len() ==> gpt_partition(
                    #[trigger] parts@[k],
                    array@.subrange(used_gpt_entries(array@, es as int, i as int)[k] * es, (used_gpt_entries(array@, es as int, i as int)[k] + 1) * es),
                    used_gpt_entries(array@, es as int, i as int)[k] as u32,
                    sector_size,
                ),
        decreases n - i,
    {
        assert((i + 1) * es <= n * es && i * es + es == (i + 1) * es) by (nonlinear_arith)
            requires
                i < n,
        ;
        let off: usize = i * es;
        let entry: &[u8] = &array[off..off + es];
        assert(entry@ =~= array@.subrange(i * es, (i + 1) * es));
        match parse_entry(i as u32, entry, sector_size) {
            Ok(Some(p)) => {
                parts.push(p);
            },
            Ok(None) => {},
            Err(e) => {
                proof {
                    lemma_first_bad_grows(array@, es as int, i + 1, n as int);
                }
                let r: Result<Vec<PartitionInfo>, Error> = Err(e);
                assert(header_result(hbs, ssz as int, hcrc, Ok::<GptHeader, Error>(hdr)) && array_result(buffer@, ssz as int, hdr, r));
                return r;
            },
        }
        i += 1;
    }
    let r: Result<Vec<PartitionInfo>, Error> = Ok(parts);
    assert(header_result(hbs, ssz as int, hcrc, Ok::<GptHeader, Error>(hdr)) && array_result(buffer@, ssz as int, hdr, r));
    r
}

proof fn lemma_first_bad_grows(array: Seq<u8>, es: int, k: int, n: int)
    requires
        0 <= k <= n,
        first_bad_entry(array, es, k) is Some,
    ensures
        first_bad_entry(array, es, n) is Some,
    decreases n - k,
{
    if k < n {
        lemma_first_bad_grows(array, es, k + 1, n);
    }
}

} // verus!
