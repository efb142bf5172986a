use trirecover::error::Error;
use trirecover::partition::gpt::{gpt_type_to_fs_hint, parse as gpt_parse, parse_header, read_guid};
use trirecover::partition::mbr::{is_extended, is_protective_mbr, mbr_type_name, parse as mbr_parse};
use trirecover::partition::read_table;
use trirecover::storage::FixtureReader;
use trirecover::types::PartitionScheme;

const PART_TABLE_OFFSET: usize = 0x1BE;
const ENTRY_SIZE: usize = 16;
const SIG_OFFSET: usize = 0x1FE;

fn crc32(bytes: &[u8]) -> u32 {
    crc::Crc::<u32>::new(&crc::CRC_32_ISO_HDLC).checksum(bytes)
}

fn put32(b: &mut [u8], off: usize, v: u32) {
    b[off..off + 4].copy_from_slice(&v.to_le_bytes());
}

fn put64(b: &mut [u8], off: usize, v: u64) {
    b[off..off + 8].copy_from_slice(&v.to_le_bytes());
}

fn make_mbr(entries: &[(u8, u32, u32)]) -> Vec<u8> {
    let mut sec = vec![0u8; 512];
    for (i, (ty, start, count)) in entries.iter().enumerate().take(4) {
        let off = PART_TABLE_OFFSET + i * ENTRY_SIZE;
        sec[off + 0x04] = *ty;
        put32(&mut sec, off + 0x08, *start);
        put32(&mut sec, off + 0x0C, *count);
    }
    sec[SIG_OFFSET] = 0x55;
    sec[SIG_OFFSET + 1] = 0xAA;
    sec
}

#[test]
fn parses_two_partitions() {
    let s = make_mbr(&[(0x07, 2048, 100_000), (0x83, 102_048, 200_000)]);
    let parts = mbr_parse(&s, 512, 512 * 400_000).unwrap();
    assert_eq!(parts.len(), 2);
    assert_eq!(parts[0].start_lba, 2048);
    assert_eq!(parts[0].length_sectors, 100_000);
    assert_eq!(parts[1].type_id, "0x83");
}

#[test]
fn skips_empty_entries() {
    let s = make_mbr(&[(0x00, 0, 0), (0x83, 2048, 1000)]);
    let parts = mbr_parse(&s, 512, 512 * 10_000).unwrap();
    assert_eq!(parts.len(), 1);
    assert_eq!(parts[0].index, 1);
}

#[test]
fn rejects_missing_signature() {
    let mut s = make_mbr(&[(0x83, 2048, 1000)]);
    s[SIG_OFFSET] = 0;
    let r = mbr_parse(&s, 512, 512 * 10_000);
    assert!(matches!(r, Err(Error::BadMagic { .. })));
}

#[test]
fn detects_protective_mbr() {
    let s = make_mbr(&[(0xEE, 1, 0xFFFFFFFF)]);
    assert!(is_protective_mbr(&s));
}

#[test]
fn rejects_protective_mbr_without_signature() {
    let mut s = make_mbr(&[(0xEE, 1, 0xFFFFFFFF)]);
    s[SIG_OFFSET] = 0;
    assert!(!is_protective_mbr(&s));
}

#[test]
fn classifies_extended() {
    assert!(is_extended(0x05));
    assert!(is_extended(0x0F));
    assert!(is_extended(0x85));
    assert!(!is_extended(0x07));
}

#[test]
fn clamps_oversized_entries() {
    let s = make_mbr(&[(0x83, 2048, 2_000_000)]);
    let parts = mbr_parse(&s, 512, 512 * 1_000_000).unwrap();
    assert_eq!(parts.len(), 1);
    assert!(parts[0].length_sectors <= 1_000_000 - 2048);
}

#[test]
fn names_common_type_bytes() {
    assert_eq!(mbr_type_name(0x07), "NTFS / exFAT / IFS");
}

const HEADER_SIZE_FIXED: u32 = 92;

fn build_fixture() -> (Vec<u8>, u32) {
    let ssz: usize = 512;
    let mut buf = vec![0u8; ssz * 34];
    buf[0x1FE] = 0x55;
    buf[0x1FF] = 0xAA;
    buf[0x1BE + 4] = 0xEE;
    let entry_lba: u64 = 2;
    let num_entries: u32 = 128;
    let entry_size: u32 = 128;
    let array_off = (entry_lba as usize) * ssz;
    let array_len = (num_entries as usize) * (entry_size as usize);
    let type_guid_bytes: [u8; 16] =
        [0xA2, 0xA0, 0xD0, 0xEB, 0xE5, 0xB9, 0x33, 0x44, 0x87, 0xC0, 0x68, 0xB6, 0xB7, 0x26, 0x99, 0xC7];
    buf[array_off..array_off + 16].copy_from_slice(&type_guid_bytes);
    let unique = [0x11u8; 16];
    buf[array_off + 16..array_off + 32].copy_from_slice(&unique);
    put64(&mut buf, array_off + 32, 2048);
    put64(&mut buf, array_off + 40, 102_047);
    let name = "Data".encode_utf16().collect::<Vec<u16>>();
    for (i, c) in name.iter().enumerate() {
        buf[array_off + 56 + i * 2..array_off + 56 + i * 2 + 2].copy_from_slice(&c.to_le_bytes());
    }
    let entry_array_crc = crc32(&buf[array_off..array_off + array_len]);
    let h = ssz;
    buf[h..h + 8].copy_from_slice(b"EFI PART");
    put32(&mut buf, h + 0x08, 0x00010000);
    put32(&mut buf, h + 0x0C, HEADER_SIZE_FIXED);
    put32(&mut buf, h + 0x10, 0);
    put32(&mut buf, h + 0x14, 0);
    put64(&mut buf, h + 0x18, 1);
    put64(&mut buf, h + 0x20, 200_000);
    put64(&mut buf, h + 0x28, 34);
    put64(&mut buf, h + 0x30, 199_966);
    for i in 0..16 {
        buf[h + 0x38 + i] = i as u8;
    }
    put64(&mut buf, h + 0x48, entry_lba);
    put32(&mut buf, h + 0x50, num_entries);
    put32(&mut buf, h + 0x54, entry_size);
    put32(&mut buf, h + 0x58, entry_array_crc);
    let header_crc = crc32(&buf[h..h + HEADER_SIZE_FIXED as usize]);
    put32(&mut buf, h + 0x10, header_crc);
    (buf, ssz as u32)
}

#[test]
fn parses_header_round_trip() {
    let (buf, ssz) = build_fixture();
    let h = parse_header(&buf[ssz as usize..ssz as usize * 2], 1, u64::from(ssz)).unwrap();
    assert_eq!(h.revision, 0x00010000);
    assert_eq!(h.entry_array_lba, 2);
    assert_eq!(h.num_entries, 128);
    assert_eq!(h.entry_size, 128);
}

#[test]
fn parses_partition() {
    let (buf, ssz) = build_fixture();
    let parts = gpt_parse(&buf, ssz).unwrap();
    assert_eq!(parts.len(), 1);
    assert_eq!(parts[0].start_lba, 2048);
    assert_eq!(parts[0].length_sectors, 100_000);
    assert_eq!(parts[0].name.as_deref(), Some("Data"));
    assert_eq!(parts[0].scheme, PartitionScheme::Gpt);
    assert_eq!(parts[0].type_id, "ebd0a0a2-b9e5-4433-87c0-68b6b72699c7");
    assert_eq!(parts[0].filesystem.as_deref(), Some("ntfs-or-fat"));
}

#[test]
fn rejects_bad_header_crc() {
    let (mut buf, ssz) = build_fixture();
    buf[ssz as usize + 0x20] ^= 0xFF;
    let r = parse_header(&buf[ssz as usize..ssz as usize * 2], 1, u64::from(ssz));
    assert!(matches!(r, Err(Error::BadCrc { .. })));
}

#[test]
fn gpt_rejects_bad_signature() {
    let (mut buf, ssz) = build_fixture();
    buf[ssz as usize] = 0;
    let r = parse_header(&buf[ssz as usize..ssz as usize * 2], 1, u64::from(ssz));
    assert!(matches!(r, Err(Error::BadMagic { .. })));
}

#[test]
fn rejects_bad_entry_array_crc() {
    let (mut buf, ssz) = build_fixture();
    buf[2 * 512 + 40] ^= 0x01;
    assert!(matches!(gpt_parse(&buf, ssz), Err(Error::BadCrc { .. })));
}

#[test]
fn guid_reads_mixed_endian() {
    let g = read_guid(&[0x28, 0x73, 0x2A, 0xC1, 0x1F, 0xF8, 0xD2, 0x11, 0xBA, 0x4B, 0x00, 0xA0, 0xC9, 0x3E, 0xC9, 0x3B]);
    assert_eq!(gpt_type_to_fs_hint(&g), Some("fat32"));
    let nil = read_guid(&[0u8; 16]);
    assert_eq!(gpt_type_to_fs_hint(&nil), None);
}

#[test]
fn read_table_prefers_gpt() {
    let (buf, _) = build_fixture();
    let reader = FixtureReader::new("gpt".to_string(), 512, buf);
    let parts = read_table(&reader).unwrap();
    assert_eq!(parts.len(), 1);
    assert_eq!(parts[0].scheme, PartitionScheme::Gpt);
}

#[test]
fn read_table_falls_back_to_mbr_then_raw() {
    let mut img = make_mbr(&[(0x07, 1, 7)]);
    img.resize(8 * 512, 0);
    let reader = FixtureReader::new("mbr".to_string(), 512, img);
    let parts = read_table(&reader).unwrap();
    assert_eq!(parts.len(), 1);
    assert_eq!(parts[0].scheme, PartitionScheme::Mbr);
    let blank = FixtureReader::new("blank".to_string(), 512, vec![0u8; 4096]);
    let parts = read_table(&blank).unwrap();
    assert_eq!(parts.len(), 1);
    assert_eq!(parts[0].scheme, PartitionScheme::Raw);
    assert_eq!(parts[0].length_sectors, 8);
}
