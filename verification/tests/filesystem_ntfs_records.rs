use trirecover::error::Error;
use trirecover::filesystem::ntfs::attribute::{filetime_to_unix, Attribute, AttributeType as AT};
use trirecover::filesystem::ntfs::boot::NtfsBoot;
use trirecover::filesystem::ntfs::mft::MftRecord;

fn put16(b: &mut [u8], off: usize, v: u16) {
    b[off..off + 2].copy_from_slice(&v.to_le_bytes());
}

fn put32(b: &mut [u8], off: usize, v: u32) {
    b[off..off + 4].copy_from_slice(&v.to_le_bytes());
}

fn put64(b: &mut [u8], off: usize, v: u64) {
    b[off..off + 8].copy_from_slice(&v.to_le_bytes());
}

fn build_resident(ty: u32, value: &[u8]) -> Vec<u8> {
    let header = 24usize;
    let total = ((header + value.len()) + 7) & !7;
    let mut buf = vec![0u8; total];
    put32(&mut buf, 0, ty);
    put32(&mut buf, 4, total as u32);
    buf[8] = 0;
    put32(&mut buf, 16, value.len() as u32);
    put16(&mut buf, 20, header as u16);
    buf[header..header + value.len()].copy_from_slice(value);
    buf
}

#[test]
fn parses_resident_data() {
    let buf = build_resident(AT::Data.to_u32(), b"hello");
    let a = Attribute::parse(&buf).unwrap();
    assert_eq!(a.kind, AT::Data);
    assert!(!a.non_resident);
    assert_eq!(a.resident_value(), Some(&b"hello"[..]));
    assert_eq!(a.value_size(), 5);
}

#[test]
fn parses_filename_value() {
    let mut v = vec![0u8; 0x42];
    v[0x40] = 4;
    v[0x41] = 1;
    for c in "test".encode_utf16() {
        v.push((c & 0xFF) as u8);
        v.push((c >> 8) as u8);
    }
    let buf = build_resident(AT::FileName.to_u32(), &v);
    let a = Attribute::parse(&buf).unwrap();
    let (ns, name) = a.parse_filename().unwrap();
    assert_eq!(ns, 1);
    assert_eq!(name, "test");
}

#[test]
fn rejects_truncated_attr() {
    let buf = vec![0u8; 8];
    let r = Attribute::parse(&buf);
    assert!(r.is_err());
}

fn build_alist_entry(ty: u32, starting_vcn: u64, mft_record: u64, mft_sequence: u16, attribute_id: u16) -> Vec<u8> {
    let mut e = vec![0u8; 0x1A];
    put32(&mut e, 0, ty);
    put16(&mut e, 4, 0x1A);
    e[6] = 0;
    e[7] = 0x1A;
    put64(&mut e, 8, starting_vcn);
    let mft_ref = (u64::from(mft_sequence) << 48) | (mft_record & 0x0000_FFFF_FFFF_FFFF);
    put64(&mut e, 16, mft_ref);
    put16(&mut e, 24, attribute_id);
    e
}

#[test]
fn parses_attribute_list_two_entries() {
    let mut value = Vec::new();
    value.extend(build_alist_entry(0x80, 0, 100, 1, 5));
    value.extend(build_alist_entry(0x80, 200, 250, 1, 6));
    let buf = build_resident(AT::AttributeList.to_u32(), &value);
    let a = Attribute::parse(&buf).unwrap();
    let entries = a.parse_attribute_list().expect("returns Some");
    assert_eq!(entries.len(), 2);
    assert_eq!(entries[0].kind, AT::Data);
    assert_eq!(entries[0].starting_vcn, 0);
    assert_eq!(entries[0].mft_record, 100);
    assert_eq!(entries[1].starting_vcn, 200);
    assert_eq!(entries[1].mft_record, 250);
}

#[test]
fn parse_attribute_list_returns_none_on_wrong_kind() {
    let buf = build_resident(AT::Data.to_u32(), b"x");
    let a = Attribute::parse(&buf).unwrap();
    assert!(a.parse_attribute_list().is_none());
}

#[test]
fn parse_attribute_list_handles_truncated_entry() {
    let mut value = vec![0u8; 0x1A];
    put32(&mut value, 0, 0x80);
    put16(&mut value, 4, 0x40);
    let buf = build_resident(AT::AttributeList.to_u32(), &value);
    let a = Attribute::parse(&buf).unwrap();
    let entries = a.parse_attribute_list().unwrap();
    assert!(entries.is_empty());
}

#[test]
fn attribute_type_codes_round_trip() {
    for t in [AT::StandardInformation, AT::AttributeList, AT::FileName, AT::Data] {
        assert_eq!(AT::from_u32(t.to_u32()), t);
    }
    assert_eq!(AT::Data.to_u32(), 0x80);
    assert_eq!(AT::FileName.to_u32(), 0x30);
}

fn make_boot() -> Vec<u8> {
    let mut b = vec![0u8; 512];
    b[0..3].copy_from_slice(&[0xEB, 0x52, 0x90]);
    b[3..11].copy_from_slice(b"NTFS    ");
    put16(&mut b, 0x0B, 512);
    b[0x0D] = 8;
    put64(&mut b, 0x28, 200_000);
    put64(&mut b, 0x30, 4);
    put64(&mut b, 0x38, 100);
    b[0x40] = 0xF6;
    b[0x44] = 0x01;
    put64(&mut b, 0x48, 0xDEAD_BEEF_CAFE_BABE);
    b[0x1FE] = 0x55;
    b[0x1FF] = 0xAA;
    b
}

#[test]
fn parses_typical_boot() {
    let b = NtfsBoot::parse(&make_boot(), 0).unwrap();
    assert_eq!(b.bytes_per_sector, 512);
    assert_eq!(b.sectors_per_cluster, 8);
    assert_eq!(b.cluster_bytes(), 4096);
    assert_eq!(b.mft_lcn, 4);
    assert_eq!(b.mft_record_bytes(), 1024);
    assert_eq!(b.index_buffer_bytes(), 4096);
}

#[test]
fn boot_rejects_bad_magic() {
    let mut b = make_boot();
    b[3] = b'X';
    let r = NtfsBoot::parse(&b, 0);
    assert!(matches!(r, Err(Error::BadMagic { .. })));
}

#[test]
fn rejects_implausible_sector_size() {
    let mut b = make_boot();
    put16(&mut b, 0x0B, 333);
    let r = NtfsBoot::parse(&b, 0);
    assert!(matches!(r, Err(Error::Corrupt { .. })));
}

#[test]
fn short_boot_sector_is_eof() {
    let r = NtfsBoot::parse(&[0u8; 100], 3);
    assert_eq!(r.unwrap_err(), Error::UnexpectedEof { offset: 1536, need: 512, have: 100 });
}

const FILE_MAGIC: &[u8] = b"FILE";
const FLAG_IN_USE: u16 = 0x01;

fn write_resident_attr(buf: &mut [u8], cursor: &mut usize, ty: u32, value: &[u8]) {
    let header = 24usize;
    let value_offset = header;
    let total = header + value.len();
    let total = (total + 7) & !7;
    put32(buf, *cursor, ty);
    put32(buf, *cursor + 4, total as u32);
    buf[*cursor + 8] = 0;
    buf[*cursor + 9] = 0;
    put16(buf, *cursor + 10, 0);
    put16(buf, *cursor + 12, 0);
    put16(buf, *cursor + 14, 0);
    put32(buf, *cursor + 16, value.len() as u32);
    put16(buf, *cursor + 20, value_offset as u16);
    buf[*cursor + 22] = 0;
    buf[*cursor + 23] = 0;
    buf[*cursor + value_offset..*cursor + value_offset + value.len()].copy_from_slice(value);
    *cursor += total;
}

fn make_filename_value(name: &str) -> Vec<u8> {
    let mut v = vec![0u8; 0x42];
    put64(&mut v, 0, 5);
    let utf16: Vec<u16> = name.encode_utf16().collect();
    v[0x40] = utf16.len() as u8;
    v[0x41] = 1;
    for c in utf16 {
        v.push((c & 0xFF) as u8);
        v.push((c >> 8) as u8);
    }
    v
}

fn finish_record(buf: &mut [u8], cursor: usize, usa_off: usize, usn: u16) {
    put32(buf, cursor, 0xFFFF_FFFF);
    let used_size = (cursor + 4) as u32;
    put32(buf, 0x18, used_size);
    for i in 1..3usize {
        let pos = i * 512 - 2;
        buf[pos] = (usn & 0xFF) as u8;
        buf[pos + 1] = (usn >> 8) as u8;
    }
    let _ = usa_off;
}

fn record_header(in_use: bool, saved: (u16, u16)) -> Vec<u8> {
    let mut buf = vec![0u8; 1024];
    buf[..4].copy_from_slice(FILE_MAGIC);
    put16(&mut buf, 0x04, 0x2A);
    put16(&mut buf, 0x06, 3);
    put16(&mut buf, 0x10, 1);
    put16(&mut buf, 0x12, 1);
    put16(&mut buf, 0x14, 0x38);
    put16(&mut buf, 0x16, if in_use { FLAG_IN_USE } else { 0 });
    put32(&mut buf, 0x1C, 1024);
    put16(&mut buf, 0x2A, 0xCAFE);
    put16(&mut buf, 0x2C, saved.0);
    put16(&mut buf, 0x2E, saved.1);
    buf
}

fn make_record(name: &str, data: &[u8], in_use: bool) -> (Vec<u8>, u32) {
    let mut buf = record_header(in_use, (0x1111, 0x2222));
    let mut cursor = 0x38usize;
    write_resident_attr(&mut buf, &mut cursor, AT::StandardInformation.to_u32(), &[0u8; 48]);
    let fname = make_filename_value(name);
    write_resident_attr(&mut buf, &mut cursor, AT::FileName.to_u32(), &fname);
    write_resident_attr(&mut buf, &mut cursor, AT::Data.to_u32(), data);
    finish_record(&mut buf, cursor, 0x2A, 0xCAFE);
    (buf, 1024)
}

#[test]
fn parses_record_and_finds_filename() {
    let (buf, sz) = make_record("hello.txt", b"hello world", true);
    let rec = MftRecord::parse(&buf, 512, sz).unwrap();
    assert!(rec.is_initialised());
    assert!(rec.is_in_use());
    assert!(!rec.is_directory());
    assert_eq!(rec.best_name().as_deref(), Some("hello.txt"));
    assert!(rec.is_data_resident());
    assert_eq!(rec.real_size(), b"hello world".len() as u64);
    assert_eq!(rec.head_hex(4), "68656C6C");
}

#[test]
fn detects_deleted_record() {
    let (buf, sz) = make_record("gone.bin", b"x", false);
    let rec = MftRecord::parse(&buf, 512, sz).unwrap();
    assert!(rec.is_initialised());
    assert!(!rec.is_in_use());
}

#[test]
fn rejects_bad_fixup() {
    let (mut buf, sz) = make_record("a.txt", b"x", true);
    buf[2 * 512 - 2] ^= 0xFF;
    let r = MftRecord::parse(&buf, 512, sz);
    assert!(matches!(r, Err(Error::Corrupt { .. })));
}

#[test]
fn non_file_record_is_uninitialised() {
    let buf = vec![0u8; 1024];
    let rec = MftRecord::parse(&buf, 512, 1024).unwrap();
    assert!(!rec.is_initialised());
    assert_eq!(rec.recoverability_score(), 0);
}

fn nonres_data_bytes(starting_vcn: u64, last_vcn: u64, lcn: u64, length_clusters: u64, real_size: u64) -> Vec<u8> {
    let runlist = [0x21, length_clusters as u8, (lcn & 0xFF) as u8, ((lcn >> 8) & 0xFF) as u8, 0x00];
    let header_size: usize = 0x40;
    let total: usize = ((header_size + runlist.len()) + 7) & !7;
    let mut buf = vec![0u8; total];
    put32(&mut buf, 0, AT::Data.to_u32());
    put32(&mut buf, 4, total as u32);
    buf[8] = 1;
    put64(&mut buf, 16, starting_vcn);
    put64(&mut buf, 24, last_vcn);
    put16(&mut buf, 32, header_size as u16);
    put64(&mut buf, 40, real_size);
    put64(&mut buf, 48, real_size);
    put64(&mut buf, 56, real_size);
    buf[header_size..header_size + runlist.len()].copy_from_slice(&runlist);
    buf
}

fn make_nonres_record(lcn: u64, length_clusters: u64, real_size: u64) -> (Vec<u8>, u32) {
    let mut buf = record_header(true, (0, 0));
    let mut cursor = 0x38usize;
    let fname = make_filename_value("big.bin");
    write_resident_attr(&mut buf, &mut cursor, AT::FileName.to_u32(), &fname);
    let attr = nonres_data_bytes(0, length_clusters.saturating_sub(1), lcn, length_clusters, real_size);
    buf[cursor..cursor + attr.len()].copy_from_slice(&attr);
    cursor += attr.len();
    finish_record(&mut buf, cursor, 0x2A, 0xCAFE);
    (buf, 1024)
}

fn make_nonres_data_attr(starting_vcn: u64, last_vcn: u64, lcn: u64, length_clusters: u64, real_size: u64) -> Attribute {
    Attribute::parse(&nonres_data_bytes(starting_vcn, last_vcn, lcn, length_clusters, real_size)).unwrap()
}

#[test]
fn data_runs_converts_clusters_to_device_lba() {
    let (buf, sz) = make_nonres_record(100, 3, 12_288);
    let rec = MftRecord::parse(&buf, 512, sz).unwrap();
    assert!(!rec.is_data_resident());
    let runs = rec.data_runs(4096, 512, 2048).unwrap();
    assert_eq!(runs.len(), 1);
    assert_eq!(runs[0].start_lba, 2048 + 100 * 8);
    assert_eq!(runs[0].length_sectors, 3 * 8);
    assert_eq!(rec.recoverability_score(), 80);
}

#[test]
fn data_runs_returns_empty_for_resident() {
    let (buf, sz) = make_record("hi.txt", b"hi", true);
    let rec = MftRecord::parse(&buf, 512, sz).unwrap();
    assert!(rec.is_data_resident());
    let runs = rec.data_runs(4096, 512, 2048).unwrap();
    assert!(runs.is_empty());
    assert_eq!(rec.recoverability_score(), 95);
}

#[test]
fn data_runs_concatenates_chunks_in_vcn_order() {
    let (buf, sz) = make_nonres_record(100, 3, 12_288);
    let mut rec = MftRecord::parse(&buf, 512, sz).unwrap();
    rec.append_attribute(make_nonres_data_attr(3, 7, 500, 5, 0));
    let runs = rec.data_runs(4096, 512, 2048).unwrap();
    assert_eq!(runs.len(), 2);
    assert_eq!(runs[0].start_lba, 2048 + 100 * 8);
    assert_eq!(runs[0].length_sectors, 3 * 8);
    assert_eq!(runs[1].start_lba, 2048 + 500 * 8);
    assert_eq!(runs[1].length_sectors, 5 * 8);
    assert_eq!(rec.real_size(), 12_288);
    assert!(!rec.is_data_resident());
}

#[test]
fn data_runs_sort_chunks_by_starting_vcn() {
    let (buf, sz) = make_nonres_record(100, 3, 12_288);
    let mut rec = MftRecord::parse(&buf, 512, sz).unwrap();
    rec.append_attribute(make_nonres_data_attr(8, 10, 900, 3, 0));
    rec.append_attribute(make_nonres_data_attr(3, 7, 500, 5, 0));
    let runs = rec.data_runs(4096, 512, 2048).unwrap();
    assert_eq!(runs.len(), 3);
    assert_eq!(runs[0].start_lba, 2048 + 100 * 8);
    assert_eq!(runs[1].start_lba, 2048 + 500 * 8);
    assert_eq!(runs[2].start_lba, 2048 + 900 * 8);
}

#[test]
fn filetimes_convert_to_unix_time() {
    assert_eq!(filetime_to_unix(116_444_736_000_000_000), (0, 0));
    assert_eq!(filetime_to_unix(132_000_000_001_234_567), (1_555_526_400, 123_456_700));
    assert_eq!(filetime_to_unix(0), (-11_644_473_600, 0));
}
