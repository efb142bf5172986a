use trirecover::filesystem::ntfs::volume::NtfsVolume;
use trirecover::filesystem::ntfs::guess_kind;
use trirecover::storage::FixtureReader;
use trirecover::types::{DataRun, FileKind, FileSource, PartitionInfo, PartitionScheme};

fn put16(b: &mut [u8], off: usize, v: u16) {
    b[off..off + 2].copy_from_slice(&v.to_le_bytes());
}

fn put32(b: &mut [u8], off: usize, v: u32) {
    b[off..off + 4].copy_from_slice(&v.to_le_bytes());
}

fn put64(b: &mut [u8], off: usize, v: u64) {
    b[off..off + 8].copy_from_slice(&v.to_le_bytes());
}

/// A FILE record (NTFS 3.1 layout: update sequence array at 0x30, record
/// number at 0x2C) holding the given attributes.
fn record(number: u32, flags: u16, attrs: &[Vec<u8>]) -> Vec<u8> {
    let mut buf = vec![0u8; 1024];
    buf[..4].copy_from_slice(b"FILE");
    put16(&mut buf, 0x04, 0x30);
    put16(&mut buf, 0x06, 3);
    put16(&mut buf, 0x10, 1);
    put16(&mut buf, 0x14, 0x38);
    put16(&mut buf, 0x16, flags);
    put32(&mut buf, 0x1C, 1024);
    put32(&mut buf, 0x2C, number);
    let mut cursor = 0x38;
    for a in attrs {
        buf[cursor..cursor + a.len()].copy_from_slice(a);
        cursor += a.len();
    }
    put32(&mut buf, cursor, 0xFFFF_FFFF);
    put32(&mut buf, 0x18, (cursor + 4) as u32);
    put16(&mut buf, 0x30, 0xCAFE);
    put16(&mut buf, 510, 0xCAFE);
    put16(&mut buf, 1022, 0xCAFE);
    buf
}

fn resident(ty: u32, value: &[u8]) -> Vec<u8> {
    let total = (24 + value.len() + 7) & !7;
    let mut a = vec![0u8; total];
    put32(&mut a, 0, ty);
    put32(&mut a, 4, total as u32);
    put32(&mut a, 16, value.len() as u32);
    put16(&mut a, 20, 24);
    a[24..24 + value.len()].copy_from_slice(value);
    a
}

fn file_name(parent: u64, name: &str) -> Vec<u8> {
    let mut v = vec![0u8; 0x42];
    put64(&mut v, 0, parent);
    let units: Vec<u16> = name.encode_utf16().collect();
    v[0x40] = units.len() as u8;
    v[0x41] = 1;
    for u in units {
        v.extend_from_slice(&u.to_le_bytes());
    }
    resident(0x30, &v)
}

fn mft_data(lcn: u8, clusters: u8) -> Vec<u8> {
    let mut a = vec![0u8; 0x48];
    put32(&mut a, 0, 0x80);
    put32(&mut a, 4, 0x48);
    a[8] = 1;
    put64(&mut a, 16, 0);
    put64(&mut a, 24, u64::from(clusters) - 1);
    put16(&mut a, 32, 0x40);
    let size = u64::from(clusters) * 512;
    put64(&mut a, 40, size);
    put64(&mut a, 48, size);
    put64(&mut a, 56, size);
    a[0x40..0x44].copy_from_slice(&[0x11, clusters, lcn, 0x00]);
    a
}

/// 512-byte sectors and clusters; the $MFT (4 records of 1 KiB) starts at
/// cluster 4. Record 1 is a live file, record 2 a deleted one, record 3 is
/// unused.
fn tiny_ntfs_image() -> Vec<u8> {
    let mut img = vec![0u8; 64 * 512];
    img[3..11].copy_from_slice(b"NTFS    ");
    put16(&mut img, 0x0B, 512);
    img[0x0D] = 1;
    put64(&mut img, 0x28, 64);
    put64(&mut img, 0x30, 4);
    img[0x40] = 0xF6;
    img[0x1FE] = 0x55;
    img[0x1FF] = 0xAA;
    let base = 4 * 512;
    let r0 = record(0, 1, &[mft_data(4, 8)]);
    let r1 = record(1, 1, &[file_name(5, "a.txt"), resident(0x80, b"hi")]);
    let r2 = record(2, 0, &[file_name(5, "b.JPG"), resident(0x80, b"x")]);
    img[base..base + 1024].copy_from_slice(&r0);
    img[base + 1024..base + 2048].copy_from_slice(&r1);
    img[base + 2048..base + 3072].copy_from_slice(&r2);
    img
}

fn partition0() -> PartitionInfo {
    PartitionInfo {
        index: 0,
        scheme: PartitionScheme::Raw,
        type_id: "raw".to_string(),
        name: None,
        filesystem: None,
        start_lba: 0,
        length_sectors: 64,
        sector_size: 512,
        reconstructed: false,
    }
}

#[test]
fn opens_a_volume_and_maps_records() {
    let vol = NtfsVolume::open(FixtureReader::new("ntfs".to_string(), 512, tiny_ntfs_image()), partition0()).unwrap();
    assert_eq!(vol.mft_record_size, 1024);
    assert_eq!(vol.mft_runs, vec![DataRun { start_lba: 4, length_sectors: 8 }]);
    assert_eq!(vol.approximate_record_count(), 4);
    let r1 = vol.read_record(1).unwrap();
    assert_eq!(r1.best_name().as_deref(), Some("a.txt"));
    assert!(vol.read_record(4).is_err());
    let (merged, exts) = vol.expand_record(r1).unwrap();
    assert!(exts.is_empty());
    assert_eq!(merged.best_name().as_deref(), Some("a.txt"));
}

#[test]
fn collect_files_lists_named_file_records() {
    let vol = NtfsVolume::open(FixtureReader::new("ntfs".to_string(), 512, tiny_ntfs_image()), partition0()).unwrap();
    let files = vol.collect_files(3, u64::MAX).unwrap();
    assert_eq!(files.len(), 2);
    assert_eq!(files[0].id, 1);
    assert_eq!(files[0].name, "a.txt");
    assert_eq!(files[0].path, "/a.txt");
    assert_eq!(files[0].kind, FileKind::Txt);
    assert_eq!(files[0].size_bytes, 2);
    assert_eq!(files[0].head_hex, "6869");
    assert_eq!(files[0].recoverability, 95);
    match &files[0].source {
        FileSource::Filesystem { partition_index, record_id, is_deleted, is_resident, runs } => {
            assert_eq!(*partition_index, 3);
            assert_eq!(*record_id, 1);
            assert!(!*is_deleted);
            assert!(*is_resident);
            assert!(runs.is_empty());
        }
        other => panic!("{other:?}"),
    }
    assert_eq!(files[1].name, "b.JPG");
    assert_eq!(files[1].kind, FileKind::Jpg);
    assert!(matches!(files[1].source, FileSource::Filesystem { is_deleted: true, .. }));
    assert_eq!(vol.collect_files(3, 2).unwrap().len(), 1);
}

#[test]
fn open_refuses_a_non_ntfs_boot_sector() {
    assert!(NtfsVolume::open(FixtureReader::new("z".to_string(), 512, vec![0u8; 4096]), partition0()).is_err());
}

#[test]
fn kinds_are_guessed_from_names() {
    assert_eq!(guess_kind("Holiday.JPEG"), FileKind::Jpg);
    assert_eq!(guess_kind("notes.md"), FileKind::Txt);
    assert_eq!(guess_kind("archive.tar.7z"), FileKind::SevenZ);
    assert_eq!(guess_kind("README"), FileKind::Other);
    assert_eq!(guess_kind("clip.m4v"), FileKind::Mp4);
}

fn alist_entry(ty: u32, record: u64) -> Vec<u8> {
    let mut e = vec![0u8; 0x20];
    put32(&mut e, 0, ty);
    put16(&mut e, 4, 0x20);
    put64(&mut e, 0x10, record | (1u64 << 48));
    e
}

/// The tiny image with record 1 carrying an attribute list that names
/// itself, record 3 twice and record 2; record 3 extends record 1.
fn ntfs_image_with_attribute_list() -> Vec<u8> {
    let mut img = tiny_ntfs_image();
    let mut list = Vec::new();
    for r in [1u64, 3, 3, 2] {
        list.extend_from_slice(&alist_entry(0x80, r));
    }
    let r1 = record(1, 1, &[file_name(5, "a.txt"), resident(0x20, &list), resident(0x80, b"hi")]);
    let mut r3 = record(3, 1, &[resident(0x80, b"zz")]);
    put64(&mut r3, 0x20, 1);
    let base = 4 * 512;
    img[base + 1024..base + 2048].copy_from_slice(&r1);
    img[base + 3072..base + 4096].copy_from_slice(&r3);
    img
}

#[test]
fn attribute_lists_fold_extension_records_in() {
    let vol = NtfsVolume::open(
        FixtureReader::new("ntfs".to_string(), 512, ntfs_image_with_attribute_list()),
        partition0(),
    )
    .unwrap();
    let r1 = vol.read_record(1).unwrap();
    assert_eq!(r1.attributes.len(), 3);
    let (merged, exts) = vol.expand_record(r1).unwrap();
    assert_eq!(exts, vec![3, 2]);
    // record 3 adds one attribute, record 2 its two
    assert_eq!(merged.attributes.len(), 6);
    assert_eq!(merged.best_name().as_deref(), Some("a.txt"));
    let files = vol.collect_files(0, u64::MAX).unwrap();
    assert_eq!(files.len(), 1);
    assert_eq!(files[0].name, "a.txt");
}

#[test]
fn every_kind_extension_names_its_kind() {
    for k in [
        FileKind::Jpg,
        FileKind::Png,
        FileKind::Gif,
        FileKind::Tiff,
        FileKind::Mp4,
        FileKind::Mov,
        FileKind::Docx,
        FileKind::SevenZ,
        FileKind::Ai,
        FileKind::Sql,
        FileKind::Other,
    ] {
        let name = format!("file.{}", k.extension());
        assert_eq!(guess_kind(&name), k);
    }
}

#[test]
fn guess_kind_of_file_with_canonical_extension_in_either_case() {
    let kinds = [
        FileKind::Jpg, FileKind::Png, FileKind::Gif, FileKind::Bmp, FileKind::Tiff, FileKind::Mp4, FileKind::Mov,
        FileKind::Mkv, FileKind::Avi, FileKind::Pdf, FileKind::Docx, FileKind::Xlsx, FileKind::Pptx, FileKind::Zip,
        FileKind::Rar, FileKind::SevenZ, FileKind::Psd, FileKind::Ai, FileKind::Txt, FileKind::Csv, FileKind::Sql,
        FileKind::Other,
    ];
    for k in kinds {
        let s = format!("file.{}", k.extension());
        assert_eq!(guess_kind(&s), k, "{s}");
        assert_eq!(guess_kind(&s.to_ascii_uppercase()), k, "{s}");
    }
}
