use trirecover::error::Error;
use trirecover::filesystem::exfat::{parse_entry, ExFatBoot, ExFatDirEntry};
use trirecover::filesystem::fat::bpb::Fat32Bpb;
use trirecover::filesystem::fat::dir::{DirIter, FatDirEntry};
use trirecover::filesystem::fat::table::{is_bad_cluster, is_end_of_chain, is_free};
use trirecover::filesystem::fat::volume::Fat32Volume;
use trirecover::storage::FixtureReader;
use trirecover::types::{DataRun, FileKind, FileSource, PartitionInfo, PartitionScheme};

fn put16(b: &mut [u8], off: usize, v: u16) {
    b[off..off + 2].copy_from_slice(&v.to_le_bytes());
}

fn put32(b: &mut [u8], off: usize, v: u32) {
    b[off..off + 4].copy_from_slice(&v.to_le_bytes());
}

fn make_bpb() -> Vec<u8> {
    let mut b = vec![0u8; 512];
    b[0..3].copy_from_slice(&[0xEB, 0x58, 0x90]);
    put16(&mut b, 0x0B, 512);
    b[0x0D] = 8;
    put16(&mut b, 0x0E, 32);
    b[0x10] = 2;
    put32(&mut b, 0x20, 1_000_000);
    put32(&mut b, 0x24, 1024);
    put32(&mut b, 0x2C, 2);
    put16(&mut b, 0x30, 1);
    put16(&mut b, 0x32, 6);
    b[0x52..0x5A].copy_from_slice(b"FAT32   ");
    b[0x1FE] = 0x55;
    b[0x1FF] = 0xAA;
    b
}

#[test]
fn parses_valid() {
    let b = Fat32Bpb::parse(&make_bpb(), 0).unwrap();
    assert_eq!(b.bytes_per_sector, 512);
    assert_eq!(b.sectors_per_cluster, 8);
    assert_eq!(b.fat_size_sectors, 1024);
    assert_eq!(b.root_cluster, 2);
}

#[test]
fn rejects_missing_fat32_id() {
    let mut b = make_bpb();
    b[0x52] = b'X';
    assert!(matches!(Fat32Bpb::parse(&b, 0), Err(Error::BadMagic { .. })));
}

#[test]
fn rejects_non_power_of_two_cluster() {
    let mut b = make_bpb();
    b[0x0D] = 3;
    assert!(matches!(Fat32Bpb::parse(&b, 0), Err(Error::Corrupt { .. })));
}

fn make_sfn(name: &[u8; 11], attr: u8, size: u32, cluster: u32, deleted: bool) -> [u8; 32] {
    let mut e = [0u8; 32];
    e[..11].copy_from_slice(name);
    if deleted {
        e[0] = 0xE5;
    }
    e[0x0B] = attr;
    put16(&mut e, 0x14, (cluster >> 16) as u16);
    put16(&mut e, 0x1A, (cluster & 0xFFFF) as u16);
    put32(&mut e, 0x1C, size);
    e
}

#[test]
fn parses_simple_sfn() {
    let e = make_sfn(b"HELLO   TXT", 0x20, 11, 5, false);
    let iter_buf = e.to_vec();
    let mut it = DirIter::new(&iter_buf);
    let entry = it.next_entry().unwrap();
    if let FatDirEntry::File(f) = entry {
        assert_eq!(f.name, "HELLO.TXT");
        assert_eq!(f.size_bytes, 11);
        assert_eq!(f.first_cluster, 5);
        assert!(!f.is_deleted);
    } else {
        panic!("not a file entry");
    }
}

#[test]
fn detects_deleted_entry() {
    let e = make_sfn(b"GONE    BIN", 0x20, 5, 9, true);
    let buf = e.to_vec();
    let mut it = DirIter::new(&buf);
    let entry = it.next_entry().unwrap();
    if let FatDirEntry::File(f) = entry {
        assert!(f.is_deleted);
        assert!(f.name.starts_with('_'));
    } else {
        panic!();
    }
}

#[test]
fn end_of_dir_signal() {
    let buf = vec![0u8; 32];
    let mut it = DirIter::new(&buf);
    assert!(matches!(it.next_entry(), Some(FatDirEntry::EndOfDirectory)));
}

#[test]
fn long_name_is_reassembled() {
    // One LFN piece holding "notes.md", then its 8.3 entry.
    let mut lfn = [0u8; 32];
    lfn[0] = 0x41;
    lfn[0x0B] = 0x0F;
    let units: Vec<u16> = "notes.md".encode_utf16().chain(std::iter::once(0)).chain(std::iter::repeat(0xFFFF)).take(13).collect();
    let pos = [1usize, 3, 5, 7, 9, 0x0E, 0x10, 0x12, 0x14, 0x16, 0x18, 0x1C, 0x1E];
    for (k, u) in units.iter().enumerate() {
        put16(&mut lfn, pos[k], *u);
    }
    let sfn = make_sfn(b"NOTES   MD ", 0x20, 3, 7, false);
    let mut buf = lfn.to_vec();
    buf.extend_from_slice(&sfn);
    let mut it = DirIter::new(&buf);
    match it.next_entry() {
        Some(FatDirEntry::File(f)) => assert_eq!(f.name, "notes.md"),
        other => panic!("{other:?}"),
    }
    assert!(it.next_entry().is_none());
}

#[test]
fn boundary_values() {
    assert!(is_free(0));
    assert!(!is_free(2));
    assert!(is_bad_cluster(0x0FFFFFF7));
    assert!(is_end_of_chain(0x0FFFFFF8));
    assert!(is_end_of_chain(0x0FFFFFFF));
}

#[test]
fn parses_minimal_boot() {
    let mut b = vec![0u8; 512];
    b[3..11].copy_from_slice(b"EXFAT   ");
    b[0x6C] = 9;
    b[0x6D] = 3;
    b[0x6E] = 2;
    let p = ExFatBoot::parse(&b, 0).unwrap();
    assert_eq!(p.bytes_per_sector(), 512);
    assert_eq!(p.sectors_per_cluster(), 8);
    assert_eq!(p.num_fats, 2);
}

#[test]
fn mod_rejects_bad_magic() {
    let b = vec![0u8; 512];
    assert!(matches!(ExFatBoot::parse(&b, 0), Err(Error::BadMagic { .. })));
}

#[test]
fn parses_filename_chunk() {
    let mut e = [0u8; 32];
    e[0] = 0xC1;
    for (i, c) in "abc".encode_utf16().enumerate() {
        e[2 + i * 2] = (c & 0xFF) as u8;
        e[2 + i * 2 + 1] = (c >> 8) as u8;
    }
    if let ExFatDirEntry::FileName { chunk } = parse_entry(&e) {
        assert_eq!(chunk, "abc");
    } else {
        panic!();
    }
}

fn partition0() -> PartitionInfo {
    PartitionInfo {
        index: 0,
        scheme: PartitionScheme::Raw,
        type_id: "raw".to_string(),
        name: None,
        filesystem: None,
        start_lba: 0,
        length_sectors: 16,
        sector_size: 512,
        reconstructed: false,
    }
}

/// A tiny FAT32 volume: 512-byte sectors, one sector per cluster, one
/// reserved sector, one FAT of one sector; the root directory in cluster 2
/// holds a live file in clusters 3-4, a deleted file and a sub-directory.
fn tiny_fat_image() -> Vec<u8> {
    let mut img = vec![0u8; 16 * 512];
    let mut b = vec![0u8; 512];
    put16(&mut b, 0x0B, 512);
    b[0x0D] = 1;
    put16(&mut b, 0x0E, 1);
    b[0x10] = 1;
    put32(&mut b, 0x20, 16);
    put32(&mut b, 0x24, 1);
    put32(&mut b, 0x2C, 2);
    b[0x52..0x5A].copy_from_slice(b"FAT32   ");
    b[0x1FE] = 0x55;
    b[0x1FF] = 0xAA;
    img[..512].copy_from_slice(&b);
    let fat = 512;
    put32(&mut img, fat, 0x0FFF_FFF8);
    put32(&mut img, fat + 4, 0x0FFF_FFFF);
    put32(&mut img, fat + 8, 0x0FFF_FFFF);
    put32(&mut img, fat + 12, 4);
    put32(&mut img, fat + 16, 0x0FFF_FFFF);
    put32(&mut img, fat + 20, 0x0FFF_FFFF);
    let root = 2 * 512;
    img[root..root + 32].copy_from_slice(&make_sfn(b"HELLO   TXT", 0x20, 600, 3, false));
    img[root + 32..root + 64].copy_from_slice(&make_sfn(b"OLD     JPG", 0x20, 100, 0, true));
    img[root + 64..root + 96].copy_from_slice(&make_sfn(b"SUB        ", 0x10, 0, 5, false));
    let data = 3 * 512;
    img[data..data + 16].copy_from_slice(b"Hello, recovery!");
    img
}

#[test]
fn cluster_chain_merges_adjacent_clusters() {
    let img = tiny_fat_image();
    let vol = Fat32Volume::open(FixtureReader::new("fat".to_string(), 512, img), partition0()).unwrap();
    let runs = vol.cluster_chain(3, 1024).unwrap();
    assert_eq!(runs, vec![DataRun { start_lba: 3, length_sectors: 2 }]);
    assert!(vol.cluster_chain(0, 1024).unwrap().is_empty());
    assert_eq!(vol.cluster_chain(3, 1).unwrap(), vec![DataRun { start_lba: 3, length_sectors: 1 }]);
}

#[test]
fn collect_files_lists_live_and_deleted_files() {
    let img = tiny_fat_image();
    let vol = Fat32Volume::open(FixtureReader::new("fat".to_string(), 512, img), partition0()).unwrap();
    let files = vol.collect_files(7, 100).unwrap();
    assert_eq!(files.len(), 2);
    assert_eq!(files[0].id, 1);
    assert_eq!(files[0].name, "HELLO.TXT");
    assert_eq!(files[0].path, "HELLO.TXT");
    assert_eq!(files[0].kind, FileKind::Txt);
    assert_eq!(files[0].size_bytes, 600);
    assert_eq!(files[0].recoverability, 95);
    assert_eq!(files[0].head_hex, "48656C6C6F2C207265636F7665727921");
    match &files[0].source {
        FileSource::Filesystem { partition_index, record_id, is_deleted, is_resident, runs } => {
            assert_eq!(*partition_index, 7);
            assert_eq!(*record_id, 1);
            assert!(!*is_deleted);
            assert!(!*is_resident);
            assert_eq!(runs, &vec![DataRun { start_lba: 3, length_sectors: 2 }]);
        }
        other => panic!("{other:?}"),
    }
    assert_eq!(files[1].id, 2);
    assert_eq!(files[1].name, "_LD.JPG");
    assert_eq!(files[1].kind, FileKind::Jpg);
    assert_eq!(files[1].recoverability, 60);
    assert_eq!(files[1].head_hex, "");
    let capped = vol.collect_files(0, 1).unwrap();
    assert_eq!(capped.len(), 1);
}

#[test]
fn open_refuses_a_non_fat_boot_sector() {
    let img = vec![0u8; 4096];
    assert!(Fat32Volume::open(FixtureReader::new("z".to_string(), 512, img), partition0()).is_err());
}
