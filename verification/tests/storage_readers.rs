use memmap2::MmapMut;
use trirecover::storage::{MmapReader, SectorReader};

fn mapped(bytes: &[u8]) -> memmap2::Mmap {
    let mut m = MmapMut::map_anon(bytes.len()).unwrap();
    m.copy_from_slice(bytes);
    m.make_read_only().unwrap()
}

#[test]
fn mmap_reader_reads_the_mapped_bytes() {
    let data: Vec<u8> = (0..=255u8).cycle().take(2000).collect();
    let r = MmapReader::new("img".to_string(), mapped(&data));
    assert_eq!(r.size_bytes(), 2000);
    assert_eq!(r.sector_size(), 512);
    assert_eq!(r.label(), "img");
    assert_eq!(r.read_at(10, 5).unwrap(), data[10..15].to_vec());
    assert_eq!(r.read_at(1990, 100).unwrap(), data[1990..].to_vec());
    assert!(r.read_at(2000, 4).unwrap().is_empty());
    assert_eq!(r.read_lba(1).unwrap(), data[512..1024].to_vec());
}

#[test]
fn mmap_reader_keeps_its_sector_size() {
    let r = MmapReader::with_sector_size("dev".to_string(), mapped(&[7u8; 8192]), 4096);
    assert_eq!(r.sector_size(), 4096);
    assert_eq!(r.read_lba(1).unwrap(), vec![7u8; 4096]);
}
