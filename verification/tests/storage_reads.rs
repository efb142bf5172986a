use trirecover::storage::{classify, read_zero_padded, FixtureReader, ReadOptions, SectorReader};
use trirecover::types::{SmartHealth, SmartReport};

#[test]
fn reads_within_bounds() {
    let r = FixtureReader::new("t".to_string(), 512, vec![0xAA; 1024]);
    let buf = r.read_at(100, 16).unwrap();
    assert_eq!(buf.len(), 16);
    assert!(buf.iter().all(|b| *b == 0xAA));
}

#[test]
fn returns_short_at_eof() {
    let r = FixtureReader::new("t".to_string(), 512, vec![0xAA; 100]);
    let buf = r.read_at(80, 50).unwrap();
    assert_eq!(buf.len(), 20);
}

#[test]
fn returns_zero_past_eof() {
    let r = FixtureReader::new("t".to_string(), 512, vec![0xAA; 100]);
    let buf = r.read_at(1000, 50).unwrap();
    assert_eq!(buf.len(), 0);
}

#[test]
fn sector_reads_use_the_sector_size() {
    let data: Vec<u8> = (0..2048u32).map(|i| (i / 512) as u8).collect();
    let r = FixtureReader::new("s".to_string(), 512, data);
    assert_eq!(r.size_bytes(), 2048);
    assert_eq!(r.sector_size(), 512);
    assert_eq!(r.read_lba(2).unwrap(), vec![2u8; 512]);
    let run = r.read_lba_run(1, 2).unwrap();
    assert_eq!(run.len(), 1024);
    assert_eq!(run[0], 1);
    assert_eq!(run[1023], 2);
    assert_eq!(r.read_at_with(0, 4, ReadOptions::default()).unwrap(), vec![0u8; 4]);
}

#[test]
fn zero_padded_reads_fill_past_the_end() {
    let r = FixtureReader::new("p".to_string(), 512, vec![7u8; 10]);
    assert_eq!(read_zero_padded(&r, 8, 4).unwrap(), vec![7, 7, 0, 0]);
}

fn empty() -> SmartReport {
    SmartReport {
        drive_path: "x".into(),
        overall: SmartHealth::Unknown,
        temperature_c: None,
        power_on_hours: None,
        reallocated_sectors: None,
        pending_sectors: None,
        wear_leveling_remaining: None,
        raw_attributes: vec![],
        captured_at_unix: 0,
    }
}

#[test]
fn ok_when_all_clean() {
    assert_eq!(classify(&empty()), SmartHealth::Healthy);
}

#[test]
fn caution_on_reallocation() {
    let r = SmartReport { reallocated_sectors: Some(5), ..empty() };
    assert_eq!(classify(&r), SmartHealth::Caution);
}

#[test]
fn failing_on_heavy_reallocation() {
    let r = SmartReport { reallocated_sectors: Some(500), ..empty() };
    assert_eq!(classify(&r), SmartHealth::Failing);
}

#[test]
fn caution_on_high_temp() {
    let r = SmartReport { temperature_c: Some(75), ..empty() };
    assert_eq!(classify(&r), SmartHealth::Caution);
}

#[test]
fn failing_on_low_wear_remaining() {
    let r = SmartReport { wear_leveling_remaining: Some(5), ..empty() };
    assert_eq!(classify(&r), SmartHealth::Failing);
}

#[test]
fn pending_sectors_mean_caution() {
    let r = SmartReport { pending_sectors: Some(1), ..empty() };
    assert_eq!(classify(&r), SmartHealth::Caution);
    let r = SmartReport { wear_leveling_remaining: Some(20), ..empty() };
    assert_eq!(classify(&r), SmartHealth::Caution);
}

#[test]
fn borrowed_reader_reads_the_same_device() {
    let r = FixtureReader::new("img".to_string(), 4096, vec![1, 2, 3, 4, 5]);
    let b = &r;
    assert_eq!(b.read_at(1, 3).unwrap(), vec![2, 3, 4]);
    assert_eq!(b.size_bytes(), 5);
    assert_eq!(b.sector_size(), 4096);
    assert_eq!(b.label(), "img");
    assert_eq!(read_zero_padded(&b, 3, 4).unwrap(), vec![4, 5, 0, 0]);
}
