use trirecover::carve::scanner::{CancelToken, Carver, ScanConfig};
use trirecover::carve::signature::{signatures, SignatureIndex};
use trirecover::error::Error;
use trirecover::storage::{FixtureReader, SectorReader};
use trirecover::types::FileKind;

#[test]
fn every_signature_has_at_least_one_fixed_byte() {
    for s in signatures() {
        assert!(s.magic.iter().any(Option::is_some), "signature {} has no fixed byte", s.name);
    }
}

#[test]
fn jpg_magic_matches_at_zero() {
    let sig = &signatures()[0];
    assert_eq!(sig.kind, FileKind::Jpg);
    let buf = [0xFF, 0xD8, 0xFF, 0xE0, 0x00];
    assert!(sig.matches(&buf, 0));
}

#[test]
fn mp4_magic_matches_with_offset_4() {
    let mp4_idx = signatures().iter().position(|s| s.name == "mp4").unwrap();
    let sig = &signatures()[mp4_idx];
    let buf = [0x00, 0x00, 0x00, 0x20, b'f', b't', b'y', b'p', b'i', b's', b'o', b'm'];
    assert!(sig.matches(&buf, 0));
    assert_eq!(sig.candidate_offset_from_anchor(), 4);
    assert_eq!(sig.anchor_byte(), b'f');
}

#[test]
fn riff_avi_uses_wildcards() {
    let sigs = signatures();
    let avi = sigs.iter().find(|s| s.name == "avi").unwrap();
    let mut buf = b"RIFF\x00\x00\x00\x00AVI \x00".to_vec();
    buf.extend_from_slice(&[0u8; 64]);
    assert!(avi.matches(&buf, 0));
}

#[test]
fn signature_index_routes_first_byte() {
    let idx = SignatureIndex::build();
    let cands = idx.candidates(0xFF);
    assert!(!cands.is_empty());
    assert!(idx.candidates(0x00).is_empty());
}

#[test]
fn signature_index_excludes_text_formats() {
    let idx = SignatureIndex::build();
    for &id in &idx.magic_driven {
        let s = &signatures()[id as usize];
        assert!(!matches!(s.kind, FileKind::Txt | FileKind::Csv | FileKind::Sql));
    }
}

#[test]
fn magic_mismatch_is_not_a_match() {
    let sig = &signatures()[0];
    assert!(!sig.matches(&[0xFF, 0xD8, 0x00], 0));
    assert!(!sig.matches(&[0xFF, 0xD8], 0));
}

fn minimal_jpeg() -> Vec<u8> {
    let mut jpeg = vec![0xFF, 0xD8];
    jpeg.extend_from_slice(&[0xFF, 0xE0, 0x00, 0x10]);
    jpeg.extend_from_slice(b"JFIF\x00\x01\x01\x00\x00\x01\x00\x01\x00\x00");
    jpeg.extend_from_slice(&[0xFF, 0xDB, 0x00, 0x04, 0x00, 0x00]);
    jpeg.extend_from_slice(&[0xFF, 0xDA, 0x00, 0x04, 0x00, 0x00]);
    jpeg.extend_from_slice(&[0x12, 0x34, 0xFF, 0x00, 0x56]);
    jpeg.extend_from_slice(&[0xFF, 0xD9]);
    jpeg
}

#[test]
fn scans_one_jpeg_in_zero_padding() {
    let jpeg = minimal_jpeg();
    let mut img = vec![0u8; 1024 * 1024];
    let off = 256 * 1024usize;
    img[off..off + jpeg.len()].copy_from_slice(&jpeg);
    let reader = FixtureReader::new("test".to_string(), 512, img);
    let size = reader.size_bytes();
    let cfg = ScanConfig { chunk_size: 128 * 1024, overlap: 8 * 1024, ..Default::default() };
    let carver = Carver::new(reader, cfg);
    let mut found = Vec::new();
    let stats = carver.scan_range(0, size, &mut found, &CancelToken::new()).unwrap();
    assert_eq!(found.len(), 1, "expected one carved jpeg, got {found:?}");
    assert_eq!(found[0].kind, FileKind::Jpg);
    assert_eq!(found[0].offset_bytes, off as u64);
    assert_eq!(found[0].length_bytes as usize, jpeg.len());
    assert!(stats.files_confirmed >= 1);
}

#[test]
fn cancellation_terminates_scan() {
    let img = vec![0u8; 4 * 1024 * 1024];
    let reader = FixtureReader::new("z".to_string(), 512, img);
    let size = reader.size_bytes();
    let cancel = CancelToken::new();
    cancel.cancel();
    let carver = Carver::new(reader, ScanConfig::default());
    let mut found = Vec::new();
    let r = carver.scan_range(0, size, &mut found, &cancel);
    assert!(matches!(r, Err(Error::Cancelled)));
}

#[test]
fn empty_range_scans_nothing() {
    let reader = FixtureReader::new("e".to_string(), 512, minimal_jpeg());
    let carver = Carver::new(reader, ScanConfig::default());
    let mut found = Vec::new();
    let stats = carver.scan_range(10, 10, &mut found, &CancelToken::new()).unwrap();
    assert!(found.is_empty());
    assert_eq!(stats.files_confirmed, 0);
}

#[test]
fn kind_filter_drops_other_kinds() {
    let jpeg = minimal_jpeg();
    let mut img = vec![0u8; 64 * 1024];
    img[4096..4096 + jpeg.len()].copy_from_slice(&jpeg);
    let reader = FixtureReader::new("k".to_string(), 512, img);
    let size = reader.size_bytes();
    let cfg = ScanConfig { kinds: Some(vec![FileKind::Png]), ..Default::default() };
    let carver = Carver::new(reader, cfg);
    let mut found = Vec::new();
    carver.scan_range(0, size, &mut found, &CancelToken::new()).unwrap();
    assert!(found.is_empty());
}

#[test]
fn jpeg_spanning_chunk_boundary_is_found() {
    let jpeg = minimal_jpeg();
    assert_eq!(jpeg.len(), 39);
    let mut img = vec![0u8; 1024 * 1024];
    let off = 131071usize;
    img[off..off + jpeg.len()].copy_from_slice(&jpeg);
    let reader = FixtureReader::new("t".to_string(), 512, img);
    let cfg = ScanConfig { chunk_size: 131072, overlap: 8192, ..Default::default() };
    let carver = Carver::new(reader, cfg);
    let mut found = Vec::new();
    let stats = carver.scan_range(0, 1024 * 1024, &mut found, &CancelToken::new()).unwrap();
    assert_eq!(found.len(), 1, "{found:?}");
    assert_eq!(found[0].kind, FileKind::Jpg);
    assert_eq!(found[0].offset_bytes, 131071);
    assert_eq!(found[0].length_bytes, 39);
    assert_eq!(found[0].signature, "jpg");
    assert_eq!(found[0].recoverability, 80);
    assert_eq!(stats.files_confirmed, 1);
    assert_eq!(stats.candidates_examined, stats.rejections + stats.files_confirmed);
    assert_eq!(stats.needs_more_giveups, 0);
}

#[test]
fn scan_counts_every_byte_of_a_short_device_once() {
    let reader = FixtureReader::new("s".to_string(), 512, vec![0u8; 1000]);
    let cfg = ScanConfig { chunk_size: 4096, overlap: 64, ..Default::default() };
    let carver = Carver::new(reader, cfg);
    let mut found = Vec::new();
    let stats = carver.scan_range(0, 1000, &mut found, &CancelToken::new()).unwrap();
    assert!(found.is_empty());
    assert_eq!(stats.bytes_scanned, 1000);
    assert_eq!(stats.candidates_examined, 0);
    assert_eq!(stats.files_confirmed, 0);
    assert_eq!(stats.rejections, 0);
}

#[test]
fn every_byte_scanned_once_across_chunks() {
    let reader = FixtureReader::new("s".to_string(), 512, vec![0u8; 10_000]);
    let cfg = ScanConfig { chunk_size: 1024, overlap: 100, ..Default::default() };
    let carver = Carver::new(reader, cfg);
    let mut found = Vec::new();
    let stats = carver.scan_range(0, 10_000, &mut found, &CancelToken::new()).unwrap();
    assert!(found.is_empty());
    assert_eq!(stats.bytes_scanned, 10_000);
}
