use trirecover::filesystem::ntfs::attribute::FileName;
use trirecover::filesystem::ntfs::path::{PathResolver, MAX_DEPTH, ROOT_RECORD};
use trirecover::filesystem::ntfs::runlist::{decode, read_signed_le, read_unsigned_le};

fn fname(parent: u64, name: &str) -> FileName {
    FileName { parent_record: parent, namespace: 1, name: name.to_string() }
}

#[test]
fn root_resolves_to_slash() {
    let mut r = PathResolver::new();
    assert_eq!(r.resolve(ROOT_RECORD), "/");
}

#[test]
fn single_level_under_root() {
    let mut r = PathResolver::new();
    r.register(64, &fname(ROOT_RECORD, "hello.txt"));
    assert_eq!(r.resolve(64), "/hello.txt");
}

#[test]
fn nested_path() {
    let mut r = PathResolver::new();
    r.register(40, &fname(ROOT_RECORD, "Users"));
    r.register(50, &fname(40, "alice"));
    r.register(60, &fname(50, "Documents"));
    r.register(70, &fname(60, "report.pdf"));
    assert_eq!(r.resolve(70), "/Users/alice/Documents/report.pdf");
}

#[test]
fn missing_parent_yields_orphan() {
    let mut r = PathResolver::new();
    r.register(70, &fname(60, "lone.bin"));
    assert_eq!(r.resolve(70), "/$Orphan/lone.bin");
}

#[test]
fn cycle_does_not_loop_forever() {
    let mut r = PathResolver::new();
    r.register(70, &fname(80, "a"));
    r.register(80, &fname(70, "b"));
    let p = r.resolve(70);
    assert!(p.starts_with("/$Orphan/"), "got {p}");
}

#[test]
fn root_register_is_ignored() {
    let mut r = PathResolver::new();
    r.register(ROOT_RECORD, &fname(ROOT_RECORD, "."));
    assert_eq!(r.resolve(ROOT_RECORD), "/");
}

#[test]
fn resolve_is_memoized() {
    let mut r = PathResolver::new();
    r.register(40, &fname(ROOT_RECORD, "Users"));
    r.register(50, &fname(40, "alice"));
    assert_eq!(r.resolve(50), "/Users/alice");
    r.register(50, &fname(40, "bob"));
    assert_eq!(r.resolve(50), "/Users/alice");
    assert_eq!(r.resolve_uncached(50), "/Users/bob");
}

#[test]
fn deep_chain_caps_at_max_depth() {
    let mut r = PathResolver::new();
    for i in 0..(MAX_DEPTH as u64 + 10) {
        r.register(1000 + i, &fname(1000 + i + 1, "x"));
    }
    let p = r.resolve(1000);
    assert!(p.starts_with("/$Orphan/"), "got {p}");
    assert_eq!(r.known_records(), MAX_DEPTH + 10);
}

#[test]
fn single_run() {
    let buf = [0x21, 0x18, 0x34, 0x56, 0x00];
    let runs = decode(&buf).unwrap();
    assert_eq!(runs.len(), 1);
    assert_eq!(runs[0].length_clusters, 24);
    assert_eq!(runs[0].lcn, Some(0x5634));
}

#[test]
fn two_runs_with_relative_offset() {
    let buf = [0x21, 0x10, 0x00, 0x01, 0x21, 0x08, 0x20, 0x00, 0x00];
    let runs = decode(&buf).unwrap();
    assert_eq!(runs.len(), 2);
    assert_eq!(runs[0].lcn, Some(0x100));
    assert_eq!(runs[1].lcn, Some(0x100 + 0x20));
}

#[test]
fn negative_offset_delta() {
    let buf = [0x21, 0x08, 0x00, 0x01, 0x11, 0x04, 0xF0, 0x00];
    let runs = decode(&buf).unwrap();
    assert_eq!(runs.len(), 2);
    assert_eq!(runs[0].lcn, Some(0x100));
    assert_eq!(runs[1].lcn, Some(0x100 - 0x10));
}

#[test]
fn sparse_run_is_none() {
    let buf = [0x01, 0x05, 0x00];
    let runs = decode(&buf).unwrap();
    assert_eq!(runs.len(), 1);
    assert_eq!(runs[0].lcn, None);
    assert_eq!(runs[0].length_clusters, 5);
}

#[test]
fn sparse_does_not_advance_lcn() {
    let buf = [0x21, 0x08, 0x00, 0x01, 0x01, 0x04, 0x11, 0x06, 0x10, 0x00];
    let runs = decode(&buf).unwrap();
    assert_eq!(runs.len(), 3);
    assert_eq!(runs[0].lcn, Some(0x100));
    assert_eq!(runs[1].lcn, None);
    assert_eq!(runs[2].lcn, Some(0x110));
}

#[test]
fn rejects_truncated() {
    let buf = [0x21, 0x10];
    let r = decode(&buf);
    assert!(r.is_err());
}

#[test]
fn negative_lcn_is_refused() {
    let buf = [0x11, 0x04, 0xF0, 0x00];
    assert!(decode(&buf).is_err());
}

#[test]
fn little_endian_field_readers() {
    assert_eq!(read_unsigned_le(&[0x34, 0x12]), 0x1234);
    assert_eq!(read_signed_le(&[0xF0]), -16);
    assert_eq!(read_signed_le(&[]), 0);
    assert_eq!(read_signed_le(&[0x00, 0x80]), -32768);
}

#[test]
fn register_counts_new_records_once() {
    let mut r = PathResolver::new();
    r.register(40, &fname(ROOT_RECORD, "Users"));
    assert_eq!(r.known_records(), 1);
    r.register(40, &fname(ROOT_RECORD, "Home"));
    assert_eq!(r.known_records(), 1);
    r.register(ROOT_RECORD, &fname(ROOT_RECORD, "."));
    assert_eq!(r.known_records(), 1);
    r.register(41, &fname(40, "alice"));
    assert_eq!(r.known_records(), 2);
}

