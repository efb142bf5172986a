use trirecover::engine::job::{
    atomic_to_state, next_state, settle, state_to_atomic, JobControl, JobRequest,
};
use trirecover::engine::pipeline::{compute_unallocated_ranges, ScanPipeline, CARVED_ID_BASE};
use trirecover::engine::recovery::RecoveryWriter;
use trirecover::engine::strategies::{description, first_phase, plan, recommend, speed_rating};
use trirecover::error::Error;
use trirecover::storage::FixtureReader;
use trirecover::types::{
    CarvedFile, DataRun, FileKind, FileSource, JobState, PartitionInfo, PartitionScheme, RecoveryStrategy,
};

const ALL: [RecoveryStrategy; 6] = [
    RecoveryStrategy::Quick,
    RecoveryStrategy::Deep,
    RecoveryStrategy::Raw,
    RecoveryStrategy::Partition,
    RecoveryStrategy::Formatted,
    RecoveryStrategy::CorruptedFs,
];

#[test]
fn all_strategies_have_descriptions() {
    for s in ALL {
        assert!(!description(s).is_empty());
        assert!(speed_rating(s) >= 1 && speed_rating(s) <= 5);
    }
}

#[test]
fn recommend_formatted() {
    assert_eq!(recommend(true, true, true), RecoveryStrategy::Formatted);
}

#[test]
fn recommend_deep_for_normal() {
    assert_eq!(recommend(true, true, false), RecoveryStrategy::Deep);
}

#[test]
fn recommend_partition_recovery() {
    assert_eq!(recommend(false, false, false), RecoveryStrategy::Partition);
}

#[test]
fn recommend_corrupted_fs() {
    assert_eq!(recommend(true, false, false), RecoveryStrategy::CorruptedFs);
}

#[test]
fn speed_ratings_order_the_strategies() {
    assert_eq!(speed_rating(RecoveryStrategy::Quick), 1);
    assert_eq!(speed_rating(RecoveryStrategy::Partition), 2);
    assert_eq!(speed_rating(RecoveryStrategy::Deep), 3);
    assert_eq!(speed_rating(RecoveryStrategy::CorruptedFs), 4);
    assert_eq!(speed_rating(RecoveryStrategy::Raw), 5);
}

#[test]
fn plans_follow_the_strategy_table() {
    let deep = plan(RecoveryStrategy::Deep);
    assert!(deep.read_partition_table && deep.scan_filesystems && deep.carve_unallocated);
    assert!(!deep.lenient && !deep.carve_whole_device);
    let raw = plan(RecoveryStrategy::Raw);
    assert!(raw.carve_whole_device && !raw.scan_filesystems);
    let cfs = plan(RecoveryStrategy::CorruptedFs);
    assert!(cfs.lenient && cfs.carve_unallocated);
    let quick = plan(RecoveryStrategy::Quick);
    assert!(!quick.carve_unallocated && !quick.carve_whole_device);
}

fn part(start_lba: u64, length_sectors: u64) -> PartitionInfo {
    PartitionInfo {
        index: 0,
        scheme: PartitionScheme::Gpt,
        type_id: "basic".into(),
        name: None,
        filesystem: Some("ntfs".into()),
        start_lba,
        length_sectors,
        sector_size: 512,
        reconstructed: false,
    }
}

#[test]
fn unallocated_ranges_basic() {
    let parts = vec![part(2048, 1_000_000)];
    let device = 2_000_000 * 512;
    let ranges = compute_unallocated_ranges(&parts, 512, device);
    assert_eq!(ranges.len(), 2);
    assert_eq!(ranges[0], (0, 2048 * 512));
    assert_eq!(ranges[1], ((2048 + 1_000_000) * 512, device));
}

#[test]
fn unallocated_ranges_no_partitions() {
    let ranges = compute_unallocated_ranges(&[], 512, 1_000_000);
    assert_eq!(ranges, vec![(0, 1_000_000)]);
}

#[test]
fn unallocated_ranges_merge_overlaps_in_any_order() {
    // Out of order and overlapping; the last one runs past the device end.
    let parts = vec![part(100, 50), part(10, 20), part(120, 100), part(20, 5)];
    let ranges = compute_unallocated_ranges(&parts, 1, 200);
    assert_eq!(ranges, vec![(0, 10), (30, 100)]);
    let full = compute_unallocated_ranges(&[part(0, 10)], 1, 10);
    assert!(full.is_empty());
}

#[test]
fn unallocated_ranges_past_the_device_end() {
    // A partition that starts past the end leaves a gap that reaches it.
    let ranges = compute_unallocated_ranges(&[part(20, 5)], 1, 10);
    assert_eq!(ranges, vec![(0, 20)]);
}

#[test]
fn file_filters() {
    assert!(ScanPipeline::wants_file(FileKind::Jpg, 10, &[], 5));
    assert!(!ScanPipeline::wants_file(FileKind::Jpg, 4, &[], 5));
    assert!(ScanPipeline::wants_file(FileKind::Png, 10, &[FileKind::Jpg, FileKind::Png], 0));
    assert!(!ScanPipeline::wants_file(FileKind::Gif, 10, &[FileKind::Jpg], 0));
    assert!(ScanPipeline::wants_partition(3, &[]));
    assert!(ScanPipeline::wants_partition(3, &[1, 3]));
    assert!(!ScanPipeline::wants_partition(2, &[1, 3]));
}

#[test]
fn carve_percent_is_capped() {
    assert_eq!(ScanPipeline::carve_percent(50, 200), 25);
    assert_eq!(ScanPipeline::carve_percent(500, 200), 100);
    assert_eq!(ScanPipeline::carve_percent(5, 0), 0);
}

#[test]
fn carved_records_are_named_by_offset() {
    let cf = CarvedFile {
        kind: FileKind::Jpg,
        offset_bytes: 0x1234,
        length_bytes: 99,
        signature: "jpeg-jfif",
        recoverability: 80,
    };
    let r = ScanPipeline::carved_record(CARVED_ID_BASE, &cf);
    assert_eq!(r.id, 10_000_000);
    assert_eq!(r.name, "carved_00001234.jpg");
    assert_eq!(r.path, "Carved/Jpg");
    assert_eq!(r.size_bytes, 99);
    assert!(r.modified.is_none());
    assert!(r.head_hex.is_empty());
    match r.source {
        FileSource::Carved { offset_bytes, length_bytes, signature } => {
            assert_eq!(offset_bytes, 0x1234);
            assert_eq!(length_bytes, 99);
            assert_eq!(signature, "jpeg-jfif");
        }
        other => panic!("{other:?}"),
    }
    let big = CarvedFile { offset_bytes: 0x1_2345_6789, ..cf };
    assert_eq!(ScanPipeline::carved_record(1, &big).name, "carved_123456789.jpg");
}

#[test]
fn dest_path_flat() {
    let p = RecoveryWriter::build_dest_path("/out", "C:\\Users\\test", "photo.jpg", false);
    assert_eq!(p, "/out/photo.jpg");
}

#[test]
fn dest_path_preserved() {
    let p = RecoveryWriter::build_dest_path("/out", "C:\\Users\\test\\Documents", "report.pdf", true);
    assert_eq!(p, "/out/Users/test/Documents/report.pdf");
}

#[test]
fn dest_path_unix_style() {
    let p = RecoveryWriter::build_dest_path("/recovery", "/home/user/pics", "cat.png", true);
    assert_eq!(p, "/recovery/home/user/pics/cat.png");
}

#[test]
fn dest_path_edge_cases() {
    assert_eq!(RecoveryWriter::build_dest_path("/out/", "", "a.txt", true), "/out/a.txt");
    assert_eq!(RecoveryWriter::build_dest_path("/out", "/", "a.txt", true), "/out/a.txt");
    assert_eq!(RecoveryWriter::build_dest_path("", "d", "a.txt", true), "d/a.txt");
}

#[test]
fn reads_carved_bytes_in_range() {
    let data: Vec<u8> = (0..=255u8).collect();
    let r = FixtureReader::new("c".to_string(), 512, data);
    assert_eq!(RecoveryWriter::read_carved(&r, 10, 4).unwrap(), vec![10, 11, 12, 13]);
    assert_eq!(RecoveryWriter::read_carved(&r, 250, 100).unwrap(), vec![250, 251, 252, 253, 254, 255]);
    assert!(RecoveryWriter::read_carved(&r, 300, 4).unwrap().is_empty());
}

#[test]
fn reads_filesystem_file_from_its_runs() {
    let data: Vec<u8> = (0..64u32).map(|i| i as u8).collect();
    let r = FixtureReader::new("f".to_string(), 4, data);
    let source = FileSource::Filesystem {
        partition_index: 0,
        record_id: 1,
        is_deleted: false,
        is_resident: false,
        runs: vec![DataRun { start_lba: 2, length_sectors: 1 }, DataRun { start_lba: 10, length_sectors: 2 }],
    };
    assert_eq!(RecoveryWriter::read_fs_file(&r, &source, 7).unwrap(), vec![8, 9, 10, 11, 40, 41, 42]);
    assert_eq!(RecoveryWriter::read_fs_file(&r, &source, 100).unwrap().len(), 12);
    let carved = FileSource::Carved { offset_bytes: 0, length_bytes: 1, signature: "x".into() };
    assert!(matches!(RecoveryWriter::read_fs_file(&r, &carved, 1), Err(Error::Internal(_))));
}

#[test]
fn state_codes_round_trip() {
    for s in [
        JobState::Queued,
        JobState::Running,
        JobState::Paused,
        JobState::Finished,
        JobState::Failed,
        JobState::Cancelled,
    ] {
        assert_eq!(atomic_to_state(state_to_atomic(s)), s);
    }
    assert_eq!(atomic_to_state(200), JobState::Failed);
}

#[test]
fn job_control_signals() {
    let c = JobControl::new();
    assert_eq!(c.state(), JobState::Queued);
    let shared = c.clone();
    shared.set_state(JobState::Paused);
    assert!(c.is_paused());
    assert!(!c.should_stop());
    c.set_state(JobState::Cancelled);
    assert!(shared.should_stop());
    assert_eq!(shared.state(), JobState::Cancelled);
}

#[test]
fn pause_and_resume_transitions() {
    let p = next_state(JobState::Running, JobRequest::Pause);
    assert_eq!(p, JobState::Paused);
    assert_eq!(next_state(p, JobRequest::Resume), JobState::Running);
    assert_eq!(next_state(JobState::Queued, JobRequest::Pause), JobState::Queued);
    assert_eq!(next_state(JobState::Finished, JobRequest::Cancel), JobState::Cancelled);
}

#[test]
fn pipeline_outcome_settles_the_job() {
    assert_eq!(settle(&Ok(()), false), Some(JobState::Finished));
    assert_eq!(settle(&Ok(()), true), None);
    assert_eq!(settle(&Err(Error::Cancelled), false), Some(JobState::Cancelled));
    assert_eq!(settle(&Err(Error::PermissionDenied), false), Some(JobState::Failed));
}

#[test]
fn first_phase_labels() {
    assert_eq!(first_phase(RecoveryStrategy::Quick), "Detecting partitions");
    assert_eq!(first_phase(RecoveryStrategy::Deep), "Detecting partitions");
    assert_eq!(first_phase(RecoveryStrategy::Raw), "Raw carving entire device");
    assert_eq!(first_phase(RecoveryStrategy::Partition), "Reconstructing partitions");
    assert_eq!(first_phase(RecoveryStrategy::Formatted), "Scanning formatted drive");
    assert_eq!(first_phase(RecoveryStrategy::CorruptedFs), "Best-effort corrupted FS scan");
}
