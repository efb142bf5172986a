use trirecover::cloud::{
    already_found, dropbox_candidates, dropbox_home_candidate, google_drive_candidates, new_folders, onedrive_env_vars, onedrive_home_candidates, pick_new_folders,
    CloudDestination, CloudProvider,
};
use trirecover::commands::{
    image_chunk_size, image_scan_workers, is_drive_path, parse_args, parse_kind, parse_kind_list, parse_kinds,
    parse_strategy, parse_u64, recovered_file_name, state_str, worker_ranges, ArgsError, CarveRequest, IntError,
};
use trirecover::config::{Config, FileFilter, Theme, UpdateChannel};
use trirecover::types::{FileKind, JobState, RecoveryStrategy};

#[test]
fn provider_display_names() {
    assert_eq!(CloudProvider::OneDrivePersonal.display_name(), "OneDrive");
    assert_eq!(CloudProvider::OneDriveBusiness.display_name(), "OneDrive for Business");
    assert_eq!(CloudProvider::GoogleDrive.display_name(), "Google Drive");
    assert_eq!(CloudProvider::Dropbox.display_name(), "Dropbox");
    assert_eq!(CloudProvider::OneDriveBusiness.icon_name(), "onedrive");
    assert_eq!(CloudProvider::GoogleDrive.icon_name(), "google-drive");
}

fn dest(provider: CloudProvider, label: &str, path: &str) -> CloudDestination {
    CloudDestination { provider, label: label.into(), local_path: path.into(), free_bytes: None, sync_active: false }
}

#[test]
fn recovery_dir_is_inside_sync_folder() {
    let d = dest(CloudProvider::OneDrivePersonal, "OneDrive", "/home/test/OneDrive");
    assert!(d.recovery_dir().starts_with("/home/test/OneDrive"));
    assert!(d.recovery_dir().ends_with("TriRecover Recovery"));
    assert_eq!(d.recovery_dir(), "/home/test/OneDrive/TriRecover Recovery");
}

#[test]
fn already_found_deduplicates() {
    let d = dest(CloudProvider::Dropbox, "x", "/a/b");
    assert!(already_found(&[d.clone()], "/a/b"));
    assert!(!already_found(&[d], "/a/c"));
}

#[test]
fn google_drive_folders_in_order() {
    let c = google_drive_candidates("/home/u");
    assert_eq!(
        c,
        vec![
            "/home/u/Google Drive".to_string(),
            "/home/u/Google Drive/My Drive".to_string(),
            "/home/u/google-drive".to_string(),
            "/home/u/google-drive/My Drive".to_string(),
        ]
    );
    let found = vec![dest(CloudProvider::GoogleDrive, "g", "/home/u/google-drive")];
    let fresh = new_folders(&c, &[true, false, true, true], &found);
    assert_eq!(fresh, vec!["/home/u/Google Drive".to_string(), "/home/u/google-drive/My Drive".to_string()]);
}

#[test]
fn config_defaults() {
    let c = Config::default();
    assert_eq!(c.theme, Theme::Dark);
    assert_eq!(c.language, "en");
    assert!(!c.telemetry_enabled);
    assert_eq!(c.update_channel, UpdateChannel::Stable);
    assert!(c.default_destination.is_none());
    assert_eq!(c.progress_flush_interval_ms, 5_000);
    assert_eq!(c.carve_window_bytes, 64 * 1024 * 1024);
    assert!(c.bad_sector_retry);
    let f = FileFilter::default();
    assert!(f.kind.is_none() && f.min_size.is_none() && f.name_like.is_none());
}

#[test]
fn effective_workers_nonzero() {
    let c = Config::default();
    assert!(c.effective_workers(Some(6)) >= 1);
    assert_eq!(c.effective_workers(None), 4);
    let fixed = Config { worker_threads: 3, ..Config::default() };
    assert_eq!(fixed.effective_workers(Some(16)), 3);
}

#[test]
fn kind_names() {
    assert_eq!(parse_kind(" JPEG "), Some(FileKind::Jpg));
    assert_eq!(parse_kind("tif"), Some(FileKind::Tiff));
    assert_eq!(parse_kind("sevenz"), Some(FileKind::SevenZ));
    assert_eq!(parse_kind("m4v"), None);
    assert_eq!(parse_kind_list("jpg, png,,bogus"), vec![FileKind::Jpg, FileKind::Png]);
    assert_eq!(parse_kinds(&[]), None);
    assert_eq!(parse_kinds(&["bogus".to_string()]), None);
    assert_eq!(parse_kinds(&["PDF".to_string(), "x".to_string(), "7z".to_string()]), Some(vec![FileKind::Pdf, FileKind::SevenZ]));
}

#[test]
fn strategy_and_state_names() {
    assert_eq!(parse_strategy("Quick"), RecoveryStrategy::Quick);
    assert_eq!(parse_strategy("corrupted-fs"), RecoveryStrategy::CorruptedFs);
    assert_eq!(parse_strategy("whatever"), RecoveryStrategy::Deep);
    assert_eq!(state_str(JobState::Cancelled), "cancelled");
}

#[test]
fn drive_paths() {
    assert!(is_drive_path("/dev/sda"));
    assert!(is_drive_path("/dev/nvme0n1"));
    assert!(is_drive_path(r"\\.\PhysicalDrive0"));
    assert!(!is_drive_path("/tmp/disk.img"));
}

#[test]
fn recovered_names_pad_numbers() {
    assert_eq!(recovered_file_name(7, 0x1f, "jpg"), "00000007_000000000000001f.jpg");
    assert_eq!(recovered_file_name(123_456_789, 0, "png"), "123456789_0000000000000000.png");
}

#[test]
fn image_split_among_workers() {
    assert_eq!(image_chunk_size(10), 8 * 1024 * 1024);
    assert_eq!(image_chunk_size(2 * 1024 * 1024 * 1024), 16 * 1024 * 1024);
    assert_eq!(image_scan_workers(1024, Some(16)), 1);
    assert_eq!(image_scan_workers(1 << 30, Some(16)), 8);
    assert_eq!(image_scan_workers(1 << 30, None), 4);
    assert_eq!(worker_ranges(10, 3), vec![(0, 3), (3, 6), (6, 10)]);
    assert_eq!(worker_ranges(5, 1), vec![(0, 5)]);
}

#[test]
fn integers_parse_like_from_str() {
    assert_eq!(parse_u64("4096"), Ok(4096));
    assert_eq!(parse_u64("+7"), Ok(7));
    assert_eq!(parse_u64(""), Err(IntError::Empty));
    assert_eq!(parse_u64("+"), Err(IntError::InvalidDigit));
    assert_eq!(parse_u64("-1"), Err(IntError::InvalidDigit));
    assert_eq!(parse_u64("12a"), Err(IntError::InvalidDigit));
    assert_eq!(parse_u64("18446744073709551615"), Ok(u64::MAX));
    assert_eq!(parse_u64("18446744073709551616"), Err(IntError::PosOverflow));
    for s in ["0", "42", "+5", "", "x", "99999999999999999999"] {
        let ours = parse_u64(s).ok();
        let std_: Option<u64> = s.parse().ok();
        assert_eq!(ours, std_, "{s}");
    }
}

fn argv(v: &[&str]) -> Vec<String> {
    v.iter().map(|s| s.to_string()).collect()
}

#[test]
fn command_line_arguments() {
    assert!(matches!(parse_args(&argv(&["carve", "in.img", "out", "--help"])), Ok(CarveRequest::Help)));
    assert!(matches!(parse_args(&argv(&["carve", "in.img"])), Ok(CarveRequest::Usage)));
    match parse_args(&argv(&["carve", "in.img", "out", "--kinds", "jpg,png", "--min-size", "10", "--end", "99", "-v"])) {
        Ok(CarveRequest::Run(a)) => {
            assert_eq!(a.input, "in.img");
            assert_eq!(a.out, "out");
            assert_eq!(a.kinds, Some(vec![FileKind::Jpg, FileKind::Png]));
            assert_eq!(a.min_size, 10);
            assert_eq!(a.start, 0);
            assert_eq!(a.end, Some(99));
            assert!(a.verbose);
        }
        other => panic!("{other:?}"),
    }
    match parse_args(&argv(&["carve", "a", "b"])) {
        Ok(CarveRequest::Run(a)) => assert_eq!(a.min_size, 4096),
        other => panic!("{other:?}"),
    }
    assert_eq!(parse_args(&argv(&["carve", "a", "b", "--start"])).unwrap_err(), ArgsError::MissingValue("--start"));
    assert_eq!(
        parse_args(&argv(&["carve", "a", "b", "--min-size", "x"])).unwrap_err(),
        ArgsError::NotAnInteger("--min-size", IntError::InvalidDigit)
    );
    assert_eq!(parse_args(&argv(&["carve", "a", "b", "--kinds", "foo"])).unwrap_err(), ArgsError::NoKinds("foo".into()));
    assert_eq!(parse_args(&argv(&["carve", "a", "b", "--bogus"])).unwrap_err(), ArgsError::UnknownOption("--bogus".into()));
}

#[test]
fn onedrive_candidate_rules() {
    assert_eq!(
        onedrive_env_vars(),
        vec![
            ("OneDrive".to_string(), CloudProvider::OneDrivePersonal),
            ("OneDriveConsumer".to_string(), CloudProvider::OneDrivePersonal),
            ("OneDriveCommercial".to_string(), CloudProvider::OneDriveBusiness),
        ]
    );
    assert_eq!(
        onedrive_home_candidates("/home/u"),
        vec!["/home/u/OneDrive".to_string(), "/home/u/OneDrive - Personal".to_string()]
    );
}

#[test]
fn onedrive_first_candidate_of_a_path_wins() {
    let cands = vec![
        ("/x/od".to_string(), CloudProvider::OneDrivePersonal),
        ("/x/work".to_string(), CloudProvider::OneDriveBusiness),
        ("/x/od".to_string(), CloudProvider::OneDriveBusiness),
        ("/home/u/OneDrive".to_string(), CloudProvider::OneDrivePersonal),
        ("/home/u/OneDrive - Personal".to_string(), CloudProvider::OneDrivePersonal),
    ];
    let found = vec![dest(CloudProvider::OneDrivePersonal, "o", "/home/u/OneDrive - Personal")];
    let picked = pick_new_folders(&cands, &vec![true, false, true, true, true], &found);
    assert_eq!(
        picked,
        vec![
            ("/x/od".to_string(), CloudProvider::OneDrivePersonal),
            ("/home/u/OneDrive".to_string(), CloudProvider::OneDrivePersonal),
        ]
    );
}

#[test]
fn dropbox_info_json_names_personal_then_business() {
    let info = r#"{"business": {"path": "/home/u/Dropbox (Work)", "host": 1}, "personal": {"path": "/home/u/Dropbox"}}"#;
    assert_eq!(
        dropbox_candidates(info),
        vec![
            ("/home/u/Dropbox".to_string(), "Dropbox (personal)".to_string()),
            ("/home/u/Dropbox (Work)".to_string(), "Dropbox (business)".to_string()),
        ]
    );
    assert_eq!(
        dropbox_candidates(r#"{"personal": {"path": 3}, "business": {"path": "/b"}}"#),
        vec![("/b".to_string(), "Dropbox (business)".to_string())]
    );
    assert!(dropbox_candidates("not json").is_empty());
    assert!(dropbox_candidates("[1, 2]").is_empty());
    assert_eq!(dropbox_home_candidate("/home/u"), "/home/u/Dropbox");
}
