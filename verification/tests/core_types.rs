use trirecover::error::Error;
use trirecover::types::{FileCategory, FileKind};

#[test]
fn file_kind_extension_round_trips() {
    for k in [FileKind::Jpg, FileKind::Png, FileKind::SevenZ, FileKind::Other] {
        assert!(!k.extension().is_empty());
    }
}

#[test]
fn category_classifies_archives() {
    assert_eq!(FileKind::Zip.category(), FileCategory::Archive);
    assert_eq!(FileKind::SevenZ.category(), FileCategory::Archive);
    assert_eq!(FileKind::Rar.category(), FileCategory::Archive);
}

#[test]
fn extension_and_label_values() {
    assert_eq!(FileKind::Jpg.extension(), "jpg");
    assert_eq!(FileKind::SevenZ.extension(), "7z");
    assert_eq!(FileKind::Jpg.as_str(), "Jpg");
}

#[test]
fn user_actionable_classification() {
    assert!(Error::PermissionDenied.is_user_actionable());
    assert!(!Error::Cancelled.is_user_actionable());
    assert!(!Error::internal("bug".to_string()).is_user_actionable());
}

#[test]
fn telemetry_kind_is_stable() {
    assert_eq!(Error::PermissionDenied.telemetry_kind(), "permission-denied");
    assert_eq!(Error::Cancelled.telemetry_kind(), "cancelled");
}
