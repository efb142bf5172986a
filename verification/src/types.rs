//! Domain types shared by every part of the library.

use vstd::prelude::*;

verus! {

/// Removable / fixed / virtual classification of a drive.
#[derive(Debug, Clone, Copy, PartialEq, Eq, Structural)]
pub enum DriveKind {
    Hdd,
    Ssd,
    Nvme,
    UsbFlash,
    SdCard,
    External,
    Virtual,
    Unknown,
}

/// Bus a drive sits on.
#[derive(Debug, Clone, Copy, PartialEq, Eq, Structural)]
pub enum DriveBus {
    Sata,
    Nvme,
    Usb,
    Sd,
    Scsi,
    Virtual,
    Unknown,
}

impl DriveKind {
    pub open spec fn spec_as_str(self) -> Seq<char> {
        match self {
            DriveKind::Hdd => "Hdd"@,
            DriveKind::Ssd => "Ssd"@,
            DriveKind::Nvme => "Nvme"@,
            DriveKind::UsbFlash => "UsbFlash"@,
            DriveKind::SdCard => "SdCard"@,
            DriveKind::External => "External"@,
            DriveKind::Virtual => "Virtual"@,
            DriveKind::Unknown => "Unknown"@,
        }
    }

    /// Label of the variant.
    pub fn as_str(self) -> (s: &'static str)
        ensures
            s@ == self.spec_as_str(),
    {
        match self {
            DriveKind::Hdd => "Hdd",
            DriveKind::Ssd => "Ssd",
            DriveKind::Nvme => "Nvme",
            DriveKind::UsbFlash => "UsbFlash",
            DriveKind::SdCard => "SdCard",
            DriveKind::External => "External",
            DriveKind::Virtual => "Virtual",
            DriveKind::Unknown => "Unknown",
        }
    }
}

impl DriveBus {
    pub open spec fn spec_as_str(self) -> Seq<char> {
        match self {
            DriveBus::Sata => "Sata"@,
            DriveBus::Nvme => "Nvme"@,
            DriveBus::Usb => "Usb"@,
            DriveBus::Sd => "Sd"@,
            DriveBus::Scsi => "Scsi"@,
            DriveBus::Virtual => "Virtual"@,
            DriveBus::Unknown => "Unknown"@,
        }
    }

    /// Label of the variant.
    pub fn as_str(self) -> (s: &'static str)
        ensures
            s@ == self.spec_as_str(),
    {
        match self {
            DriveBus::Sata => "Sata",
            DriveBus::Nvme => "Nvme",
            DriveBus::Usb => "Usb",
            DriveBus::Sd => "Sd",
            DriveBus::Scsi => "Scsi",
            DriveBus::Virtual => "Virtual",
            DriveBus::Unknown => "Unknown",
        }
    }
}

/// An enumerated physical drive.
#[derive(Debug, Clone)]
pub struct DriveInfo {
    /// OS path (e.g. `\\.\PhysicalDrive0`, `/dev/sda`).
    pub path: String,
    pub model: String,
    pub serial: String,
    pub size_bytes: u64,
    pub sector_size: u32,
    pub kind: DriveKind,
    pub bus: DriveBus,
    pub smart_available: bool,
    pub has_mounted_volumes: bool,
}

/// Overall SMART health bucket.
#[derive(Debug, Clone, Copy, PartialEq, Eq, Structural)]
pub enum SmartHealth {
    Healthy,
    Caution,
    Failing,
    Unknown,
}

/// One vendor SMART attribute.
#[derive(Debug, Clone)]
pub struct SmartAttribute {
    pub id: u8,
    pub name: String,
    pub value: u8,
    pub worst: u8,
    pub threshold: u8,
    pub raw: u64,
}

/// A SMART snapshot of one drive.
#[derive(Debug, Clone)]
pub struct SmartReport {
    pub drive_path: String,
    pub overall: SmartHealth,
    /// Degrees Celsius, if reported.
    pub temperature_c: Option<i16>,
    pub power_on_hours: Option<u64>,
    pub reallocated_sectors: Option<u64>,
    pub pending_sectors: Option<u64>,
    /// SSD lifetime indicator, 0..=100 (100 = new).
    pub wear_leveling_remaining: Option<u8>,
    pub raw_attributes: Vec<SmartAttribute>,
    /// Capture time, seconds since the Unix epoch.
    pub captured_at_unix: i64,
}

/// Partition-table flavour.
#[derive(Debug, Clone, Copy, PartialEq, Eq, Structural)]
pub enum PartitionScheme {
    Mbr,
    Gpt,
    /// No table: the whole disk is one volume.
    Raw,
}

/// One partition of a disk.
#[derive(Debug, Clone)]
pub struct PartitionInfo {
    pub index: u32,
    pub scheme: PartitionScheme,
    /// Type GUID (GPT) or `0xNN` type byte (MBR).
    pub type_id: String,
    pub name: Option<String>,
    pub filesystem: Option<String>,
    /// First sector on the parent disk.
    pub start_lba: u64,
    pub length_sectors: u64,
    pub sector_size: u32,
    /// True when inferred rather than read from an on-disk table.
    pub reconstructed: bool,
}

/// Scan strategy.
#[derive(Debug, Clone, Copy, PartialEq, Eq, Structural)]
pub enum RecoveryStrategy {
    Quick,
    Deep,
    Raw,
    Partition,
    Formatted,
    CorruptedFs,
}

/// Life-cycle state of a scan job.
#[derive(Debug, Clone, Copy, PartialEq, Eq, Structural)]
pub enum JobState {
    Queued,
    Running,
    Paused,
    Finished,
    Failed,
    Cancelled,
}

/// A `(start_lba, length_sectors)` extent on the parent device.
#[derive(Debug, Clone, Copy, PartialEq, Eq, Structural)]
pub struct DataRun {
    pub start_lba: u64,
    pub length_sectors: u64,
}

/// Where a found file's bytes live.
#[derive(Debug, Clone)]
pub enum FileSource {
    /// Located via filesystem metadata.
    Filesystem {
        partition_index: u32,
        record_id: u64,
        is_deleted: bool,
        is_resident: bool,
        runs: Vec<DataRun>,
    },
    /// Located by signature carving.
    Carved { offset_bytes: u64, length_bytes: u64, signature: String },
}

/// A file located by the scanner.
#[derive(Debug, Clone)]
pub struct FileRecord {
    pub id: u64,
    pub name: String,
    pub path: String,
    pub kind: FileKind,
    pub size_bytes: u64,
    /// Last modification as a Windows FILETIME (100 ns ticks since 1601), if known.
    pub modified: Option<u64>,
    pub source: FileSource,
    /// 0..=100 estimate that the recovered file opens correctly.
    pub recoverability: u8,
    /// First bytes of the file as upper-case hex.
    pub head_hex: String,
}

/// A file found by the carver.
#[derive(Debug, Clone, Copy, PartialEq, Eq)]
pub struct CarvedFile {
    pub kind: FileKind,
    pub offset_bytes: u64,
    pub length_bytes: u64,
    pub signature: &'static str,
    pub recoverability: u8,
}

/// Known file formats.
#[derive(Debug, Clone, Copy, PartialEq, Eq, Hash, Structural)]
pub enum FileKind {
    Jpg,
    Png,
    Gif,
    Bmp,
    Tiff,
    Mp4,
    Mov,
    Mkv,
    Avi,
    Pdf,
    Docx,
    Xlsx,
    Pptx,
    Zip,
    Rar,
    SevenZ,
    Psd,
    Ai,
    Txt,
    Csv,
    Sql,
    Other,
}

/// Coarse grouping of file kinds.
#[derive(Debug, Clone, Copy, PartialEq, Eq, Hash, Structural)]
pub enum FileCategory {
    Image,
    Video,
    Document,
    Office,
    Archive,
    Text,
    Other,
}

impl FileKind {
    pub open spec fn spec_as_str(self) -> Seq<char> {
        match self {
            FileKind::Jpg => "Jpg"@,
            FileKind::Png => "Png"@,
            FileKind::Gif => "Gif"@,
            FileKind::Bmp => "Bmp"@,
            FileKind::Tiff => "Tiff"@,
            FileKind::Mp4 => "Mp4"@,
            FileKind::Mov => "Mov"@,
            FileKind::Mkv => "Mkv"@,
            FileKind::Avi => "Avi"@,
            FileKind::Pdf => "Pdf"@,
            FileKind::Docx => "Docx"@,
            FileKind::Xlsx => "Xlsx"@,
            FileKind::Pptx => "Pptx"@,
            FileKind::Zip => "Zip"@,
            FileKind::Rar => "Rar"@,
            FileKind::SevenZ => "SevenZ"@,
            FileKind::Psd => "Psd"@,
            FileKind::Ai => "Ai"@,
            FileKind::Txt => "Txt"@,
            FileKind::Csv => "Csv"@,
            FileKind::Sql => "Sql"@,
            FileKind::Other => "Other"@,
        }
    }

    /// Human-readable label.
    pub fn as_str(self) -> (s: &'static str)
        ensures
            s@ == self.spec_as_str(),
    {
        match self {
            FileKind::Jpg => "Jpg",
            FileKind::Png => "Png",
            FileKind::Gif => "Gif",
            FileKind::Bmp => "Bmp",
            FileKind::Tiff => "Tiff",
            FileKind::Mp4 => "Mp4",
            FileKind::Mov => "Mov",
            FileKind::Mkv => "Mkv",
            FileKind::Avi => "Avi",
            FileKind::Pdf => "Pdf",
            FileKind::Docx => "Docx",
            FileKind::Xlsx => "Xlsx",
            FileKind::Pptx => "Pptx",
            FileKind::Zip => "Zip",
            FileKind::Rar => "Rar",
            FileKind::SevenZ => "SevenZ",
            FileKind::Psd => "Psd",
            FileKind::Ai => "Ai",
            FileKind::Txt => "Txt",
            FileKind::Csv => "Csv",
            FileKind::Sql => "Sql",
            FileKind::Other => "Other",
        }
    }

    pub open spec fn spec_extension(self) -> Seq<char> {
        match self {
            FileKind::Jpg => "jpg"@,
            FileKind::Png => "png"@,
            FileKind::Gif => "gif"@,
            FileKind::Bmp => "bmp"@,
            FileKind::Tiff => "tiff"@,
            FileKind::Mp4 => "mp4"@,
            FileKind::Mov => "mov"@,
            FileKind::Mkv => "mkv"@,
            FileKind::Avi => "avi"@,
            FileKind::Pdf => "pdf"@,
            FileKind::Docx => "docx"@,
            FileKind::Xlsx => "xlsx"@,
            FileKind::Pptx => "pptx"@,
            FileKind::Zip => "zip"@,
            FileKind::Rar => "rar"@,
            FileKind::SevenZ => "7z"@,
            FileKind::Psd => "psd"@,
            FileKind::Ai => "ai"@,
            FileKind::Txt => "txt"@,
            FileKind::Csv => "csv"@,
            FileKind::Sql => "sql"@,
            FileKind::Other => "bin"@,
        }
    }

    /// Canonical file-name extension (without the dot).
    pub fn extension(self) -> (s: &'static str)
        ensures
            s@ == self.spec_extension(),
    {
        match self {
            FileKind::Jpg => "jpg",
            FileKind::Png => "png",
            FileKind::Gif => "gif",
            FileKind::Bmp => "bmp",
            FileKind::Tiff => "tiff",
            FileKind::Mp4 => "mp4",
            FileKind::Mov => "mov",
            FileKind::Mkv => "mkv",
            FileKind::Avi => "avi",
            FileKind::Pdf => "pdf",
            FileKind::Docx => "docx",
            FileKind::Xlsx => "xlsx",
            FileKind::Pptx => "pptx",
            FileKind::Zip => "zip",
            FileKind::Rar => "rar",
            FileKind::SevenZ => "7z",
            FileKind::Psd => "psd",
            FileKind::Ai => "ai",
            FileKind::Txt => "txt",
            FileKind::Csv => "csv",
            FileKind::Sql => "sql",
            FileKind::Other => "bin",
        }
    }

    pub open spec fn spec_category(self) -> FileCategory {
        match self {
            FileKind::Jpg | FileKind::Png | FileKind::Gif | FileKind::Bmp | FileKind::Tiff
            | FileKind::Psd | FileKind::Ai => FileCategory::Image,
            FileKind::Mp4 | FileKind::Mov | FileKind::Mkv | FileKind::Avi => FileCategory::Video,
            FileKind::Pdf => FileCategory::Document,
            FileKind::Docx | FileKind::Xlsx | FileKind::Pptx => FileCategory::Office,
            FileKind::Zip | FileKind::Rar | FileKind::SevenZ => FileCategory::Archive,
            FileKind::Txt | FileKind::Csv | FileKind::Sql => FileCategory::Text,
            FileKind::Other => FileCategory::Other,
        }
    }

    /// Category the kind belongs to.
    pub fn category(self) -> (c: FileCategory)
        ensures
            c == self.spec_category(),
    {
        match self {
            FileKind::Jpg | FileKind::Png | FileKind::Gif | FileKind::Bmp | FileKind::Tiff
            | FileKind::Psd | FileKind::Ai => FileCategory::Image,
            FileKind::Mp4 | FileKind::Mov | FileKind::Mkv | FileKind::Avi => FileCategory::Video,
            FileKind::Pdf => FileCategory::Document,
            FileKind::Docx | FileKind::Xlsx | FileKind::Pptx => FileCategory::Office,
            FileKind::Zip | FileKind::Rar | FileKind::SevenZ => FileCategory::Archive,
            FileKind::Txt | FileKind::Csv | FileKind::Sql => FileCategory::Text,
            FileKind::Other => FileCategory::Other,
        }
    }
}

/// Outcome of a recovery run.
#[derive(Debug, Clone)]
pub struct RecoverReport {
    pub recovered: u64,
    pub failed: u64,
    pub bytes_written: u64,
    pub destination: String,
    pub failures: Vec<RecoverFailure>,
}

/// One file that could not be recovered.
#[derive(Debug, Clone)]
pub struct RecoverFailure {
    pub file_id: u64,
    pub name: String,
    pub reason: String,
}

} // verus!
