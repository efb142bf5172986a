//! Workspace-wide error type. Variants are fine-grained so a front end can
//! render actionable messages and the engine can branch on the cause.

use vstd::prelude::*;

verus! {

#[derive(Debug, Clone, PartialEq, Eq)]
pub enum Error {
    /// An I/O error, with the operating system's message.
    Io(String),
    Os { code: i32, msg: String },
    PermissionDenied,
    DeviceNotFound(String),
    DeviceBusy(String),
    /// Refusing to write recovered files onto the volume being recovered.
    SameVolumeRecoveryRefused,
    ReadOnlyViolation,
    UnexpectedEof { offset: u64, need: usize, have: usize },
    BadMagic { offset: u64, expected: &'static str, got: String },
    BadCrc { offset: u64, expected: u32, got: u32 },
    UnsupportedFilesystem(String),
    Corrupt { what: &'static str, offset: u64, detail: String },
    Session(String),
    Db(String),
    DbMigrate(String),
    Config(String),
    ConfigPath(String),
    JobNotFound(String),
    JobFinished(String),
    Cancelled,
    Internal(String),
}

/// Telemetry name of each variant.
pub open spec fn spec_telemetry_kind(e: Error) -> Seq<char> {
    match e {
        Error::Io(_) => "io"@,
        Error::Os { .. } => "os"@,
        Error::PermissionDenied => "permission-denied"@,
        Error::DeviceNotFound(_) => "device-not-found"@,
        Error::DeviceBusy(_) => "device-busy"@,
        Error::SameVolumeRecoveryRefused => "same-volume-refused"@,
        Error::ReadOnlyViolation => "read-only-violation"@,
        Error::UnexpectedEof { .. } => "eof"@,
        Error::BadMagic { .. } => "bad-magic"@,
        Error::BadCrc { .. } => "bad-crc"@,
        Error::UnsupportedFilesystem(_) => "unsupported-fs"@,
        Error::Corrupt { .. } => "corrupt"@,
        Error::Session(_) => "session"@,
        Error::Db(_) => "db"@,
        Error::DbMigrate(_) => "db-migrate"@,
        Error::Config(_) => "config"@,
        Error::ConfigPath(_) => "config-path"@,
        Error::JobNotFound(_) => "job-not-found"@,
        Error::JobFinished(_) => "job-finished"@,
        Error::Cancelled => "cancelled"@,
        Error::Internal(_) => "internal"@,
    }
}

impl Error {
    /// An `Os` error from an errno-like code.
    pub fn os(code: i32, msg: String) -> (r: Self)
        ensures
            r == (Error::Os { code, msg }),
    {
        Error::Os { code, msg }
    }

    /// A `Corrupt` error.
    pub fn corrupt(what: &'static str, offset: u64, detail: String) -> (r: Self)
        ensures
            r == (Error::Corrupt { what, offset, detail }),
    {
        Error::Corrupt { what, offset, detail }
    }

    /// A generic internal error.
    pub fn internal(msg: String) -> (r: Self)
        ensures
            r == Error::Internal(msg),
    {
        Error::Internal(msg)
    }

    /// Whether a user can fix the cause (permissions, a busy or missing
    /// device, the destination choice) rather than corruption or a bug.
    pub fn is_user_actionable(&self) -> (r: bool)
        ensures
            r == (*self is PermissionDenied || *self is DeviceBusy || *self is DeviceNotFound
                || *self is SameVolumeRecoveryRefused || *self is ConfigPath),
    {
        match self {
            Error::PermissionDenied | Error::DeviceBusy(_) | Error::DeviceNotFound(_)
            | Error::SameVolumeRecoveryRefused | Error::ConfigPath(_) => true,
            _ => false,
        }
    }

    /// Stable kebab-case name of the variant, for telemetry.
    pub fn telemetry_kind(&self) -> (r: &'static str)
        ensures
            r@ == spec_telemetry_kind(*self),
    {
        match self {
            Error::Io(_) => "io",
            Error::Os { .. } => "os",
            Error::PermissionDenied => "permission-denied",
            Error::DeviceNotFound(_) => "device-not-found",
            Error::DeviceBusy(_) => "device-busy",
            Error::SameVolumeRecoveryRefused => "same-volume-refused",
            Error::ReadOnlyViolation => "read-only-violation",
            Error::UnexpectedEof { .. } => "eof",
            Error::BadMagic { .. } => "bad-magic",
            Error::BadCrc { .. } => "bad-crc",
            Error::UnsupportedFilesystem(_) => "unsupported-fs",
            Error::Corrupt { .. } => "corrupt",
            Error::Session(_) => "session",
            Error::Db(_) => "db",
            Error::DbMigrate(_) => "db-migrate",
            Error::Config(_) => "config",
            Error::ConfigPath(_) => "config-path",
            Error::JobNotFound(_) => "job-not-found",
            Error::JobFinished(_) => "job-finished",
            Error::Cancelled => "cancelled",
            Error::Internal(_) => "internal",
        }
    }
}

} // verus!
