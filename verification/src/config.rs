//! User-visible configuration and its defaults. Loading and saving it is
//! left to the caller.

use vstd::prelude::*;

verus! {

/// UI theme preference.
#[derive(Debug, Clone, Copy, PartialEq, Eq, Structural)]
pub enum Theme {
    Dark,
    Light,
    System,
}

/// Auto-update channel.
#[derive(Debug, Clone, Copy, PartialEq, Eq, Structural)]
pub enum UpdateChannel {
    Stable,
    Beta,
    /// No automatic updates.
    Disabled,
}

/// User-visible configuration.
#[derive(Debug, Clone)]
pub struct Config {
    /// UI theme preference.
    pub theme: Theme,
    /// UI language code (ISO 639-1, e.g. "en", "ar").
    pub language: String,
    /// Telemetry opt-in. Off by default.
    pub telemetry_enabled: bool,
    /// Auto-update channel.
    pub update_channel: UpdateChannel,
    /// Where recovered files go by default.
    pub default_destination: Option<String>,
    /// Maximum simultaneous carving workers (0 = one per CPU).
    pub worker_threads: u16,
    /// How often (ms) the engine flushes progress to disk.
    pub progress_flush_interval_ms: u64,
    /// Maximum candidate buffer size when carving.
    pub carve_window_bytes: u64,
    /// Retry bad sectors with shrinking I/O sizes.
    pub bad_sector_retry: bool,
}

impl Config {
    /// The defaults: dark theme, English, no telemetry, stable updates, no
    /// default destination, automatic worker count, progress flushed every
    /// 5 s, a 64 MiB carve window and bad-sector retries.
    pub open spec fn is_default(&self) -> bool {
        &&& self.theme == Theme::Dark
        &&& self.language@ == "en"@
        &&& !self.telemetry_enabled
        &&& self.update_channel == UpdateChannel::Stable
        &&& self.default_destination is None
        &&& self.worker_threads == 0
        &&& self.progress_flush_interval_ms == 5000
        &&& self.carve_window_bytes == 64 * 1024 * 1024
        &&& self.bad_sector_retry
    }

    /// Number of workers to use: the configured count, or when it is 0 the
    /// machine's parallelism (4 when that is unknown).
    pub fn effective_workers(&self, available_parallelism: Option<usize>) -> (n: usize)
        ensures
            self.worker_threads != 0 ==> n == self.worker_threads,
            self.worker_threads == 0 ==> n == (match available_parallelism {
                Some(p) => p,
                None => 4,
            }),
    {
        if self.worker_threads == 0 {
            match available_parallelism {
                Some(p) => p,
                None => 4,
            }
        } else {
            self.worker_threads as usize
        }
    }
}

impl Default for Config {
    fn default() -> (r: Self)
        ensures
            r.is_default(),
    {
        Config {
            theme: Theme::Dark,
            language: String::from_str("en"),
            telemetry_enabled: false,
            update_channel: UpdateChannel::Stable,
            default_destination: None,
            worker_threads: 0,
            progress_flush_interval_ms: 5000,
            carve_window_bytes: 64 * 1024 * 1024,
            bad_sector_retry: true,
        }
    }
}

/// Filter of a paged file query.
#[derive(Debug, Default, Clone)]
pub struct FileFilter {
    pub kind: Option<String>,
    pub min_size: Option<u64>,
    pub name_like: Option<String>,
}

} // verus!
