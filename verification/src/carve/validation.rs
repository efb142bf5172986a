//! Outcome of one validation attempt and the per-kind recoverability prior.

use crate::types::FileKind;
use vstd::prelude::*;

verus! {

/// Outcome of a single validation attempt.
#[derive(Debug, Clone, Copy, PartialEq, Eq, Structural)]
pub enum Validation {
    /// Confirmed hit of `length` bytes from the candidate start.
    Confirmed { length: u64, recoverability: u8 },
    /// Almost certainly a false positive.
    Rejected,
    /// The window was too small to decide; the scanner should widen it.
    NeedsMore,
}

impl Validation {
    /// Confirmed hit with the default recoverability of 80.
    pub fn confirm(length: u64) -> (r: Self)
        ensures
            r == (Validation::Confirmed { length, recoverability: 80 }),
    {
        Validation::Confirmed { length, recoverability: 80 }
    }

    /// Confirmed hit with an explicit recoverability.
    pub fn confirm_with(length: u64, recoverability: u8) -> (r: Self)
        ensures
            r == (Validation::Confirmed { length, recoverability }),
    {
        Validation::Confirmed { length, recoverability }
    }
}

/// Recoverability prior of each kind.
pub open spec fn spec_baseline(kind: FileKind) -> u8 {
    match kind {
        FileKind::Bmp | FileKind::Psd | FileKind::SevenZ => 90,
        FileKind::Mp4 | FileKind::Mov | FileKind::Mkv | FileKind::Avi => 85,
        FileKind::Jpg | FileKind::Png | FileKind::Gif | FileKind::Pdf => 80,
        FileKind::Zip | FileKind::Docx | FileKind::Xlsx | FileKind::Pptx | FileKind::Rar => 75,
        FileKind::Tiff => 70,
        FileKind::Ai => 70,
        FileKind::Txt | FileKind::Csv | FileKind::Sql => 50,
        FileKind::Other => 40,
    }
}

/// Recoverability prior for a kind; validators may refine it.
pub fn baseline_recoverability(kind: FileKind) -> (r: u8)
    ensures
        r == spec_baseline(kind),
        40 <= r <= 90,
{
    match kind {
        FileKind::Bmp | FileKind::Psd | FileKind::SevenZ => 90,
        FileKind::Mp4 | FileKind::Mov | FileKind::Mkv | FileKind::Avi => 85,
        FileKind::Jpg | FileKind::Png | FileKind::Gif | FileKind::Pdf => 80,
        FileKind::Zip | FileKind::Docx | FileKind::Xlsx | FileKind::Pptx | FileKind::Rar => 75,
        FileKind::Tiff => 70,
        FileKind::Ai => 70,
        FileKind::Txt | FileKind::Csv | FileKind::Sql => 50,
        FileKind::Other => 40,
    }
}

} // verus!
