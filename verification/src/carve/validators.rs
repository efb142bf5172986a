//! Per-format validators. Each inspects a byte window starting at a candidate
//! and reports the file length, a rejection, or a request for a wider window.
//! Validators are read-only and side-effect free.

pub mod bmp;
pub mod riff_avi;
pub mod sevenz;
pub mod zip;
pub mod ooxml;
pub mod pdf;
pub mod psd;
pub mod mkv;
pub mod mp4;
pub mod rar;
pub mod gif;
pub mod jpeg;
pub mod png;
pub mod text;
pub mod tiff;

pub use bmp::BmpValidator;
pub use ooxml::OoxmlValidator;
pub use pdf::PdfValidator;
pub use psd::PsdValidator;
pub use mkv::MkvValidator;
pub use mp4::Mp4Validator;
pub use rar::RarValidator;
pub use gif::GifValidator;
pub use jpeg::JpegValidator;
pub use png::PngValidator;
pub use text::TextValidator;
pub use tiff::TiffValidator;
pub use riff_avi::RiffAviValidator;
pub use sevenz::SevenZValidator;
pub use zip::ZipValidator;

use crate::carve::validation::Validation;
use crate::types::FileKind;
use vstd::prelude::*;

verus! {

/// A read-only format checker.
pub trait Validator {
    /// What `validate` returns for a window.
    spec fn spec_validate(&self, w: Seq<u8>) -> Validation;

    /// The kind `kind` reports.
    spec fn spec_kind(&self) -> FileKind;

    /// What `validate_with_kind` returns for a window.
    spec fn spec_validate_with_kind(&self, w: Seq<u8>) -> (Validation, FileKind);

    /// Inspect `window`, which starts at the candidate position.
    fn validate(&self, window: &[u8]) -> (r: Validation)
        ensures
            r == self.spec_validate(window@),
    ;

    /// Reported file kind.
    fn kind(&self) -> (k: FileKind)
        ensures
            k == self.spec_kind(),
    ;

    /// Validation together with the (possibly refined) kind.
    fn validate_with_kind(&self, window: &[u8]) -> (r: (Validation, FileKind))
        ensures
            r == self.spec_validate_with_kind(window@),
    ;
}

} // verus!
