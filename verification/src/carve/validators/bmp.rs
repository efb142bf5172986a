//! BMP: the total file size is the little-endian `u32` at offset 2.

use crate::bytes::{le32, read_u32_le};
use crate::carve::validation::{baseline_recoverability, spec_baseline, Validation};
use crate::carve::validators::Validator;
use crate::types::FileKind;
use vstd::prelude::*;

verus! {

#[derive(Debug, Clone, Copy)]
pub struct BmpValidator;

/// Largest BMP we carve.
pub const MAX_BMP: u64 = 0x4000_0000;

/// Verdict for a BMP window.
pub open spec fn bmp_verdict(w: Seq<u8>) -> Validation {
    if w.len() < 26 {
        Validation::NeedsMore
    } else if !(w[0] == 0x42u8 && w[1] == 0x4Du8) {
        Validation::Rejected
    } else {
        let size = le32(w, 2);
        let data_off = le32(w, 10);
        let dib = le32(w, 14);
        if !(12 <= dib <= 256) {
            Validation::Rejected
        } else if data_off < 14 + dib {
            Validation::Rejected
        } else if size < data_off {
            Validation::Rejected
        } else if size > MAX_BMP {
            Validation::Rejected
        } else {
            Validation::Confirmed { length: size as u64, recoverability: spec_baseline(FileKind::Bmp) }
        }
    }
}

impl Validator for BmpValidator {
    open spec fn spec_validate(&self, w: Seq<u8>) -> Validation {
        bmp_verdict(w)
    }

    open spec fn spec_kind(&self) -> FileKind {
        FileKind::Bmp
    }

    open spec fn spec_validate_with_kind(&self, w: Seq<u8>) -> (Validation, FileKind) {
        (bmp_verdict(w), FileKind::Bmp)
    }

    fn validate(&self, w: &[u8]) -> (r: Validation) {
        if w.len() < 26 {
            return Validation::NeedsMore;
        }
        if !(w[0] == 0x42 && w[1] == 0x4D) {
            return Validation::Rejected;
        }
        let size: u32 = read_u32_le(w, 2).unwrap();
        let data_off: u32 = read_u32_le(w, 10).unwrap();
        let dib_size: u32 = read_u32_le(w, 14).unwrap();
        if !(12 <= dib_size && dib_size <= 256) {
            return Validation::Rejected;
        }
        if (data_off as u64) < 14 + dib_size as u64 {
            return Validation::Rejected;
        }
        if (size as u64) < (data_off as u64) {
            return Validation::Rejected;
        }
        if size as u64 > MAX_BMP {
            return Validation::Rejected;
        }
        Validation::Confirmed { length: size as u64, recoverability: baseline_recoverability(FileKind::Bmp) }
    }

    fn kind(&self) -> (k: FileKind) {
        FileKind::Bmp
    }

    fn validate_with_kind(&self, w: &[u8]) -> (r: (Validation, FileKind)) {
        (self.validate(w), self.kind())
    }
}

} // verus!
