//! RIFF/AVI: `RIFF [size:LE u32] AVI `; total length = size + 8.

use crate::bytes::{le32, read_u32_le};
use crate::carve::validation::{baseline_recoverability, spec_baseline, Validation};
use crate::carve::validators::Validator;
use crate::types::FileKind;
use vstd::prelude::*;

verus! {

#[derive(Debug, Clone, Copy)]
pub struct RiffAviValidator;

/// Largest AVI we carve.
pub const MAX_AVI_SIZE: u64 = 0x4_0000_0000;

/// Verdict for an AVI window.
pub open spec fn avi_verdict(w: Seq<u8>) -> Validation {
    if w.len() < 12 {
        Validation::NeedsMore
    } else if !(w[0] == 0x52u8 && w[1] == 0x49u8 && w[2] == 0x46u8 && w[3] == 0x46u8 && w[8]
        == 0x41u8 && w[9] == 0x56u8 && w[10] == 0x49u8 && w[11] == 0x20u8) {
        Validation::Rejected
    } else {
        let total = le32(w, 4) + 8;
        if total > MAX_AVI_SIZE || total < 12 {
            Validation::Rejected
        } else {
            Validation::Confirmed { length: total as u64, recoverability: spec_baseline(FileKind::Avi) }
        }
    }
}

impl Validator for RiffAviValidator {
    open spec fn spec_validate(&self, w: Seq<u8>) -> Validation {
        avi_verdict(w)
    }

    open spec fn spec_kind(&self) -> FileKind {
        FileKind::Avi
    }

    open spec fn spec_validate_with_kind(&self, w: Seq<u8>) -> (Validation, FileKind) {
        (avi_verdict(w), FileKind::Avi)
    }

    fn validate(&self, w: &[u8]) -> (r: Validation) {
        if w.len() < 12 {
            return Validation::NeedsMore;
        }
        if !(w[0] == 0x52 && w[1] == 0x49 && w[2] == 0x46 && w[3] == 0x46 && w[8] == 0x41 && w[9]
            == 0x56 && w[10] == 0x49 && w[11] == 0x20) {
            return Validation::Rejected;
        }
        let payload: u64 = read_u32_le(w, 4).unwrap() as u64;
        let total: u64 = payload + 8;
        if total > MAX_AVI_SIZE || total < 12 {
            return Validation::Rejected;
        }
        Validation::Confirmed { length: total, recoverability: baseline_recoverability(FileKind::Avi) }
    }

    fn kind(&self) -> (k: FileKind) {
        FileKind::Avi
    }

    fn validate_with_kind(&self, w: &[u8]) -> (r: (Validation, FileKind)) {
        (self.validate(w), self.kind())
    }
}

} // verus!
