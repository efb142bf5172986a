//! 7z: total length = 32 + next-header offset + next-header size.

use crate::bytes::{le64, read_u64_le};
use crate::carve::validation::{baseline_recoverability, spec_baseline, Validation};
use crate::carve::validators::Validator;
use crate::types::FileKind;
use vstd::prelude::*;

verus! {

#[derive(Debug, Clone, Copy)]
pub struct SevenZValidator;

/// Largest 7z archive we carve.
pub const MAX_7Z: u64 = 0x1_0000_0000;

/// Verdict for a 7z window.
pub open spec fn sevenz_verdict(w: Seq<u8>) -> Validation {
    if w.len() < 32 {
        Validation::NeedsMore
    } else if !(w[0] == 0x37u8 && w[1] == 0x7Au8 && w[2] == 0xBCu8 && w[3] == 0xAFu8 && w[4]
        == 0x27u8 && w[5] == 0x1Cu8) {
        Validation::Rejected
    } else {
        let total = 32 + le64(w, 12) + le64(w, 20);
        if total > u64::MAX || total > MAX_7Z {
            Validation::Rejected
        } else {
            Validation::Confirmed { length: total as u64, recoverability: spec_baseline(FileKind::SevenZ) }
        }
    }
}

impl Validator for SevenZValidator {
    open spec fn spec_validate(&self, w: Seq<u8>) -> Validation {
        sevenz_verdict(w)
    }

    open spec fn spec_kind(&self) -> FileKind {
        FileKind::SevenZ
    }

    open spec fn spec_validate_with_kind(&self, w: Seq<u8>) -> (Validation, FileKind) {
        (sevenz_verdict(w), FileKind::SevenZ)
    }

    fn validate(&self, w: &[u8]) -> (r: Validation) {
        if w.len() < 32 {
            return Validation::NeedsMore;
        }
        if !(w[0] == 0x37 && w[1] == 0x7A && w[2] == 0xBC && w[3] == 0xAF && w[4] == 0x27 && w[5]
            == 0x1C) {
            return Validation::Rejected;
        }
        let nh_off: u64 = read_u64_le(w, 12).unwrap();
        let nh_size: u64 = read_u64_le(w, 20).unwrap();
        let total: u64 = match 32u64.checked_add(nh_off) {
            Some(v) => match v.checked_add(nh_size) {
                Some(t) => t,
                None => return Validation::Rejected,
            },
            None => return Validation::Rejected,
        };
        if total > MAX_7Z || total < 32 {
            return Validation::Rejected;
        }
        Validation::Confirmed { length: total, recoverability: baseline_recoverability(FileKind::SevenZ) }
    }

    fn kind(&self) -> (k: FileKind) {
        FileKind::SevenZ
    }

    fn validate_with_kind(&self, w: &[u8]) -> (r: (Validation, FileKind)) {
        (self.validate(w), self.kind())
    }
}

} // verus!
