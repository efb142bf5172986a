//! Adobe PSD/PSB: header, colour-mode data, image resources and the
//! layer-and-mask section are length-prefixed; the image data runs to the end
//! of the file, so the window end bounds the length.

use crate::bytes::{be16, be32, be64, read_u16_be, read_u32_be, read_u64_be};
use crate::carve::validation::{baseline_recoverability, spec_baseline, Validation};
use crate::carve::validators::Validator;
use crate::types::FileKind;
use vstd::prelude::*;

verus! {

#[derive(Debug, Clone, Copy)]
pub struct PsdValidator;

/// Largest PSD we carve.
pub const MAX_PSD: u64 = 0x8000_0000;

/// Offset where the image-data section starts, or `None` when the window is
/// too short to locate it. `version` 2 (PSB) uses a 64-bit layer-section length.
pub open spec fn psd_image_data_start(w: Seq<u8>) -> Option<int> {
    let version = be16(w, 4);
    let res_off = 30 + be32(w, 26);
    if res_off + 4 > w.len() {
        None
    } else {
        let lm_off = res_off + 4 + be32(w, res_off);
        if lm_off + 4 > w.len() {
            None
        } else if version == 2 {
            if lm_off + 8 > w.len() {
                None
            } else {
                Some(lm_off + 8 + be64(w, lm_off))
            }
        } else {
            Some(lm_off + 4 + be32(w, lm_off))
        }
    }
}

/// Verdict for a PSD window.
pub open spec fn psd_verdict(w: Seq<u8>) -> Validation {
    if w.len() < 30 {
        Validation::NeedsMore
    } else if !(w[0] == 0x38u8 && w[1] == 0x42u8 && w[2] == 0x50u8 && w[3] == 0x53u8) {
        Validation::Rejected
    } else if be16(w, 4) != 1 && be16(w, 4) != 2 {
        Validation::Rejected
    } else {
        match psd_image_data_start(w) {
            None => Validation::NeedsMore,
            Some(ids) => {
                let total = if ids < w.len() { w.len() as int } else { ids };
                if total > MAX_PSD {
                    Validation::Rejected
                } else {
                    Validation::Confirmed {
                        length: total as u64,
                        recoverability: (spec_baseline(FileKind::Psd) - 5) as u8,
                    }
                }
            },
        }
    }
}

impl Validator for PsdValidator {
    open spec fn spec_validate(&self, w: Seq<u8>) -> Validation {
        psd_verdict(w)
    }

    open spec fn spec_kind(&self) -> FileKind {
        FileKind::Psd
    }

    open spec fn spec_validate_with_kind(&self, w: Seq<u8>) -> (Validation, FileKind) {
        (psd_verdict(w), FileKind::Psd)
    }

    fn validate(&self, w: &[u8]) -> (r: Validation) {
        if w.len() < 30 {
            return Validation::NeedsMore;
        }
        if !(w[0] == 0x38 && w[1] == 0x42 && w[2] == 0x50 && w[3] == 0x53) {
            return Validation::Rejected;
        }
        let version: u16 = read_u16_be(w, 4).unwrap();
        if version != 1 && version != 2 {
            return Validation::Rejected;
        }
        let len: u64 = w.len() as u64;
        let cm_len: u64 = read_u32_be(w, 26).unwrap() as u64;
        let resources_off: u64 = 30 + cm_len;
        if resources_off + 4 > len {
            return Validation::NeedsMore;
        }
        let res_len: u64 = read_u32_be(w, resources_off as usize).unwrap() as u64;
        let lm_off: u64 = resources_off + 4 + res_len;
        if lm_off + 4 > len {
            return Validation::NeedsMore;
        }
        let image_data_start: u64 = if version == 2 {
            if lm_off + 8 > len {
                return Validation::NeedsMore;
            }
            let lm_len: u64 = read_u64_be(w, lm_off as usize).unwrap();
            match (lm_off + 8).checked_add(lm_len) {
                Some(v) => v,
                None => return Validation::Rejected,
            }
        } else {
            lm_off + 4 + read_u32_be(w, lm_off as usize).unwrap() as u64
        };
        let total: u64 = if image_data_start < len { len } else { image_data_start };
        if total > MAX_PSD {
            return Validation::Rejected;
        }
        let recov: u8 = baseline_recoverability(FileKind::Psd) - 5;
        Validation::Confirmed { length: total, recoverability: recov }
    }

    fn kind(&self) -> (k: FileKind) {
        FileKind::Psd
    }

    fn validate_with_kind(&self, w: &[u8]) -> (r: (Validation, FileKind)) {
        (self.validate(w), self.kind())
    }
}

} // verus!
