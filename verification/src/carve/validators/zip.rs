//! ZIP: the length comes from the End-of-Central-Directory record found by a
//! backward search from the end of the window.

use crate::bytes::{last_occurrence, le16, read_u16_le, rfind_within};
use crate::carve::validation::{baseline_recoverability, spec_baseline, Validation};
use crate::carve::validators::Validator;
use crate::types::FileKind;
use vstd::prelude::*;

verus! {

#[derive(Debug, Clone, Copy)]
pub struct ZipValidator;

/// Largest ZIP we carve.
pub const MAX_ZIP_SIZE: u64 = 0x1_0000_0000;

/// EOCD signature `PK\x05\x06`.
pub open spec fn eocd_sig() -> Seq<u8> {
    seq![0x50u8, 0x4Bu8, 0x05u8, 0x06u8]
}

/// ZIP64 EOCD locator signature `PK\x06\x07`.
pub open spec fn zip64_locator_sig() -> Seq<u8> {
    seq![0x50u8, 0x4Bu8, 0x06u8, 0x07u8]
}

/// ZIP64 EOCD signature `PK\x06\x06`.
pub open spec fn zip64_eocd_sig() -> Seq<u8> {
    seq![0x50u8, 0x4Bu8, 0x06u8, 0x06u8]
}

/// Lowest position an EOCD may start at: at most 65557 + 22 bytes before the end.
pub open spec fn eocd_floor(len: int) -> int {
    if len >= 65_579 { len - 65_579 } else { 0 }
}

/// Position of the EOCD record: the last `PK\x05\x06` in the window, provided
/// it lies within the spec's maximum distance from the end.
pub open spec fn eocd_position(w: Seq<u8>) -> Option<int> {
    match last_occurrence(w, eocd_sig(), w.len() as int) {
        Some(p) => if p >= eocd_floor(w.len() as int) { Some(p) } else { None },
        None => None,
    }
}

/// Find the EOCD record in `w`.
pub fn locate_eocd(w: &[u8]) -> (r: Option<usize>)
    ensures
        r matches Some(p) ==> eocd_position(w@) == Some(p as int) && p + 4 <= w.len(),
        r is None ==> eocd_position(w@) is None,
{
    let sig: [u8; 4] = [0x50, 0x4B, 0x05, 0x06];
    assert(sig@ == eocd_sig());
    let scan_from: usize = if w.len() >= 65_579 { w.len() - 65_579 } else { 0 };
    match rfind_within(w, sig.as_slice(), w.len()) {
        Some(p) => if p >= scan_from { Some(p) } else { None },
        None => None,
    }
}

/// Search for a ZIP64 EOCD locator, falling back to a ZIP64 EOCD record.
pub fn locate_zip64(w: &[u8]) -> (r: Option<usize>)
    ensures
        match r {
            Some(p) => last_occurrence(w@, zip64_locator_sig(), w.len() as int) == Some(p as int) || (
            last_occurrence(w@, zip64_locator_sig(), w.len() as int) is None && last_occurrence(
                w@,
                zip64_eocd_sig(),
                w.len() as int,
            ) == Some(p as int)),
            None => last_occurrence(w@, zip64_locator_sig(), w.len() as int) is None
                && last_occurrence(w@, zip64_eocd_sig(), w.len() as int) is None,
        },
{
    let loc: [u8; 4] = [0x50, 0x4B, 0x06, 0x07];
    let eocd64: [u8; 4] = [0x50, 0x4B, 0x06, 0x06];
    assert(loc@ == zip64_locator_sig());
    assert(eocd64@ == zip64_eocd_sig());
    match rfind_within(w, loc.as_slice(), w.len()) {
        Some(p) => Some(p),
        None => rfind_within(w, eocd64.as_slice(), w.len()),
    }
}

/// Verdict for a ZIP window.
pub open spec fn zip_verdict(w: Seq<u8>) -> Validation {
    if w.len() < 30 {
        Validation::NeedsMore
    } else if !(w[0] == 0x50u8 && w[1] == 0x4Bu8 && w[2] == 0x03u8 && w[3] == 0x04u8) {
        Validation::Rejected
    } else {
        match eocd_position(w) {
            None => Validation::NeedsMore,
            Some(e) => if e + 22 > w.len() {
                Validation::NeedsMore
            } else {
                let total = e + 22 + le16(w, e + 20);
                if total > MAX_ZIP_SIZE {
                    Validation::Rejected
                } else if total > w.len() {
                    Validation::NeedsMore
                } else {
                    Validation::Confirmed { length: total as u64, recoverability: spec_baseline(FileKind::Zip) }
                }
            },
        }
    }
}

impl Validator for ZipValidator {
    open spec fn spec_validate(&self, w: Seq<u8>) -> Validation {
        zip_verdict(w)
    }

    open spec fn spec_kind(&self) -> FileKind {
        FileKind::Zip
    }

    open spec fn spec_validate_with_kind(&self, w: Seq<u8>) -> (Validation, FileKind) {
        (zip_verdict(w), FileKind::Zip)
    }

    fn validate(&self, w: &[u8]) -> (r: Validation) {
        if w.len() < 30 {
            return Validation::NeedsMore;
        }
        if !(w[0] == 0x50 && w[1] == 0x4B && w[2] == 0x03 && w[3] == 0x04) {
            return Validation::Rejected;
        }
        let eocd: usize = match locate_eocd(w) {
            Some(p) => p,
            None => return Validation::NeedsMore,
        };
        if w.len() - eocd < 22 {
            return Validation::NeedsMore;
        }
        let cmt_len: usize = read_u16_le(w, eocd + 20).unwrap() as usize;
        if eocd as u64 > MAX_ZIP_SIZE {
            return Validation::Rejected;
        }
        let total: u64 = eocd as u64 + 22 + cmt_len as u64;
        if total > MAX_ZIP_SIZE {
            return Validation::Rejected;
        }
        if total > w.len() as u64 {
            return Validation::NeedsMore;
        }
        Validation::Confirmed { length: total, recoverability: baseline_recoverability(FileKind::Zip) }
    }

    fn kind(&self) -> (k: FileKind) {
        FileKind::Zip
    }

    fn validate_with_kind(&self, w: &[u8]) -> (r: (Validation, FileKind)) {
        (self.validate(w), self.kind())
    }
}

} // verus!
