//! OOXML (DOCX/XLSX/PPTX): a ZIP whose first entry is `[Content_Types].xml`.
//! The length comes from the ZIP EOCD; the flavour from well-known part paths.

use crate::bytes::{le16, matches_at, occurs_at, occurs_from, read_u16_le, find_from};
use crate::carve::validation::{baseline_recoverability, spec_baseline, Validation};
use crate::carve::validators::zip::{eocd_position, locate_eocd};
use crate::carve::validators::Validator;
use crate::types::FileKind;
use vstd::prelude::*;

verus! {

#[derive(Debug, Clone, Copy)]
pub struct OoxmlValidator;

/// Largest OOXML document we carve.
pub const MAX_OOXML: u64 = 0x1000_0000;

/// `[Content_Types].xml`
pub open spec fn content_types_name() -> Seq<u8> {
    seq![0x5Bu8, 0x43u8, 0x6Fu8, 0x6Eu8, 0x74u8, 0x65u8, 0x6Eu8, 0x74u8, 0x5Fu8, 0x54u8, 0x79u8, 0x70u8, 0x65u8, 0x73u8, 0x5Du8, 0x2Eu8, 0x78u8, 0x6Du8, 0x6Cu8]
}

/// `word/document.xml`
pub open spec fn docx_part() -> Seq<u8> {
    seq![0x77u8, 0x6Fu8, 0x72u8, 0x64u8, 0x2Fu8, 0x64u8, 0x6Fu8, 0x63u8, 0x75u8, 0x6Du8, 0x65u8, 0x6Eu8, 0x74u8, 0x2Eu8, 0x78u8, 0x6Du8, 0x6Cu8]
}

/// `xl/workbook.xml`
pub open spec fn xlsx_part() -> Seq<u8> {
    seq![0x78u8, 0x6Cu8, 0x2Fu8, 0x77u8, 0x6Fu8, 0x72u8, 0x6Bu8, 0x62u8, 0x6Fu8, 0x6Fu8, 0x6Bu8, 0x2Eu8, 0x78u8, 0x6Du8, 0x6Cu8]
}

/// `ppt/presentation.xml`
pub open spec fn pptx_part() -> Seq<u8> {
    seq![0x70u8, 0x70u8, 0x74u8, 0x2Fu8, 0x70u8, 0x72u8, 0x65u8, 0x73u8, 0x65u8, 0x6Eu8, 0x74u8, 0x61u8, 0x74u8, 0x69u8, 0x6Fu8, 0x6Eu8, 0x2Eu8, 0x78u8, 0x6Du8, 0x6Cu8]
}

/// Flavour of a confirmed OOXML container, from the part paths it mentions.
pub open spec fn ooxml_flavour(w: Seq<u8>) -> FileKind {
    if occurs_from(w, docx_part(), 0) {
        FileKind::Docx
    } else if occurs_from(w, xlsx_part(), 0) {
        FileKind::Xlsx
    } else if occurs_from(w, pptx_part(), 0) {
        FileKind::Pptx
    } else {
        FileKind::Zip
    }
}

/// Verdict and kind for an OOXML window.
pub open spec fn ooxml_verdict(w: Seq<u8>) -> (Validation, FileKind) {
    if w.len() < 64 || !(w[0] == 0x50u8 && w[1] == 0x4Bu8 && w[2] == 0x03u8 && w[3] == 0x04u8) {
        (Validation::Rejected, FileKind::Docx)
    } else if 30 + le16(w, 26) > w.len() {
        (Validation::NeedsMore, FileKind::Docx)
    } else if !(le16(w, 26) == 19 && w.subrange(30, 49) == content_types_name()) {
        (Validation::Rejected, FileKind::Docx)
    } else {
        match eocd_position(w) {
            None => (Validation::NeedsMore, FileKind::Docx),
            Some(e) => if e + 22 > w.len() {
                (Validation::NeedsMore, FileKind::Docx)
            } else {
                let total = e + 22 + le16(w, e + 20);
                if total > MAX_OOXML {
                    (Validation::Rejected, FileKind::Docx)
                } else if total > w.len() {
                    (Validation::NeedsMore, FileKind::Docx)
                } else {
                    (
                        Validation::Confirmed {
                            length: total as u64,
                            recoverability: spec_baseline(ooxml_flavour(w)),
                        },
                        ooxml_flavour(w),
                    )
                }
            },
        }
    }
}

impl Validator for OoxmlValidator {
    open spec fn spec_validate(&self, w: Seq<u8>) -> Validation {
        ooxml_verdict(w).0
    }

    open spec fn spec_kind(&self) -> FileKind {
        FileKind::Docx
    }

    open spec fn spec_validate_with_kind(&self, w: Seq<u8>) -> (Validation, FileKind) {
        ooxml_verdict(w)
    }

    fn validate(&self, w: &[u8]) -> (r: Validation) {
        let (val, _) = self.validate_with_kind(w);
        val
    }

    fn kind(&self) -> (k: FileKind) {
        FileKind::Docx
    }

    fn validate_with_kind(&self, w: &[u8]) -> (r: (Validation, FileKind)) {
        if w.len() < 64 || !(w[0] == 0x50 && w[1] == 0x4B && w[2] == 0x03 && w[3] == 0x04) {
            return (Validation::Rejected, FileKind::Docx);
        }
        let fname_len: usize = read_u16_le(w, 26).unwrap() as usize;
        if 30 + fname_len > w.len() {
            return (Validation::NeedsMore, FileKind::Docx);
        }
        let ct: [u8; 19] = [0x5B, 0x43, 0x6F, 0x6E, 0x74, 0x65, 0x6E, 0x74, 0x5F, 0x54, 0x79, 0x70, 0x65, 0x73, 0x5D, 0x2E, 0x78, 0x6D, 0x6C];
        assert(ct@ == content_types_name());
        if !(fname_len == 19 && matches_at(w, ct.as_slice(), 30)) {
            return (Validation::Rejected, FileKind::Docx);
        }
        let eocd: usize = match locate_eocd(w) {
            Some(p) => p,
            None => return (Validation::NeedsMore, FileKind::Docx),
        };
        if w.len() - eocd < 22 {
            return (Validation::NeedsMore, FileKind::Docx);
        }
        let cmt_len: usize = read_u16_le(w, eocd + 20).unwrap() as usize;
        if eocd as u64 > MAX_OOXML {
            return (Validation::Rejected, FileKind::Docx);
        }
        let total: u64 = eocd as u64 + 22 + cmt_len as u64;
        if total > MAX_OOXML {
            return (Validation::Rejected, FileKind::Docx);
        }
        if total > w.len() as u64 {
            return (Validation::NeedsMore, FileKind::Docx);
        }
        let docx: [u8; 17] = [0x77, 0x6F, 0x72, 0x64, 0x2F, 0x64, 0x6F, 0x63, 0x75, 0x6D, 0x65, 0x6E, 0x74, 0x2E, 0x78, 0x6D, 0x6C];
        let xlsx: [u8; 15] = [0x78, 0x6C, 0x2F, 0x77, 0x6F, 0x72, 0x6B, 0x62, 0x6F, 0x6F, 0x6B, 0x2E, 0x78, 0x6D, 0x6C];
        let pptx: [u8; 20] = [0x70, 0x70, 0x74, 0x2F, 0x70, 0x72, 0x65, 0x73, 0x65, 0x6E, 0x74, 0x61, 0x74, 0x69, 0x6F, 0x6E, 0x2E, 0x78, 0x6D, 0x6C];
        assert(docx@ == docx_part());
        assert(xlsx@ == xlsx_part());
        assert(pptx@ == pptx_part());
        let kind: FileKind = if find_from(w, docx.as_slice(), 0).is_some() {
            FileKind::Docx
        } else if find_from(w, xlsx.as_slice(), 0).is_some() {
            FileKind::Xlsx
        } else if find_from(w, pptx.as_slice(), 0).is_some() {
            FileKind::Pptx
        } else {
            FileKind::Zip
        };
        (Validation::Confirmed { length: total, recoverability: baseline_recoverability(kind) }, kind)
    }
}

} // verus!
