//! PDF: from the `%PDF-` header to the last `%%EOF` in the window, plus up to
//! four bytes of trailing whitespace.

use crate::bytes::{last_occurrence, occurs_from, find_from, rfind_within};
use crate::carve::validation::{baseline_recoverability, spec_baseline, Validation};
use crate::carve::validators::Validator;
use crate::types::FileKind;
use vstd::prelude::*;

verus! {

#[derive(Debug, Clone, Copy)]
pub struct PdfValidator;

/// Smallest window we decide on.
pub const MIN_PDF: usize = 64;

/// Largest PDF we carve.
pub const MAX_PDF: u64 = 0x4000_0000;

/// `startxref`
pub open spec fn startxref_token() -> Seq<u8> {
    seq![0x73u8, 0x74u8, 0x61u8, 0x72u8, 0x74u8, 0x78u8, 0x72u8, 0x65u8, 0x66u8]
}

/// `%%EOF`
pub open spec fn eof_token() -> Seq<u8> {
    seq![0x25u8, 0x25u8, 0x45u8, 0x4Fu8, 0x46u8]
}

/// Line feed, carriage return or space.
pub open spec fn pdf_trailing_ws(b: u8) -> bool {
    b == 0x0Au8 || b == 0x0Du8 || b == 0x20u8
}

/// End of the file after absorbing trailing whitespace that follows `%%EOF`
/// at `last`, scanning from `end`; at most four extra bytes plus one.
pub open spec fn pdf_trail(w: Seq<u8>, last: int, end: int) -> int
    decreases w.len() - end,
{
    if 0 <= end < w.len() && pdf_trailing_ws(w[end]) {
        if end + 1 - last > 9 {
            end + 1
        } else {
            pdf_trail(w, last, end + 1)
        }
    } else {
        end
    }
}

/// Verdict for a PDF window.
pub open spec fn pdf_verdict(w: Seq<u8>) -> Validation {
    if w.len() < MIN_PDF {
        Validation::NeedsMore
    } else if !(w[0] == 0x25u8 && w[1] == 0x50u8 && w[2] == 0x44u8 && w[3] == 0x46u8 && w[4]
        == 0x2Du8) {
        Validation::Rejected
    } else if !occurs_from(w, startxref_token(), 5) {
        Validation::NeedsMore
    } else {
        match last_occurrence(w, eof_token(), w.len() as int) {
            None => Validation::NeedsMore,
            Some(last) => {
                let end = pdf_trail(w, last, last + 5);
                if end > MAX_PDF {
                    Validation::Rejected
                } else {
                    Validation::Confirmed { length: end as u64, recoverability: spec_baseline(FileKind::Pdf) }
                }
            },
        }
    }
}

impl Validator for PdfValidator {
    open spec fn spec_validate(&self, w: Seq<u8>) -> Validation {
        pdf_verdict(w)
    }

    open spec fn spec_kind(&self) -> FileKind {
        FileKind::Pdf
    }

    open spec fn spec_validate_with_kind(&self, w: Seq<u8>) -> (Validation, FileKind) {
        (pdf_verdict(w), FileKind::Pdf)
    }

    fn validate(&self, w: &[u8]) -> (r: Validation) {
        if w.len() < MIN_PDF {
            return Validation::NeedsMore;
        }
        if !(w[0] == 0x25 && w[1] == 0x50 && w[2] == 0x44 && w[3] == 0x46 && w[4] == 0x2D) {
            return Validation::Rejected;
        }
        let sx: [u8; 9] = [0x73, 0x74, 0x61, 0x72, 0x74, 0x78, 0x72, 0x65, 0x66];
        let eof: [u8; 5] = [0x25, 0x25, 0x45, 0x4F, 0x46];
        assert(sx@ == startxref_token());
        assert(eof@ == eof_token());
        if find_from(w, sx.as_slice(), 5).is_none() {
            return Validation::NeedsMore;
        }
        let last: usize = match rfind_within(w, eof.as_slice(), w.len()) {
            Some(p) => p,
            None => return Validation::NeedsMore,
        };
        let mut end: usize = last + 5;
        while end < w.len() && (w[end] == 0x0A || w[end] == 0x0D || w[end] == 0x20)
            invariant_except_break
                last + 5 <= end <= w.len(),
                end - last <= 9,
                pdf_trail(w@, last as int, last + 5) == pdf_trail(w@, last as int, end as int),
            ensures
                last + 5 <= end <= w.len(),
                pdf_trail(w@, last as int, last + 5) == end,
            decreases w.len() - end,
        {
            end += 1;
            if end - last > 9 {
                break;
            }
        }
        if end as u64 > MAX_PDF {
            return Validation::Rejected;
        }
        Validation::Confirmed { length: end as u64, recoverability: baseline_recoverability(FileKind::Pdf) }
    }

    fn kind(&self) -> (k: FileKind) {
        FileKind::Pdf
    }

    fn validate_with_kind(&self, w: &[u8]) -> (r: (Validation, FileKind)) {
        (self.validate(w), self.kind())
    }
}

} // verus!
