//! MP4 / MOV (ISO BMFF): walk top-level boxes `[size:u32 BE][type:4]`, with a
//! 64-bit size when `size == 1` and "to end of file" when `size == 0`.

use crate::bytes::{be32, be64, read_u32_be, read_u64_be};
use crate::carve::validation::{baseline_recoverability, spec_baseline, Validation};
use crate::carve::validators::Validator;
use crate::types::FileKind;
use vstd::prelude::*;

verus! {

#[derive(Debug, Clone, Copy)]
pub struct Mp4Validator;

/// Largest MP4 we carve.
pub const MAX_MP4_SIZE: u64 = 0x4_0000_0000;

/// Most boxes we walk before giving up.
pub const MAX_BOXES: u32 = 1_000_000;

/// Box type bytes are printable ASCII or space.
pub open spec fn box_type_ok(w: Seq<u8>, at: int) -> bool {
    forall|k: int| 0 <= k < 4 ==> 0x20u8 <= #[trigger] w[at + k] <= 0x7Eu8
}

/// Walk the box at offset `i`, `boxes` boxes having been seen before it.
pub open spec fn mp4_walk(w: Seq<u8>, i: int, boxes: int) -> Validation
    decreases w.len() - i,
{
    if boxes + 1 > MAX_BOXES {
        Validation::Rejected
    } else if i < 0 || i + 8 > w.len() {
        Validation::NeedsMore
    } else if !box_type_ok(w, i + 4) {
        Validation::Rejected
    } else {
        let size32 = be32(w, i);
        if size32 == 0 {
            if w.len() <= i {
                Validation::Rejected
            } else {
                Validation::Confirmed {
                    length: w.len() as u64,
                    recoverability: (spec_baseline(FileKind::Mp4) - 10) as u8,
                }
            }
        } else if size32 == 1 && i + 16 > w.len() {
            Validation::NeedsMore
        } else if size32 == 1 && be64(w, i + 8) < 16 {
            Validation::Rejected
        } else if size32 != 1 && size32 < 8 {
            Validation::Rejected
        } else {
            let box_size = if size32 == 1 { be64(w, i + 8) } else { size32 };
            let next = i + box_size;
            if next > u64::MAX || next > MAX_MP4_SIZE {
                Validation::Rejected
            } else if next >= w.len() {
                if next == w.len() {
                    Validation::Confirmed { length: next as u64, recoverability: spec_baseline(FileKind::Mp4) }
                } else {
                    Validation::NeedsMore
                }
            } else {
                mp4_walk(w, next, boxes + 1)
            }
        }
    }
}

/// Verdict for an MP4 window (which starts at the first box's size word).
pub open spec fn mp4_verdict(w: Seq<u8>) -> Validation {
    if w.len() < 8 {
        Validation::NeedsMore
    } else if !(w[4] == 0x66u8 && w[5] == 0x74u8 && w[6] == 0x79u8 && w[7] == 0x70u8) {
        Validation::Rejected
    } else {
        mp4_walk(w, 0, 0)
    }
}

impl Validator for Mp4Validator {
    open spec fn spec_validate(&self, w: Seq<u8>) -> Validation {
        mp4_verdict(w)
    }

    open spec fn spec_kind(&self) -> FileKind {
        FileKind::Mp4
    }

    open spec fn spec_validate_with_kind(&self, w: Seq<u8>) -> (Validation, FileKind) {
        (mp4_verdict(w), FileKind::Mp4)
    }

    #[verifier::loop_isolation(false)]
    fn validate(&self, w: &[u8]) -> (r: Validation) {
        if w.len() < 8 {
            return Validation::NeedsMore;
        }
        if !(w[4] == 0x66 && w[5] == 0x74 && w[6] == 0x79 && w[7] == 0x70) {
            return Validation::Rejected;
        }
        let len: u64 = w.len() as u64;
        let mut i: u64 = 0;
        let mut boxes: u32 = 0;
        loop
            invariant
                i < len,
                len == w.len(),
                boxes <= MAX_BOXES,
                mp4_verdict(w@) == mp4_walk(w@, i as int, boxes as int),
            decreases len - i,
        {
            boxes += 1;
            if boxes > MAX_BOXES {
                return Validation::Rejected;
            }
            let iu: usize = i as usize;
            if w.len() - iu < 8 {
                return Validation::NeedsMore;
            }
            let size32: u32 = read_u32_be(w, iu).unwrap();
            let mut k: usize = 0;
            while k < 4
                invariant
                    k <= 4,
                    iu + 8 <= w.len(),
                    forall|j: int| 0 <= j < k ==> 0x20u8 <= #[trigger] w@[iu + 4 + j] <= 0x7Eu8,
                decreases 4 - k,
            {
                let b: u8 = w[iu + 4 + k];
                if !(0x20 <= b && b <= 0x7E) {
                    assert(!(0x20u8 <= w@[(iu + 4) as int + k as int] <= 0x7Eu8));
                    assert(!box_type_ok(w@, i + 4));
                    return Validation::Rejected;
                }
                k += 1;
            }
            let box_size: u64 = if size32 == 1 {
                if w.len() - iu < 16 {
                    return Validation::NeedsMore;
                }
                let s64: u64 = read_u64_be(w, iu + 8).unwrap();
                if s64 < 16 {
                    return Validation::Rejected;
                }
                s64
            } else if size32 == 0 {
                let recov: u8 = baseline_recoverability(FileKind::Mp4) - 10;
                return Validation::Confirmed { length: len, recoverability: recov };
            } else if size32 < 8 {
                return Validation::Rejected;
            } else {
                size32 as u64
            };
            let next: u64 = match i.checked_add(box_size) {
                Some(v) => v,
                None => return Validation::Rejected,
            };
            if next > MAX_MP4_SIZE {
                return Validation::Rejected;
            }
            if next >= len {
                if next == len {
                    return Validation::Confirmed {
                        length: next,
                        recoverability: baseline_recoverability(FileKind::Mp4),
                    };
                }
                return Validation::NeedsMore;
            }
            i = next;
        }
    }

    fn kind(&self) -> (k: FileKind) {
        FileKind::Mp4
    }

    fn validate_with_kind(&self, w: &[u8]) -> (r: (Validation, FileKind)) {
        (self.validate(w), self.kind())
    }
}

} // verus!
