//! Matroska / WebM: `[EBML header][Segment ID][size vint][data]`; the
//! Segment's size plus the header bytes is the file length.

use crate::carve::validation::{baseline_recoverability, spec_baseline, Validation};
use crate::carve::validators::Validator;
use crate::types::FileKind;
use vstd::prelude::*;

verus! {

#[derive(Debug, Clone, Copy)]
pub struct MkvValidator;

/// Largest MKV we carve.
pub const MAX_MKV_SIZE: u64 = 0x4_0000_0000;

/// Number of bytes of an EBML vint whose first byte is `first` (non-zero):
/// one more than the count of leading zero bits.
pub open spec fn vint_width(first: u8) -> int {
    if first >= 0x80 {
        1
    } else if first >= 0x40 {
        2
    } else if first >= 0x20 {
        3
    } else if first >= 0x10 {
        4
    } else if first >= 0x08 {
        5
    } else if first >= 0x04 {
        6
    } else if first >= 0x02 {
        7
    } else {
        8
    }
}

/// `2^(8 - width)`: the first byte's value bits are `first % vint_div(width)`.
pub open spec fn vint_div(width: int) -> int {
    if width == 1 {
        128
    } else if width == 2 {
        64
    } else if width == 3 {
        32
    } else if width == 4 {
        16
    } else if width == 5 {
        8
    } else if width == 6 {
        4
    } else if width == 7 {
        2
    } else {
        1
    }
}

/// `256^k`.
pub open spec fn pow256(k: nat) -> int
    decreases k,
{
    if k == 0 {
        1
    } else {
        pow256((k - 1) as nat) * 256
    }
}

/// Big-endian accumulation of `count` bytes starting at `start` onto `acc`.
pub open spec fn be_acc(b: Seq<u8>, start: int, count: nat, acc: int) -> int
    decreases count,
{
    if count == 0 {
        acc
    } else {
        be_acc(b, start + 1, (count - 1) as nat, acc * 256 + b[start] as int)
    }
}

/// All of `b[start..start+count]` are `0xFF`.
pub open spec fn all_ff(b: Seq<u8>, start: int, count: int) -> bool {
    forall|j: int| start <= j < start + count ==> b[j] == 0xFFu8
}

/// EBML vint in size form at `off`: `(value, width)`. The all-ones pattern
/// ("unknown size") is reported as `u64::MAX`.
pub open spec fn vint_size(b: Seq<u8>, off: int) -> Option<(u64, int)> {
    if off < 0 || off >= b.len() || b[off] == 0 {
        None
    } else {
        let width = vint_width(b[off]);
        if off + width > b.len() {
            None
        } else {
            let top = b[off] as int % vint_div(width);
            if top == vint_div(width) - 1 && all_ff(b, off + 1, width - 1) {
                Some((u64::MAX, width))
            } else {
                Some((be_acc(b, off + 1, (width - 1) as nat, top) as u64, width))
            }
        }
    }
}

proof fn lemma_be_acc_step(b: Seq<u8>, start: int, count: nat, acc: int)
    ensures
        be_acc(b, start, count + 1, acc) == be_acc(b, start + count, 1, be_acc(b, start, count, acc)),
    decreases count,
{
    if count > 0 {
        lemma_be_acc_step(b, start + 1, (count - 1) as nat, acc * 256 + b[start] as int);
    }
}

/// Decode an EBML vint in size form at `off`.
pub fn read_vint_size(buf: &[u8], off: usize) -> (r: Option<(u64, usize)>)
    ensures
        match r {
            Some((v, n)) => vint_size(buf@, off as int) == Some((v, n as int)),
            None => vint_size(buf@, off as int) is None,
        },
{
    if off >= buf.len() {
        return None;
    }
    let first: u8 = buf[off];
    if first == 0 {
        return None;
    }
    let width: usize = if first >= 0x80 {
        1
    } else if first >= 0x40 {
        2
    } else if first >= 0x20 {
        3
    } else if first >= 0x10 {
        4
    } else if first >= 0x08 {
        5
    } else if first >= 0x04 {
        6
    } else if first >= 0x02 {
        7
    } else {
        8
    };
    let div: u8 = if width == 1 {
        128
    } else if width == 2 {
        64
    } else if width == 3 {
        32
    } else if width == 4 {
        16
    } else if width == 5 {
        8
    } else if width == 6 {
        4
    } else if width == 7 {
        2
    } else {
        1
    };
    if width > buf.len() - off {
        return None;
    }
    let top: u8 = first % div;
    let mut value: u64 = top as u64;
    let mut all_ones: bool = top == div - 1;
    let mut k: usize = 1;
    proof {
        reveal_with_fuel(pow256, 9);
    }
    while k < width
        invariant
            1 <= k <= width <= 8,
            off + width <= buf.len(),
            width as int == vint_width(first),
            div as int == vint_div(width as int),
            top as int == first as int % vint_div(width as int),
            first == buf@[off as int],
            value == be_acc(buf@, off + 1, (k - 1) as nat, top as int),
            value < pow256(k as nat),
            all_ones == (top == div - 1 && all_ff(buf@, off + 1, k - 1)),
            pow256(8) == 0x1_0000_0000_0000_0000,
        decreases width - k,
    {
        let b: u8 = buf[off + k];
        proof {
            lemma_be_acc_step(buf@, off + 1, (k - 1) as nat, top as int);
            let prev = be_acc(buf@, off + 1, (k - 1) as nat, top as int);
            assert(be_acc(buf@, off + k, 1, prev) == be_acc(buf@, off + k + 1, 0, prev * 256 + buf@[off + k] as int));
            assert(pow256((k + 1) as nat) == pow256(k as nat) * 256);
            if k + 1 < 8 {
                lemma_pow256_mono((k + 1) as nat, 8);
            }
        }
        value = value * 256 + b as u64;
        if b != 0xFF {
            all_ones = false;
        }
        k += 1;
    }
    if all_ones {
        return Some((u64::MAX, width));
    }
    Some((value, width))
}

proof fn lemma_pow256_mono(a: nat, b: nat)
    requires
        a <= b,
    ensures
        1 <= pow256(a) <= pow256(b),
    decreases b,
{
    if b > 0 {
        if a < b {
            lemma_pow256_mono(a, (b - 1) as nat);
        } else {
            lemma_pow256_mono((a - 1) as nat, (b - 1) as nat);
        }
    }
}

/// EBML magic `1A 45 DF A3`.
pub open spec fn is_ebml_magic(w: Seq<u8>, at: int) -> bool {
    w[at] == 0x1Au8 && w[at + 1] == 0x45u8 && w[at + 2] == 0xDFu8 && w[at + 3] == 0xA3u8
}

/// Segment element ID `18 53 80 67`.
pub open spec fn is_segment_id(w: Seq<u8>, at: int) -> bool {
    w[at] == 0x18u8 && w[at + 1] == 0x53u8 && w[at + 2] == 0x80u8 && w[at + 3] == 0x67u8
}

/// Verdict for an MKV window.
pub open spec fn mkv_verdict(w: Seq<u8>) -> Validation {
    if w.len() < 8 || !is_ebml_magic(w, 0) {
        Validation::Rejected
    } else {
        match vint_size(w, 4) {
            None => Validation::NeedsMore,
            Some((ebml_size, vl)) => {
                let after = ebml_size + 4 + vl;
                if after > u64::MAX {
                    Validation::Rejected
                } else if after + 5 > w.len() {
                    Validation::NeedsMore
                } else if !is_segment_id(w, after) {
                    Validation::Rejected
                } else {
                    match vint_size(w, after + 4) {
                        None => Validation::NeedsMore,
                        Some((seg, svl)) => {
                            let total = after + 4 + svl + seg;
                            if seg == u64::MAX {
                                Validation::Rejected
                            } else if total > u64::MAX || total > MAX_MKV_SIZE {
                                Validation::Rejected
                            } else if total > w.len() {
                                Validation::NeedsMore
                            } else {
                                Validation::Confirmed {
                                    length: total as u64,
                                    recoverability: spec_baseline(FileKind::Mkv),
                                }
                            }
                        },
                    }
                }
            },
        }
    }
}

impl Validator for MkvValidator {
    open spec fn spec_validate(&self, w: Seq<u8>) -> Validation {
        mkv_verdict(w)
    }

    open spec fn spec_kind(&self) -> FileKind {
        FileKind::Mkv
    }

    open spec fn spec_validate_with_kind(&self, w: Seq<u8>) -> (Validation, FileKind) {
        (mkv_verdict(w), FileKind::Mkv)
    }

    fn validate(&self, w: &[u8]) -> (r: Validation) {
        if w.len() < 8 || !(w[0] == 0x1A && w[1] == 0x45 && w[2] == 0xDF && w[3] == 0xA3) {
            return Validation::Rejected;
        }
        let (ebml_data_size, vint_len) = match read_vint_size(w, 4) {
            Some(v) => v,
            None => return Validation::NeedsMore,
        };
        let i: usize = 4 + vint_len;
        let after_ebml: u64 = match ebml_data_size.checked_add(i as u64) {
            Some(v) => v,
            None => return Validation::Rejected,
        };
        if after_ebml > w.len() as u64 || w.len() as u64 - after_ebml < 5 {
            return Validation::NeedsMore;
        }
        let a: usize = after_ebml as usize;
        if !(w[a] == 0x18 && w[a + 1] == 0x53 && w[a + 2] == 0x80 && w[a + 3] == 0x67) {
            return Validation::Rejected;
        }
        let seg_size_off: usize = a + 4;
        let (seg_size, seg_vint_len) = match read_vint_size(w, seg_size_off) {
            Some(v) => v,
            None => return Validation::NeedsMore,
        };
        let header_end: u64 = (seg_size_off + seg_vint_len) as u64;
        if seg_size == u64::MAX {
            return Validation::Rejected;
        }
        let total: u64 = match header_end.checked_add(seg_size) {
            Some(v) => v,
            None => return Validation::Rejected,
        };
        if total > MAX_MKV_SIZE {
            return Validation::Rejected;
        }
        if total > w.len() as u64 {
            return Validation::NeedsMore;
        }
        Validation::Confirmed { length: total, recoverability: baseline_recoverability(FileKind::Mkv) }
    }

    fn kind(&self) -> (k: FileKind) {
        FileKind::Mkv
    }

    fn validate_with_kind(&self, w: &[u8]) -> (r: (Validation, FileKind)) {
        (self.validate(w), self.kind())
    }
}

} // verus!
