//! RAR4 and RAR5: walks of length-prefixed blocks up to the end-of-archive
//! block.

use crate::bytes::{le16, le32, read_u16_le, read_u32_le};
use crate::carve::validation::{baseline_recoverability, spec_baseline, Validation};
use crate::carve::validators::Validator;
use crate::types::FileKind;
use vstd::prelude::*;

verus! {

#[derive(Debug, Clone, Copy)]
pub struct RarValidator;

/// Largest RAR we carve.
pub const MAX_RAR_SIZE: u64 = 0x1_0000_0000;

/// Most blocks we walk before giving up.
pub const MAX_BLOCKS: u32 = 5_000_000;

/// `Rar!\x1a\x07\x00` at the window start.
pub open spec fn has_rar4_sig(w: Seq<u8>) -> bool {
    w.len() >= 7 && w[0] == 0x52u8 && w[1] == 0x61u8 && w[2] == 0x72u8 && w[3] == 0x21u8 && w[4]
        == 0x1Au8 && w[5] == 0x07u8 && w[6] == 0x00u8
}

/// `Rar!\x1a\x07\x01\x00` at the window start.
pub open spec fn has_rar5_sig(w: Seq<u8>) -> bool {
    w.len() >= 8 && w[0] == 0x52u8 && w[1] == 0x61u8 && w[2] == 0x72u8 && w[3] == 0x21u8 && w[4]
        == 0x1Au8 && w[5] == 0x07u8 && w[6] == 0x01u8 && w[7] == 0x00u8
}

/// RAR4 block walk from offset `i`, `blocks` blocks having been seen.
pub open spec fn rar4_walk(w: Seq<u8>, i: int, blocks: int) -> Validation
    decreases w.len() - i,
{
    if blocks + 1 > MAX_BLOCKS {
        Validation::Rejected
    } else if i < 0 || i + 7 > w.len() {
        Validation::NeedsMore
    } else if le16(w, i + 5) < 7 {
        Validation::Rejected
    } else if le16(w, i + 3) >= 0x8000 && i + 11 > w.len() {
        Validation::NeedsMore
    } else {
        let add = if le16(w, i + 3) >= 0x8000 { le32(w, i + 7) } else { 0 };
        let next = i + le16(w, i + 5) + add;
        if next > MAX_RAR_SIZE {
            Validation::Rejected
        } else if w[i + 2] == 0x7Bu8 {
            Validation::Confirmed { length: next as u64, recoverability: spec_baseline(FileKind::Rar) }
        } else if next > w.len() {
            Validation::NeedsMore
        } else {
            rar4_walk(w, next, blocks + 1)
        }
    }
}

/// RAR5 vint: 7 value bits per byte, least significant group first, the top
/// bit set on every byte but the last; at most ten bytes. Decoded from byte
/// `k` on, with `value` holding the groups already read.
pub open spec fn rar_vint_from(b: Seq<u8>, off: int, k: int, value: u64) -> Option<(u64, int)>
    decreases 10 - k,
{
    if k < 0 || k >= 10 || off < 0 || off + k >= b.len() {
        None
    } else {
        let byte = b[off + k];
        let v2 = value | (((byte & 0x7Fu8) as u64) << ((7 * k) as u32));
        if byte & 0x80u8 == 0 {
            Some((v2, k + 1))
        } else {
            rar_vint_from(b, off, k + 1, v2)
        }
    }
}

pub proof fn lemma_rar_vint_bounds(b: Seq<u8>, off: int, k: int, value: u64)
    ensures
        rar_vint_from(b, off, k, value) matches Some((_, n)) ==> k + 1 <= n <= 10 && off + n <= b.len(),
    decreases 10 - k,
{
    if !(k < 0 || k >= 10 || off < 0 || off + k >= b.len()) {
        let byte = b[off + k];
        let v2 = value | (((byte & 0x7Fu8) as u64) << ((7 * k) as u32));
        if byte & 0x80u8 != 0 {
            lemma_rar_vint_bounds(b, off, k + 1, v2);
        }
    }
}

/// RAR5 vint at `off`: `(value, byte count)`.
pub open spec fn rar_vint(b: Seq<u8>, off: int) -> Option<(u64, int)> {
    rar_vint_from(b, off, 0, 0)
}

/// Decode a RAR5 vint at `off`.
pub fn read_vint(buf: &[u8], off: usize) -> (r: Option<(u64, usize)>)
    ensures
        match r {
            Some((v, n)) => rar_vint(buf@, off as int) == Some((v, n as int)) && 1 <= n <= 10 && off
                + n <= buf.len(),
            None => rar_vint(buf@, off as int) is None,
        },
{
    proof {
        lemma_rar_vint_bounds(buf@, off as int, 0, 0);
    }
    let mut value: u64 = 0;
    let mut shift: u32 = 0;
    let mut k: usize = 0;
    while k < 10
        invariant
            k <= 10,
            shift == 7 * k,
            rar_vint(buf@, off as int) == rar_vint_from(buf@, off as int, k as int, value),
        decreases 10 - k,
    {
        if off >= buf.len() || k >= buf.len() - off {
            return None;
        }
        let b: u8 = buf[off + k];
        value = value | ((b & 0x7F) as u64) << shift;
        k += 1;
        if b & 0x80 == 0 {
            return Some((value, k));
        }
        shift += 7;
    }
    None
}

/// RAR5 block walk from offset `i`, `blocks` blocks having been seen.
pub open spec fn rar5_walk(w: Seq<u8>, i: int, blocks: int) -> Validation
    decreases w.len() - i,
{
    if blocks + 1 > MAX_BLOCKS {
        Validation::Rejected
    } else if i < 0 || i + 4 > w.len() {
        Validation::NeedsMore
    } else {
        match rar_vint(w, i + 4) {
            None => Validation::NeedsMore,
            Some((hdr_size, vl1)) => {
                let hfo = i + 4 + vl1;
                proof {
                    lemma_rar_vint_bounds(w, i + 4, 0, 0);
                }
                match rar_vint(w, hfo) {
                    None => Validation::NeedsMore,
                    Some((hdr_type, vl2)) => match rar_vint(w, hfo + vl2) {
                        None => Validation::NeedsMore,
                        Some((flags, flen)) => {
                            let data = if flags & 2 != 0 {
                                rar_vint(w, hfo + vl2 + flen)
                            } else {
                                Some((0u64, 0int))
                            };
                            match data {
                                None => Validation::NeedsMore,
                                Some((data_size, _)) => {
                                    let block_end = hfo + hdr_size + data_size;
                                    if block_end > MAX_RAR_SIZE {
                                        Validation::Rejected
                                    } else if hdr_type == 5 {
                                        Validation::Confirmed {
                                            length: block_end as u64,
                                            recoverability: spec_baseline(FileKind::Rar),
                                        }
                                    } else if block_end > w.len() {
                                        Validation::NeedsMore
                                    } else {
                                        rar5_walk(w, block_end, blocks + 1)
                                    }
                                },
                            }
                        },
                    },
                }
            },
        }
    }
}

/// Verdict for a RAR window.
pub open spec fn rar_verdict(w: Seq<u8>) -> Validation {
    if w.len() < 8 {
        Validation::NeedsMore
    } else if has_rar5_sig(w) {
        rar5_walk(w, 8, 0)
    } else if has_rar4_sig(w) {
        rar4_walk(w, 7, 0)
    } else {
        Validation::Rejected
    }
}

/// Walk RAR4 blocks after the 7-byte signature.
pub fn validate_rar4(w: &[u8]) -> (r: Validation)
    requires
        w.len() >= 7,
    ensures
        r == rar4_walk(w@, 7, 0),
{
    let len: u64 = w.len() as u64;
    let mut i: usize = 7;
    let mut blocks: u32 = 0;
    loop
        invariant
            i <= w.len(),
            len == w.len(),
            blocks <= MAX_BLOCKS,
            rar4_walk(w@, 7, 0) == rar4_walk(w@, i as int, blocks as int),
        decreases w.len() - i,
    {
        blocks += 1;
        if blocks > MAX_BLOCKS {
            return Validation::Rejected;
        }
        if w.len() - i < 7 {
            return Validation::NeedsMore;
        }
        let head_type: u8 = w[i + 2];
        let head_flags: u16 = read_u16_le(w, i + 3).unwrap();
        let head_size: u64 = read_u16_le(w, i + 5).unwrap() as u64;
        if head_size < 7 {
            return Validation::Rejected;
        }
        let add_size: u64 = if head_flags >= 0x8000 {
            if w.len() - i < 11 {
                return Validation::NeedsMore;
            }
            read_u32_le(w, i + 7).unwrap() as u64
        } else {
            0
        };
        let next: u64 = match (i as u64).checked_add(head_size + add_size) {
            Some(v) => v,
            None => u64::MAX,
        };
        if next > MAX_RAR_SIZE {
            return Validation::Rejected;
        }
        if head_type == 0x7B {
            return Validation::Confirmed {
                length: next,
                recoverability: baseline_recoverability(FileKind::Rar),
            };
        }
        if next > len {
            return Validation::NeedsMore;
        }
        i = next as usize;
    }
}

/// Walk RAR5 headers after the 8-byte signature.
pub fn validate_rar5(w: &[u8]) -> (r: Validation)
    requires
        w.len() >= 8,
    ensures
        r == rar5_walk(w@, 8, 0),
{
    let len: u64 = w.len() as u64;
    let mut i: usize = 8;
    let mut blocks: u32 = 0;
    loop
        invariant
            i <= w.len(),
            len == w.len(),
            blocks <= MAX_BLOCKS,
            rar5_walk(w@, 8, 0) == rar5_walk(w@, i as int, blocks as int),
        decreases w.len() - i,
    {
        blocks += 1;
        if blocks > MAX_BLOCKS {
            return Validation::Rejected;
        }
        if w.len() - i < 4 {
            return Validation::NeedsMore;
        }
        let after_crc: usize = i + 4;
        let (hdr_size, vlen1) = match read_vint(w, after_crc) {
            Some(v) => v,
            None => return Validation::NeedsMore,
        };
        let hdr_field_off: usize = after_crc + vlen1;
        let (hdr_type, vlen2) = match read_vint(w, hdr_field_off) {
            Some(v) => v,
            None => return Validation::NeedsMore,
        };
        let header_end: u64 = (hdr_field_off as u64).saturating_add(hdr_size);
        let (flags, flen) = match read_vint(w, hdr_field_off + vlen2) {
            Some(v) => v,
            None => return Validation::NeedsMore,
        };
        let data_size: u64 = if flags & 0x02 != 0 {
            match read_vint(w, hdr_field_off + vlen2 + flen) {
                Some((v, _)) => v,
                None => return Validation::NeedsMore,
            }
        } else {
            0
        };
        let block_end: u64 = header_end.saturating_add(data_size);
        if block_end > MAX_RAR_SIZE {
            return Validation::Rejected;
        }
        if hdr_type == 5 {
            return Validation::Confirmed {
                length: block_end,
                recoverability: baseline_recoverability(FileKind::Rar),
            };
        }
        if block_end > len {
            return Validation::NeedsMore;
        }
        i = block_end as usize;
    }
}

impl Validator for RarValidator {
    open spec fn spec_validate(&self, w: Seq<u8>) -> Validation {
        rar_verdict(w)
    }

    open spec fn spec_kind(&self) -> FileKind {
        FileKind::Rar
    }

    open spec fn spec_validate_with_kind(&self, w: Seq<u8>) -> (Validation, FileKind) {
        (rar_verdict(w), FileKind::Rar)
    }

    fn validate(&self, w: &[u8]) -> (r: Validation) {
        if w.len() < 8 {
            return Validation::NeedsMore;
        }
        if w[0] == 0x52 && w[1] == 0x61 && w[2] == 0x72 && w[3] == 0x21 && w[4] == 0x1A && w[5]
            == 0x07 && w[6] == 0x01 && w[7] == 0x00 {
            validate_rar5(w)
        } else if w[0] == 0x52 && w[1] == 0x61 && w[2] == 0x72 && w[3] == 0x21 && w[4] == 0x1A
            && w[5] == 0x07 && w[6] == 0x00 {
            validate_rar4(w)
        } else {
            Validation::Rejected
        }
    }

    fn kind(&self) -> (k: FileKind) {
        FileKind::Rar
    }

    fn validate_with_kind(&self, w: &[u8]) -> (r: (Validation, FileKind)) {
        (self.validate(w), self.kind())
    }
}

} // verus!
