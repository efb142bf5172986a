//! TIFF: no length field, so walk the IFD chain (at most 64 IFDs, no IFD
//! twice) and report the furthest byte that any tag's data or IFD reaches.
//! Byte order comes from the `II` (little) / `MM` (big) mark.

use crate::bytes::{be16, be32, le16, le32, read_u16_be, read_u16_le, read_u32_be, read_u32_le};
use crate::carve::validation::{baseline_recoverability, spec_baseline, Validation};
use crate::carve::validators::Validator;
use crate::types::FileKind;
use vstd::prelude::*;

verus! {

#[derive(Debug, Clone, Copy)]
pub struct TiffValidator;

/// Most IFDs walked.
pub const MAX_IFDS: usize = 64;

/// Largest TIFF we carve.
pub const MAX_TIFF_SIZE: u64 = 0x1_0000_0000;

/// 16-bit value at `off` in the file's byte order.
pub open spec fn rd16(w: Seq<u8>, little: bool, off: int) -> int {
    if little {
        le16(w, off)
    } else {
        be16(w, off)
    }
}

/// 32-bit value at `off` in the file's byte order.
pub open spec fn rd32(w: Seq<u8>, little: bool, off: int) -> int {
    if little {
        le32(w, off)
    } else {
        be32(w, off)
    }
}

/// Bytes per value of a TIFF field type (unknown types count as 1).
pub open spec fn type_size(typ: int) -> int {
    if typ == 1 || typ == 2 || typ == 6 || typ == 7 {
        1
    } else if typ == 3 || typ == 8 {
        2
    } else if typ == 4 || typ == 9 || typ == 11 {
        4
    } else if typ == 5 || typ == 10 || typ == 12 {
        8
    } else {
        1
    }
}

/// End of the data of the 12-byte IFD entry at `off`: the entry itself when
/// the value fits in 4 bytes, else the pointed-to data.
pub open spec fn entry_end(w: Seq<u8>, little: bool, off: int) -> int {
    let bytes = type_size(rd16(w, little, off + 2)) * rd32(w, little, off + 4);
    if bytes <= 4 {
        off + 12
    } else {
        rd32(w, little, off + 8) + bytes
    }
}

/// Furthest entry end over entries `k..n` of the IFD at `ifd`, starting from
/// `m`; `None` when some entry ends past `MAX_TIFF_SIZE`.
pub open spec fn entries_max(w: Seq<u8>, little: bool, ifd: int, n: int, k: int, m: int) -> Option<int>
    decreases n - k,
{
    if k >= n {
        Some(m)
    } else {
        let e = entry_end(w, little, ifd + 2 + 12 * k);
        if e > MAX_TIFF_SIZE {
            None
        } else {
            entries_max(w, little, ifd, n, k + 1, if e > m { e } else { m })
        }
    }
}

/// Outcome once the IFD walk stops with furthest end `m`.
pub open spec fn tiff_finish(w: Seq<u8>, m: int) -> Validation {
    if m > w.len() {
        Validation::NeedsMore
    } else {
        Validation::Confirmed { length: m as u64, recoverability: spec_baseline(FileKind::Tiff) }
    }
}

/// IFD walk: `ifd` is the next IFD, `m` the furthest end so far, `visited`
/// the IFDs already seen and `iter` how many.
pub open spec fn tiff_walk(w: Seq<u8>, little: bool, ifd: u64, m: int, visited: Seq<u64>, iter: int) -> Validation
    decreases MAX_IFDS - iter,
{
    if iter >= MAX_IFDS {
        tiff_finish(w, m)
    } else if visited.contains(ifd) {
        Validation::Rejected
    } else if ifd + 2 > w.len() {
        Validation::NeedsMore
    } else {
        let n = rd16(w, little, ifd as int);
        let ee = ifd + 2 + 12 * n;
        if n == 0 {
            Validation::Rejected
        } else if ee + 4 > w.len() {
            Validation::NeedsMore
        } else {
            match entries_max(w, little, ifd as int, n, 0, m) {
                None => Validation::Rejected,
                Some(m1) => {
                    let m2 = if ee + 4 > m1 {
                        ee + 4
                    } else {
                        m1
                    };
                    let next = rd32(w, little, ee);
                    if next == 0 {
                        tiff_finish(w, m2)
                    } else {
                        tiff_walk(w, little, next as u64, m2, visited.push(ifd), iter + 1)
                    }
                }
            }
        }
    }
}

/// Verdict for a TIFF window.
pub open spec fn tiff_verdict(w: Seq<u8>) -> Validation {
    if w.len() < 8 {
        Validation::NeedsMore
    } else if !((w[0] == 0x49u8 && w[1] == 0x49u8) || (w[0] == 0x4Du8 && w[1] == 0x4Du8)) {
        Validation::Rejected
    } else {
        let little = w[0] == 0x49u8;
        if rd16(w, little, 2) != 42 {
            Validation::Rejected
        } else if rd32(w, little, 4) < 8 {
            Validation::Rejected
        } else {
            tiff_walk(w, little, rd32(w, little, 4) as u64, 8, Seq::empty(), 0)
        }
    }
}

fn read16(w: &[u8], little: bool, off: usize) -> (r: u16)
    requires
        off + 2 <= w.len(),
    ensures
        r == rd16(w@, little, off as int),
{
    if little {
        read_u16_le(w, off).unwrap()
    } else {
        read_u16_be(w, off).unwrap()
    }
}

fn read32(w: &[u8], little: bool, off: usize) -> (r: u32)
    requires
        off + 4 <= w.len(),
    ensures
        r == rd32(w@, little, off as int),
{
    if little {
        read_u32_le(w, off).unwrap()
    } else {
        read_u32_be(w, off).unwrap()
    }
}

fn field_type_size(typ: u16) -> (r: u64)
    ensures
        r == type_size(typ as int),
{
    match typ {
        1 | 2 | 6 | 7 => 1,
        3 | 8 => 2,
        4 | 9 | 11 => 4,
        5 | 10 | 12 => 8,
        _ => 1,
    }
}

fn seen(v: &Vec<u64>, x: u64) -> (r: bool)
    ensures
        r == v@.contains(x),
{
    let mut j: usize = 0;
    while j < v.len()
        invariant
            j <= v.len(),
            forall|q: int| 0 <= q < j ==> v@[q] != x,
        decreases v.len() - j,
    {
        if v[j] == x {
            return true;
        }
        j += 1;
    }
    false
}

impl Validator for TiffValidator {
    open spec fn spec_validate(&self, w: Seq<u8>) -> Validation {
        tiff_verdict(w)
    }

    open spec fn spec_kind(&self) -> FileKind {
        FileKind::Tiff
    }

    open spec fn spec_validate_with_kind(&self, w: Seq<u8>) -> (Validation, FileKind) {
        (tiff_verdict(w), FileKind::Tiff)
    }

    fn validate(&self, w: &[u8]) -> (r: Validation) {
        if w.len() < 8 {
            return Validation::NeedsMore;
        }
        let little: bool = if w[0] == 0x49 && w[1] == 0x49 {
            true
        } else if w[0] == 0x4D && w[1] == 0x4D {
            false
        } else {
            return Validation::Rejected;
        };
        if read16(w, little, 2) != 42 {
            return Validation::Rejected;
        }
        let first: u32 = read32(w, little, 4);
        if first < 8 {
            return Validation::Rejected;
        }
        let len: u64 = w.len() as u64;
        let mut ifd: u64 = first as u64;
        let mut max_end: u64 = 8;
        let mut visited: Vec<u64> = Vec::new();
        let mut iter: usize = 0;
        while iter < MAX_IFDS
            invariant
                w.len() >= 8,
                len == w.len(),
                iter <= MAX_IFDS,
                tiff_verdict(w@) == tiff_walk(
                    w@,
                    little,
                    ifd,
                    max_end as int,
                    visited@,
                    iter as int,
                ),
            decreases MAX_IFDS - iter,
        {
            if seen(&visited, ifd) {
                return Validation::Rejected;
            }
            visited.push(ifd);
            if ifd > len - 2 {
                return Validation::NeedsMore;
            }
            let io: usize = ifd as usize;
            let n: usize = read16(w, little, io) as usize;
            if n == 0 {
                return Validation::Rejected;
            }
            if n * 12 > w.len() - io - 2 || w.len() - io - 2 - n * 12 < 4 {
                return Validation::NeedsMore;
            }
            let ee: usize = io + 2 + n * 12;
            let ghost m0: int = max_end as int;
            let mut k: usize = 0;
            let mut off: usize = io + 2;
            #[verifier::loop_isolation(false)]
            while k < n
                invariant
                    k <= n,
                    off == io + 2 + 12 * k,
                    io + 2 + 12 * n == ee,
                    ee + 4 <= w.len(),
                    entries_max(w@, little, io as int, n as int, 0, m0) == entries_max(
                        w@,
                        little,
                        io as int,
                        n as int,
                        k as int,
                        max_end as int,
                    ),
                decreases n - k,
            {
                let typ: u16 = read16(w, little, off + 2);
                let count: u32 = read32(w, little, off + 4);
                let ts: u64 = field_type_size(typ);
                assert(ts * count <= 8 * 0xFFFF_FFFFu64) by (nonlinear_arith)
                    requires
                        ts <= 8,
                        count <= 0xFFFF_FFFFu32,
                ;
                let bytes: u64 = ts * (count as u64);
                let e: u64 = if bytes <= 4 {
                    (off + 12) as u64
                } else {
                    read32(w, little, off + 8) as u64 + bytes
                };
                if e > MAX_TIFF_SIZE {
                    return Validation::Rejected;
                }
                if e > max_end {
                    max_end = e;
                }
                k += 1;
                off += 12;
            }
            let next: u32 = read32(w, little, ee);
            let tail: u64 = (ee + 4) as u64;
            if tail > max_end {
                max_end = tail;
            }
            if next == 0 {
                if max_end > len {
                    return Validation::NeedsMore;
                }
                return Validation::Confirmed {
                    length: max_end,
                    recoverability: baseline_recoverability(FileKind::Tiff),
                };
            }
            ifd = next as u64;
            iter += 1;
        }
        if max_end > len {
            return Validation::NeedsMore;
        }
        Validation::Confirmed { length: max_end, recoverability: baseline_recoverability(FileKind::Tiff) }
    }

    fn kind(&self) -> (k: FileKind) {
        FileKind::Tiff
    }

    fn validate_with_kind(&self, w: &[u8]) -> (r: (Validation, FileKind)) {
        (self.validate(w), self.kind())
    }
}

} // verus!
