//! JPEG: walk the marker stream from SOI (`FF D8`) to EOI (`FF D9`).
//!
//! Stand-alone markers (RSTn, TEM) carry no payload; SOS introduces an
//! entropy-coded segment that runs up to the next marker that is neither a
//! stuffed `FF 00` nor an RSTn; every other marker is followed by a 16-bit
//! big-endian length that counts itself.

use crate::bytes::{be16, fits, read_u16_be};
use crate::carve::validation::{baseline_recoverability, spec_baseline, Validation};
use crate::carve::validators::Validator;
use crate::types::FileKind;
use vstd::prelude::*;

verus! {

#[derive(Debug, Clone, Copy)]
pub struct JpegValidator;

/// First offset at or after `i` that is past the end or not a fill `FF`.
pub open spec fn skip_fill(w: Seq<u8>, i: int) -> int
    decreases w.len() - i,
{
    if 0 <= i < w.len() && w[i] == 0xFFu8 {
        skip_fill(w, i + 1)
    } else {
        i
    }
}

pub proof fn lemma_skip_fill(w: Seq<u8>, i: int)
    requires
        0 <= i,
    ensures
        i <= skip_fill(w, i),
        i <= w.len() ==> skip_fill(w, i) <= w.len(),
        skip_fill(w, i) < w.len() ==> w[skip_fill(w, i)] != 0xFFu8,
        forall|k: int| i <= k < skip_fill(w, i) ==> w[k] == 0xFFu8,
    decreases w.len() - i,
{
    if 0 <= i < w.len() && w[i] == 0xFFu8 {
        lemma_skip_fill(w, i + 1);
    }
}

/// `true` for the restart markers `D0..=D7`.
pub open spec fn is_rst(m: u8) -> bool {
    0xD0u8 <= m <= 0xD7u8
}

/// Scan entropy-coded data from `i`. `Some(k)` puts `k` on the last fill
/// byte before the next real marker; `None` means the window ended first.
pub open spec fn entropy_end(w: Seq<u8>, i: int) -> Option<int>
    decreases w.len() - i,
{
    if i < 0 || i >= w.len() {
        None
    } else if w[i] != 0xFFu8 {
        entropy_end(w, i + 1)
    } else {
        let j = skip_fill(w, i + 1);
        if j >= w.len() {
            None
        } else if w[j] == 0u8 || is_rst(w[j]) {
            proof {
                lemma_skip_fill(w, i + 1);
            }
            entropy_end(w, j + 1)
        } else {
            Some(j - 1)
        }
    }
}

pub proof fn lemma_entropy_end(w: Seq<u8>, i: int)
    ensures
        entropy_end(w, i) matches Some(k) ==> 0 <= i <= k < w.len(),
    decreases w.len() - i,
{
    if 0 <= i < w.len() {
        lemma_skip_fill(w, i + 1);
        if w[i] != 0xFFu8 {
            lemma_entropy_end(w, i + 1);
        } else {
            let j = skip_fill(w, i + 1);
            if j < w.len() && (w[j] == 0u8 || is_rst(w[j])) {
                lemma_entropy_end(w, j + 1);
            }
        }
    }
}

/// A byte after `FF` that ends entropy-coded data: neither a stuffed `00`,
/// nor a fill `FF`, nor a restart marker `D0..=D7`.
pub open spec fn ends_entropy(b: u8) -> bool {
    b != 0x00u8 && b != 0xFFu8 && !(0xD0u8 <= b && b <= 0xD7u8)
}

/// Entropy-coded data from `i` runs up to the first real marker: where the
/// scan stops, it stops on an `FF` followed by a byte that ends the data
/// (never on a stuffed `FF 00` or a restart marker), and wherever such a
/// marker lies at or after `i`, the scan stops there or earlier.
pub proof fn law_entropy_ends_at_a_real_marker(w: Seq<u8>, i: int)
    requires
        0 <= i,
    ensures
        entropy_end(w, i) matches Some(k) ==> i <= k && k + 1 < w.len() && w[k] == 0xFFu8 && ends_entropy(w[k + 1]),
        forall|m: int|
            i <= m && m + 1 < w.len() && #[trigger] w[m] == 0xFFu8 && ends_entropy(w[m + 1]) ==> (entropy_end(
                w,
                i,
            ) matches Some(k) && k <= m),
    decreases w.len() - i,
{
    if i < w.len() {
        lemma_skip_fill(w, i + 1);
        if w[i] != 0xFFu8 {
            law_entropy_ends_at_a_real_marker(w, i + 1);
        } else {
            let j = skip_fill(w, i + 1);
            if j < w.len() && (w[j] == 0u8 || is_rst(w[j])) {
                law_entropy_ends_at_a_real_marker(w, j + 1);
                assert forall|m: int|
                    i <= m && m + 1 < w.len() && #[trigger] w[m] == 0xFFu8 && ends_entropy(w[m + 1]) implies (
                    entropy_end(w, i) matches Some(k) && k <= m) by {
                    assert(!(i + 1 <= m + 1 < j));
                    assert(m + 1 != j);
                    assert(m != j);
                }
            } else if j < w.len() {
                assert(w[j - 1] == 0xFFu8);
                assert forall|m: int|
                    i <= m && m + 1 < w.len() && #[trigger] w[m] == 0xFFu8 && ends_entropy(w[m + 1]) implies (
                    entropy_end(w, i) matches Some(k) && k <= m) by {
                    assert(!(i + 1 <= m + 1 < j));
                }
            } else {
                assert forall|m: int|
                    i <= m && m + 1 < w.len() && #[trigger] w[m] == 0xFFu8 && ends_entropy(w[m + 1]) implies (
                    entropy_end(w, i) matches Some(k) && k <= m) by {
                    assert(!(i + 1 <= m + 1 < j));
                }
            }
        }
    }
}

/// Marker walk from offset `i` (the fill bytes before a marker).
pub open spec fn jpeg_walk(w: Seq<u8>, i: int) -> Validation
    decreases w.len() - i,
{
    if i < 0 {
        Validation::Rejected
    } else {
        let p = skip_fill(w, i);
        if p >= w.len() {
            Validation::NeedsMore
        } else {
            proof {
                lemma_skip_fill(w, i);
            }
            let marker = w[p];
            let q = p + 1;
            if marker == 0xD9u8 {
                Validation::Confirmed { length: q as u64, recoverability: spec_baseline(FileKind::Jpg) }
            } else if marker == 0u8 || marker == 0xFFu8 || marker == 0xD8u8 {
                Validation::Rejected
            } else if is_rst(marker) || marker == 1u8 {
                jpeg_walk(w, q)
            } else if !fits(w, q, 2) {
                Validation::NeedsMore
            } else if be16(w, q) < 2 {
                Validation::Rejected
            } else if q + be16(w, q) > w.len() {
                Validation::NeedsMore
            } else if marker == 0xDAu8 {
                proof {
                    lemma_entropy_end(w, q + be16(w, q));
                }
                match entropy_end(w, q + be16(w, q)) {
                    Some(k) => jpeg_walk(w, k),
                    None => Validation::NeedsMore,
                }
            } else {
                jpeg_walk(w, q + be16(w, q))
            }
        }
    }
}

/// Verdict for a JPEG window.
pub open spec fn jpeg_verdict(w: Seq<u8>) -> Validation {
    if w.len() < 4 || w[0] != 0xFFu8 || w[1] != 0xD8u8 || w[2] != 0xFFu8 {
        Validation::Rejected
    } else {
        jpeg_walk(w, 2)
    }
}

/// Offset of the first byte at or after `start` that is not a fill `FF`.
fn skip_fill_bytes(w: &[u8], start: usize) -> (r: usize)
    requires
        start <= w.len(),
    ensures
        r == skip_fill(w@, start as int),
        r <= w.len(),
{
    proof {
        lemma_skip_fill(w@, start as int);
    }
    let mut i: usize = start;
    while i < w.len() && w[i] == 0xFF
        invariant
            start <= i <= w.len(),
            skip_fill(w@, i as int) == skip_fill(w@, start as int),
        decreases w.len() - i,
    {
        i += 1;
    }
    i
}

/// Scan entropy-coded bytes from `start`; see [`entropy_end`].
fn scan_entropy(w: &[u8], start: usize) -> (r: Option<usize>)
    ensures
        match r {
            Some(k) => entropy_end(w@, start as int) == Some(k as int),
            None => entropy_end(w@, start as int) is None,
        },
{
    let mut i: usize = start;
    while i < w.len()
        invariant
            entropy_end(w@, i as int) == entropy_end(w@, start as int),
        decreases w.len() - i,
    {
        if w[i] != 0xFF {
            i += 1;
        } else {
            let j: usize = skip_fill_bytes(w, i + 1);
            if j >= w.len() {
                return None;
            }
            let m: u8 = w[j];
            if m == 0x00 || (0xD0 <= m && m <= 0xD7) {
                proof {
                    lemma_skip_fill(w@, i + 1);
                }
                i = j + 1;
            } else {
                proof {
                    lemma_skip_fill(w@, i + 1);
                }
                return Some(j - 1);
            }
        }
    }
    None
}

impl Validator for JpegValidator {
    open spec fn spec_validate(&self, w: Seq<u8>) -> Validation {
        jpeg_verdict(w)
    }

    open spec fn spec_kind(&self) -> FileKind {
        FileKind::Jpg
    }

    open spec fn spec_validate_with_kind(&self, w: Seq<u8>) -> (Validation, FileKind) {
        (jpeg_verdict(w), FileKind::Jpg)
    }

    fn validate(&self, w: &[u8]) -> (r: Validation) {
        if w.len() < 4 || w[0] != 0xFF || w[1] != 0xD8 || w[2] != 0xFF {
            return Validation::Rejected;
        }
        let mut i: usize = 2;
        loop
            invariant
                i <= w.len(),
                jpeg_verdict(w@) == jpeg_walk(w@, i as int),
            decreases w.len() - i,
        {
            let p: usize = skip_fill_bytes(w, i);
            if p >= w.len() {
                return Validation::NeedsMore;
            }
            proof {
                lemma_skip_fill(w@, i as int);
            }
            let marker: u8 = w[p];
            let q: usize = p + 1;
            if marker == 0xD9 {
                return Validation::Confirmed {
                    length: q as u64,
                    recoverability: baseline_recoverability(FileKind::Jpg),
                };
            }
            if marker == 0x00 || marker == 0xFF || marker == 0xD8 {
                return Validation::Rejected;
            }
            if (0xD0 <= marker && marker <= 0xD7) || marker == 0x01 {
                i = q;
            } else {
                let len: usize = match read_u16_be(w, q) {
                    Some(l) => l as usize,
                    None => return Validation::NeedsMore,
                };
                if len < 2 {
                    return Validation::Rejected;
                }
                if len > w.len() - q {
                    return Validation::NeedsMore;
                }
                let after: usize = q + len;
                if marker == 0xDA {
                    proof {
                        lemma_entropy_end(w@, after as int);
                    }
                    match scan_entropy(w, after) {
                        Some(k) => i = k,
                        None => return Validation::NeedsMore,
                    }
                } else {
                    i = after;
                }
            }
        }
    }

    fn kind(&self) -> (k: FileKind) {
        FileKind::Jpg
    }

    fn validate_with_kind(&self, w: &[u8]) -> (r: (Validation, FileKind)) {
        (self.validate(w), self.kind())
    }
}

} // verus!
