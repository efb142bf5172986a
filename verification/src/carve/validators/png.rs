//! PNG: 8-byte signature, then chunks `[length:u32 BE][type:4][data][crc:u32]`
//! up to `IEND`. The first chunk must be an `IHDR` of 13 bytes whose CRC
//! matches; later chunks are walked without CRC checks.

use crate::bytes::{be32, read_u32_be};
use crate::carve::validation::{baseline_recoverability, spec_baseline, Validation};
use crate::carve::validators::Validator;
use crate::checksum::{crc32, crc32_iso_hdlc};
use crate::types::FileKind;
use vstd::prelude::*;

verus! {

#[derive(Debug, Clone, Copy)]
pub struct PngValidator;

/// Defensive cap on a chunk's data length.
pub const MAX_CHUNK_LEN: u32 = 0x1000_0000;

/// Most chunks we walk before giving up.
pub const MAX_PNG_CHUNKS: u32 = 1_000_000;

/// The PNG file signature.
pub open spec fn png_signature() -> Seq<u8> {
    seq![0x89u8, 0x50u8, 0x4Eu8, 0x47u8, 0x0Du8, 0x0Au8, 0x1Au8, 0x0Au8]
}

/// ASCII letter.
pub open spec fn is_ascii_letter(b: u8) -> bool {
    (0x41u8 <= b <= 0x5Au8) || (0x61u8 <= b <= 0x7Au8)
}

/// The four chunk-type bytes at `at` are ASCII letters.
pub open spec fn type_is_alphabetic(w: Seq<u8>, at: int) -> bool {
    forall|k: int| 0 <= k < 4 ==> is_ascii_letter(#[trigger] w[at + k])
}

/// Chunk type `IHDR` at `at`.
pub open spec fn is_ihdr(w: Seq<u8>, at: int) -> bool {
    w[at] == 0x49u8 && w[at + 1] == 0x48u8 && w[at + 2] == 0x44u8 && w[at + 3] == 0x52u8
}

/// Chunk type `IEND` at `at`.
pub open spec fn is_iend(w: Seq<u8>, at: int) -> bool {
    w[at] == 0x49u8 && w[at + 1] == 0x45u8 && w[at + 2] == 0x4Eu8 && w[at + 3] == 0x44u8
}

/// Chunk walk from offset `i`. `saw_ihdr` tells whether the `IHDR` chunk has
/// been checked; `ihdr_crc` is the CRC of that chunk's type and data bytes
/// (window bytes `12..29`), against which its stored CRC is compared.
pub open spec fn png_walk(w: Seq<u8>, i: int, saw_ihdr: bool, chunks: int, ihdr_crc: u32) -> Validation
    decreases w.len() - i,
{
    if i < 0 || i + 8 > w.len() {
        Validation::NeedsMore
    } else {
        let n = be32(w, i);
        let crc_off = i + 8 + n;
        let next = crc_off + 4;
        if n > MAX_CHUNK_LEN {
            Validation::Rejected
        } else if !type_is_alphabetic(w, i + 4) {
            Validation::Rejected
        } else if next > w.len() {
            Validation::NeedsMore
        } else if !saw_ihdr && (!is_ihdr(w, i + 4) || n != 13 || be32(w, crc_off) != ihdr_crc) {
            Validation::Rejected
        } else if chunks + 1 > MAX_PNG_CHUNKS {
            Validation::Rejected
        } else if is_iend(w, i + 4) {
            Validation::Confirmed { length: next as u64, recoverability: spec_baseline(FileKind::Png) }
        } else {
            png_walk(w, next, true, chunks + 1, ihdr_crc)
        }
    }
}

/// Verdict for a PNG window, given the CRC of bytes `12..29`.
pub open spec fn png_verdict_given_crc(w: Seq<u8>, ihdr_crc: u32) -> Validation {
    if w.len() < 8 {
        Validation::NeedsMore
    } else if w.len() < 20 || w.subrange(0, 8) != png_signature() {
        Validation::Rejected
    } else {
        png_walk(w, 8, false, 0, ihdr_crc)
    }
}

/// Verdict for a PNG window.
pub open spec fn png_verdict(w: Seq<u8>) -> Validation {
    png_verdict_given_crc(w, crc32_iso_hdlc(w.subrange(12, 29)))
}

/// Below 29 bytes the IHDR CRC is never consulted.
pub proof fn lemma_png_short_ignores_crc(w: Seq<u8>, a: u32, b: u32)
    requires
        w.len() < 29,
    ensures
        png_verdict_given_crc(w, a) == png_verdict_given_crc(w, b),
{
    if w.len() >= 20 {
        assert(png_walk(w, 8, false, 0, a) == png_walk(w, 8, false, 0, b));
    }
}

fn ascii_letter(b: u8) -> (r: bool)
    ensures
        r == is_ascii_letter(b),
{
    (0x41 <= b && b <= 0x5A) || (0x61 <= b && b <= 0x7A)
}

impl PngValidator {
    /// Validate `w` given the CRC-32 of its bytes `12..29` (the type and data
    /// of the leading IHDR chunk).
    pub fn validate_with_ihdr_crc(&self, w: &[u8], ihdr_crc: u32) -> (r: Validation)
        ensures
            r == png_verdict_given_crc(w@, ihdr_crc),
    {
        if w.len() < 8 {
            return Validation::NeedsMore;
        }
        if w.len() < 20 || !(w[0] == 0x89 && w[1] == 0x50 && w[2] == 0x4E && w[3] == 0x47 && w[4]
            == 0x0D && w[5] == 0x0A && w[6] == 0x1A && w[7] == 0x0A) {
            proof {
                if w.len() >= 20 {
                    assert(w@.subrange(0, 8) != png_signature()) by {
                        if w@.subrange(0, 8) == png_signature() {
                            assert(w@.subrange(0, 8)[0] == w@[0]);
                            assert(w@.subrange(0, 8)[1] == w@[1]);
                            assert(w@.subrange(0, 8)[2] == w@[2]);
                            assert(w@.subrange(0, 8)[3] == w@[3]);
                            assert(w@.subrange(0, 8)[4] == w@[4]);
                            assert(w@.subrange(0, 8)[5] == w@[5]);
                            assert(w@.subrange(0, 8)[6] == w@[6]);
                            assert(w@.subrange(0, 8)[7] == w@[7]);
                        }
                    }
                }
            }
            return Validation::Rejected;
        }
        assert(w@.subrange(0, 8) =~= png_signature());
        let mut i: usize = 8;
        let mut saw_ihdr: bool = false;
        let mut chunks: u32 = 0;
        loop
            invariant
                8 <= i <= w.len(),
                chunks <= MAX_PNG_CHUNKS,
                png_verdict_given_crc(w@, ihdr_crc) == png_walk(
                    w@,
                    i as int,
                    saw_ihdr,
                    chunks as int,
                    ihdr_crc,
                ),
            decreases w.len() - i,
        {
            if w.len() - i < 8 {
                return Validation::NeedsMore;
            }
            let n: u32 = read_u32_be(w, i).unwrap();
            if n > MAX_CHUNK_LEN {
                return Validation::Rejected;
            }
            let t0: u8 = w[i + 4];
            let t1: u8 = w[i + 5];
            let t2: u8 = w[i + 6];
            let t3: u8 = w[i + 7];
            if !(ascii_letter(t0) && ascii_letter(t1) && ascii_letter(t2) && ascii_letter(t3)) {
                proof {
                    let at = i + 4;
                    assert(w@[at + 0] == t0 && w@[at + 1] == t1 && w@[at + 2] == t2 && w@[at + 3]
                        == t3);
                    if !is_ascii_letter(t0) {
                        assert(!is_ascii_letter(w@[at + 0]));
                    } else if !is_ascii_letter(t1) {
                        assert(!is_ascii_letter(w@[at + 1]));
                    } else if !is_ascii_letter(t2) {
                        assert(!is_ascii_letter(w@[at + 2]));
                    } else {
                        assert(!is_ascii_letter(w@[at + 3]));
                    }
                }
                return Validation::Rejected;
            }
            proof {
                let at = i + 4;
                assert forall|k: int| 0 <= k < 4 implies is_ascii_letter(#[trigger] w@[at + k]) by {
                    if k == 0 {
                        assert(w@[at + k] == t0);
                    } else if k == 1 {
                        assert(w@[at + k] == t1);
                    } else if k == 2 {
                        assert(w@[at + k] == t2);
                    } else {
                        assert(w@[at + k] == t3);
                    }
                }
            }
            let data_off: usize = i + 8;
            let nu: usize = n as usize;
            if nu > w.len() - data_off || w.len() - data_off - nu < 4 {
                return Validation::NeedsMore;
            }
            let crc_off: usize = data_off + nu;
            let next: usize = crc_off + 4;
            if !saw_ihdr {
                let ihdr: bool = t0 == 0x49 && t1 == 0x48 && t2 == 0x44 && t3 == 0x52;
                if !ihdr || n != 13 {
                    return Validation::Rejected;
                }
                let want: u32 = read_u32_be(w, crc_off).unwrap();
                if want != ihdr_crc {
                    return Validation::Rejected;
                }
                saw_ihdr = true;
            }
            chunks += 1;
            if chunks > MAX_PNG_CHUNKS {
                return Validation::Rejected;
            }
            if t0 == 0x49 && t1 == 0x45 && t2 == 0x4E && t3 == 0x44 {
                return Validation::Confirmed {
                    length: next as u64,
                    recoverability: baseline_recoverability(FileKind::Png),
                };
            }
            i = next;
        }
    }
}

impl Validator for PngValidator {
    open spec fn spec_validate(&self, w: Seq<u8>) -> Validation {
        png_verdict(w)
    }

    open spec fn spec_kind(&self) -> FileKind {
        FileKind::Png
    }

    open spec fn spec_validate_with_kind(&self, w: Seq<u8>) -> (Validation, FileKind) {
        (png_verdict(w), FileKind::Png)
    }

    fn validate(&self, w: &[u8]) -> (r: Validation) {
        if w.len() >= 29 {
            let c: u32 = crc32(&w[12..29]);
            self.validate_with_ihdr_crc(w, c)
        } else {
            proof {
                lemma_png_short_ignores_crc(w@, 0, crc32_iso_hdlc(w@.subrange(12, 29)));
            }
            self.validate_with_ihdr_crc(w, 0)
        }
    }

    fn kind(&self) -> (k: FileKind) {
        FileKind::Png
    }

    fn validate_with_kind(&self, w: &[u8]) -> (r: (Validation, FileKind)) {
        (self.validate(w), self.kind())
    }
}

} // verus!
