//! GIF87a/89a: header, logical screen descriptor, optional global colour
//! table, then extension and image blocks up to the `0x3B` trailer.

use crate::carve::validation::{baseline_recoverability, spec_baseline, Validation};
use crate::carve::validators::Validator;
use crate::types::FileKind;
use vstd::prelude::*;

verus! {

#[derive(Debug, Clone, Copy)]
pub struct GifValidator;

/// Most blocks we walk before giving up.
pub const MAX_GIF_BLOCKS: u32 = 1_000_000;

/// Bytes of the colour table announced by a packed-fields byte: present when
/// the top bit is set, `3 * 2^((packed & 7) + 1)` bytes long.
pub open spec fn color_table_len(packed: u8) -> int {
    if packed >= 0x80 {
        let e = packed % 8;
        3 * (if e == 0 {
            2int
        } else if e == 1 {
            4
        } else if e == 2 {
            8
        } else if e == 3 {
            16
        } else if e == 4 {
            32
        } else if e == 5 {
            64
        } else if e == 6 {
            128
        } else {
            256
        })
    } else {
        0
    }
}

/// Size in bytes of a colour table described by `packed`.
fn color_table_bytes(packed: u8) -> (r: usize)
    ensures
        r == color_table_len(packed),
{
    if packed < 0x80 {
        return 0;
    }
    let e: u8 = packed % 8;
    let n: usize = if e == 0 {
        2
    } else if e == 1 {
        4
    } else if e == 2 {
        8
    } else if e == 3 {
        16
    } else if e == 4 {
        32
    } else if e == 5 {
        64
    } else if e == 6 {
        128
    } else {
        256
    };
    3 * n
}

/// End of a sequence of data sub-blocks starting at `i` (just past the
/// zero-length terminator), or `None` when the window ends first.
pub open spec fn gif_skip(w: Seq<u8>, i: int) -> Option<int>
    decreases w.len() - i,
{
    if i < 0 || i >= w.len() {
        None
    } else {
        let j = i + 1 + w[i] as int;
        if j > usize::MAX {
            None
        } else if w[i] == 0 {
            Some(j)
        } else if j > w.len() {
            None
        } else {
            gif_skip(w, j)
        }
    }
}

pub proof fn lemma_gif_skip_bounds(w: Seq<u8>, i: int)
    ensures
        gif_skip(w, i) matches Some(e) ==> i < e <= w.len(),
    decreases w.len() - i,
{
    if !(i < 0 || i >= w.len()) {
        let j = i + 1 + w[i] as int;
        if j <= usize::MAX && w[i] != 0 && j <= w.len() {
            lemma_gif_skip_bounds(w, j);
        }
    }
}

/// Block walk from offset `i`, `blocks` blocks having been seen.
pub open spec fn gif_walk(w: Seq<u8>, i: int, blocks: int) -> Validation
    decreases w.len() - i,
{
    if i < 0 || i >= w.len() {
        Validation::NeedsMore
    } else if blocks + 1 > MAX_GIF_BLOCKS {
        Validation::Rejected
    } else {
        let intro = w[i];
        let i1 = i + 1;
        if intro == 0x3Bu8 {
            Validation::Confirmed { length: i1 as u64, recoverability: spec_baseline(FileKind::Gif) }
        } else if intro == 0x21u8 {
            if i1 >= w.len() {
                Validation::NeedsMore
            } else {
                proof {
                    lemma_gif_skip_bounds(w, i1 + 1);
                }
                match gif_skip(w, i1 + 1) {
                    Some(e) => gif_walk(w, e, blocks + 1),
                    None => Validation::NeedsMore,
                }
            }
        } else if intro == 0x2Cu8 {
            if i1 + 9 > w.len() {
                Validation::NeedsMore
            } else {
                let i3 = i1 + 9 + color_table_len(w[i1 + 8]);
                if i3 >= w.len() {
                    Validation::NeedsMore
                } else {
                    proof {
                        lemma_gif_skip_bounds(w, i3 + 1);
                    }
                    match gif_skip(w, i3 + 1) {
                        Some(e) => gif_walk(w, e, blocks + 1),
                        None => Validation::NeedsMore,
                    }
                }
            }
        } else {
            Validation::Rejected
        }
    }
}

/// `GIF87a` or `GIF89a` at the window start.
pub open spec fn has_gif_header(w: Seq<u8>) -> bool {
    w[0] == 0x47u8 && w[1] == 0x49u8 && w[2] == 0x46u8 && w[3] == 0x38u8 && (w[4] == 0x37u8
        || w[4] == 0x39u8) && w[5] == 0x61u8
}

/// Verdict for a GIF window.
pub open spec fn gif_verdict(w: Seq<u8>) -> Validation {
    if w.len() < 13 {
        Validation::NeedsMore
    } else if !has_gif_header(w) {
        Validation::Rejected
    } else {
        gif_walk(w, 13 + color_table_len(w[10]), 0)
    }
}

/// Skip data sub-blocks starting at `i`; returns the offset just past the
/// zero-length terminator.
pub fn skip_sub_blocks(w: &[u8], start: usize) -> (r: Option<usize>)
    ensures
        match r {
            Some(e) => gif_skip(w@, start as int) == Some(e as int),
            None => gif_skip(w@, start as int) is None,
        },
{
    let mut i: usize = start;
    loop
        invariant
            gif_skip(w@, i as int) == gif_skip(w@, start as int),
        decreases w.len() - i,
    {
        if i >= w.len() {
            return None;
        }
        let n: usize = w[i] as usize;
        let j: usize = match i.checked_add(1) {
            Some(a) => match a.checked_add(n) {
                Some(b) => b,
                None => return None,
            },
            None => return None,
        };
        if n == 0 {
            return Some(j);
        }
        if j > w.len() {
            return None;
        }
        i = j;
    }
}

impl Validator for GifValidator {
    open spec fn spec_validate(&self, w: Seq<u8>) -> Validation {
        gif_verdict(w)
    }

    open spec fn spec_kind(&self) -> FileKind {
        FileKind::Gif
    }

    open spec fn spec_validate_with_kind(&self, w: Seq<u8>) -> (Validation, FileKind) {
        (gif_verdict(w), FileKind::Gif)
    }

    fn validate(&self, w: &[u8]) -> (r: Validation) {
        if w.len() < 13 {
            return Validation::NeedsMore;
        }
        if !(w[0] == 0x47 && w[1] == 0x49 && w[2] == 0x46 && w[3] == 0x38 && (w[4] == 0x37 || w[4]
            == 0x39) && w[5] == 0x61) {
            return Validation::Rejected;
        }
        let mut i: usize = 13 + color_table_bytes(w[10]);
        let mut blocks: u32 = 0;
        loop
            invariant
                blocks <= MAX_GIF_BLOCKS,
                gif_verdict(w@) == gif_walk(w@, i as int, blocks as int),
            decreases w.len() - i,
        {
            if i >= w.len() {
                return Validation::NeedsMore;
            }
            blocks += 1;
            if blocks > MAX_GIF_BLOCKS {
                return Validation::Rejected;
            }
            let intro: u8 = w[i];
            i += 1;
            if intro == 0x3B {
                return Validation::Confirmed {
                    length: i as u64,
                    recoverability: baseline_recoverability(FileKind::Gif),
                };
            } else if intro == 0x21 {
                if i >= w.len() {
                    return Validation::NeedsMore;
                }
                proof {
                    lemma_gif_skip_bounds(w@, i + 1);
                }
                match skip_sub_blocks(w, i + 1) {
                    Some(end) => i = end,
                    None => return Validation::NeedsMore,
                }
            } else if intro == 0x2C {
                if w.len() - i < 9 {
                    return Validation::NeedsMore;
                }
                let img_packed: u8 = w[i + 8];
                let lct: usize = color_table_bytes(img_packed);
                if w.len() - i - 9 <= lct {
                    return Validation::NeedsMore;
                }
                i = i + 9 + lct;
                proof {
                    lemma_gif_skip_bounds(w@, i + 1);
                }
                match skip_sub_blocks(w, i + 1) {
                    Some(end) => i = end,
                    None => return Validation::NeedsMore,
                }
            } else {
                return Validation::Rejected;
            }
        }
    }

    fn kind(&self) -> (k: FileKind) {
        FileKind::Gif
    }

    fn validate_with_kind(&self, w: &[u8]) -> (r: (Validation, FileKind)) {
        (self.validate(w), self.kind())
    }
}

} // verus!
