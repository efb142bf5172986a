//! Signature catalog and the first-byte index the scanner routes through.
//!
//! A [`Signature`] is a (kind, magic, magic offset, size cap, validator)
//! entry. Magic bytes may be wildcards (`None`) that match anything, which
//! formats such as AVI need; MP4's magic `ftyp` sits 4 bytes after the file
//! start, behind the box size.

use crate::carve::validation::Validation;
use crate::carve::validators::{
    BmpValidator, GifValidator, JpegValidator, MkvValidator, Mp4Validator, OoxmlValidator,
    PdfValidator, PngValidator, PsdValidator, RarValidator, RiffAviValidator, SevenZValidator,
    TextValidator, TiffValidator, Validator, ZipValidator,
};
use crate::types::FileKind;
use vstd::prelude::*;

verus! {

/// One byte of a magic pattern: `Some(b)` matches exactly, `None` matches any byte.
pub type MagicByte = Option<u8>;

/// Position of a [`Signature`] in the catalog returned by [`signatures`].
#[derive(Debug, Clone, Copy, PartialEq, Eq, Hash, Structural)]
pub struct SignatureId(pub u16);

pub const KIB: u64 = 1024;
pub const MIB: u64 = 1024 * KIB;
pub const GIB: u64 = 1024 * MIB;

/// The validator a signature hands its candidates to.
#[derive(Debug, Clone, Copy, PartialEq, Eq, Structural)]
pub enum ValidatorRef {
    Jpeg,
    Png,
    Gif,
    Bmp,
    Tiff,
    Mp4,
    Mkv,
    RiffAvi,
    Pdf,
    Ooxml,
    Zip,
    Rar,
    SevenZ,
    Psd,
    /// Heuristic text validation reporting the given kind.
    Text(FileKind),
}

impl Validator for ValidatorRef {
    open spec fn spec_validate(&self, w: Seq<u8>) -> Validation {
        self.spec_validate_with_kind(w).0
    }

    open spec fn spec_kind(&self) -> FileKind {
        match *self {
            ValidatorRef::Jpeg => JpegValidator.spec_kind(),
            ValidatorRef::Png => PngValidator.spec_kind(),
            ValidatorRef::Gif => GifValidator.spec_kind(),
            ValidatorRef::Bmp => BmpValidator.spec_kind(),
            ValidatorRef::Tiff => TiffValidator.spec_kind(),
            ValidatorRef::Mp4 => Mp4Validator.spec_kind(),
            ValidatorRef::Mkv => MkvValidator.spec_kind(),
            ValidatorRef::RiffAvi => RiffAviValidator.spec_kind(),
            ValidatorRef::Pdf => PdfValidator.spec_kind(),
            ValidatorRef::Ooxml => OoxmlValidator.spec_kind(),
            ValidatorRef::Zip => ZipValidator.spec_kind(),
            ValidatorRef::Rar => RarValidator.spec_kind(),
            ValidatorRef::SevenZ => SevenZValidator.spec_kind(),
            ValidatorRef::Psd => PsdValidator.spec_kind(),
            ValidatorRef::Text(k) => (TextValidator { kind: k }).spec_kind(),
        }
    }

    open spec fn spec_validate_with_kind(&self, w: Seq<u8>) -> (Validation, FileKind) {
        match *self {
            ValidatorRef::Jpeg => JpegValidator.spec_validate_with_kind(w),
            ValidatorRef::Png => PngValidator.spec_validate_with_kind(w),
            ValidatorRef::Gif => GifValidator.spec_validate_with_kind(w),
            ValidatorRef::Bmp => BmpValidator.spec_validate_with_kind(w),
            ValidatorRef::Tiff => TiffValidator.spec_validate_with_kind(w),
            ValidatorRef::Mp4 => Mp4Validator.spec_validate_with_kind(w),
            ValidatorRef::Mkv => MkvValidator.spec_validate_with_kind(w),
            ValidatorRef::RiffAvi => RiffAviValidator.spec_validate_with_kind(w),
            ValidatorRef::Pdf => PdfValidator.spec_validate_with_kind(w),
            ValidatorRef::Ooxml => OoxmlValidator.spec_validate_with_kind(w),
            ValidatorRef::Zip => ZipValidator.spec_validate_with_kind(w),
            ValidatorRef::Rar => RarValidator.spec_validate_with_kind(w),
            ValidatorRef::SevenZ => SevenZValidator.spec_validate_with_kind(w),
            ValidatorRef::Psd => PsdValidator.spec_validate_with_kind(w),
            ValidatorRef::Text(k) => (TextValidator { kind: k }).spec_validate_with_kind(w),
        }
    }

    fn validate(&self, w: &[u8]) -> (r: Validation) {
        self.validate_with_kind(w).0
    }

    fn kind(&self) -> (k: FileKind) {
        match *self {
            ValidatorRef::Jpeg => JpegValidator.kind(),
            ValidatorRef::Png => PngValidator.kind(),
            ValidatorRef::Gif => GifValidator.kind(),
            ValidatorRef::Bmp => BmpValidator.kind(),
            ValidatorRef::Tiff => TiffValidator.kind(),
            ValidatorRef::Mp4 => Mp4Validator.kind(),
            ValidatorRef::Mkv => MkvValidator.kind(),
            ValidatorRef::RiffAvi => RiffAviValidator.kind(),
            ValidatorRef::Pdf => PdfValidator.kind(),
            ValidatorRef::Ooxml => OoxmlValidator.kind(),
            ValidatorRef::Zip => ZipValidator.kind(),
            ValidatorRef::Rar => RarValidator.kind(),
            ValidatorRef::SevenZ => SevenZValidator.kind(),
            ValidatorRef::Psd => PsdValidator.kind(),
            ValidatorRef::Text(k) => TextValidator::new(k).kind(),
        }
    }

    fn validate_with_kind(&self, w: &[u8]) -> (r: (Validation, FileKind)) {
        match *self {
            ValidatorRef::Jpeg => JpegValidator.validate_with_kind(w),
            ValidatorRef::Png => PngValidator.validate_with_kind(w),
            ValidatorRef::Gif => GifValidator.validate_with_kind(w),
            ValidatorRef::Bmp => BmpValidator.validate_with_kind(w),
            ValidatorRef::Tiff => TiffValidator.validate_with_kind(w),
            ValidatorRef::Mp4 => Mp4Validator.validate_with_kind(w),
            ValidatorRef::Mkv => MkvValidator.validate_with_kind(w),
            ValidatorRef::RiffAvi => RiffAviValidator.validate_with_kind(w),
            ValidatorRef::Pdf => PdfValidator.validate_with_kind(w),
            ValidatorRef::Ooxml => OoxmlValidator.validate_with_kind(w),
            ValidatorRef::Zip => ZipValidator.validate_with_kind(w),
            ValidatorRef::Rar => RarValidator.validate_with_kind(w),
            ValidatorRef::SevenZ => SevenZValidator.validate_with_kind(w),
            ValidatorRef::Psd => PsdValidator.validate_with_kind(w),
            ValidatorRef::Text(k) => TextValidator::new(k).validate_with_kind(w),
        }
    }
}

/// A single carving signature.
#[derive(Debug, Clone)]
pub struct Signature {
    /// Output file kind.
    pub kind: FileKind,
    /// Stable display name.
    pub name: &'static str,
    /// Magic bytes, possibly with wildcards.
    pub magic: Vec<MagicByte>,
    /// How far past the candidate start the magic begins.
    pub magic_offset: usize,
    /// Largest plausible file size we carve, in bytes.
    pub max_size: u64,
    /// Validator for candidates.
    pub validator: ValidatorRef,
}

/// A catalog entry as the contracts see it.
pub struct SignatureSpec {
    pub kind: FileKind,
    pub name: Seq<char>,
    pub magic: Seq<MagicByte>,
    pub magic_offset: int,
    pub max_size: int,
    pub validator: ValidatorRef,
}

impl View for Signature {
    type V = SignatureSpec;

    open spec fn view(&self) -> SignatureSpec {
        SignatureSpec {
            kind: self.kind,
            name: self.name@,
            magic: self.magic@,
            magic_offset: self.magic_offset as int,
            max_size: self.max_size as int,
            validator: self.validator,
        }
    }
}

/// First index at or after `k` holding a fixed byte; 0 when there is none.
pub open spec fn first_fixed_from(m: Seq<MagicByte>, k: int) -> int
    decreases m.len() - k,
{
    if k < 0 || k >= m.len() {
        0
    } else if m[k] is Some {
        k
    } else {
        first_fixed_from(m, k + 1)
    }
}

/// Index of the first fixed byte of a magic (0 when all are wildcards).
pub open spec fn anchor_index(m: Seq<MagicByte>) -> int {
    first_fixed_from(m, 0)
}

/// The magic has a fixed byte somewhere.
pub open spec fn has_fixed_byte(m: Seq<MagicByte>) -> bool {
    exists|k: int| 0 <= k < m.len() && (#[trigger] m[k]) is Some
}

/// The fixed byte at the anchor index.
pub open spec fn anchor_of(m: Seq<MagicByte>) -> u8 {
    m[anchor_index(m)]->0
}

/// `m` matches `buf` at `at`: it lies inside and every fixed byte agrees.
pub open spec fn magic_matches(buf: Seq<u8>, at: int, m: Seq<MagicByte>) -> bool {
    &&& 0 <= at
    &&& at + m.len() <= buf.len()
    &&& forall|k: int| 0 <= k < m.len() ==> (#[trigger] m[k] matches Some(b) ==> buf[at + k] == b)
}

pub proof fn lemma_first_fixed(m: Seq<MagicByte>, k: int, j: int)
    requires
        0 <= k <= j < m.len(),
        m[j] is Some,
    ensures
        k <= first_fixed_from(m, k) <= j,
        m[first_fixed_from(m, k)] is Some,
        forall|q: int| k <= q < first_fixed_from(m, k) ==> m[q] is None,
    decreases j - k,
{
    if m[k] is None {
        lemma_first_fixed(m, k + 1, j);
    }
}

/// With a fixed byte present, the anchor is the first one.
pub proof fn lemma_anchor_is_first_fixed(m: Seq<MagicByte>)
    requires
        has_fixed_byte(m),
    ensures
        0 <= anchor_index(m) < m.len(),
        m[anchor_index(m)] is Some,
        forall|q: int| 0 <= q < anchor_index(m) ==> m[q] is None,
{
    let j = choose|j: int| 0 <= j < m.len() && (#[trigger] m[j]) is Some;
    lemma_first_fixed(m, 0, j);
}

impl Signature {
    /// Index within `magic` of the first fixed byte (0 when all are wildcards).
    pub fn anchor_idx(&self) -> (r: usize)
        ensures
            r == anchor_index(self.magic@),
    {
        let mut k: usize = 0;
        while k < self.magic.len()
            invariant
                k <= self.magic.len(),
                first_fixed_from(self.magic@, k as int) == anchor_index(self.magic@),
            decreases self.magic.len() - k,
        {
            if self.magic[k].is_some() {
                return k;
            }
            k += 1;
        }
        0
    }

    /// The fixed byte at the anchor.
    pub fn anchor_byte(&self) -> (r: u8)
        requires
            has_fixed_byte(self.magic@),
        ensures
            r == anchor_of(self.magic@),
    {
        proof {
            lemma_anchor_is_first_fixed(self.magic@);
        }
        let i: usize = self.anchor_idx();
        self.magic[i].unwrap()
    }

    /// Distance from the candidate file start to the anchor byte.
    pub fn candidate_offset_from_anchor(&self) -> (r: usize)
        requires
            self.magic_offset + anchor_index(self.magic@) <= usize::MAX,
        ensures
            r == self.magic_offset + anchor_index(self.magic@),
    {
        self.magic_offset + self.anchor_idx()
    }

    /// Whether the magic matches `buf` for a candidate starting at `start`
    /// (the magic itself sits at `start + magic_offset`); `false` when it
    /// would run past the end.
    pub fn matches(&self, buf: &[u8], start: usize) -> (r: bool)
        ensures
            r == magic_matches(buf@, start + self.magic_offset, self.magic@),
    {
        let blen: usize = buf.len();
        let mstart: usize = match start.checked_add(self.magic_offset) {
            Some(v) => v,
            None => return false,
        };
        let mend: usize = match mstart.checked_add(self.magic.len()) {
            Some(v) => v,
            None => return false,
        };
        if mend > blen {
            return false;
        }
        let mut k: usize = 0;
        while k < self.magic.len()
            invariant
                k <= self.magic.len(),
                mstart + self.magic.len() == mend,
                mend <= buf.len(),
                mstart == start + self.magic_offset,
                forall|q: int|
                    0 <= q < k ==> (#[trigger] self.magic@[q] matches Some(b) ==> buf@[mstart + q]
                        == b),
            decreases self.magic.len() - k,
        {
            match self.magic[k] {
                Some(want) => {
                    if want != buf[mstart + k] {
                        assert(self.magic@[k as int] matches Some(b) && buf@[mstart + k] != b);
                        return false;
                    }
                },
                None => {},
            }
            k += 1;
        }
        true
    }
}

/// Heuristic text kinds, which have no magic and stay out of the index.
pub open spec fn is_text_kind(k: FileKind) -> bool {
    k == FileKind::Txt || k == FileKind::Csv || k == FileKind::Sql
}

/// The catalog, as the contracts see it.
pub open spec fn catalog() -> Seq<SignatureSpec> {
    seq![
        SignatureSpec {
            kind: FileKind::Jpg,
            name: "jpg"@,
            magic: seq![Some(0xFFu8), Some(0xD8u8), Some(0xFFu8)],
            magic_offset: 0,
            max_size: 64 * MIB,
            validator: ValidatorRef::Jpeg,
        },
        SignatureSpec {
            kind: FileKind::Png,
            name: "png"@,
            magic: seq![Some(0x89u8), Some(0x50u8), Some(0x4Eu8), Some(0x47u8), Some(0x0Du8), Some(0x0Au8), Some(0x1Au8), Some(0x0Au8)],
            magic_offset: 0,
            max_size: 256 * MIB,
            validator: ValidatorRef::Png,
        },
        SignatureSpec {
            kind: FileKind::Gif,
            name: "gif87a"@,
            magic: seq![Some(0x47u8), Some(0x49u8), Some(0x46u8), Some(0x38u8), Some(0x37u8), Some(0x61u8)],
            magic_offset: 0,
            max_size: 32 * MIB,
            validator: ValidatorRef::Gif,
        },
        SignatureSpec {
            kind: FileKind::Gif,
            name: "gif89a"@,
            magic: seq![Some(0x47u8), Some(0x49u8), Some(0x46u8), Some(0x38u8), Some(0x39u8), Some(0x61u8)],
            magic_offset: 0,
            max_size: 32 * MIB,
            validator: ValidatorRef::Gif,
        },
        SignatureSpec {
            kind: FileKind::Bmp,
            name: "bmp"@,
            magic: seq![Some(0x42u8), Some(0x4Du8)],
            magic_offset: 0,
            max_size: GIB as int,
            validator: ValidatorRef::Bmp,
        },
        SignatureSpec {
            kind: FileKind::Tiff,
            name: "tiff-le"@,
            magic: seq![Some(0x49u8), Some(0x49u8), Some(0x2Au8), Some(0x00u8)],
            magic_offset: 0,
            max_size: 4 * GIB,
            validator: ValidatorRef::Tiff,
        },
        SignatureSpec {
            kind: FileKind::Tiff,
            name: "tiff-be"@,
            magic: seq![Some(0x4Du8), Some(0x4Du8), Some(0x00u8), Some(0x2Au8)],
            magic_offset: 0,
            max_size: 4 * GIB,
            validator: ValidatorRef::Tiff,
        },
        SignatureSpec {
            kind: FileKind::Mp4,
            name: "mp4"@,
            magic: seq![Some(0x66u8), Some(0x74u8), Some(0x79u8), Some(0x70u8)],
            magic_offset: 4,
            max_size: 16 * GIB,
            validator: ValidatorRef::Mp4,
        },
        SignatureSpec {
            kind: FileKind::Mkv,
            name: "mkv"@,
            magic: seq![Some(0x1Au8), Some(0x45u8), Some(0xDFu8), Some(0xA3u8)],
            magic_offset: 0,
            max_size: 16 * GIB,
            validator: ValidatorRef::Mkv,
        },
        SignatureSpec {
            kind: FileKind::Avi,
            name: "avi"@,
            magic: seq![Some(0x52u8), Some(0x49u8), Some(0x46u8), Some(0x46u8), None, None, None, None, Some(0x41u8), Some(0x56u8), Some(0x49u8), Some(0x20u8)],
            magic_offset: 0,
            max_size: 16 * GIB,
            validator: ValidatorRef::RiffAvi,
        },
        SignatureSpec {
            kind: FileKind::Pdf,
            name: "pdf"@,
            magic: seq![Some(0x25u8), Some(0x50u8), Some(0x44u8), Some(0x46u8), Some(0x2Du8)],
            magic_offset: 0,
            max_size: GIB as int,
            validator: ValidatorRef::Pdf,
        },
        SignatureSpec {
            kind: FileKind::Docx,
            name: "ooxml"@,
            magic: seq![Some(0x50u8), Some(0x4Bu8), Some(0x03u8), Some(0x04u8)],
            magic_offset: 0,
            max_size: 256 * MIB,
            validator: ValidatorRef::Ooxml,
        },
        SignatureSpec {
            kind: FileKind::Zip,
            name: "zip"@,
            magic: seq![Some(0x50u8), Some(0x4Bu8), Some(0x03u8), Some(0x04u8)],
            magic_offset: 0,
            max_size: 4 * GIB,
            validator: ValidatorRef::Zip,
        },
        SignatureSpec {
            kind: FileKind::Rar,
            name: "rar4"@,
            magic: seq![Some(0x52u8), Some(0x61u8), Some(0x72u8), Some(0x21u8), Some(0x1Au8), Some(0x07u8), Some(0x00u8)],
            magic_offset: 0,
            max_size: 4 * GIB,
            validator: ValidatorRef::Rar,
        },
        SignatureSpec {
            kind: FileKind::Rar,
            name: "rar5"@,
            magic: seq![Some(0x52u8), Some(0x61u8), Some(0x72u8), Some(0x21u8), Some(0x1Au8), Some(0x07u8), Some(0x01u8), Some(0x00u8)],
            magic_offset: 0,
            max_size: 4 * GIB,
            validator: ValidatorRef::Rar,
        },
        SignatureSpec {
            kind: FileKind::SevenZ,
            name: "7z"@,
            magic: seq![Some(0x37u8), Some(0x7Au8), Some(0xBCu8), Some(0xAFu8), Some(0x27u8), Some(0x1Cu8)],
            magic_offset: 0,
            max_size: 4 * GIB,
            validator: ValidatorRef::SevenZ,
        },
        SignatureSpec {
            kind: FileKind::Psd,
            name: "psd"@,
            magic: seq![Some(0x38u8), Some(0x42u8), Some(0x50u8), Some(0x53u8)],
            magic_offset: 0,
            max_size: 2 * GIB,
            validator: ValidatorRef::Psd,
        },
        SignatureSpec {
            kind: FileKind::Txt,
            name: "txt"@,
            magic: seq![Some(0x00u8)],
            magic_offset: 0,
            max_size: 16 * MIB,
            validator: ValidatorRef::Text(FileKind::Txt),
        },
        SignatureSpec {
            kind: FileKind::Csv,
            name: "csv"@,
            magic: seq![Some(0x00u8)],
            magic_offset: 0,
            max_size: 64 * MIB,
            validator: ValidatorRef::Text(FileKind::Csv),
        },
    ]
}

/// The signature catalog.
pub fn signatures() -> (r: Vec<Signature>)
    ensures
        r@.len() == catalog().len(),
        forall|i: int| 0 <= i < r@.len() ==> #[trigger] r@[i]@ == catalog()[i],
{
    let r: Vec<Signature> = vec![
        Signature {
            kind: FileKind::Jpg,
            name: "jpg",
            magic: vec![Some(0xFF), Some(0xD8), Some(0xFF)],
            magic_offset: 0,
            max_size: 64 * MIB,
            validator: ValidatorRef::Jpeg,
        },
        Signature {
            kind: FileKind::Png,
            name: "png",
            magic: vec![Some(0x89), Some(0x50), Some(0x4E), Some(0x47), Some(0x0D), Some(0x0A), Some(0x1A), Some(0x0A)],
            magic_offset: 0,
            max_size: 256 * MIB,
            validator: ValidatorRef::Png,
        },
        Signature {
            kind: FileKind::Gif,
            name: "gif87a",
            magic: vec![Some(0x47), Some(0x49), Some(0x46), Some(0x38), Some(0x37), Some(0x61)],
            magic_offset: 0,
            max_size: 32 * MIB,
            validator: ValidatorRef::Gif,
        },
        Signature {
            kind: FileKind::Gif,
            name: "gif89a",
            magic: vec![Some(0x47), Some(0x49), Some(0x46), Some(0x38), Some(0x39), Some(0x61)],
            magic_offset: 0,
            max_size: 32 * MIB,
            validator: ValidatorRef::Gif,
        },
        Signature {
            kind: FileKind::Bmp,
            name: "bmp",
            magic: vec![Some(0x42), Some(0x4D)],
            magic_offset: 0,
            max_size: GIB,
            validator: ValidatorRef::Bmp,
        },
        Signature {
            kind: FileKind::Tiff,
            name: "tiff-le",
            magic: vec![Some(0x49), Some(0x49), Some(0x2A), Some(0x00)],
            magic_offset: 0,
            max_size: 4 * GIB,
            validator: ValidatorRef::Tiff,
        },
        Signature {
            kind: FileKind::Tiff,
            name: "tiff-be",
            magic: vec![Some(0x4D), Some(0x4D), Some(0x00), Some(0x2A)],
            magic_offset: 0,
            max_size: 4 * GIB,
            validator: ValidatorRef::Tiff,
        },
        Signature {
            kind: FileKind::Mp4,
            name: "mp4",
            magic: vec![Some(0x66), Some(0x74), Some(0x79), Some(0x70)],
            magic_offset: 4,
            max_size: 16 * GIB,
            validator: ValidatorRef::Mp4,
        },
        Signature {
            kind: FileKind::Mkv,
            name: "mkv",
            magic: vec![Some(0x1A), Some(0x45), Some(0xDF), Some(0xA3)],
            magic_offset: 0,
            max_size: 16 * GIB,
            validator: ValidatorRef::Mkv,
        },
        Signature {
            kind: FileKind::Avi,
            name: "avi",
            magic: vec![Some(0x52), Some(0x49), Some(0x46), Some(0x46), None, None, None, None, Some(0x41), Some(0x56), Some(0x49), Some(0x20)],
            magic_offset: 0,
            max_size: 16 * GIB,
            validator: ValidatorRef::RiffAvi,
        },
        Signature {
            kind: FileKind::Pdf,
            name: "pdf",
            magic: vec![Some(0x25), Some(0x50), Some(0x44), Some(0x46), Some(0x2D)],
            magic_offset: 0,
            max_size: GIB,
            validator: ValidatorRef::Pdf,
        },
        Signature {
            kind: FileKind::Docx,
            name: "ooxml",
            magic: vec![Some(0x50), Some(0x4B), Some(0x03), Some(0x04)],
            magic_offset: 0,
            max_size: 256 * MIB,
            validator: ValidatorRef::Ooxml,
        },
        Signature {
            kind: FileKind::Zip,
            name: "zip",
            magic: vec![Some(0x50), Some(0x4B), Some(0x03), Some(0x04)],
            magic_offset: 0,
            max_size: 4 * GIB,
            validator: ValidatorRef::Zip,
        },
        Signature {
            kind: FileKind::Rar,
            name: "rar4",
            magic: vec![Some(0x52), Some(0x61), Some(0x72), Some(0x21), Some(0x1A), Some(0x07), Some(0x00)],
            magic_offset: 0,
            max_size: 4 * GIB,
            validator: ValidatorRef::Rar,
        },
        Signature {
            kind: FileKind::Rar,
            name: "rar5",
            magic: vec![Some(0x52), Some(0x61), Some(0x72), Some(0x21), Some(0x1A), Some(0x07), Some(0x01), Some(0x00)],
            magic_offset: 0,
            max_size: 4 * GIB,
            validator: ValidatorRef::Rar,
        },
        Signature {
            kind: FileKind::SevenZ,
            name: "7z",
            magic: vec![Some(0x37), Some(0x7A), Some(0xBC), Some(0xAF), Some(0x27), Some(0x1C)],
            magic_offset: 0,
            max_size: 4 * GIB,
            validator: ValidatorRef::SevenZ,
        },
        Signature {
            kind: FileKind::Psd,
            name: "psd",
            magic: vec![Some(0x38), Some(0x42), Some(0x50), Some(0x53)],
            magic_offset: 0,
            max_size: 2 * GIB,
            validator: ValidatorRef::Psd,
        },
        Signature {
            kind: FileKind::Txt,
            name: "txt",
            magic: vec![Some(0x00)],
            magic_offset: 0,
            max_size: 16 * MIB,
            validator: ValidatorRef::Text(FileKind::Txt),
        },
        Signature {
            kind: FileKind::Csv,
            name: "csv",
            magic: vec![Some(0x00)],
            magic_offset: 0,
            max_size: 64 * MIB,
            validator: ValidatorRef::Text(FileKind::Csv),
        },
    ];
    assert(r@.len() == catalog().len());
    assert forall|i: int| 0 <= i < r@.len() implies #[trigger] r@[i]@ == catalog()[i] by {
        assert(r@[i].magic@ =~= catalog()[i].magic);
    }
    r
}

/// The SQL text validator, which is not part of the indexed catalog.
pub fn sql_validator() -> (r: TextValidator)
    ensures
        r.kind == FileKind::Sql,
{
    TextValidator::new(FileKind::Sql)
}

/// Ids of the magic-driven (non-text) signatures among the first `n`, in order.
pub open spec fn driven_upto(n: int) -> Seq<u16>
    decreases n,
{
    if n <= 0 {
        Seq::empty()
    } else if is_text_kind(catalog()[n - 1].kind) {
        driven_upto(n - 1)
    } else {
        driven_upto(n - 1).push((n - 1) as u16)
    }
}

/// Ids of all magic-driven signatures.
pub open spec fn driven_ids() -> Seq<u16> {
    driven_upto(catalog().len() as int)
}

/// Largest `magic_offset + magic.len()` over the magic-driven signatures
/// among the first `n` (0 when there are none).
pub open spec fn extent_upto(n: int) -> int
    decreases n,
{
    if n <= 0 {
        0
    } else {
        let e = catalog()[n - 1].magic_offset + catalog()[n - 1].magic.len();
        if is_text_kind(catalog()[n - 1].kind) || e <= extent_upto(n - 1) {
            extent_upto(n - 1)
        } else {
            e
        }
    }
}

/// The ids of `ids` whose signature's anchor byte is `b`, in order.
pub open spec fn with_anchor(ids: Seq<u16>, b: u8) -> Seq<u16>
    decreases ids.len(),
{
    if ids.len() == 0 {
        ids
    } else {
        let prev = with_anchor(ids.drop_last(), b);
        if anchor_of(catalog()[ids.last() as int].magic) == b {
            prev.push(ids.last())
        } else {
            prev
        }
    }
}

/// Every catalog entry has at least one fixed magic byte.
pub proof fn lemma_catalog_has_fixed_bytes()
    ensures
        forall|i: int| 0 <= i < catalog().len() ==> has_fixed_byte(#[trigger] catalog()[i].magic),
{
    assert forall|i: int| 0 <= i < catalog().len() implies has_fixed_byte(
        #[trigger] catalog()[i].magic,
    ) by {
        assert(catalog()[i].magic[0] is Some);
    }
}

proof fn lemma_driven_upto(n: int)
    requires
        0 <= n <= catalog().len(),
    ensures
        forall|j: int|
            0 <= j < driven_upto(n).len() ==> {
                let id = #[trigger] driven_upto(n)[j];
                &&& 0 <= id < n
                &&& !is_text_kind(catalog()[id as int].kind)
            },
        forall|j: int, q: int|
            0 <= j < q < driven_upto(n).len() ==> driven_upto(n)[j] < driven_upto(n)[q],
        forall|i: int|
            0 <= i < n && !is_text_kind(catalog()[i].kind) ==> driven_upto(n).contains(i as u16),
    decreases n,
{
    if n > 0 {
        lemma_driven_upto(n - 1);
        if !is_text_kind(catalog()[n - 1].kind) {
            assert(driven_upto(n)[driven_upto(n).len() - 1] == (n - 1) as u16);
        }
        assert forall|i: int| 0 <= i < n && !is_text_kind(catalog()[i].kind) implies driven_upto(
            n,
        ).contains(i as u16) by {
            if i < n - 1 {
                let j = choose|j: int|
                    0 <= j < driven_upto(n - 1).len() && #[trigger] driven_upto(n - 1)[j] == i as u16;
                assert(driven_upto(n)[j] == i as u16);
            } else {
                assert(driven_upto(n)[driven_upto(n).len() - 1] == i as u16);
            }
        }
    }
}

/// The index's id list holds exactly the catalog's non-text signatures, in
/// catalog order.
pub proof fn lemma_driven_ids_exclude_text()
    ensures
        forall|j: int|
            0 <= j < driven_ids().len() ==> {
                let id = #[trigger] driven_ids()[j];
                &&& 0 <= id < catalog().len()
                &&& !is_text_kind(catalog()[id as int].kind)
            },
        forall|i: int|
            0 <= i < catalog().len() && !is_text_kind(catalog()[i].kind) ==> driven_ids().contains(
                i as u16,
            ),
{
    lemma_driven_upto(catalog().len() as int);
}

proof fn lemma_with_anchor(ids: Seq<u16>, b: u8)
    ensures
        forall|x: u16|
            with_anchor(ids, b).contains(x) <==> ids.contains(x) && anchor_of(
                catalog()[x as int].magic,
            ) == b,
    decreases ids.len(),
{
    if ids.len() > 0 {
        lemma_with_anchor(ids.drop_last(), b);
        assert forall|x: u16|
            with_anchor(ids, b).contains(x) <==> ids.contains(x) && anchor_of(
                catalog()[x as int].magic,
            ) == b by {
            let prev = with_anchor(ids.drop_last(), b);
            if ids.contains(x) {
                let j = choose|j: int| 0 <= j < ids.len() && ids[j] == x;
                if j < ids.len() - 1 {
                    assert(ids.drop_last()[j] == x);
                }
            }
            if ids.drop_last().contains(x) {
                let j = choose|j: int| 0 <= j < ids.drop_last().len() && ids.drop_last()[j] == x;
                assert(ids[j] == x);
            }
            if anchor_of(catalog()[ids.last() as int].magic) == b {
                assert(with_anchor(ids, b) == prev.push(ids.last()));
                if prev.contains(x) {
                    let j = choose|j: int| 0 <= j < prev.len() && prev[j] == x;
                    assert(prev.push(ids.last())[j] == x);
                }
                if prev.push(ids.last()).contains(x) {
                    let j = choose|j: int|
                        0 <= j < prev.push(ids.last()).len() && prev.push(ids.last())[j] == x;
                    if j < prev.len() {
                        assert(prev[j] == x);
                    }
                }
                assert(prev.push(ids.last())[prev.len() as int] == ids.last());
                assert(ids[ids.len() - 1] == ids.last());
            } else {
                assert(ids[ids.len() - 1] == ids.last());
            }
        }
    }
}

/// A byte's candidates are exactly the magic-driven signatures anchored on it.
pub proof fn lemma_candidates_are_anchored(b: u8)
    ensures
        forall|id: u16|
            with_anchor(driven_ids(), b).contains(id) <==> (0 <= id < catalog().len()
                && !is_text_kind(catalog()[id as int].kind) && anchor_of(catalog()[id as int].magic)
                == b),
{
    lemma_with_anchor(driven_ids(), b);
    lemma_driven_ids_exclude_text();
    assert forall|id: u16|
        with_anchor(driven_ids(), b).contains(id) <==> (0 <= id < catalog().len()
            && !is_text_kind(catalog()[id as int].kind) && anchor_of(catalog()[id as int].magic)
            == b) by {
        if driven_ids().contains(id) {
            let j = choose|j: int| 0 <= j < driven_ids().len() && driven_ids()[j] == id;
            assert(driven_ids()[j] == id);
        }
    }
}

/// First-byte index over the catalog: for each byte value, the ids of the
/// magic-driven signatures anchored on it.
#[derive(Debug)]
pub struct SignatureIndex {
    /// For each byte value, the ids of the signatures anchored on it.
    pub by_anchor: Vec<Vec<u16>>,
    /// Ids that take part in magic-driven scanning (text kinds excluded).
    pub magic_driven: Vec<u16>,
    /// Largest `magic_offset + magic.len()` over those signatures: the bytes
    /// a buffer needs past a candidate before it can be tested.
    pub max_magic_extent: usize,
}

impl SignatureIndex {
    /// Each byte value maps to the ids anchored on it.
    pub open spec fn well_formed(&self) -> bool {
        &&& self.by_anchor@.len() == 256
        &&& forall|b: int| 0 <= b < 256 ==> (#[trigger] self.by_anchor@[b])@ == with_anchor(driven_ids(), b as u8)
    }

    /// Build the index over [`signatures`].
    pub fn build() -> (r: Self)
        ensures
            r.well_formed(),
            r.magic_driven@ == driven_ids(),
            r.max_magic_extent == extent_upto(catalog().len() as int),
    {
        let sigs: Vec<Signature> = signatures();
        proof {
            lemma_catalog_has_fixed_bytes();
        }
        let mut magic_driven: Vec<u16> = Vec::new();
        let mut anchors: Vec<u8> = Vec::new();
        let mut max_extent: usize = 0;
        let mut i: usize = 0;
        while i < sigs.len()
            invariant
                i <= sigs@.len(),
                sigs@.len() == catalog().len(),
                forall|q: int| 0 <= q < sigs@.len() ==> #[trigger] sigs@[q]@ == catalog()[q],
                forall|q: int| 0 <= q < catalog().len() ==> has_fixed_byte(#[trigger] catalog()[q].magic),
                magic_driven@ == driven_upto(i as int),
                anchors@.len() == magic_driven@.len(),
                forall|j: int|
                    0 <= j < anchors@.len() ==> #[trigger] anchors@[j] == anchor_of(
                        catalog()[magic_driven@[j] as int].magic,
                    ),
                max_extent == extent_upto(i as int),
                max_extent <= 12,
            decreases sigs@.len() - i,
        {
            let sig: &Signature = &sigs[i];
            assert(sig@ == catalog()[i as int]);
            if !(sig.kind == FileKind::Txt || sig.kind == FileKind::Csv || sig.kind
                == FileKind::Sql) {
                magic_driven.push(i as u16);
                anchors.push(sig.anchor_byte());
                let extent: usize = sig.magic_offset + sig.magic.len();
                if extent > max_extent {
                    max_extent = extent;
                }
            }
            i += 1;
        }
        let mut by_anchor: Vec<Vec<u16>> = Vec::new();
        let mut b: usize = 0;
        while b < 256
            invariant
                b <= 256,
                magic_driven@ == driven_ids(),
                anchors@.len() == magic_driven@.len(),
                forall|j: int|
                    0 <= j < anchors@.len() ==> #[trigger] anchors@[j] == anchor_of(
                        catalog()[magic_driven@[j] as int].magic,
                    ),
                by_anchor@.len() == b,
                forall|c: int| 0 <= c < b ==> (#[trigger] by_anchor@[c])@ == with_anchor(driven_ids(), c as u8),
            decreases 256 - b,
        {
            let mut v: Vec<u16> = Vec::new();
            let mut j: usize = 0;
            while j < magic_driven.len()
                invariant
                    b < 256,
                    j <= magic_driven@.len(),
                    anchors@.len() == magic_driven@.len(),
                    forall|q: int|
                        0 <= q < anchors@.len() ==> #[trigger] anchors@[q] == anchor_of(
                            catalog()[magic_driven@[q] as int].magic,
                        ),
                    v@ == with_anchor(magic_driven@.subrange(0, j as int), b as u8),
                decreases magic_driven@.len() - j,
            {
                let ghost s: Seq<u16> = magic_driven@.subrange(0, j + 1);
                assert(s.drop_last() =~= magic_driven@.subrange(0, j as int));
                assert(s.last() == magic_driven@[j as int]);
                if anchors[j] == b as u8 {
                    v.push(magic_driven[j]);
                }
                j += 1;
            }
            assert(magic_driven@.subrange(0, magic_driven@.len() as int) =~= magic_driven@);
            by_anchor.push(v);
            b += 1;
        }
        SignatureIndex { by_anchor, magic_driven, max_magic_extent: max_extent }
    }

    /// Ids of the signatures whose anchor byte is `b`.
    pub fn candidates(&self, b: u8) -> (r: &[u16])
        requires
            self.well_formed(),
        ensures
            r@ == with_anchor(driven_ids(), b),
    {
        self.by_anchor[b as usize].as_slice()
    }
}

} // verus!
