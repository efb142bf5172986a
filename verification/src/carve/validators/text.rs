//! Heuristic text validator for formats with no magic (TXT, CSV, SQL): the
//! window must be overwhelmingly printable ASCII or well-formed UTF-8, CSV
//! must have at least as many commas as newlines, and SQL must name a
//! statement keyword early on.

use crate::carve::validation::{baseline_recoverability, spec_baseline, Validation};
use crate::carve::validators::Validator;
use crate::types::FileKind;
use vstd::prelude::*;

verus! {

#[derive(Debug, Clone, Copy)]
pub struct TextValidator {
    pub kind: FileKind,
}

impl TextValidator {
    /// A text validator reporting `kind`.
    pub fn new(kind: FileKind) -> (r: Self)
        ensures
            r.kind == kind,
    {
        TextValidator { kind }
    }
}

/// Shortest window that can be judged, and shortest accepted text run.
pub const MIN_TEXT_BYTES: usize = 256;

/// Percentage of printable bytes a window needs.
pub const PRINTABLE_THRESHOLD_PCT: u32 = 95;

/// How far into the window SQL keywords are looked for.
pub const SQL_SCAN_LIMIT: usize = 4096;

/// Printable ASCII, newline, carriage return or tab.
pub open spec fn is_text_byte(b: u8) -> bool {
    (0x20u8 <= b < 0x7Fu8) || b == 0x0Au8 || b == 0x0Du8 || b == 0x09u8
}

/// A UTF-8 continuation byte.
pub open spec fn is_cont(b: u8) -> bool {
    0x80u8 <= b <= 0xBFu8
}

/// Least second byte allowed after lead byte `b0` (no overlong forms).
pub open spec fn second_lo(b0: u8) -> u8 {
    if b0 == 0xE0u8 {
        0xA0u8
    } else if b0 == 0xF0u8 {
        0x90u8
    } else {
        0x80u8
    }
}

/// Greatest second byte allowed after lead byte `b0` (no surrogates, nothing
/// past U+10FFFF).
pub open spec fn second_hi(b0: u8) -> u8 {
    if b0 == 0xEDu8 {
        0x9Fu8
    } else if b0 == 0xF4u8 {
        0x8Fu8
    } else {
        0xBFu8
    }
}

/// Length of the well-formed multi-byte UTF-8 sequence that starts at `i`
/// and ends inside `s`, or 0 where none does.
pub open spec fn utf8_len_at(s: Seq<u8>, i: int) -> int {
    if i < 0 || i >= s.len() {
        0
    } else {
        let b0 = s[i];
        if 0xC2u8 <= b0 <= 0xDFu8 && i + 1 < s.len() && is_cont(s[i + 1]) {
            2
        } else if 0xE0u8 <= b0 <= 0xEFu8 && i + 2 < s.len() && second_lo(b0) <= s[i + 1] <= second_hi(b0)
            && is_cont(s[i + 2]) {
            3
        } else if 0xF0u8 <= b0 <= 0xF4u8 && i + 3 < s.len() && second_lo(b0) <= s[i + 1] <= second_hi(b0)
            && is_cont(s[i + 2]) && is_cont(s[i + 3]) {
            4
        } else {
            0
        }
    }
}

/// Length of the text character at `i`: 1 for a text byte, 2 to 4 for a
/// well-formed UTF-8 sequence, 0 where `s[i]` starts neither.
pub open spec fn text_unit(s: Seq<u8>, i: int) -> int {
    if 0 <= i < s.len() && is_text_byte(s[i]) {
        1
    } else {
        utf8_len_at(s, i)
    }
}

/// Bytes from `i` on that belong to text characters, reading the window
/// character by character (a byte that starts none is passed over).
pub open spec fn count_text_from(s: Seq<u8>, i: int) -> nat
    decreases s.len() - i,
{
    if i < 0 || i >= s.len() {
        0
    } else {
        let u = text_unit(s, i);
        if u > 0 {
            (u as nat) + count_text_from(s, i + u)
        } else {
            count_text_from(s, i + 1)
        }
    }
}

/// Number of bytes of `s` that belong to text characters.
pub open spec fn count_text(s: Seq<u8>) -> nat {
    count_text_from(s, 0)
}

/// Number of occurrences of `b` in `s`.
pub open spec fn count_byte(s: Seq<u8>, b: u8) -> nat
    decreases s.len(),
{
    if s.len() == 0 {
        0
    } else {
        count_byte(s.drop_last(), b) + if s.last() == b {
            1nat
        } else {
            0nat
        }
    }
}

/// Where the run of text characters from `i` ends: the first character
/// boundary that starts no text character, or the length.
pub open spec fn text_run_end(s: Seq<u8>, i: int) -> int
    decreases s.len() - i,
{
    if i < 0 || i >= s.len() {
        s.len() as int
    } else if text_unit(s, i) == 0 {
        i
    } else {
        text_run_end(s, i + text_unit(s, i))
    }
}

/// ASCII lower-casing of one byte.
pub open spec fn ascii_lower(b: u8) -> u8 {
    if 0x41u8 <= b <= 0x5Au8 {
        (b + 0x20) as u8
    } else {
        b
    }
}

/// `kw` occurs at `p`, ignoring ASCII case.
pub open spec fn keyword_at(s: Seq<u8>, p: int, kw: Seq<u8>) -> bool {
    forall|k: int| 0 <= k < kw.len() ==> ascii_lower(#[trigger] s[p + k]) == kw[k]
}

/// `kw` occurs, ignoring ASCII case, wholly inside the first `limit` bytes.
pub open spec fn has_keyword_within(s: Seq<u8>, limit: int, kw: Seq<u8>) -> bool {
    exists|p: int| 0 <= p && p + kw.len() <= limit && #[trigger] keyword_at(s, p, kw)
}

pub open spec fn kw_select() -> Seq<u8> {
    seq![0x73u8, 0x65u8, 0x6Cu8, 0x65u8, 0x63u8, 0x74u8, 0x20u8]
}

pub open spec fn kw_insert() -> Seq<u8> {
    seq![0x69u8, 0x6Eu8, 0x73u8, 0x65u8, 0x72u8, 0x74u8, 0x20u8]
}

pub open spec fn kw_update() -> Seq<u8> {
    seq![0x75u8, 0x70u8, 0x64u8, 0x61u8, 0x74u8, 0x65u8, 0x20u8]
}

pub open spec fn kw_create() -> Seq<u8> {
    seq![0x63u8, 0x72u8, 0x65u8, 0x61u8, 0x74u8, 0x65u8, 0x20u8]
}

pub open spec fn kw_delete() -> Seq<u8> {
    seq![0x64u8, 0x65u8, 0x6Cu8, 0x65u8, 0x74u8, 0x65u8, 0x20u8]
}

/// One of `select `, `insert `, `update `, `create `, `delete ` (any case)
/// within the first 4096 bytes.
pub open spec fn has_sql_keyword(w: Seq<u8>) -> bool {
    let limit = if w.len() < SQL_SCAN_LIMIT {
        w.len() as int
    } else {
        SQL_SCAN_LIMIT as int
    };
    has_keyword_within(w, limit, kw_select()) || has_keyword_within(w, limit, kw_insert())
        || has_keyword_within(w, limit, kw_update()) || has_keyword_within(w, limit, kw_create())
        || has_keyword_within(w, limit, kw_delete())
}

/// Verdict for a text window judged as `kind`: at least 256 bytes, of which
/// at least 95% belong to text characters (printable ASCII, newline,
/// carriage return, tab, or well-formed UTF-8 sequences); CSV needs as many
/// commas as newlines, SQL a statement keyword; the file is the run of text
/// characters from the start, at least 256 bytes long.
pub open spec fn text_verdict(kind: FileKind, w: Seq<u8>) -> Validation {
    if w.len() < MIN_TEXT_BYTES {
        Validation::NeedsMore
    } else if count_text(w) * 100 / w.len() < PRINTABLE_THRESHOLD_PCT {
        Validation::Rejected
    } else if kind == FileKind::Csv && (count_byte(w, 0x0Au8) == 0 || count_byte(w, 0x2Cu8)
        < count_byte(w, 0x0Au8)) {
        Validation::Rejected
    } else if kind == FileKind::Sql && !has_sql_keyword(w) {
        Validation::Rejected
    } else if text_run_end(w, 0) < MIN_TEXT_BYTES {
        Validation::Rejected
    } else {
        Validation::Confirmed {
            length: text_run_end(w, 0) as u64,
            recoverability: spec_baseline(kind),
        }
    }
}

fn text_byte(b: u8) -> (r: bool)
    ensures
        r == is_text_byte(b),
{
    (0x20 <= b && b < 0x7F) || b == 0x0A || b == 0x0D || b == 0x09
}

/// Length of the text character at `i` (see [`text_unit`]).
fn unit_at(w: &[u8], i: usize) -> (r: usize)
    requires
        i < w.len(),
    ensures
        r == text_unit(w@, i as int),
        r <= 4,
        i + r <= w.len(),
{
    let b0: u8 = w[i];
    if text_byte(b0) {
        return 1;
    }
    let n: usize = w.len();
    if 0xC2 <= b0 && b0 <= 0xDF {
        if n - i > 1 && 0x80 <= w[i + 1] && w[i + 1] <= 0xBF {
            return 2;
        }
        return 0;
    }
    let lo: u8 = if b0 == 0xE0 {
        0xA0
    } else if b0 == 0xF0 {
        0x90
    } else {
        0x80
    };
    let hi: u8 = if b0 == 0xED {
        0x9F
    } else if b0 == 0xF4 {
        0x8F
    } else {
        0xBF
    };
    if 0xE0 <= b0 && b0 <= 0xEF {
        if n - i > 2 && lo <= w[i + 1] && w[i + 1] <= hi && 0x80 <= w[i + 2] && w[i + 2] <= 0xBF {
            return 3;
        }
        return 0;
    }
    if 0xF0 <= b0 && b0 <= 0xF4 {
        if n - i > 3 && lo <= w[i + 1] && w[i + 1] <= hi && 0x80 <= w[i + 2] && w[i + 2] <= 0xBF && 0x80
            <= w[i + 3] && w[i + 3] <= 0xBF {
            return 4;
        }
        return 0;
    }
    0
}

/// Number of bytes of `w` that belong to text characters.
fn count_text_bytes(w: &[u8]) -> (r: usize)
    ensures
        r == count_text(w@),
{
    let mut n: usize = 0;
    let mut i: usize = 0;
    while i < w.len()
        invariant
            i <= w.len(),
            n <= i,
            n + count_text_from(w@, i as int) == count_text_from(w@, 0),
        decreases w.len() - i,
    {
        let u: usize = unit_at(w, i);
        if u > 0 {
            n += u;
            i += u;
        } else {
            i += 1;
        }
    }
    n
}

/// Number of occurrences of `b` in `w`.
fn count_occurrences(w: &[u8], b: u8) -> (r: usize)
    ensures
        r == count_byte(w@, b),
{
    let mut n: usize = 0;
    let mut i: usize = 0;
    while i < w.len()
        invariant
            i <= w.len(),
            n <= i,
            n == count_byte(w@.subrange(0, i as int), b),
        decreases w.len() - i,
    {
        assert(w@.subrange(0, i + 1).drop_last() =~= w@.subrange(0, i as int));
        if w[i] == b {
            n += 1;
        }
        i += 1;
    }
    assert(w@.subrange(0, w.len() as int) =~= w@);
    n
}

fn lower(b: u8) -> (r: u8)
    ensures
        r == ascii_lower(b),
{
    if 0x41 <= b && b <= 0x5A {
        b + 0x20
    } else {
        b
    }
}

/// Whether `kw` occurs, ignoring ASCII case, inside `w[..limit]`.
fn find_keyword(w: &[u8], limit: usize, kw: &[u8]) -> (r: bool)
    requires
        limit <= w.len(),
    ensures
        r == has_keyword_within(w@, limit as int, kw@),
{
    if kw.len() > limit {
        return false;
    }
    let last: usize = limit - kw.len();
    let mut p: usize = 0;
    while p <= last
        invariant
            last + kw.len() == limit,
            limit <= w.len(),
            forall|q: int| 0 <= q < p ==> !keyword_at(w@, q, kw@),
        decreases last + 1 - p,
    {
        let mut k: usize = 0;
        while k < kw.len() && lower(w[p + k]) == kw[k]
            invariant
                p <= last,
                last + kw.len() == limit,
                limit <= w.len(),
                k <= kw.len(),
                forall|j: int| 0 <= j < k ==> ascii_lower(#[trigger] w@[p + j]) == kw@[j],
            decreases kw.len() - k,
        {
            k += 1;
        }
        if k == kw.len() {
            assert(keyword_at(w@, p as int, kw@));
            return true;
        }
        assert(!keyword_at(w@, p as int, kw@)) by {
            assert(ascii_lower(w@[p + k]) != kw@[k as int]);
        }
        p += 1;
    }
    assert forall|q: int| 0 <= q && q + kw@.len() <= limit implies !#[trigger] keyword_at(
        w@,
        q,
        kw@,
    ) by {
        assert(q < p);
    }
    false
}

/// SQL statement keyword check over the first 4096 bytes.
fn sql_keyword_present(w: &[u8]) -> (r: bool)
    ensures
        r == has_sql_keyword(w@),
{
    let limit: usize = if w.len() < SQL_SCAN_LIMIT {
        w.len()
    } else {
        SQL_SCAN_LIMIT
    };
    let select: [u8; 7] = [0x73, 0x65, 0x6C, 0x65, 0x63, 0x74, 0x20];
    let insert: [u8; 7] = [0x69, 0x6E, 0x73, 0x65, 0x72, 0x74, 0x20];
    let update: [u8; 7] = [0x75, 0x70, 0x64, 0x61, 0x74, 0x65, 0x20];
    let create: [u8; 7] = [0x63, 0x72, 0x65, 0x61, 0x74, 0x65, 0x20];
    let delete: [u8; 7] = [0x64, 0x65, 0x6C, 0x65, 0x74, 0x65, 0x20];
    assert(select@ == kw_select());
    assert(insert@ == kw_insert());
    assert(update@ == kw_update());
    assert(create@ == kw_create());
    assert(delete@ == kw_delete());
    find_keyword(w, limit, select.as_slice()) || find_keyword(w, limit, insert.as_slice())
        || find_keyword(w, limit, update.as_slice()) || find_keyword(w, limit, create.as_slice())
        || find_keyword(w, limit, delete.as_slice())
}

/// Where the run of text characters from the window's start ends.
fn text_run(w: &[u8]) -> (r: usize)
    ensures
        r == text_run_end(w@, 0),
{
    let mut i: usize = 0;
    while i < w.len()
        invariant
            i <= w.len(),
            text_run_end(w@, i as int) == text_run_end(w@, 0),
        decreases w.len() - i,
    {
        let u: usize = unit_at(w, i);
        if u == 0 {
            return i;
        }
        i += u;
    }
    i
}

impl Validator for TextValidator {
    open spec fn spec_validate(&self, w: Seq<u8>) -> Validation {
        text_verdict(self.kind, w)
    }

    open spec fn spec_kind(&self) -> FileKind {
        self.kind
    }

    open spec fn spec_validate_with_kind(&self, w: Seq<u8>) -> (Validation, FileKind) {
        (text_verdict(self.kind, w), self.kind)
    }

    fn validate(&self, w: &[u8]) -> (r: Validation) {
        if w.len() < MIN_TEXT_BYTES {
            return Validation::NeedsMore;
        }
        let printable: usize = count_text_bytes(w);
        let pct: u128 = (printable as u128 * 100) / (w.len() as u128);
        if pct < PRINTABLE_THRESHOLD_PCT as u128 {
            return Validation::Rejected;
        }
        match self.kind {
            FileKind::Csv => {
                let commas: usize = count_occurrences(w, 0x2C);
                let newlines: usize = count_occurrences(w, 0x0A);
                if newlines == 0 || commas < newlines {
                    return Validation::Rejected;
                }
            },
            FileKind::Sql => {
                if !sql_keyword_present(w) {
                    return Validation::Rejected;
                }
            },
            _ => {},
        }
        let end: usize = text_run(w);
        if end < MIN_TEXT_BYTES {
            return Validation::Rejected;
        }
        Validation::Confirmed { length: end as u64, recoverability: baseline_recoverability(self.kind) }
    }

    fn kind(&self) -> (k: FileKind) {
        self.kind
    }

    fn validate_with_kind(&self, w: &[u8]) -> (r: (Validation, FileKind)) {
        (self.validate(w), self.kind())
    }
}

} // verus!
