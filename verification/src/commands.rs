//! Requests from the front ends: kind and strategy names, the carving
//! command's arguments, device paths, output file names, and how a device
//! image is split among scan workers.

use crate::strings::{
    ascii_lowercase, chars_eq, decimal_padded, hex_lower_padded, lowercase_chars, push_char, push_decimal_padded,
    push_hex_lower_padded,
};
use crate::types::{FileKind, JobState, RecoveryStrategy};
use vstd::prelude::*;

verus! {

/// Unicode `White_Space`, the characters that `str::trim` removes.
pub open spec fn is_white_space(c: char) -> bool {
    let u = c as u32;
    (0x09 <= u && u <= 0x0D) || u == 0x20 || u == 0x85 || u == 0xA0 || u == 0x1680 || (0x2000 <= u && u <= 0x200A)
        || u == 0x2028 || u == 0x2029 || u == 0x202F || u == 0x205F || u == 0x3000
}

fn white_space(c: char) -> (b: bool)
    ensures
        b == is_white_space(c),
{
    let u: u32 = c as u32;
    (0x09 <= u && u <= 0x0D) || u == 0x20 || u == 0x85 || u == 0xA0 || u == 0x1680 || (0x2000 <= u && u <= 0x200A)
        || u == 0x2028 || u == 0x2029 || u == 0x202F || u == 0x205F || u == 0x3000
}

/// `s` without leading white space.
pub open spec fn trim_start(s: Seq<char>) -> Seq<char>
    decreases s.len(),
{
    if s.len() > 0 && is_white_space(s[0]) {
        trim_start(s.drop_first())
    } else {
        s
    }
}

/// `s` without trailing white space.
pub open spec fn trim_end(s: Seq<char>) -> Seq<char>
    decreases s.len(),
{
    if s.len() > 0 && is_white_space(s.last()) {
        trim_end(s.drop_last())
    } else {
        s
    }
}

/// `s` without leading and trailing white space, as `str::trim` gives it.
pub open spec fn trim(s: Seq<char>) -> Seq<char> {
    trim_end(trim_start(s))
}

/// The characters of `v` from `i` to `j`.
fn slice_chars(v: &Vec<char>, i: usize, j: usize) -> (r: Vec<char>)
    requires
        i <= j <= v@.len(),
    ensures
        r@ == v@.subrange(i as int, j as int),
{
    let mut r: Vec<char> = Vec::new();
    let mut k: usize = i;
    while k < j
        invariant
            i <= k <= j,
            j <= v@.len(),
            r@ == v@.subrange(i as int, k as int),
        decreases j - k,
    {
        r.push(v[k]);
        k += 1;
        assert(r@ =~= v@.subrange(i as int, k as int));
    }
    r
}

/// `v` trimmed.
pub fn trim_chars(v: &Vec<char>) -> (r: Vec<char>)
    ensures
        r@ == trim(v@),
{
    let n: usize = v.len();
    let mut i: usize = 0;
    assert(v@.subrange(0, n as int) =~= v@);
    while i < n && white_space(v[i])
        invariant
            i <= n,
            n == v@.len(),
            trim_start(v@) == trim_start(v@.subrange(i as int, n as int)),
        decreases n - i,
    {
        assert(v@.subrange(i as int, n as int).drop_first() =~= v@.subrange(i + 1, n as int));
        i += 1;
    }
    let mut j: usize = n;
    let ghost t: Seq<char> = v@.subrange(i as int, n as int);
    assert(t.subrange(0, (j - i) as int) =~= t);
    while j > i && white_space(v[j - 1])
        invariant
            i <= j <= n,
            n == v@.len(),
            t == v@.subrange(i as int, n as int),
            trim_end(t) == trim_end(v@.subrange(i as int, j as int)),
        decreases j,
    {
        assert(v@.subrange(i as int, j as int).drop_last() =~= v@.subrange(i as int, j - 1));
        j -= 1;
    }
    slice_chars(v, i, j)
}

/// The kind a lower-case name stands for on the command line.
pub open spec fn kind_from_name(n: Seq<char>) -> Option<FileKind> {
    if n == "jpg"@ || n == "jpeg"@ {
        Some(FileKind::Jpg)
    } else if n == "png"@ {
        Some(FileKind::Png)
    } else if n == "gif"@ {
        Some(FileKind::Gif)
    } else if n == "bmp"@ {
        Some(FileKind::Bmp)
    } else if n == "tiff"@ || n == "tif"@ {
        Some(FileKind::Tiff)
    } else if n == "mp4"@ {
        Some(FileKind::Mp4)
    } else if n == "mov"@ {
        Some(FileKind::Mov)
    } else if n == "mkv"@ {
        Some(FileKind::Mkv)
    } else if n == "avi"@ {
        Some(FileKind::Avi)
    } else if n == "pdf"@ {
        Some(FileKind::Pdf)
    } else if n == "docx"@ {
        Some(FileKind::Docx)
    } else if n == "xlsx"@ {
        Some(FileKind::Xlsx)
    } else if n == "pptx"@ {
        Some(FileKind::Pptx)
    } else if n == "zip"@ {
        Some(FileKind::Zip)
    } else if n == "rar"@ {
        Some(FileKind::Rar)
    } else if n == "7z"@ || n == "sevenz"@ {
        Some(FileKind::SevenZ)
    } else if n == "psd"@ {
        Some(FileKind::Psd)
    } else if n == "ai"@ {
        Some(FileKind::Ai)
    } else if n == "txt"@ {
        Some(FileKind::Txt)
    } else if n == "csv"@ {
        Some(FileKind::Csv)
    } else if n == "sql"@ {
        Some(FileKind::Sql)
    } else {
        None
    }
}

fn kind_from_chars(n: &[char]) -> (r: Option<FileKind>)
    ensures
        r == kind_from_name(n@),
{
    if chars_eq(n, "jpg") || chars_eq(n, "jpeg") {
        return Some(FileKind::Jpg);
    }
    if chars_eq(n, "png") {
        return Some(FileKind::Png);
    }
    if chars_eq(n, "gif") {
        return Some(FileKind::Gif);
    }
    if chars_eq(n, "bmp") {
        return Some(FileKind::Bmp);
    }
    if chars_eq(n, "tiff") || chars_eq(n, "tif") {
        return Some(FileKind::Tiff);
    }
    if chars_eq(n, "mp4") {
        return Some(FileKind::Mp4);
    }
    if chars_eq(n, "mov") {
        return Some(FileKind::Mov);
    }
    if chars_eq(n, "mkv") {
        return Some(FileKind::Mkv);
    }
    if chars_eq(n, "avi") {
        return Some(FileKind::Avi);
    }
    if chars_eq(n, "pdf") {
        return Some(FileKind::Pdf);
    }
    if chars_eq(n, "docx") {
        return Some(FileKind::Docx);
    }
    if chars_eq(n, "xlsx") {
        return Some(FileKind::Xlsx);
    }
    if chars_eq(n, "pptx") {
        return Some(FileKind::Pptx);
    }
    if chars_eq(n, "zip") {
        return Some(FileKind::Zip);
    }
    if chars_eq(n, "rar") {
        return Some(FileKind::Rar);
    }
    if chars_eq(n, "7z") || chars_eq(n, "sevenz") {
        return Some(FileKind::SevenZ);
    }
    if chars_eq(n, "psd") {
        return Some(FileKind::Psd);
    }
    if chars_eq(n, "ai") {
        return Some(FileKind::Ai);
    }
    if chars_eq(n, "txt") {
        return Some(FileKind::Txt);
    }
    if chars_eq(n, "csv") {
        return Some(FileKind::Csv);
    }
    if chars_eq(n, "sql") {
        return Some(FileKind::Sql);
    }
    None
}

/// Parse one kind name: surrounding white space is ignored and ASCII case
/// does not matter.
pub fn parse_kind(s: &str) -> (r: Option<FileKind>)
    ensures
        r == kind_from_name(ascii_lowercase(trim(s@))),
{
    let raw: Vec<char> = crate::engine::recovery::chars_of(s);
    parse_kind_chars(&raw)
}

/// Why a text is not an unsigned integer, as `u64::from_str` reports it.
#[derive(Debug, Clone, Copy, PartialEq, Eq, Structural)]
pub enum IntError {
    /// The text is empty.
    Empty,
    /// A character is not a decimal digit (a lone sign counts as one).
    InvalidDigit,
    /// The value does not fit in 64 bits.
    PosOverflow,
}

/// Read decimal digits of `s` from `i` on, after `acc`: the first
/// non-digit or the first overflow, from the left, decides the error.
pub open spec fn digits_from(s: Seq<char>, i: int, acc: u64) -> Result<u64, IntError>
    decreases s.len() - i,
{
    if i < 0 || i >= s.len() {
        Ok(acc)
    } else if !('0' <= s[i] && s[i] <= '9') {
        Err(IntError::InvalidDigit)
    } else {
        let next = acc * 10 + (s[i] as int - 48);
        if next > u64::MAX {
            Err(IntError::PosOverflow)
        } else {
            digits_from(s, i + 1, next as u64)
        }
    }
}

/// `u64::from_str`: an optional `+`, then decimal digits.
pub open spec fn spec_parse_u64(s: Seq<char>) -> Result<u64, IntError> {
    if s.len() == 0 {
        Err(IntError::Empty)
    } else if (s[0] == '+' || s[0] == '-') && s.len() == 1 {
        Err(IntError::InvalidDigit)
    } else if s[0] == '+' {
        digits_from(s, 1, 0)
    } else {
        digits_from(s, 0, 0)
    }
}

/// Parse an unsigned decimal integer.
pub fn parse_u64(s: &str) -> (r: Result<u64, IntError>)
    ensures
        r == spec_parse_u64(s@),
{
    let n: usize = s.unicode_len();
    if n == 0 {
        return Err(IntError::Empty);
    }
    let c0: char = s.get_char(0);
    if (c0 == '+' || c0 == '-') && n == 1 {
        return Err(IntError::InvalidDigit);
    }
    let mut i: usize = if c0 == '+' {
        1
    } else {
        0
    };
    let mut acc: u64 = 0;
    while i < n
        invariant
            n == s@.len(),
            i <= n,
            spec_parse_u64(s@) == digits_from(s@, i as int, acc),
        decreases n - i,
    {
        let c: char = s.get_char(i);
        if !('0' <= c && c <= '9') {
            return Err(IntError::InvalidDigit);
        }
        let d: u64 = ((c as u32) - 48) as u64;
        if acc > (u64::MAX - d) / 10 {
            assert(acc * 10 + d > u64::MAX) by (nonlinear_arith)
                requires
                    acc > (u64::MAX - d) / 10,
                    d <= 9,
            ;
            return Err(IntError::PosOverflow);
        }
        assert(acc * 10 + d <= u64::MAX) by (nonlinear_arith)
            requires
                acc <= (u64::MAX - d) / 10,
                d <= 9,
        ;
        acc = acc * 10 + d;
        i += 1;
    }
    Ok(acc)
}

/// `s` split at every `,` (an empty text gives one empty piece).
pub open spec fn split_commas(s: Seq<char>) -> Seq<Seq<char>>
    decreases s.len(),
{
    if s.len() == 0 {
        seq![Seq::empty()]
    } else if s.last() == ',' {
        split_commas(s.drop_last()).push(Seq::empty())
    } else {
        let p = split_commas(s.drop_last());
        p.update(p.len() - 1, p.last().push(s.last()))
    }
}

/// The kinds that the pieces name (see [`parse_kind`]), unknown ones skipped.
pub open spec fn kinds_of_pieces(pieces: Seq<Seq<char>>) -> Seq<FileKind>
    decreases pieces.len(),
{
    if pieces.len() == 0 {
        Seq::empty()
    } else {
        let prev = kinds_of_pieces(pieces.drop_last());
        match kind_from_name(ascii_lowercase(trim(pieces.last()))) {
            Some(k) => prev.push(k),
            None => prev,
        }
    }
}

/// The kinds of a comma-separated list.
pub open spec fn kinds_in_list(raw: Seq<char>) -> Seq<FileKind> {
    kinds_of_pieces(split_commas(raw))
}

proof fn lemma_split_nonempty(s: Seq<char>)
    ensures
        split_commas(s).len() >= 1,
    decreases s.len(),
{
    if s.len() > 0 {
        lemma_split_nonempty(s.drop_last());
    }
}

/// The kinds named in a comma-separated list.
pub fn parse_kind_list(raw: &str) -> (r: Vec<FileKind>)
    ensures
        r@ == kinds_in_list(raw@),
{
    let chars: Vec<char> = crate::engine::recovery::chars_of(raw);
    let mut out: Vec<FileKind> = Vec::new();
    let mut piece: Vec<char> = Vec::new();
    let mut k: usize = 0;
    while k < chars.len()
        invariant
            k <= chars@.len(),
            ({
                let p = split_commas(chars@.subrange(0, k as int));
                &&& p.len() >= 1
                &&& piece@ == p.last()
                &&& out@ == kinds_of_pieces(p.drop_last())
            }),
        decreases chars.len() - k,
    {
        let ghost pre: Seq<char> = chars@.subrange(0, k as int);
        let ghost next: Seq<char> = chars@.subrange(0, k + 1);
        assert(next.drop_last() =~= pre);
        proof {
            lemma_split_nonempty(pre);
        }
        let c: char = chars[k];
        if c == ',' {
            let p = parse_kind_chars(&piece);
            match p {
                Some(kind) => out.push(kind),
                None => {},
            }
            piece = Vec::new();
            assert(split_commas(next).drop_last() =~= split_commas(pre));
            assert(split_commas(pre) =~= split_commas(pre).drop_last().push(split_commas(pre).last()));
        } else {
            piece.push(c);
            assert(split_commas(next).drop_last() =~= split_commas(pre).drop_last());
        }
        k += 1;
    }
    assert(chars@.subrange(0, chars@.len() as int) =~= chars@);
    proof {
        lemma_split_nonempty(chars@);
        let p = split_commas(chars@);
        assert(p =~= p.drop_last().push(p.last()));
    }
    match parse_kind_chars(&piece) {
        Some(kind) => out.push(kind),
        None => {},
    }
    out
}

/// [`parse_kind`] of the characters in `v`.
fn parse_kind_chars(v: &Vec<char>) -> (r: Option<FileKind>)
    ensures
        r == kind_from_name(ascii_lowercase(trim(v@))),
{
    let t: Vec<char> = trim_chars(v);
    let mut lower: Vec<char> = Vec::new();
    let mut k: usize = 0;
    while k < t.len()
        invariant
            k <= t@.len(),
            lower@ == ascii_lowercase(t@).subrange(0, k as int),
        decreases t.len() - k,
    {
        let c: char = t[k];
        lower.push(
            if 'A' <= c && c <= 'Z' {
                (((c as u32) + 32) as u8) as char
            } else {
                c
            },
        );
        k += 1;
        assert(lower@ =~= ascii_lowercase(t@).subrange(0, k as int));
    }
    assert(ascii_lowercase(t@).subrange(0, t@.len() as int) =~= ascii_lowercase(t@));
    kind_from_chars(lower.as_slice())
}

/// The kinds named in `names` (each compared without regard to ASCII case,
/// unknown names skipped), in order.
pub open spec fn kinds_named(names: Seq<Seq<char>>) -> Seq<FileKind>
    decreases names.len(),
{
    if names.len() == 0 {
        Seq::empty()
    } else {
        let prev = kinds_named(names.drop_last());
        match kind_from_name(ascii_lowercase(names.last())) {
            Some(k) => prev.push(k),
            None => prev,
        }
    }
}

/// A kind filter from a list of names: `None` (all kinds) when the list is
/// empty or names no known kind.
pub fn parse_kinds(kinds: &[String]) -> (r: Option<Vec<FileKind>>)
    ensures
        ({
            let named = kinds_named(kinds@.map_values(|s: String| s@));
            match r {
                None => named.len() == 0,
                Some(v) => named.len() > 0 && v@ == named,
            }
        }),
{
    let ghost names: Seq<Seq<char>> = kinds@.map_values(|s: String| s@);
    let mut parsed: Vec<FileKind> = Vec::new();
    let mut i: usize = 0;
    while i < kinds.len()
        invariant
            i <= kinds@.len(),
            names == kinds@.map_values(|s: String| s@),
            parsed@ == kinds_named(names.subrange(0, i as int)),
        decreases kinds.len() - i,
    {
        let lower: Vec<char> = lowercase_chars(kinds[i].as_str());
        assert(names.subrange(0, i + 1).drop_last() =~= names.subrange(0, i as int));
        assert(names.subrange(0, i + 1).last() == kinds@[i as int]@);
        match kind_from_chars(lower.as_slice()) {
            Some(k) => parsed.push(k),
            None => {},
        }
        i += 1;
    }
    assert(names.subrange(0, kinds@.len() as int) =~= names);
    if parsed.len() == 0 {
        None
    } else {
        Some(parsed)
    }
}

/// The strategy a name selects (ASCII case ignored); an unknown name
/// selects the deep scan.
pub open spec fn strategy_named(n: Seq<char>) -> RecoveryStrategy {
    if n == "quick"@ {
        RecoveryStrategy::Quick
    } else if n == "deep"@ {
        RecoveryStrategy::Deep
    } else if n == "raw"@ {
        RecoveryStrategy::Raw
    } else if n == "partition"@ {
        RecoveryStrategy::Partition
    } else if n == "formatted"@ {
        RecoveryStrategy::Formatted
    } else if n == "corrupted"@ || n == "corrupted-fs"@ || n == "corruptedfs"@ {
        RecoveryStrategy::CorruptedFs
    } else {
        RecoveryStrategy::Deep
    }
}

/// Parse a strategy name.
pub fn parse_strategy(s: &str) -> (r: RecoveryStrategy)
    ensures
        r == strategy_named(ascii_lowercase(s@)),
{
    let l: Vec<char> = lowercase_chars(s);
    let n: &[char] = l.as_slice();
    if chars_eq(n, "quick") {
        RecoveryStrategy::Quick
    } else if chars_eq(n, "deep") {
        RecoveryStrategy::Deep
    } else if chars_eq(n, "raw") {
        RecoveryStrategy::Raw
    } else if chars_eq(n, "partition") {
        RecoveryStrategy::Partition
    } else if chars_eq(n, "formatted") {
        RecoveryStrategy::Formatted
    } else if chars_eq(n, "corrupted") || chars_eq(n, "corrupted-fs") || chars_eq(n, "corruptedfs") {
        RecoveryStrategy::CorruptedFs
    } else {
        RecoveryStrategy::Deep
    }
}

/// Lower-case name of a job state.
pub fn state_str(s: JobState) -> (r: &'static str)
    ensures
        r@ == (match s {
            JobState::Queued => "queued"@,
            JobState::Running => "running"@,
            JobState::Paused => "paused"@,
            JobState::Finished => "finished"@,
            JobState::Failed => "failed"@,
            JobState::Cancelled => "cancelled"@,
        }),
{
    match s {
        JobState::Queued => "queued",
        JobState::Running => "running",
        JobState::Paused => "paused",
        JobState::Finished => "finished",
        JobState::Failed => "failed",
        JobState::Cancelled => "cancelled",
    }
}

/// `s` begins with `p`.
pub open spec fn starts_with(s: Seq<char>, p: Seq<char>) -> bool {
    p.len() <= s.len() && s.subrange(0, p.len() as int) == p
}

fn str_starts_with(s: &str, p: &str) -> (b: bool)
    ensures
        b == starts_with(s@, p@),
{
    let n: usize = p.unicode_len();
    if s.unicode_len() < n {
        return false;
    }
    let mut i: usize = 0;
    while i < n
        invariant
            n == p@.len(),
            n <= s@.len(),
            i <= n,
            forall|j: int| 0 <= j < i ==> s@[j] == p@[j],
        decreases n - i,
    {
        if s.get_char(i) != p.get_char(i) {
            assert(s@.subrange(0, n as int)[i as int] != p@[i as int]);
            return false;
        }
        i += 1;
    }
    assert(s@.subrange(0, n as int) =~= p@);
    true
}

/// Whether a path names a physical drive rather than an image file.
pub open spec fn spec_is_drive_path(path: Seq<char>) -> bool {
    starts_with(path, "\\\\.\\PhysicalDrive"@) || starts_with(path, "/dev/sd"@) || starts_with(path, "/dev/nvme"@)
        || starts_with(path, "/dev/mmcblk"@) || starts_with(path, "/dev/vd"@) || starts_with(path, "/dev/hd"@)
        || starts_with(path, "/dev/xvd"@)
}

/// Whether a path looks like a physical drive rather than a file.
pub fn is_drive_path(path: &str) -> (b: bool)
    ensures
        b == spec_is_drive_path(path@),
{
    str_starts_with(path, "\\\\.\\PhysicalDrive") || str_starts_with(path, "/dev/sd") || str_starts_with(path, "/dev/nvme")
        || str_starts_with(path, "/dev/mmcblk") || str_starts_with(path, "/dev/vd") || str_starts_with(path, "/dev/hd")
        || str_starts_with(path, "/dev/xvd")
}

/// Name of a recovered file: its number as at least 8 decimal digits, `_`,
/// its offset as at least 16 lower-case hexadecimal digits, `.` and the
/// extension.
pub open spec fn spec_recovered_name(number: u64, offset: u64, ext: Seq<char>) -> Seq<char> {
    decimal_padded(number as nat, 8) + seq!['_'] + hex_lower_padded(offset as nat, 16) + seq!['.'] + ext
}

/// The name a recovered file is written under.
pub fn recovered_file_name(number: u64, offset: u64, ext: &str) -> (r: String)
    ensures
        r@ == spec_recovered_name(number, offset, ext@),
{
    let mut s: String = String::new();
    push_decimal_padded(&mut s, number, 8);
    push_char(&mut s, '_');
    push_hex_lower_padded(&mut s, offset, 16);
    push_char(&mut s, '.');
    s.append(ext);
    assert(s@ =~= spec_recovered_name(number, offset, ext@));
    s
}

/// Chunk size used to scan an image of `total` bytes: 16 MiB above 1 GiB,
/// else 8 MiB.
pub fn image_chunk_size(total: u64) -> (r: usize)
    ensures
        r == (if total > 1024 * 1024 * 1024 {
            16 * 1024 * 1024
        } else {
            8 * 1024 * 1024
        }),
{
    if total > 1024 * 1024 * 1024 {
        16 * 1024 * 1024
    } else {
        8 * 1024 * 1024
    }
}

/// Number of workers that scan an image of `total` bytes: one for 256 MiB
/// or less, else the machine's parallelism (at least one, as the standard
/// library reports it) capped at 8 (4 when unknown).
pub fn image_scan_workers(total: u64, available_parallelism: Option<usize>) -> (n: usize)
    requires
        available_parallelism matches Some(p) ==> p >= 1,
    ensures
        1 <= n <= 8,
        total <= 256 * 1024 * 1024 ==> n == 1,
        total > 256 * 1024 * 1024 ==> n == (match available_parallelism {
            Some(p) => if p < 8 {
                p
            } else {
                8
            },
            None => 4,
        }),
{
    if total > 256 * 1024 * 1024 {
        match available_parallelism {
            Some(p) => if p < 8 {
                p
            } else {
                8
            },
            None => 4,
        }
    } else {
        1
    }
}

/// The byte range of worker `i` of `n` over `total` bytes: equal regions of
/// `total / n` bytes, the last one running to the end.
pub open spec fn worker_range(total: u64, n: u64, i: int) -> (u64, u64) {
    let region = total / n;
    (
        (i * region) as u64,
        if i == n - 1 {
            total
        } else {
            ((i + 1) * region) as u64
        },
    )
}

/// Split `total` bytes among `n_workers` scan workers.
pub fn worker_ranges(total: u64, n_workers: u64) -> (r: Vec<(u64, u64)>)
    requires
        n_workers >= 1,
    ensures
        r@.len() == n_workers,
        forall|i: int| 0 <= i < n_workers ==> #[trigger] r@[i] == worker_range(total, n_workers, i),
        r@[0].0 == 0,
        r@[n_workers - 1].1 == total,
        forall|i: int| 0 <= i < n_workers - 1 ==> (#[trigger] r@[i]).1 == r@[i + 1].0,
        forall|i: int| 0 <= i < n_workers ==> (#[trigger] r@[i]).0 <= r@[i].1,
{
    let region: u64 = total / n_workers;
    let mut r: Vec<(u64, u64)> = Vec::new();
    let mut i: u64 = 0;
    proof {
        assert(region * n_workers <= total) by (nonlinear_arith)
            requires
                region == total / n_workers,
                n_workers >= 1,
        ;
    }
    while i < n_workers
        invariant
            i <= n_workers,
            n_workers >= 1,
            region == total / n_workers,
            region * n_workers <= total,
            r@.len() == i,
            forall|k: int| 0 <= k < i ==> #[trigger] r@[k] == worker_range(total, n_workers, k),
        decreases n_workers - i,
    {
        proof {
            assert(i * region <= n_workers * region && (i + 1) * region <= n_workers * region) by (nonlinear_arith)
                requires
                    i < n_workers,
            ;
        }
        let start: u64 = i * region;
        let end: u64 = if i == n_workers - 1 {
            total
        } else {
            (i + 1) * region
        };
        r.push((start, end));
        i += 1;
    }
    proof {
        assert forall|k: int| 0 <= k < n_workers implies (#[trigger] r@[k]).0 <= r@[k].1 by {
            assert(r@[k] == worker_range(total, n_workers, k));
            assert(k * region <= (k + 1) * region) by (nonlinear_arith)
                requires
                    region >= 0,
            ;
            assert(k * region <= n_workers * region && (k + 1) * region <= n_workers * region) by (nonlinear_arith)
                requires
                    k < n_workers,
                    region >= 0,
            ;
        }
        assert(r@[0] == worker_range(total, n_workers, 0));
    }
    r
}

/// Arguments of the carving command.
#[derive(Debug, Clone)]
pub struct CarveArgs {
    /// Disk image to read.
    pub input: String,
    /// Directory the carved files go to.
    pub out: String,
    /// Kinds to recover; `None` means all.
    pub kinds: Option<Vec<FileKind>>,
    /// Drop carved files smaller than this many bytes.
    pub min_size: u64,
    /// First byte offset scanned.
    pub start: u64,
    /// Byte offset where scanning stops (the device end when `None`).
    pub end: Option<u64>,
    /// Verbose logs.
    pub verbose: bool,
}

/// The arguments as values.
pub struct ArgsModel {
    pub input: Seq<char>,
    pub out: Seq<char>,
    pub kinds: Option<Seq<FileKind>>,
    pub min_size: u64,
    pub start: u64,
    pub end: Option<u64>,
    pub verbose: bool,
}

impl CarveArgs {
    pub open spec fn model(&self) -> ArgsModel {
        ArgsModel {
            input: self.input@,
            out: self.out@,
            kinds: match self.kinds {
                Some(v) => Some(v@),
                None => None,
            },
            min_size: self.min_size,
            start: self.start,
            end: self.end,
            verbose: self.verbose,
        }
    }
}

/// Why the carving command's arguments were refused.
#[derive(Debug, Clone, PartialEq, Eq)]
pub enum ArgsError {
    /// The option (`--kinds`, `--min-size`, `--start`, `--end`) came last,
    /// without its value.
    MissingValue(&'static str),
    /// The option's value is not an unsigned integer.
    NotAnInteger(&'static str, IntError),
    /// `--kinds` named no known kind; the list as given.
    NoKinds(String),
    /// An argument that is no option.
    UnknownOption(String),
}

/// A refusal as values.
pub enum ArgsErrorModel {
    MissingValue(Seq<char>),
    NotAnInteger(Seq<char>, IntError),
    NoKinds(Seq<char>),
    UnknownOption(Seq<char>),
}

impl ArgsError {
    pub open spec fn model(&self) -> ArgsErrorModel {
        match *self {
            ArgsError::MissingValue(f) => ArgsErrorModel::MissingValue(f@),
            ArgsError::NotAnInteger(f, e) => ArgsErrorModel::NotAnInteger(f@, e),
            ArgsError::NoKinds(s) => ArgsErrorModel::NoKinds(s@),
            ArgsError::UnknownOption(s) => ArgsErrorModel::UnknownOption(s@),
        }
    }
}

/// What the command line asks for.
#[derive(Debug, Clone)]
pub enum CarveRequest {
    /// `-h` or `--help` anywhere: show the help and succeed.
    Help,
    /// Fewer than two positional arguments: show the help and fail.
    Usage,
    /// Carve with these arguments.
    Run(CarveArgs),
}

/// One integer option at `i`: its value follows it.
pub open spec fn int_option(argv: Seq<Seq<char>>, i: int, flag: Seq<char>) -> Result<u64, ArgsErrorModel> {
    if i + 1 >= argv.len() {
        Err(ArgsErrorModel::MissingValue(flag))
    } else {
        match spec_parse_u64(argv[i + 1]) {
            Ok(v) => Ok(v),
            Err(e) => Err(ArgsErrorModel::NotAnInteger(flag, e)),
        }
    }
}

/// The option at `i` applied to `m`: the arguments after it and where the
/// next option starts.
pub open spec fn option_step(argv: Seq<Seq<char>>, i: int, m: ArgsModel) -> Result<(ArgsModel, int), ArgsErrorModel> {
    let a = argv[i];
    if a == "--kinds"@ {
        if i + 1 >= argv.len() {
            Err(ArgsErrorModel::MissingValue("--kinds"@))
        } else if kinds_in_list(argv[i + 1]).len() == 0 {
            Err(ArgsErrorModel::NoKinds(argv[i + 1]))
        } else {
            Ok((ArgsModel { kinds: Some(kinds_in_list(argv[i + 1])), ..m }, i + 2))
        }
    } else if a == "--min-size"@ {
        match int_option(argv, i, "--min-size"@) {
            Ok(v) => Ok((ArgsModel { min_size: v, ..m }, i + 2)),
            Err(e) => Err(e),
        }
    } else if a == "--start"@ {
        match int_option(argv, i, "--start"@) {
            Ok(v) => Ok((ArgsModel { start: v, ..m }, i + 2)),
            Err(e) => Err(e),
        }
    } else if a == "--end"@ {
        match int_option(argv, i, "--end"@) {
            Ok(v) => Ok((ArgsModel { end: Some(v), ..m }, i + 2)),
            Err(e) => Err(e),
        }
    } else if a == "-v"@ || a == "--verbose"@ {
        Ok((ArgsModel { verbose: true, ..m }, i + 1))
    } else {
        Err(ArgsErrorModel::UnknownOption(a))
    }
}

/// The options from `i` on applied to `m`, in order; the first refused one
/// decides the error.
pub open spec fn options_from(argv: Seq<Seq<char>>, i: int, m: ArgsModel) -> Result<ArgsModel, ArgsErrorModel>
    decreases argv.len() - i,
{
    if i < 0 || i >= argv.len() {
        Ok(m)
    } else {
        match option_step(argv, i, m) {
            Err(e) => Err(e),
            Ok(p) => if p.1 > i {
                options_from(argv, p.1, p.0)
            } else {
                Ok(p.0)
            },
        }
    }
}

/// The arguments before any option: input and output from the first two
/// positions after the program name, the default minimum size of 4096.
pub open spec fn initial_args(argv: Seq<Seq<char>>) -> ArgsModel {
    ArgsModel {
        input: argv[1],
        out: argv[2],
        kinds: None,
        min_size: 4096,
        start: 0,
        end: None,
        verbose: false,
    }
}

/// Some argument asks for help.
pub open spec fn asks_help(argv: Seq<Seq<char>>) -> bool {
    exists|k: int| 0 <= k < argv.len() && ((#[trigger] argv[k]) == "-h"@ || argv[k] == "--help"@)
}

/// Parse the carving command's argument list (the program name first).
pub fn parse_args(argv: &[String]) -> (r: Result<CarveRequest, ArgsError>)
    ensures
        ({
            let a = argv@.map_values(|s: String| s@);
            if asks_help(a) {
                r matches Ok(CarveRequest::Help)
            } else if a.len() < 3 {
                r matches Ok(CarveRequest::Usage)
            } else {
                match options_from(a, 3, initial_args(a)) {
                    Ok(m) => r matches Ok(CarveRequest::Run(args)) && args.model() == m,
                    Err(e) => r matches Err(x) && x.model() == e,
                }
            }
        }),
{
    let ghost a: Seq<Seq<char>> = argv@.map_values(|s: String| s@);
    let mut k: usize = 0;
    while k < argv.len()
        invariant
            k <= argv@.len(),
            a == argv@.map_values(|s: String| s@),
            forall|j: int| 0 <= j < k ==> !((#[trigger] a[j]) == "-h"@ || a[j] == "--help"@),
        decreases argv.len() - k,
    {
        if crate::strings::str_eq(argv[k].as_str(), "-h") || crate::strings::str_eq(argv[k].as_str(), "--help") {
            assert(a[k as int] == argv@[k as int]@);
            return Ok(CarveRequest::Help);
        }
        k += 1;
    }
    assert(!asks_help(a));
    if argv.len() < 3 {
        return Ok(CarveRequest::Usage);
    }
    let mut args = CarveArgs {
        input: argv[1].clone(),
        out: argv[2].clone(),
        kinds: None,
        min_size: 4096,
        start: 0,
        end: None,
        verbose: false,
    };
    assert(args.model() == initial_args(a));
    let mut i: usize = 3;
    while i < argv.len()
        invariant
            3 <= i <= argv@.len(),
            a == argv@.map_values(|s: String| s@),
            !asks_help(a),
            a.len() >= 3,
            options_from(a, 3, initial_args(a)) == options_from(a, i as int, args.model()),
        decreases argv.len() - i,
    {
        let opt: &str = argv[i].as_str();
        assert(a[i as int] == opt@);
        let ghost m0: ArgsModel = args.model();
        if crate::strings::str_eq(opt, "--kinds") {
            if argv.len() - i < 2 {
                return Err(ArgsError::MissingValue("--kinds"));
            }
            assert(a[i + 1] == argv@[i + 1]@);
            let parsed: Vec<FileKind> = parse_kind_list(argv[i + 1].as_str());
            if parsed.len() == 0 {
                return Err(ArgsError::NoKinds(argv[i + 1].clone()));
            }
            args.kinds = Some(parsed);
            i += 2;
        } else if crate::strings::str_eq(opt, "--min-size") {
            args.min_size = match int_value(argv, i, "--min-size") {
                Ok(v) => v,
                Err(e) => {
                    return Err(e);
                },
            };
            i += 2;
        } else if crate::strings::str_eq(opt, "--start") {
            args.start = match int_value(argv, i, "--start") {
                Ok(v) => v,
                Err(e) => {
                    return Err(e);
                },
            };
            i += 2;
        } else if crate::strings::str_eq(opt, "--end") {
            let v: u64 = match int_value(argv, i, "--end") {
                Ok(v) => v,
                Err(e) => {
                    return Err(e);
                },
            };
            args.end = Some(v);
            i += 2;
        } else if crate::strings::str_eq(opt, "-v") || crate::strings::str_eq(opt, "--verbose") {
            args.verbose = true;
            i += 1;
        } else {
            return Err(ArgsError::UnknownOption(argv[i].clone()));
        }
    }
    Ok(CarveRequest::Run(args))
}

/// The integer value of the option at `i`.
fn int_value(argv: &[String], i: usize, flag: &'static str) -> (r: Result<u64, ArgsError>)
    requires
        i < argv@.len(),
    ensures
        match int_option(argv@.map_values(|s: String| s@), i as int, flag@) {
            Ok(v) => r == Ok::<u64, ArgsError>(v),
            Err(e) => r matches Err(x) && x.model() == e,
        },
{
    let ghost a: Seq<Seq<char>> = argv@.map_values(|s: String| s@);
    if argv.len() - i < 2 {
        return Err(ArgsError::MissingValue(flag));
    }
    assert(a[i + 1] == argv@[i + 1]@);
    match parse_u64(argv[i + 1].as_str()) {
        Ok(v) => Ok(v),
        Err(e) => Err(ArgsError::NotAnInteger(flag, e)),
    }
}

} // verus!
