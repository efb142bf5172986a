//! An NTFS volume: its boot sector, the $MFT's own extents, record lookup,
//! extension-record merging, and the walk that lists the volume's files.
//! Also the guess of a file's kind from its name.

use crate::bytes::{le16, le64};
use crate::error::Error;
use crate::filesystem::ntfs::boot::{boot_fields, has_ntfs_oem, plausible_sector_size, spec_decode_size, NtfsBoot};
use crate::filesystem::ntfs::mft::{
    anchor_upto, best_upto, mft_parse_ok, fallback_upto, first_alist, head_hex_from, is_unnamed_data, record_parsed, spec_data_runs,
    spec_recoverability, spec_value_size, std_time_from, MftRecord, FLAG_DIRECTORY, FLAG_IN_USE,
};
use crate::filesystem::ntfs::attribute::{
    alist_offsets, spec_resident_value, Attribute, AttributeListEntry, AttributeType, FileName,
};
use crate::filesystem::ntfs::path::{resolved_path, Links, PathResolver, ROOT_RECORD};
use crate::storage::{read_result, read_zero_padded, zero_padded, SectorReader};
use crate::strings::{
    ascii_lowercase, ascii_uppercase, chars_eq, decimal, lemma_lower_of_upper, lower_ascii, lowercase_chars, push_decimal,
};
use crate::types::{DataRun, FileKind, FileRecord, FileSource, PartitionInfo};
use std::collections::HashSet;
use vstd::prelude::*;
use vstd::wrapping::u64_specs::{wrapping_add, wrapping_mul, wrapping_sub};

verus! {

/// What follows the last `.` of `s`; all of `s` when it has none.
pub open spec fn after_last_dot(s: Seq<char>) -> Seq<char>
    decreases s.len(),
{
    if s.len() == 0 {
        s
    } else if s.last() == '.' {
        Seq::empty()
    } else {
        after_last_dot(s.drop_last()).push(s.last())
    }
}

/// The kind that a lower-case extension names.
pub open spec fn kind_for_extension(e: Seq<char>) -> FileKind {
    if e == "jpg"@ || e == "jpeg"@ {
        FileKind::Jpg
    } else if e == "png"@ {
        FileKind::Png
    } else if e == "gif"@ {
        FileKind::Gif
    } else if e == "bmp"@ {
        FileKind::Bmp
    } else if e == "tif"@ || e == "tiff"@ {
        FileKind::Tiff
    } else if e == "mp4"@ || e == "m4v"@ {
        FileKind::Mp4
    } else if e == "mov"@ {
        FileKind::Mov
    } else if e == "mkv"@ {
        FileKind::Mkv
    } else if e == "avi"@ {
        FileKind::Avi
    } else if e == "pdf"@ {
        FileKind::Pdf
    } else if e == "docx"@ {
        FileKind::Docx
    } else if e == "xlsx"@ {
        FileKind::Xlsx
    } else if e == "pptx"@ {
        FileKind::Pptx
    } else if e == "zip"@ {
        FileKind::Zip
    } else if e == "rar"@ {
        FileKind::Rar
    } else if e == "7z"@ {
        FileKind::SevenZ
    } else if e == "psd"@ {
        FileKind::Psd
    } else if e == "ai"@ {
        FileKind::Ai
    } else if e == "txt"@ || e == "log"@ || e == "md"@ {
        FileKind::Txt
    } else if e == "csv"@ {
        FileKind::Csv
    } else if e == "sql"@ {
        FileKind::Sql
    } else {
        FileKind::Other
    }
}

/// Every kind has a non-empty canonical extension, and that extension
/// names the kind back.
pub proof fn law_extension_kind_round_trip(k: FileKind)
    ensures
        k.spec_extension().len() > 0,
        kind_for_extension(k.spec_extension()) == k,
{
    // Each literal's length and first characters tell it from the others.
    reveal_strlit("jpg");
    assert("jpg"@.len() == 3 && "jpg"@[0] == 'j' && "jpg"@[1] == 'p' && "jpg"@[2] == 'g');
    reveal_strlit("jpeg");
    assert("jpeg"@.len() == 4 && "jpeg"@[0] == 'j' && "jpeg"@[1] == 'p' && "jpeg"@[2] == 'e');
    reveal_strlit("png");
    assert("png"@.len() == 3 && "png"@[0] == 'p' && "png"@[1] == 'n' && "png"@[2] == 'g');
    reveal_strlit("gif");
    assert("gif"@.len() == 3 && "gif"@[0] == 'g' && "gif"@[1] == 'i' && "gif"@[2] == 'f');
    reveal_strlit("bmp");
    assert("bmp"@.len() == 3 && "bmp"@[0] == 'b' && "bmp"@[1] == 'm' && "bmp"@[2] == 'p');
    reveal_strlit("tif");
    assert("tif"@.len() == 3 && "tif"@[0] == 't' && "tif"@[1] == 'i' && "tif"@[2] == 'f');
    reveal_strlit("tiff");
    assert("tiff"@.len() == 4 && "tiff"@[0] == 't' && "tiff"@[1] == 'i' && "tiff"@[2] == 'f');
    reveal_strlit("mp4");
    assert("mp4"@.len() == 3 && "mp4"@[0] == 'm' && "mp4"@[1] == 'p' && "mp4"@[2] == '4');
    reveal_strlit("m4v");
    assert("m4v"@.len() == 3 && "m4v"@[0] == 'm' && "m4v"@[1] == '4' && "m4v"@[2] == 'v');
    reveal_strlit("mov");
    assert("mov"@.len() == 3 && "mov"@[0] == 'm' && "mov"@[1] == 'o' && "mov"@[2] == 'v');
    reveal_strlit("mkv");
    assert("mkv"@.len() == 3 && "mkv"@[0] == 'm' && "mkv"@[1] == 'k' && "mkv"@[2] == 'v');
    reveal_strlit("avi");
    assert("avi"@.len() == 3 && "avi"@[0] == 'a' && "avi"@[1] == 'v' && "avi"@[2] == 'i');
    reveal_strlit("pdf");
    assert("pdf"@.len() == 3 && "pdf"@[0] == 'p' && "pdf"@[1] == 'd' && "pdf"@[2] == 'f');
    reveal_strlit("docx");
    assert("docx"@.len() == 4 && "docx"@[0] == 'd' && "docx"@[1] == 'o' && "docx"@[2] == 'c');
    reveal_strlit("xlsx");
    assert("xlsx"@.len() == 4 && "xlsx"@[0] == 'x' && "xlsx"@[1] == 'l' && "xlsx"@[2] == 's');
    reveal_strlit("pptx");
    assert("pptx"@.len() == 4 && "pptx"@[0] == 'p' && "pptx"@[1] == 'p' && "pptx"@[2] == 't');
    reveal_strlit("zip");
    assert("zip"@.len() == 3 && "zip"@[0] == 'z' && "zip"@[1] == 'i' && "zip"@[2] == 'p');
    reveal_strlit("rar");
    assert("rar"@.len() == 3 && "rar"@[0] == 'r' && "rar"@[1] == 'a' && "rar"@[2] == 'r');
    reveal_strlit("7z");
    assert("7z"@.len() == 2 && "7z"@[0] == '7' && "7z"@[1] == 'z');
    reveal_strlit("psd");
    assert("psd"@.len() == 3 && "psd"@[0] == 'p' && "psd"@[1] == 's' && "psd"@[2] == 'd');
    reveal_strlit("ai");
    assert("ai"@.len() == 2 && "ai"@[0] == 'a' && "ai"@[1] == 'i');
    reveal_strlit("txt");
    assert("txt"@.len() == 3 && "txt"@[0] == 't' && "txt"@[1] == 'x' && "txt"@[2] == 't');
    reveal_strlit("log");
    assert("log"@.len() == 3 && "log"@[0] == 'l' && "log"@[1] == 'o' && "log"@[2] == 'g');
    reveal_strlit("md");
    assert("md"@.len() == 2 && "md"@[0] == 'm' && "md"@[1] == 'd');
    reveal_strlit("csv");
    assert("csv"@.len() == 3 && "csv"@[0] == 'c' && "csv"@[1] == 's' && "csv"@[2] == 'v');
    reveal_strlit("sql");
    assert("sql"@.len() == 3 && "sql"@[0] == 's' && "sql"@[1] == 'q' && "sql"@[2] == 'l');
    reveal_strlit("bin");
    assert("bin"@.len() == 3 && "bin"@[0] == 'b' && "bin"@[1] == 'i' && "bin"@[2] == 'n');
}

/// No canonical extension holds a dot or an ASCII upper-case letter.
proof fn lemma_extension_has_no_dot(k: FileKind)
    ensures
        forall|i: int| 0 <= i < k.spec_extension().len() ==> #[trigger] k.spec_extension()[i] != '.',
        forall|i: int|
            0 <= i < k.spec_extension().len() ==> !('A' <= #[trigger] k.spec_extension()[i] && k.spec_extension()[i] <= 'Z'),
{
    match k {
        FileKind::Jpg => {
            reveal_strlit("jpg");
        },
        FileKind::Png => {
            reveal_strlit("png");
        },
        FileKind::Gif => {
            reveal_strlit("gif");
        },
        FileKind::Bmp => {
            reveal_strlit("bmp");
        },
        FileKind::Tiff => {
            reveal_strlit("tiff");
        },
        FileKind::Mp4 => {
            reveal_strlit("mp4");
        },
        FileKind::Mov => {
            reveal_strlit("mov");
        },
        FileKind::Mkv => {
            reveal_strlit("mkv");
        },
        FileKind::Avi => {
            reveal_strlit("avi");
        },
        FileKind::Pdf => {
            reveal_strlit("pdf");
        },
        FileKind::Docx => {
            reveal_strlit("docx");
        },
        FileKind::Xlsx => {
            reveal_strlit("xlsx");
        },
        FileKind::Pptx => {
            reveal_strlit("pptx");
        },
        FileKind::Zip => {
            reveal_strlit("zip");
        },
        FileKind::Rar => {
            reveal_strlit("rar");
        },
        FileKind::SevenZ => {
            reveal_strlit("7z");
        },
        FileKind::Psd => {
            reveal_strlit("psd");
        },
        FileKind::Ai => {
            reveal_strlit("ai");
        },
        FileKind::Txt => {
            reveal_strlit("txt");
        },
        FileKind::Csv => {
            reveal_strlit("csv");
        },
        FileKind::Sql => {
            reveal_strlit("sql");
        },
        FileKind::Other => {
            reveal_strlit("bin");
        },
    }
    let e = k.spec_extension();
    assert forall|i: int| 0 <= i < e.len() implies #[trigger] e[i] != '.' && !('A' <= e[i] && e[i] <= 'Z') by {
        assert(i == 0 || i == 1 || i == 2 || i == 3);
    }
}

/// The text after the last dot of `a.b`, where `b` holds no dot, is `b`.
proof fn lemma_after_last_dot_tail(a: Seq<char>, b: Seq<char>)
    requires
        forall|i: int| 0 <= i < b.len() ==> #[trigger] b[i] != '.',
    ensures
        after_last_dot(a + seq!['.'] + b) == b,
    decreases b.len(),
{
    if b.len() == 0 {
        assert(a + seq!['.'] + b =~= a.push('.'));
        assert(a.push('.').last() == '.');
    } else {
        let s = a + seq!['.'] + b;
        assert(s.drop_last() =~= a + seq!['.'] + b.drop_last());
        assert(s.last() == b.last());
        lemma_after_last_dot_tail(a, b.drop_last());
        assert(b.drop_last().push(b.last()) =~= b);
    }
}

/// A file named `stem.ext`, where `ext` is a kind's canonical extension in
/// any ASCII case, is guessed to be of that kind.
pub proof fn law_guess_kind_of_named_file(stem: Seq<char>, ext: Seq<char>, k: FileKind)
    requires
        ascii_lowercase(ext) == k.spec_extension(),
    ensures
        spec_guess_kind(stem + seq!['.'] + ext) == k,
{
    let name = stem + seq!['.'] + ext;
    assert(ascii_lowercase(name) =~= ascii_lowercase(stem) + seq!['.'] + ascii_lowercase(ext));
    lemma_extension_has_no_dot(k);
    lemma_after_last_dot_tail(ascii_lowercase(stem), ascii_lowercase(ext));
    law_extension_kind_round_trip(k);
}

/// A file named `stem.ext` with a kind's canonical extension, as written or
/// with its ASCII letters upper-cased (`file.jpg`, `FILE.JPG`), is guessed
/// to be of that kind.
pub proof fn law_guess_kind_of_canonical_name(stem: Seq<char>, k: FileKind)
    ensures
        spec_guess_kind(stem + seq!['.'] + k.spec_extension()) == k,
        spec_guess_kind(ascii_uppercase(stem + seq!['.'] + k.spec_extension())) == k,
{
    let e = k.spec_extension();
    lemma_extension_has_no_dot(k);
    assert(ascii_lowercase(e) =~= e) by {
        assert forall|i: int| 0 <= i < e.len() implies lower_ascii(e[i]) == e[i] by {
            assert(!('A' <= e[i] && e[i] <= 'Z'));
        }
    }
    law_guess_kind_of_named_file(stem, e, k);
    lemma_lower_of_upper(e);
    assert(ascii_uppercase(stem + seq!['.'] + e) =~= ascii_uppercase(stem) + seq!['.'] + ascii_uppercase(e));
    law_guess_kind_of_named_file(ascii_uppercase(stem), ascii_uppercase(e), k);
}

/// The kind guessed from a file name: its extension after the last dot,
/// ASCII letters lower-cased.
pub open spec fn spec_guess_kind(name: Seq<char>) -> FileKind {
    kind_for_extension(after_last_dot(ascii_lowercase(name)))
}

fn extension_of(s: &Vec<char>) -> (e: Vec<char>)
    ensures
        e@ == after_last_dot(s@),
{
    let mut j: usize = s.len();
    assert(s@.subrange(0, j as int) =~= s@);
    assert(s@.subrange(j as int, s@.len() as int) =~= Seq::<char>::empty());
    assert(after_last_dot(s@) =~= after_last_dot(s@.subrange(0, j as int)) + s@.subrange(j as int, s@.len() as int));
    while j > 0 && s[j - 1] != '.'
        invariant
            j <= s@.len(),
            after_last_dot(s@) == after_last_dot(s@.subrange(0, j as int)) + s@.subrange(j as int, s@.len() as int),
        decreases j,
    {
        let ghost pre: Seq<char> = s@.subrange(0, j as int);
        assert(pre.drop_last() =~= s@.subrange(0, j - 1));
        assert(after_last_dot(pre.drop_last()).push(pre.last()) + s@.subrange(j as int, s@.len() as int)
            =~= after_last_dot(s@.subrange(0, j - 1)) + s@.subrange(j - 1, s@.len() as int));
        j -= 1;
    }
    let mut e: Vec<char> = Vec::new();
    let mut k: usize = j;
    while k < s.len()
        invariant
            j <= k <= s@.len(),
            e@ == s@.subrange(j as int, k as int),
        decreases s.len() - k,
    {
        e.push(s[k]);
        k += 1;
        assert(e@ =~= s@.subrange(j as int, k as int));
    }
    proof {
        let pre = s@.subrange(0, j as int);
        if j == 0 {
            assert(pre =~= Seq::<char>::empty());
        }
        assert(after_last_dot(pre) =~= Seq::<char>::empty());
        assert(after_last_dot(s@) =~= e@);
    }
    e
}

/// Guess a file's kind from the extension of its name (compared without
/// regard to ASCII case); `Other` when it names no known kind.
pub fn guess_kind(name: &str) -> (k: FileKind)
    ensures
        k == spec_guess_kind(name@),
{
    let lower: Vec<char> = lowercase_chars(name);
    let ext: Vec<char> = extension_of(&lower);
    let e: &[char] = ext.as_slice();
    if chars_eq(e, "jpg") || chars_eq(e, "jpeg") {
        return FileKind::Jpg;
    }
    if chars_eq(e, "png") {
        return FileKind::Png;
    }
    if chars_eq(e, "gif") {
        return FileKind::Gif;
    }
    if chars_eq(e, "bmp") {
        return FileKind::Bmp;
    }
    if chars_eq(e, "tif") || chars_eq(e, "tiff") {
        return FileKind::Tiff;
    }
    if chars_eq(e, "mp4") || chars_eq(e, "m4v") {
        return FileKind::Mp4;
    }
    if chars_eq(e, "mov") {
        return FileKind::Mov;
    }
    if chars_eq(e, "mkv") {
        return FileKind::Mkv;
    }
    if chars_eq(e, "avi") {
        return FileKind::Avi;
    }
    if chars_eq(e, "pdf") {
        return FileKind::Pdf;
    }
    if chars_eq(e, "docx") {
        return FileKind::Docx;
    }
    if chars_eq(e, "xlsx") {
        return FileKind::Xlsx;
    }
    if chars_eq(e, "pptx") {
        return FileKind::Pptx;
    }
    if chars_eq(e, "zip") {
        return FileKind::Zip;
    }
    if chars_eq(e, "rar") {
        return FileKind::Rar;
    }
    if chars_eq(e, "7z") {
        return FileKind::SevenZ;
    }
    if chars_eq(e, "psd") {
        return FileKind::Psd;
    }
    if chars_eq(e, "ai") {
        return FileKind::Ai;
    }
    if chars_eq(e, "txt") || chars_eq(e, "log") || chars_eq(e, "md") {
        return FileKind::Txt;
    }
    if chars_eq(e, "csv") {
        return FileKind::Csv;
    }
    if chars_eq(e, "sql") {
        return FileKind::Sql;
    }
    FileKind::Other
}

/// Most extension records followed per base record: real files need a
/// handful, and a corrupt `$ATTRIBUTE_LIST` must not run away.
pub const MAX_EXTENSION_RECORDS: usize = 64;

/// Record numbers named by the entries of the first `$ATTRIBUTE_LIST` of
/// `attrs`, in order; none where there is no such attribute or its value
/// is not resident.
pub open spec fn alist_records(attrs: Seq<Attribute>) -> Seq<u64> {
    match first_alist(attrs, 0) {
        None => Seq::empty(),
        Some(k) => if attrs[k].kind != AttributeType::AttributeList || attrs[k].non_resident {
            Seq::empty()
        } else {
            match spec_resident_value(attrs[k]) {
                None => Seq::empty(),
                Some(v) => {
                    let offs = alist_offsets(v, 0, 0);
                    Seq::new(offs.len(), |i: int| (le64(v, offs[i] + 0x10) as u64) & 0x0000_FFFF_FFFF_FFFF)
                },
            }
        },
    }
}

/// The first `k` numbers of `recs` reduced to the extension records to
/// fold in: the base's own number and repeats skipped, at most `cap` kept.
pub open spec fn extension_prefix(recs: Seq<u64>, base: Option<u64>, cap: nat, k: nat) -> Seq<u64>
    decreases k,
{
    if k == 0 {
        Seq::empty()
    } else {
        let prev = extension_prefix(recs, base, cap, (k - 1) as nat);
        let r = recs[k - 1];
        if prev.len() >= cap || base == Some(r) || prev.contains(r) {
            prev
        } else {
            prev.push(r)
        }
    }
}

/// The extension records whose attributes are folded into `base`: those
/// its attribute list names, in order, without its own number or repeats,
/// at most [`MAX_EXTENSION_RECORDS`]; none for an uninitialised record.
pub open spec fn extension_records(base: MftRecord) -> Seq<u64> {
    if base.record_bytes().len() == 0 {
        Seq::empty()
    } else {
        let recs = alist_records(base.attrs());
        extension_prefix(recs, base.mft_record_number, MAX_EXTENSION_RECORDS as nat, recs.len())
    }
}

/// Once `cap` extension records are taken, later numbers change nothing.
proof fn lemma_extension_prefix_full(recs: Seq<u64>, base: Option<u64>, cap: nat, k: nat, n: nat)
    requires
        k <= n,
        extension_prefix(recs, base, cap, k).len() >= cap,
    ensures
        extension_prefix(recs, base, cap, n) == extension_prefix(recs, base, cap, k),
    decreases n - k,
{
    if n > k {
        lemma_extension_prefix_full(recs, base, cap, k, (n - 1) as nat);
    }
}

/// The boot sectors that `NtfsBoot::parse` accepts.
pub open spec fn boot_accepts(b: Seq<u8>) -> bool {
    &&& b.len() >= 512
    &&& has_ntfs_oem(b)
    &&& plausible_sector_size(le16(b, 0x0B) as u16)
    &&& b[0x0D] != 0
    &&& b[0x1FE] == 0x55 && b[0x1FF] == 0xAA
}

/// Bytes that `runs` span at `bps` bytes per sector, summed with 64-bit
/// wrap-around.
pub open spec fn runs_total_bytes(runs: Seq<DataRun>, bps: u64) -> u64
    decreases runs.len(),
{
    if runs.len() == 0 {
        0
    } else {
        wrapping_add(runs_total_bytes(runs.drop_last(), bps), wrapping_mul(runs.last().length_sectors, bps))
    }
}

/// Where byte `target` of the $MFT lies on the device: walk the runs from
/// run `k` with `consumed` bytes behind, and give the device offset inside
/// the first run that reaches past `target` (64-bit wrap-around throughout).
pub open spec fn locate_from(runs: Seq<DataRun>, k: int, bps: u64, target: u64, consumed: u64) -> Option<u64>
    decreases runs.len() - k,
{
    if k < 0 || k >= runs.len() {
        None
    } else {
        let end = wrapping_add(consumed, wrapping_mul(runs[k].length_sectors, bps));
        if target < end {
            Some(wrapping_add(wrapping_mul(runs[k].start_lba, bps), wrapping_sub(target, consumed)))
        } else {
            locate_from(runs, k + 1, bps, target, end)
        }
    }
}

/// A run list, or none.
pub open spec fn runs_or_empty(r: Option<Seq<DataRun>>) -> Seq<DataRun> {
    match r {
        Some(s) => s,
        None => Seq::empty(),
    }
}

/// What `MftRecord::real_size` gives for these attributes.
pub open spec fn spec_real_size(attrs: Seq<crate::filesystem::ntfs::attribute::Attribute>) -> u64 {
    match anchor_upto(attrs, attrs.len() as int) {
        Some(k) => spec_value_size(attrs[k]),
        None => match fallback_upto(attrs, attrs.len() as int) {
            Some(k) => spec_value_size(attrs[k]),
            None => 0,
        },
    }
}

/// What `MftRecord::is_data_resident` gives for these attributes.
pub open spec fn spec_data_resident(attrs: Seq<crate::filesystem::ntfs::attribute::Attribute>) -> bool {
    forall|i: int| 0 <= i < attrs.len() && is_unnamed_data(#[trigger] attrs[i]) ==> !attrs[i].non_resident
}

/// `f` is the file record listed for MFT record `rec` of partition `pi`,
/// on a volume with clusters of `cb` bytes and sectors of `bps` bytes
/// starting at `start`: `rec` is an initialised base record of a file
/// with a name, and every field but the path comes from it.
pub open spec fn listed_from(rec: MftRecord, f: FileRecord, pi: u32, cb: u32, bps: u16, start: u64) -> bool {
    &&& rec.record_bytes().len() > 0
    &&& rec.base_record_ref == 0
    &&& rec.flags & FLAG_DIRECTORY == 0
    &&& best_upto(rec.attrs(), rec.attrs().len() as int) matches Some(t) && f.name@ == t.2
    &&& f.kind == spec_guess_kind(f.name@)
    &&& f.size_bytes == spec_real_size(rec.attrs())
    &&& f.modified == std_time_from(rec.attrs(), 0)
    &&& f.recoverability == spec_recoverability(rec)
    &&& f.head_hex@ == head_hex_from(rec.attrs(), 0, 16)
    &&& rec.mft_record_number matches Some(n) ==> f.id == n
    &&& f.source matches FileSource::Filesystem { partition_index, record_id, is_deleted, is_resident, runs }
        && partition_index == pi && record_id == f.id && is_deleted == (rec.flags & FLAG_IN_USE == 0)
        && is_resident == spec_data_resident(rec.attrs()) && runs@ == runs_or_empty(
        spec_data_runs(rec.attrs(), cb, bps, start),
    )
}

/// Bytes per cluster of a boot sector.
pub open spec fn cluster_of(boot: NtfsBoot) -> u32 {
    (boot.bytes_per_sector * boot.sectors_per_cluster) as u32
}

/// MFT record size of a boot sector.
pub open spec fn mft_record_size_of(boot: NtfsBoot) -> u32 {
    spec_decode_size(boot.mft_record_size_encoded, cluster_of(boot))
}

/// The bytes that hold the $MFT's first record, as `NtfsVolume::open`
/// reads them: at the $MFT's cluster (offset computed with 64-bit
/// wrap-around), the record size but at least 1 KiB, zero-padded where the
/// device ends.
pub open spec fn first_mft_record_bytes(c: Seq<u8>, start_lba: u64, boot: NtfsBoot) -> Seq<u8> {
    let rs = mft_record_size_of(boot);
    let off = wrapping_add(
        wrapping_mul(start_lba, boot.bytes_per_sector as u64),
        wrapping_mul(boot.mft_lcn, cluster_of(boot) as u64),
    );
    let len: int = if rs > 1024 {
        rs as int
    } else {
        1024
    };
    zero_padded(read_result(c, off as int, len), len)
}

/// The data runs of the $MFT's first record, read from `len` zero-padded
/// bytes at `off`.
fn load_mft_runs<R: SectorReader>(reader: &R, off: u64, len: usize, bps: u16, rs: u32, cb: u32, start: u64) -> (r: Result<Vec<DataRun>, Error>)
    requires
        rs >= 0x28,
        len >= rs,
    ensures
        r matches Ok(runs) ==> exists|rec: MftRecord|
            #[trigger] record_parsed(zero_padded(read_result(reader.spec_contents(), off as int, len as int), len as int), bps, rs, rec)
                && runs@ == runs_or_empty(spec_data_runs(rec.attrs(), cb, bps, start)),
        !mft_parse_ok(zero_padded(read_result(reader.spec_contents(), off as int, len as int), len as int), bps, rs)
            ==> r is Err,
        reader.spec_reliable() && mft_parse_ok(
            zero_padded(read_result(reader.spec_contents(), off as int, len as int), len as int),
            bps,
            rs,
        ) ==> r is Ok,
{
    let buf: Vec<u8> = match read_zero_padded(reader, off, len) {
        Ok(b) => b,
        Err(e) => {
            return Err(e);
        },
    };
    let rec: MftRecord = match MftRecord::parse(buf.as_slice(), bps, rs) {
        Ok(m) => m,
        Err(e) => {
            return Err(e);
        },
    };
    let runs: Vec<DataRun> = match rec.data_runs(cb, bps, start) {
        Some(v) => v,
        None => Vec::new(),
    };
    assert(record_parsed(buf@, bps, rs, rec));
    Ok(runs)
}

/// What the walk of the $MFT did at one index: whether it took a base
/// record there, that record merged with its extension records, and the
/// extension records it consumed.
pub struct MftStep {
    pub taken: bool,
    pub rec: MftRecord,
    pub exts: Seq<u64>,
}

/// The extension records consumed by `steps`.
pub open spec fn consumed_all(steps: Seq<MftStep>) -> Set<u64>
    decreases steps.len(),
{
    if steps.len() == 0 {
        Set::empty()
    } else {
        let prev = consumed_all(steps.drop_last());
        if steps.last().taken {
            prev.union(steps.last().exts.to_set())
        } else {
            prev
        }
    }
}

/// The identifier a record taken at index `i` is listed under: its own
/// record number, else the index.
pub open spec fn step_id(i: int, rec: MftRecord) -> u64 {
    match rec.mft_record_number {
        Some(n) => n,
        None => i as u64,
    }
}

/// The names registered by `steps` for path reconstruction: each taken
/// record with a `$FILE_NAME` (but the root) maps to its parent and name.
pub open spec fn names_all(steps: Seq<MftStep>) -> Map<u64, (u64, Seq<char>)>
    decreases steps.len(),
{
    if steps.len() == 0 {
        Map::empty()
    } else {
        let prev = names_all(steps.drop_last());
        let i = steps.len() - 1;
        let st = steps.last();
        match best_upto(st.rec.attrs(), st.rec.attrs().len() as int) {
            Some(f) => if st.taken && step_id(i, st.rec) != ROOT_RECORD {
                prev.insert(step_id(i, st.rec), (f.0, f.2))
            } else {
                prev
            },
            None => prev,
        }
    }
}

/// The indices whose records are listed: taken, not directories, named.
pub open spec fn listed_all(steps: Seq<MftStep>) -> Seq<int>
    decreases steps.len(),
{
    if steps.len() == 0 {
        Seq::empty()
    } else {
        let prev = listed_all(steps.drop_last());
        let st = steps.last();
        if st.taken && st.rec.flags & FLAG_DIRECTORY == 0 && best_upto(st.rec.attrs(), st.rec.attrs().len() as int)
            is Some {
            prev.push(steps.len() - 1)
        } else {
            prev
        }
    }
}

/// A name table `e` holds the parents and names of `m`.
pub open spec fn links_agree(e: Links, m: Map<u64, (u64, Seq<char>)>) -> bool {
    &&& e.dom() == m.dom()
    &&& forall|k: u64| #[trigger] e.contains_key(k) ==> e[k].0 == m[k].0 && e[k].1@ == m[k].1
}

/// What one more step adds to the consumed records, the name table and the
/// listed indices.
proof fn lemma_push_step(prev: Seq<MftStep>, st: MftStep)
    ensures
        consumed_all(prev.push(st)) == (if st.taken {
            consumed_all(prev).union(st.exts.to_set())
        } else {
            consumed_all(prev)
        }),
        names_all(prev.push(st)) == (match best_upto(st.rec.attrs(), st.rec.attrs().len() as int) {
            Some(f) => if st.taken && step_id(prev.len() as int, st.rec) != ROOT_RECORD {
                names_all(prev).insert(step_id(prev.len() as int, st.rec), (f.0, f.2))
            } else {
                names_all(prev)
            },
            None => names_all(prev),
        }),
        listed_all(prev.push(st)) == (if st.taken && st.rec.flags & FLAG_DIRECTORY == 0 && best_upto(
            st.rec.attrs(),
            st.rec.attrs().len() as int,
        ) is Some {
            listed_all(prev).push(prev.len() as int)
        } else {
            listed_all(prev)
        }),
{
    assert(prev.push(st).drop_last() =~= prev);
}

/// Appending a step keeps the earlier steps' record of what was consumed
/// before them.
proof fn lemma_step_pushed<R: SectorReader>(vol: &NtfsVolume<R>, prev: Seq<MftStep>, st: MftStep)
    requires
        vol.trace_ok(prev),
        vol.step_ok(prev.len() as int, consumed_all(prev), st),
    ensures
        vol.trace_ok(prev.push(st)),
{
    let steps = prev.push(st);
    assert forall|j: int| 0 <= j < steps.len() implies vol.step_ok(j, consumed_all(steps.subrange(0, j)), #[trigger] steps[j]) by {
        if j < prev.len() {
            assert(steps.subrange(0, j) =~= prev.subrange(0, j));
            assert(steps[j] == prev[j]);
        } else {
            assert(steps.subrange(0, j) =~= prev);
        }
    }
}

/// An NTFS volume opened on a partition.
#[derive(Debug)]
pub struct NtfsVolume<R: SectorReader> {
    pub boot: NtfsBoot,
    pub partition: PartitionInfo,
    pub reader: R,
    /// Extents of the $MFT itself, decoded from its first record; they map
    /// record indices to device offsets.
    pub mft_runs: Vec<DataRun>,
    /// MFT record size in bytes.
    pub mft_record_size: u32,
}

impl<R: SectorReader> NtfsVolume<R> {
    /// The device's bytes.
    pub open spec fn device(&self) -> Seq<u8> {
        self.reader.spec_contents()
    }

    /// Whether the volume's reads never fail.
    pub open spec fn reliable(&self) -> bool {
        self.reader.spec_reliable()
    }

    /// The $MFT's extents.
    pub open spec fn mft_extents(&self) -> Seq<DataRun> {
        self.mft_runs@
    }

    /// Records are large enough to hold a record header.
    pub open spec fn wf(&self) -> bool {
        self.mft_record_size >= 0x28
    }

    /// Where record `index` starts on the device, if the $MFT reaches it.
    /// `attrs` is what was appended for extension record `idx`: nothing (the
    /// record could not be read or holds no attributes), or the attributes
    /// parsed from that record.
    pub open spec fn extension_attrs_ok(&self, idx: u64, attrs: Seq<Attribute>) -> bool {
        attrs.len() == 0 || (self.record_offset(idx) matches Some(off) && exists|rec: MftRecord|
            #[trigger] record_parsed(
                zero_padded(
                    read_result(self.device(), off as int, self.mft_record_size as int),
                    self.mft_record_size as int,
                ),
                self.boot.bytes_per_sector,
                self.mft_record_size,
                rec,
            ) && rec.attrs() == attrs)
    }

    /// `m` is `base` with the attributes of its extension records `exts`
    /// appended (see [`NtfsVolume::expand_record`]).
    pub open spec fn expanded(&self, base: MftRecord, m: MftRecord, exts: Seq<u64>) -> bool {
        &&& m.record_bytes() == base.record_bytes()
        &&& m.flags == base.flags
        &&& m.mft_record_number == base.mft_record_number
        &&& m.base_record_ref == base.base_record_ref
        &&& m.attrs().len() >= base.attrs().len()
        &&& m.attrs().subrange(0, base.attrs().len() as int) == base.attrs()
        &&& (base.record_bytes().len() == 0 || first_alist(base.attrs(), 0) is None) ==> m.attrs() == base.attrs()
            && exts.len() == 0
        &&& exts == extension_records(base)
        &&& exists|chunks: Seq<Seq<Attribute>>|
            #![trigger chunks.flatten()]
            chunks.len() == exts.len() && m.attrs() == base.attrs() + chunks.flatten() && forall|j: int|
                0 <= j < chunks.len() ==> self.extension_attrs_ok(exts[j], #[trigger] chunks[j])
        &&& exts.len() <= MAX_EXTENSION_RECORDS
        &&& exts.no_duplicates()
        &&& forall|k: int| 0 <= k < exts.len() ==> base.mft_record_number != Some(#[trigger] exts[k])
    }

    /// The zero-padded bytes of the record at device offset `off`.
    pub open spec fn record_bytes_at(&self, off: u64) -> Seq<u8> {
        zero_padded(read_result(self.device(), off as int, self.mft_record_size as int), self.mft_record_size as int)
    }

    /// Step `st` is what the walk does at index `i` once `consumed` are
    /// taken as extensions: an index consumed before is passed over; a
    /// record is taken where it reads as an initialised base record, merged
    /// with its extensions; it is passed over where it reads as an
    /// uninitialised or extension record, does not parse, lies past the
    /// $MFT, or (on a reader whose reads may fail) could not be read.
    pub open spec fn step_ok(&self, i: int, consumed: Set<u64>, st: MftStep) -> bool {
        let bps = self.boot.bytes_per_sector;
        let rs = self.mft_record_size;
        if consumed.contains(i as u64) {
            !st.taken
        } else if st.taken {
            self.record_offset(i as u64) matches Some(off) && exists|raw: MftRecord|
                #[trigger] record_parsed(self.record_bytes_at(off), bps, rs, raw) && raw.record_bytes().len() > 0
                    && raw.base_record_ref == 0 && self.expanded(raw, st.rec, st.exts)
        } else {
            match self.record_offset(i as u64) {
                None => true,
                Some(off) => !self.reliable() || !mft_parse_ok(self.record_bytes_at(off), bps, rs) || exists|
                    raw: MftRecord,
                |
                    #[trigger] record_parsed(self.record_bytes_at(off), bps, rs, raw) && (raw.record_bytes().len() == 0
                        || raw.base_record_ref != 0),
            }
        }
    }

    /// Every step of `steps` is what the walk does at its index.
    pub open spec fn trace_ok(&self, steps: Seq<MftStep>) -> bool {
        forall|j: int| 0 <= j < steps.len() ==> self.step_ok(j, consumed_all(steps.subrange(0, j)), #[trigger] steps[j])
    }

    /// `v` lists the files of the walk `steps` over the first `count`
    /// records, in index order, with paths resolved in the name table `e`.
    pub open spec fn lists(&self, steps: Seq<MftStep>, e: Links, v: Seq<FileRecord>, count: int, pi: u32) -> bool {
        let idx = listed_all(steps);
        &&& steps.len() == count
        &&& self.trace_ok(steps)
        &&& links_agree(e, names_all(steps))
        &&& v.len() == idx.len()
        &&& forall|k: int|
            0 <= k < v.len() ==> {
                let j = idx[k];
                &&& 0 <= j < steps.len()
                &&& listed_from(
                    steps[j].rec,
                    #[trigger] v[k],
                    pi,
                    cluster_of(self.boot),
                    self.boot.bytes_per_sector,
                    self.partition.start_lba,
                )
                &&& v[k].id == step_id(j, steps[j].rec)
                &&& v[k].path@ == resolved_path(e, v[k].id)
            }
    }

    /// How many records the walk visits: those the $MFT's extents hold, at
    /// most `max_records`.
    pub open spec fn walk_count(&self, max_records: u64) -> int {
        let total = runs_total_bytes(self.mft_extents(), self.boot.bytes_per_sector as u64) / (
        self.mft_record_size as u64);
        if total < max_records {
            total as int
        } else {
            max_records as int
        }
    }

    pub open spec fn record_offset(&self, index: u64) -> Option<u64> {
        locate_from(
            self.mft_extents(),
            0,
            self.boot.bytes_per_sector as u64,
            wrapping_mul(index, self.mft_record_size as u64),
            0,
        )
    }

    /// Open the volume: parse the boot sector at the partition's first
    /// sector, then read the $MFT's first record (zero-padded to at least
    /// 1 KiB) and keep its data runs as the $MFT's extents (none when they
    /// do not decode). A record size under 40 bytes is refused as corrupt.
    pub fn open(reader: R, partition: PartitionInfo) -> (r: Result<Self, Error>)
        requires
            partition.start_lba * reader.spec_sector_size() <= u64::MAX,
            partition.start_lba * 512 + 0x200 <= u64::MAX,
        ensures
            ({
                let c = reader.spec_contents();
                let bs = read_result(
                    c,
                    partition.start_lba * reader.spec_sector_size(),
                    reader.spec_sector_size() as int,
                );
                let boot = boot_fields(bs);
                &&& !boot_accepts(bs) ==> r is Err
                &&& boot_accepts(bs) && mft_record_size_of(boot) < 0x28 ==> r is Err
                &&& boot_accepts(bs) && mft_record_size_of(boot) >= 0x28 && !mft_parse_ok(
                    first_mft_record_bytes(c, partition.start_lba, boot),
                    boot.bytes_per_sector,
                    mft_record_size_of(boot),
                ) ==> r is Err
                &&& reader.spec_reliable() && boot_accepts(bs) && mft_record_size_of(boot) >= 0x28 && mft_parse_ok(
                    first_mft_record_bytes(c, partition.start_lba, boot),
                    boot.bytes_per_sector,
                    mft_record_size_of(boot),
                ) ==> r is Ok
                &&& r matches Ok(v) ==> {
                    &&& boot_accepts(bs)
                    &&& v.boot == boot
                    &&& v.partition == partition
                    &&& v.device() == c
                    &&& v.mft_record_size == mft_record_size_of(boot)
                    &&& v.wf()
                    &&& v.reliable() == reader.spec_reliable()
                    &&& exists|rec: MftRecord|
                        #[trigger] record_parsed(
                            first_mft_record_bytes(c, partition.start_lba, boot),
                            boot.bytes_per_sector,
                            mft_record_size_of(boot),
                            rec,
                        ) && v.mft_extents() == runs_or_empty(
                            spec_data_runs(rec.attrs(), cluster_of(boot), boot.bytes_per_sector, partition.start_lba),
                        )
                }
            }),
    {
        let bs: Vec<u8> = match reader.read_lba(partition.start_lba) {
            Ok(b) => b,
            Err(e) => {
                return Err(e);
            },
        };
        let boot: NtfsBoot = match NtfsBoot::parse(bs.as_slice(), partition.start_lba) {
            Ok(b) => b,
            Err(e) => {
                return Err(e);
            },
        };
        let rs: u32 = boot.mft_record_bytes();
        if rs < 0x28 {
            let mut detail: String = String::from_str("implausible MFT record size ");
            push_decimal(&mut detail, rs as u64);
            return Err(Error::corrupt("ntfs_boot", partition.start_lba * 512 + 0x40, detail));
        }
        let bps: u64 = boot.bytes_per_sector as u64;
        let cb: u32 = boot.cluster_bytes();
        let off: u64 = partition.start_lba.wrapping_mul(bps).wrapping_add(boot.mft_lcn.wrapping_mul(cb as u64));
        let len: usize = if rs > 1024 {
            rs as usize
        } else {
            1024
        };
        let mft_runs: Vec<DataRun> = match load_mft_runs(&reader, off, len, boot.bytes_per_sector, rs, cb, partition.start_lba) {
            Ok(v) => v,
            Err(e) => {
                return Err(e);
            },
        };
        let ghost c: Seq<u8> = reader.spec_contents();
        let v = NtfsVolume { boot, partition, reader, mft_runs, mft_record_size: rs };
        proof {
            let pad = zero_padded(read_result(c, off as int, len as int), len as int);
            assert(first_mft_record_bytes(c, v.partition.start_lba, v.boot) == pad);
            let rec = choose|rec: MftRecord|
                #[trigger] record_parsed(pad, v.boot.bytes_per_sector, rs, rec) && v.mft_runs@ == runs_or_empty(
                    spec_data_runs(rec.attrs(), cb, v.boot.bytes_per_sector, v.partition.start_lba),
                );
            assert(record_parsed(
                first_mft_record_bytes(c, v.partition.start_lba, v.boot),
                v.boot.bytes_per_sector,
                mft_record_size_of(v.boot),
                rec,
            ));
        }
        Ok(v)
    }

    /// Number of records the $MFT can hold at its current size: the bytes
    /// of its extents (summed with wrap-around) over the record size.
    pub fn approximate_record_count(&self) -> (n: u64)
        requires
            self.wf(),
        ensures
            n == runs_total_bytes(self.mft_extents(), self.boot.bytes_per_sector as u64) / (self.mft_record_size as u64),
    {
        let bps: u64 = self.boot.bytes_per_sector as u64;
        let mut total: u64 = 0;
        let mut k: usize = 0;
        while k < self.mft_runs.len()
            invariant
                k <= self.mft_runs@.len(),
                bps == self.boot.bytes_per_sector,
                total == runs_total_bytes(self.mft_runs@.subrange(0, k as int), bps),
            decreases self.mft_runs.len() - k,
        {
            assert(self.mft_runs@.subrange(0, k + 1).drop_last() =~= self.mft_runs@.subrange(0, k as int));
            total = total.wrapping_add(self.mft_runs[k].length_sectors.wrapping_mul(bps));
            k += 1;
        }
        assert(self.mft_runs@.subrange(0, self.mft_runs@.len() as int) =~= self.mft_runs@);
        total / (self.mft_record_size as u64)
    }

    /// Device offset of record `index`; a `Corrupt` error when the index
    /// lies past the $MFT's end.
    fn mft_byte_offset_of(&self, index: u64) -> (r: Result<u64, Error>)
        ensures
            match self.record_offset(index) {
                Some(o) => r == Ok::<u64, Error>(o),
                None => r is Err,
            },
    {
        let target: u64 = index.wrapping_mul(self.mft_record_size as u64);
        let bps: u64 = self.boot.bytes_per_sector as u64;
        let mut consumed: u64 = 0;
        let mut k: usize = 0;
        while k < self.mft_runs.len()
            invariant
                k <= self.mft_runs@.len(),
                bps == self.boot.bytes_per_sector,
                target == wrapping_mul(index, self.mft_record_size as u64),
                locate_from(self.mft_runs@, 0, bps, target, 0) == locate_from(self.mft_runs@, k as int, bps, target, consumed),
            decreases self.mft_runs.len() - k,
        {
            let run: DataRun = self.mft_runs[k];
            let end: u64 = consumed.wrapping_add(run.length_sectors.wrapping_mul(bps));
            if target < end {
                return Ok(run.start_lba.wrapping_mul(bps).wrapping_add(target.wrapping_sub(consumed)));
            }
            consumed = end;
            k += 1;
        }
        Err(Error::corrupt("mft", target, String::from_str("record index past MFT end")))
    }

    /// Read and parse record `index` (zero-padded where the device ends).
    pub fn read_record(&self, index: u64) -> (r: Result<MftRecord, Error>)
        requires
            self.wf(),
        ensures
            self.record_offset(index) is None ==> r is Err,
            self.record_offset(index) matches Some(off) && !mft_parse_ok(
                zero_padded(
                    read_result(self.device(), off as int, self.mft_record_size as int),
                    self.mft_record_size as int,
                ),
                self.boot.bytes_per_sector,
                self.mft_record_size,
            ) ==> r is Err,
            self.reliable() ==> (self.record_offset(index) matches Some(off) && mft_parse_ok(
                zero_padded(
                    read_result(self.device(), off as int, self.mft_record_size as int),
                    self.mft_record_size as int,
                ),
                self.boot.bytes_per_sector,
                self.mft_record_size,
            ) ==> r is Ok),
            r matches Ok(rec) ==> self.record_offset(index) matches Some(off) && record_parsed(
                zero_padded(
                    read_result(self.device(), off as int, self.mft_record_size as int),
                    self.mft_record_size as int,
                ),
                self.boot.bytes_per_sector,
                self.mft_record_size,
                rec,
            ),
    {
        let off: u64 = match self.mft_byte_offset_of(index) {
            Ok(o) => o,
            Err(e) => {
                return Err(e);
            },
        };
        let rs: u32 = self.mft_record_size;
        let buf: Vec<u8> = match read_zero_padded(&self.reader, off, rs as usize) {
            Ok(b) => b,
            Err(e) => {
                return Err(e);
            },
        };
        MftRecord::parse(buf.as_slice(), self.boot.bytes_per_sector, rs)
    }
    /// Fold the attributes of a base record's extension records into it:
    /// follow its `$ATTRIBUTE_LIST` (if any) to every distinct record other
    /// than the base (at most [`MAX_EXTENSION_RECORDS`]), and append the
    /// attributes of each that reads as an initialised record; unreadable
    /// ones are skipped. Gives the merged record and the extension indices.
    pub fn expand_record(&self, base: MftRecord) -> (r: Result<(MftRecord, Vec<u64>), Error>)
        requires
            self.wf(),
        ensures
            r is Ok,
            r matches Ok(p) ==> self.expanded(base, p.0, p.1@),
    {
        proof {
            let ch = Seq::<Seq<Attribute>>::empty();
            assert(ch.flatten() =~= Seq::<Attribute>::empty());
            assert(base.attrs() + ch.flatten() =~= base.attrs());
            assert(base.attrs().subrange(0, base.attrs().len() as int) =~= base.attrs());
        }
        if !base.is_initialised() {
            let none: Vec<u64> = Vec::new();
            assert(none@ =~= extension_records(base));
            return Ok((base, none));
        }
        let entries: Vec<AttributeListEntry> = match base.attribute_list_entries() {
            Some(e) => e,
            None => {
                let none: Vec<u64> = Vec::new();
                assert(none@ =~= extension_records(base));
                return Ok((base, none));
            },
        };
        let base_index: Option<u64> = base.record_index();
        let ghost recs: Seq<u64> = alist_records(base.attrs());
        assert(entries@.len() == recs.len() && forall|i: int|
            0 <= i < recs.len() ==> (#[trigger] entries@[i]).mft_record == recs[i]);
        let mut extensions: Vec<u64> = Vec::new();
        let mut k: usize = 0;
        while k < entries.len()
            invariant_except_break
                extensions@.len() < MAX_EXTENSION_RECORDS,
            invariant
                k <= entries@.len(),
                entries@.len() == recs.len(),
                forall|i: int| 0 <= i < recs.len() ==> (#[trigger] entries@[i]).mft_record == recs[i],
                extensions@ == extension_prefix(recs, base_index, MAX_EXTENSION_RECORDS as nat, k as nat),
                extensions@.no_duplicates(),
                forall|j: int| 0 <= j < extensions@.len() ==> base_index != Some(#[trigger] extensions@[j]),
            ensures
                extensions@ == extension_prefix(recs, base_index, MAX_EXTENSION_RECORDS as nat, recs.len()),
                extensions@.len() <= MAX_EXTENSION_RECORDS,
                extensions@.no_duplicates(),
                forall|j: int| 0 <= j < extensions@.len() ==> base_index != Some(#[trigger] extensions@[j]),
            decreases entries.len() - k,
        {
            let rec_no: u64 = entries[k].mft_record;
            assert(rec_no == recs[k as int]);
            k += 1;
            let is_base: bool = match base_index {
                Some(b) => b == rec_no,
                None => false,
            };
            if is_base {
                continue;
            }
            if !contains_u64(&extensions, rec_no) {
                let ghost before: Seq<u64> = extensions@;
                extensions.push(rec_no);
                assert forall|a: int, b: int| 0 <= a < b < extensions@.len() implies extensions@[a] != extensions@[b] by {
                    if b == extensions@.len() - 1 {
                        assert(extensions@[a] == before[a]);
                    }
                }
                assert forall|j: int| 0 <= j < extensions@.len() implies base_index != Some(#[trigger] extensions@[j]) by {
                    if j < before.len() {
                        assert(extensions@[j] == before[j]);
                    }
                }
                if extensions.len() >= MAX_EXTENSION_RECORDS {
                    proof {
                        lemma_extension_prefix_full(
                            recs,
                            base_index,
                            MAX_EXTENSION_RECORDS as nat,
                            k as nat,
                            recs.len(),
                        );
                    }
                    break;
                }
            }
        }
        let mut m: MftRecord = base;
        let mut j: usize = 0;
        let ghost mut chunks: Seq<Seq<Attribute>> = Seq::empty();
        while j < extensions.len()
            invariant
                j <= extensions@.len(),
                chunks.len() == j,
                m.attrs() == base.attrs() + chunks.flatten(),
                forall|k: int| 0 <= k < chunks.len() ==> self.extension_attrs_ok(extensions@[k], #[trigger] chunks[k]),
                self.wf(),
                m.record_bytes() == base.record_bytes(),
                m.flags == base.flags,
                m.mft_record_number == base.mft_record_number,
                m.base_record_ref == base.base_record_ref,
                m.attrs().len() >= base.attrs().len(),
                m.attrs().subrange(0, base.attrs().len() as int) == base.attrs(),
            decreases extensions.len() - j,
        {
            let ghost c0: Seq<Seq<Attribute>> = chunks;
            match self.read_record(extensions[j]) {
                Ok(ext) => {
                    if ext.is_initialised() {
                        let ghost ext_attrs: Seq<Attribute> = ext.attrs();
                        let mut attrs: Vec<Attribute> = ext.take_attributes();
                        let ghost before: Seq<Attribute> = m.attrs();
                        m.attributes.append(&mut attrs);
                        assert(m.attrs().subrange(0, base.attrs().len() as int) =~= before.subrange(
                            0,
                            base.attrs().len() as int,
                        ));
                        proof {
                            chunks = chunks.push(ext_attrs);
                            c0.lemma_flatten_push(ext_attrs);
                            assert(m.attrs() =~= base.attrs() + chunks.flatten());
                        }
                    } else {
                        proof {
                            chunks = chunks.push(Seq::empty());
                            c0.lemma_flatten_push(Seq::empty());
                            assert(m.attrs() =~= base.attrs() + chunks.flatten());
                        }
                    }
                },
                Err(_) => {
                    proof {
                        chunks = chunks.push(Seq::empty());
                        c0.lemma_flatten_push(Seq::empty());
                        assert(m.attrs() =~= base.attrs() + chunks.flatten());
                    }
                },
            }
            proof {
                assert forall|k: int| 0 <= k < chunks.len() implies self.extension_attrs_ok(extensions@[k], #[trigger] chunks[k]) by {
                    if k < c0.len() {
                        assert(chunks[k] == c0[k]);
                    }
                }
            }
            j += 1;
        }
        Ok((m, extensions))
    }

    /// List the volume's files: walk the first records of the $MFT (as many
    /// as it holds, at most `max_records`), skip unreadable, uninitialised
    /// and extension records and those already folded into a base record,
    /// merge each base record with its extensions, register every named
    /// record for path reconstruction, and list each named file record
    /// (deleted ones included). Paths are resolved once every record is
    /// registered.
    #[verifier::spinoff_prover]
    #[verifier::rlimit(100)]
    pub fn collect_files(&self, partition_index: u32, max_records: u64) -> (r: Result<Vec<FileRecord>, Error>)
        requires
            self.wf(),
        ensures
            r is Ok,
            r matches Ok(v) ==> v@.len() <= max_records && forall|k: int|
                0 <= k < v@.len() ==> file_listed(
                    #[trigger] v@[k],
                    partition_index,
                    cluster_of(self.boot),
                    self.boot.bytes_per_sector,
                    self.partition.start_lba,
                ),
            r matches Ok(v) ==> exists|steps: Seq<MftStep>, e: Links| #[trigger] self.lists(
                steps,
                e,
                v@,
                self.walk_count(max_records),
                partition_index,
            ),
    {
        let total: u64 = self.approximate_record_count();
        let count: u64 = if total < max_records {
            total
        } else {
            max_records
        };
        let cb: u32 = self.boot.cluster_bytes();
        let bps: u16 = self.boot.bytes_per_sector;
        let start: u64 = self.partition.start_lba;
        let mut pending: Vec<FileRecord> = Vec::new();
        let mut resolver: PathResolver = PathResolver::new();
        let mut consumed: HashSet<u64> = HashSet::new();
        let mut i: u64 = 0;
        let ghost mut steps: Seq<MftStep> = Seq::empty();
        proof {
            assert(consumed@ =~= consumed_all(steps));
            assert(links_agree(resolver.links(), names_all(steps)));
        }
        while i < count
            invariant
                i <= count,
                count <= max_records,
                self.wf(),
                cb == cluster_of(self.boot),
                bps == self.boot.bytes_per_sector,
                start == self.partition.start_lba,
                pending@.len() <= i,
                forall|k: int| 0 <= k < pending@.len() ==> file_listed(#[trigger] pending@[k], partition_index, cb, bps, start),
                steps.len() == i,
                self.trace_ok(steps),
                consumed@ == consumed_all(steps),
                links_agree(resolver.links(), names_all(steps)),
                resolver.cached() == Map::<u64, String>::empty(),
                pending@.len() == listed_all(steps).len(),
                forall|k: int|
                    0 <= k < pending@.len() ==> {
                        let j = listed_all(steps)[k];
                        &&& 0 <= j < steps.len()
                        &&& listed_from(steps[j].rec, #[trigger] pending@[k], partition_index, cb, bps, start)
                        &&& pending@[k].id == step_id(j, steps[j].rec)
                    },
            decreases count - i,
        {
            let idx: u64 = i;
            i += 1;
            let ghost prev: Seq<MftStep> = steps;
            let ghost pend0: Seq<FileRecord> = pending@;
            if consumed.contains(&idx) {
                proof {
                    let st = MftStep { taken: false, rec: arbitrary(), exts: Seq::empty() };
                    assert(consumed_all(prev).contains(idx));
                    assert(self.step_ok(prev.len() as int, consumed_all(prev), st));
                    lemma_step_pushed(self, prev, st);
                    lemma_push_step(prev, st);
                    steps = steps.push(st);
                }
                continue;
            }
            proof {
                assert(consumed_all(prev) =~= consumed@);
                assert(!consumed_all(prev).contains(idx));
            }
            let read: Result<MftRecord, Error> = self.read_record(idx);
            let raw: MftRecord = match read {
                Ok(r) => r,
                Err(_) => {
                    proof {
                        let st = MftStep { taken: false, rec: arbitrary(), exts: Seq::empty() };
                        assert(self.step_ok(prev.len() as int, consumed_all(prev), st));
                        lemma_step_pushed(self, prev, st);
                        lemma_push_step(prev, st);
                        steps = steps.push(st);
                    }
                    continue;
                },
            };
            let ghost off: u64 = self.record_offset(idx)->0;
            proof {
                assert(read matches Ok(x) && x == raw);
                assert(self.record_offset(idx) == Some(off));
                assert(record_parsed(self.record_bytes_at(off), bps, self.mft_record_size, raw));
            }
            if !raw.is_initialised() || raw.is_extension_record() {
                proof {
                    let st = MftStep { taken: false, rec: raw, exts: Seq::empty() };
                    assert(self.step_ok(prev.len() as int, consumed_all(prev), st));
                    lemma_step_pushed(self, prev, st);
                    lemma_push_step(prev, st);
                    steps = steps.push(st);
                }
                continue;
            }
            let (rec, exts): (MftRecord, Vec<u64>) = match self.expand_record(raw) {
                Ok(p) => p,
                Err(_) => {
                    proof {
                        steps = steps.push(MftStep { taken: false, rec: arbitrary(), exts: Seq::empty() });
                    }
                    continue;
                },
            };
            let ghost st: MftStep = MftStep { taken: true, rec: rec, exts: exts@ };
            proof {
                assert(raw.record_bytes().len() > 0 && raw.base_record_ref == 0);
                assert(self.expanded(raw, st.rec, st.exts));
                assert(self.step_ok(prev.len() as int, consumed_all(prev), st));
                lemma_step_pushed(self, prev, st);
                lemma_push_step(prev, st);
                steps = steps.push(st);
            }
            let ghost c0: Set<u64> = consumed@;
            let mut q: usize = 0;
            while q < exts.len()
                invariant
                    q <= exts@.len(),
                    forall|x: u64| #[trigger] consumed@.contains(x) <==> (c0.contains(x) || exists|t: int|
                        0 <= t < q && exts@[t] == x),
                decreases exts.len() - q,
            {
                consumed.insert(exts[q]);
                q += 1;
                proof {
                    assert forall|x: u64| #[trigger] consumed@.contains(x) <==> (c0.contains(x) || exists|t: int|
                        0 <= t < q && exts@[t] == x) by {
                        if x == exts@[q - 1] {
                            assert(exists|t: int| 0 <= t < q && exts@[t] == x) by {
                                assert(exts@[q - 1] == x);
                            }
                        }
                    }
                }
            }
            proof {
                assert forall|x: u64| #[trigger] consumed@.contains(x) <==> consumed_all(steps).contains(x) by {
                    if exts@.contains(x) {
                        let t = choose|t: int| 0 <= t < exts@.len() && exts@[t] == x;
                        assert(exists|t: int| 0 <= t < q && exts@[t] == x);
                    }
                    if exists|t: int| 0 <= t < q && exts@[t] == x {
                        let t = choose|t: int| 0 <= t < q && exts@[t] == x;
                        assert(exts@.contains(x));
                    }
                }
                assert(consumed@ =~= consumed_all(steps));
            }
            let record_id: u64 = match rec.record_index() {
                Some(n) => n,
                None => idx,
            };
            assert(record_id == step_id(idx as int, rec));
            let ghost e0: Links = resolver.links();
            match rec.best_filename() {
                Some(f) => resolver.register(record_id, &f),
                None => {},
            }
            proof {
                let nm = names_all(steps);
                assert(resolver.links().dom() =~= nm.dom());
                assert forall|k: u64| #[trigger] resolver.links().contains_key(k) implies resolver.links()[k].0
                    == nm[k].0 && resolver.links()[k].1@ == nm[k].1 by {
                    if k != record_id {
                        assert(e0.contains_key(k));
                    }
                }
            }
            if rec.is_directory() {
                continue;
            }
            let name: String = match rec.best_name() {
                Some(n) => n,
                None => {
                    continue;
                },
            };
            let size: u64 = rec.real_size();
            let runs: Vec<DataRun> = match rec.data_runs(cb, bps, start) {
                Some(v) => v,
                None => Vec::new(),
            };
            let head_hex: String = rec.head_hex(16);
            let kind: FileKind = guess_kind(name.as_str());
            let path: String = name.clone();
            let fr = FileRecord {
                id: record_id,
                name,
                path,
                kind,
                size_bytes: size,
                modified: rec.modified_time(),
                source: FileSource::Filesystem {
                    partition_index,
                    record_id,
                    is_deleted: !rec.is_in_use(),
                    is_resident: rec.is_data_resident(),
                    runs,
                },
                recoverability: rec.recoverability_score(),
                head_hex,
            };
            assert(listed_from(rec, fr, partition_index, cb, bps, start));
            pending.push(fr);
            proof {
                assert(listed_all(steps) == listed_all(prev).push(idx as int));
                assert forall|k: int| 0 <= k < pending@.len() implies {
                    let j = listed_all(steps)[k];
                    &&& 0 <= j < steps.len()
                    &&& listed_from(steps[j].rec, #[trigger] pending@[k], partition_index, cb, bps, start)
                    &&& pending@[k].id == step_id(j, steps[j].rec)
                } by {
                    if k < pend0.len() {
                        assert(pending@[k] == pend0[k]);
                        assert(steps[listed_all(prev)[k]] == prev[listed_all(prev)[k]]);
                    }
                }
            }
        }
        let ghost n: int = pending@.len() as int;
        let ghost all: Seq<FileRecord> = pending@;
        let ghost e: Links = resolver.links();
        let mut rev: Vec<FileRecord> = Vec::new();
        while pending.len() > 0
            invariant
                forall|k: int| 0 <= k < pending@.len() ==> file_listed(#[trigger] pending@[k], partition_index, cb, bps, start),
                forall|k: int| 0 <= k < rev@.len() ==> file_listed(#[trigger] rev@[k], partition_index, cb, bps, start),
                pending@.len() + rev@.len() <= max_records,
                pending@.len() + rev@.len() == n,
                all.len() == n,
                pending@ == all.subrange(0, pending@.len() as int),
                forall|k: int| 0 <= k < rev@.len() ==> #[trigger] rev@[k] == all[n - 1 - k],
            decreases pending@.len(),
        {
            let ghost p0: Seq<FileRecord> = pending@;
            let ghost r0: Seq<FileRecord> = rev@;
            let fr: FileRecord = pending.pop().unwrap();
            rev.push(fr);
            proof {
                assert(p0 =~= all.subrange(0, p0.len() as int));
                assert(fr == p0[p0.len() - 1]);
                assert(pending@ =~= p0.subrange(0, p0.len() - 1));
                assert(pending@ =~= all.subrange(0, pending@.len() as int));
                assert(fr == all[pending@.len() as int]);
                assert forall|k: int| 0 <= k < rev@.len() implies #[trigger] rev@[k] == all[n - 1 - k] by {
                    if k < r0.len() {
                        assert(rev@[k] == r0[k]);
                    }
                }
            }
        }
        let mut out: Vec<FileRecord> = Vec::new();
        while rev.len() > 0
            invariant
                forall|k: int| 0 <= k < rev@.len() ==> file_listed(#[trigger] rev@[k], partition_index, cb, bps, start),
                forall|k: int| 0 <= k < out@.len() ==> file_listed(#[trigger] out@[k], partition_index, cb, bps, start),
                out@.len() + rev@.len() <= max_records,
                out@.len() + rev@.len() == n,
                all.len() == n,
                forall|k: int| 0 <= k < rev@.len() ==> #[trigger] rev@[k] == all[n - 1 - k],
                resolver.links() == e,
                forall|k: u64| #[trigger] resolver.cached().contains_key(k) ==> resolver.cached()[k]@ == resolved_path(e, k),
                forall|k: int|
                    0 <= k < out@.len() ==> {
                        &&& (#[trigger] out@[k]).path@ == resolved_path(e, out@[k].id)
                        &&& out@[k].id == all[k].id
                        &&& out@[k] == (FileRecord { path: out@[k].path, ..all[k] })
                    },
            decreases rev@.len(),
        {
            let mut fr: FileRecord = rev.pop().unwrap();
            let ghost old_fr: FileRecord = fr;
            let ghost c_before: Map<u64, String> = resolver.cached();
            let ghost out0: Seq<FileRecord> = out@;
            let ghost idk: int = out@.len() as int;
            assert(fr == all[idk]);
            let p: String = resolver.resolve(fr.id);
            fr.path = p;
            proof {
                assert forall|k: u64| #[trigger] resolver.cached().contains_key(k) implies resolver.cached()[k]@
                    == resolved_path(e, k) by {
                    if k != fr.id {
                        assert(c_before.contains_key(k));
                    }
                }
            }
            proof {
                assert(file_listed(old_fr, partition_index, cb, bps, start));
                let rec = choose|rec: MftRecord| #[trigger] listed_from(rec, old_fr, partition_index, cb, bps, start);
                assert(listed_from(rec, fr, partition_index, cb, bps, start));
            }
            out.push(fr);
            proof {
                assert forall|k: int|
                    0 <= k < out@.len() implies {
                        &&& (#[trigger] out@[k]).path@ == resolved_path(e, out@[k].id)
                        &&& out@[k].id == all[k].id
                        &&& out@[k] == (FileRecord { path: out@[k].path, ..all[k] })
                    } by {
                    if k < out0.len() {
                        assert(out@[k] == out0[k]);
                    }
                }
            }
        }
        assert(exists|s2: Seq<MftStep>, e2: Links| #[trigger] self.lists(
            s2,
            e2,
            out@,
            self.walk_count(max_records),
            partition_index,
        )) by {
            assert forall|k: int| 0 <= k < out@.len() implies {
                let j = listed_all(steps)[k];
                &&& 0 <= j < steps.len()
                &&& listed_from(steps[j].rec, #[trigger] out@[k], partition_index, cb, bps, start)
                &&& out@[k].id == step_id(j, steps[j].rec)
                &&& out@[k].path@ == resolved_path(e, out@[k].id)
            } by {
                assert(listed_from(steps[listed_all(steps)[k]].rec, all[k], partition_index, cb, bps, start));
            }
            assert(self.walk_count(max_records) == count as int);
            assert(self.lists(steps, e, out@, self.walk_count(max_records), partition_index));
        }
        let ghost outv: Seq<FileRecord> = out@;
        let res: Result<Vec<FileRecord>, Error> = Ok(out);
        assert(res matches Ok(v) && v@ == outv);
        res
    }
}

/// Whether `v` holds `x`.
fn contains_u64(v: &Vec<u64>, x: u64) -> (b: bool)
    ensures
        b == v@.contains(x),
{
    let mut i: usize = 0;
    while i < v.len()
        invariant
            i <= v@.len(),
            forall|j: int| 0 <= j < i ==> v@[j] != x,
        decreases v.len() - i,
    {
        if v[i] == x {
            assert(v@[i as int] == x);
            return true;
        }
        i += 1;
    }
    false
}

/// `f` is listed for some MFT record of partition `pi` (see [`listed_from`]).
pub open spec fn file_listed(f: FileRecord, pi: u32, cb: u32, bps: u16, start: u64) -> bool {
    exists|rec: MftRecord| #[trigger] listed_from(rec, f, pi, cb, bps, start)
}

} // verus!
