//! Where recovered files go and which bytes they hold.
//!
//! The source device is only ever read: a carved file is a byte range of it,
//! a filesystem file the concatenation of its data runs cut to the file's
//! size. Writing those bytes out is left to the caller.

use crate::error::Error;
use crate::storage::{read_result, SectorReader};
use crate::strings::push_char;
use crate::types::{DataRun, FileSource};
use vstd::prelude::*;

verus! {

/// Read chunk size for recovered files (1 MiB).
pub const CARVED_READ_CHUNK: u64 = 1048576;

/// Path `b` appended to path `a` as `PathBuf::push` does on Unix: an
/// absolute `b` replaces `a`; otherwise a `/` separates them unless `a` is
/// empty or already ends in one.
pub open spec fn path_join(a: Seq<char>, b: Seq<char>) -> Seq<char> {
    if b.len() > 0 && b[0] == '/' {
        b
    } else if a.len() == 0 || a.last() == '/' {
        a + b
    } else {
        a.push('/') + b
    }
}

/// The index of the first character at or after `i` that is not `/`.
pub open spec fn skip_slashes(s: Seq<char>, i: int) -> int
    decreases s.len() - i,
{
    if i < 0 || i >= s.len() || s[i] != '/' {
        i
    } else {
        skip_slashes(s, i + 1)
    }
}

/// A file's directory with `\` turned into `/`.
pub open spec fn forward_slashes(s: Seq<char>) -> Seq<char> {
    s.map_values(|c: char| if c == '\\' { '/' } else { c })
}

/// Where the kept part of a normalised directory starts: after leading
/// slashes, then a volume letter and its colon (such as `C:`) if one
/// follows, then slashes again.
pub open spec fn clean_start(n: Seq<char>) -> int {
    let i0 = skip_slashes(n, 0);
    let i1 = if i0 + 2 <= n.len() && (n[i0] as u32) < 128 && n[i0 + 1] == ':' {
        i0 + 2
    } else {
        i0
    };
    skip_slashes(n, i1)
}

/// A file's directory as a relative path: separators normalised, leading
/// slashes and a volume prefix dropped.
pub open spec fn clean_dir(file_path: Seq<char>) -> Seq<char> {
    let n = forward_slashes(file_path);
    n.subrange(clean_start(n), n.len() as int)
}

/// Where a recovered file is written: under `base`, below its own
/// directory when paths are preserved and it has one, else directly.
pub open spec fn dest_path(base: Seq<char>, file_path: Seq<char>, file_name: Seq<char>, preserve_paths: bool) -> Seq<char> {
    if preserve_paths && file_path.len() > 0 {
        path_join(path_join(base, clean_dir(file_path)), file_name)
    } else {
        path_join(base, file_name)
    }
}

/// The bytes of a file made of `runs` and `size` bytes long, read from a
/// device holding `c` with sectors of `ss` bytes: each run in turn, cut to
/// what is still missing, until the size is reached; a run that reaches past
/// the device's end gives what the device holds.
pub open spec fn fs_file_bytes(c: Seq<u8>, runs: Seq<DataRun>, ss: u32, size: u64) -> Seq<u8>
    decreases runs.len(),
{
    if runs.len() == 0 {
        Seq::empty()
    } else {
        let prev = fs_file_bytes(c, runs.drop_last(), ss, size);
        let run = runs.last();
        if prev.len() >= size {
            prev
        } else {
            let run_bytes = run.length_sectors * ss;
            let want = if run_bytes < size - prev.len() {
                run_bytes
            } else {
                size - prev.len()
            };
            prev + read_result(c, run.start_lba * ss, want)
        }
    }
}

/// Every run's byte offsets fit in a `u64`.
pub open spec fn runs_fit(runs: Seq<DataRun>, ss: u32) -> bool {
    forall|i: int|
        0 <= i < runs.len() ==> #[trigger] runs[i].start_lba * ss + runs[i].length_sectors * ss <= u64::MAX
}

pub fn chars_of(s: &str) -> (v: Vec<char>)
    ensures
        v@ == s@,
{
    let n: usize = s.unicode_len();
    let mut v: Vec<char> = Vec::new();
    let mut i: usize = 0;
    while i < n
        invariant
            n == s@.len(),
            i <= n,
            v@ == s@.subrange(0, i as int),
        decreases n - i,
    {
        v.push(s.get_char(i));
        i += 1;
        assert(v@ =~= s@.subrange(0, i as int));
    }
    assert(s@.subrange(0, n as int) =~= s@);
    v
}

fn push_chars(acc: &mut String, part: &Vec<char>, from: usize)
    requires
        from <= part@.len(),
    ensures
        final(acc)@ == old(acc)@ + part@.subrange(from as int, part@.len() as int),
{
    let mut i: usize = from;
    while i < part.len()
        invariant
            from <= i <= part@.len(),
            acc@ == old(acc)@ + part@.subrange(from as int, i as int),
        decreases part.len() - i,
    {
        push_char(acc, part[i]);
        i += 1;
        assert(acc@ =~= old(acc)@ + part@.subrange(from as int, i as int));
    }
}

/// `acc` joined with `part[from..]`, as [`path_join`] says.
fn join_onto(acc: String, part: &Vec<char>, from: usize) -> (r: String)
    requires
        from <= part@.len(),
    ensures
        r@ == path_join(acc@, part@.subrange(from as int, part@.len() as int)),
{
    let ghost b: Seq<char> = part@.subrange(from as int, part@.len() as int);
    if from < part.len() && part[from] == '/' {
        let mut r: String = String::new();
        push_chars(&mut r, part, from);
        assert(r@ =~= b);
        return r;
    }
    let mut a: String = acc;
    let n: usize = a.as_str().unicode_len();
    if n > 0 && a.as_str().get_char(n - 1) != '/' {
        push_char(&mut a, '/');
    }
    push_chars(&mut a, part, from);
    a
}

fn skip_slashes_from(v: &Vec<char>, i: usize) -> (k: usize)
    requires
        i <= v@.len(),
    ensures
        k == skip_slashes(v@, i as int),
        i <= k <= v@.len(),
{
    let mut k: usize = i;
    while k < v.len() && v[k] == '/'
        invariant
            i <= k <= v@.len(),
            skip_slashes(v@, k as int) == skip_slashes(v@, i as int),
        decreases v.len() - k,
    {
        k += 1;
    }
    k
}

/// Writes recovered files.
pub struct RecoveryWriter;

impl RecoveryWriter {
    /// The output path for a file, below its own directory when
    /// `preserve_paths` is set (see [`dest_path`]).
    pub fn build_dest_path(base: &str, file_path: &str, file_name: &str, preserve_paths: bool) -> (r: String)
        ensures
            r@ == dest_path(base@, file_path@, file_name@, preserve_paths),
    {
        let name: Vec<char> = chars_of(file_name);
        let b: String = String::from_str(base);
        if preserve_paths && file_path.unicode_len() > 0 {
            let raw: Vec<char> = chars_of(file_path);
            let mut norm: Vec<char> = Vec::new();
            let mut i: usize = 0;
            while i < raw.len()
                invariant
                    i <= raw@.len(),
                    norm@ == forward_slashes(raw@).subrange(0, i as int),
                decreases raw.len() - i,
            {
                let c: char = raw[i];
                norm.push(
                    if c == '\\' {
                        '/'
                    } else {
                        c
                    },
                );
                i += 1;
                assert(norm@ =~= forward_slashes(raw@).subrange(0, i as int));
            }
            assert(forward_slashes(raw@).subrange(0, raw@.len() as int) =~= forward_slashes(raw@));
            let i0: usize = skip_slashes_from(&norm, 0);
            let i1: usize = if i0 < norm.len() && norm.len() - i0 >= 2 && (norm[i0] as u32) < 128 && norm[i0 + 1] == ':' {
                i0 + 2
            } else {
                i0
            };
            let start: usize = skip_slashes_from(&norm, i1);
            let dir: String = join_onto(b, &norm, start);
            let r: String = join_onto(dir, &name, 0);
            assert(name@.subrange(0, name@.len() as int) =~= name@);
            r
        } else {
            let r: String = join_onto(b, &name, 0);
            assert(name@.subrange(0, name@.len() as int) =~= name@);
            r
        }
    }

    /// The bytes of a carved file: `length` bytes of the device from
    /// `offset`, read in chunks of at most 1 MiB, fewer where the device
    /// ends.
    pub fn read_carved<R: SectorReader>(reader: &R, offset: u64, length: u64) -> (r: Result<Vec<u8>, Error>)
        ensures
            r matches Ok(v) ==> v@ == read_result(reader.spec_contents(), offset as int, length as int),
            reader.spec_reliable() ==> r is Ok,
    {
        let dev: u64 = reader.size_bytes();
        let ghost c: Seq<u8> = reader.spec_contents();
        let mut out: Vec<u8> = Vec::new();
        let mut remaining: u64 = length;
        let mut pos: u64 = offset;
        while remaining > 0
            invariant
                c == reader.spec_contents(),
                dev == c.len(),
                pos - offset == out@.len(),
                remaining == length - out@.len(),
                offset <= pos,
                pos < c.len() ==> out@ == c.subrange(offset as int, pos as int),
                pos >= c.len() ==> out@ == read_result(c, offset as int, length as int),
                out@.len() == 0 || pos <= c.len(),
            ensures
                out@ == read_result(c, offset as int, length as int),
            decreases remaining,
        {
            let chunk: u64 = if remaining < CARVED_READ_CHUNK {
                remaining
            } else {
                CARVED_READ_CHUNK
            };
            let mut data: Vec<u8> = match reader.read_vec(pos, chunk as usize) {
                Ok(d) => d,
                Err(e) => {
                    return Err(e);
                },
            };
            if data.len() == 0 {
                break;
            }
            let n: u64 = data.len() as u64;
            let ghost before: Seq<u8> = out@;
            out.append(&mut data);
            pos = pos + n;
            remaining = remaining - n;
        }
        Ok(out)
    }

    /// The bytes of a file that a filesystem walk found: its data runs in
    /// order, cut to `size_bytes` (see [`fs_file_bytes`]). A carved source
    /// is refused with an internal error.
    pub fn read_fs_file<R: SectorReader>(reader: &R, source: &FileSource, size_bytes: u64) -> (r: Result<Vec<u8>, Error>)
        requires
            source matches FileSource::Filesystem { runs, .. } ==> runs_fit(runs@, reader.spec_sector_size()),
        ensures
            source is Carved ==> r is Err,
            source is Filesystem && reader.spec_reliable() ==> r is Ok,
            source matches FileSource::Filesystem { runs, .. } ==> (r matches Ok(v) ==> v@ == fs_file_bytes(
                reader.spec_contents(),
                runs@,
                reader.spec_sector_size(),
                size_bytes,
            )),
    {
        let runs: &Vec<DataRun> = match source {
            FileSource::Filesystem { runs, .. } => runs,
            _ => {
                return Err(Error::internal(String::from_str("recover_fs_file called with non-filesystem source")));
            },
        };
        let ss: u32 = reader.sector_size();
        let ghost c: Seq<u8> = reader.spec_contents();
        let mut out: Vec<u8> = Vec::new();
        let mut k: usize = 0;
        while k < runs.len()
            invariant
                k <= runs@.len(),
                c == reader.spec_contents(),
                ss == reader.spec_sector_size(),
                runs_fit(runs@, ss),
                out@ == fs_file_bytes(c, runs@.subrange(0, k as int), ss, size_bytes),
                out@.len() <= size_bytes,
            decreases runs.len() - k,
        {
            let run: DataRun = runs[k];
            assert(runs@.subrange(0, k + 1).drop_last() =~= runs@.subrange(0, k as int));
            assert(runs@.subrange(0, k + 1).last() == run);
            if out.len() as u64 >= size_bytes {
                k += 1;
                continue;
            }
            proof {
                assert(run.start_lba * ss + run.length_sectors * ss <= u64::MAX);
                assert(0 <= run.length_sectors * ss) by (nonlinear_arith);
                assert(0 <= run.start_lba * ss) by (nonlinear_arith);
            }
            let run_bytes: u64 = run.length_sectors * (ss as u64);
            let left: u64 = size_bytes - out.len() as u64;
            let to_read: u64 = if run_bytes < left {
                run_bytes
            } else {
                left
            };
            let start_byte: u64 = run.start_lba * (ss as u64);
            let mut piece: Vec<u8> = match Self::read_carved(reader, start_byte, to_read) {
                Ok(d) => d,
                Err(e) => {
                    return Err(e);
                },
            };
            out.append(&mut piece);
            k += 1;
        }
        assert(runs@.subrange(0, runs@.len() as int) =~= runs@);
        Ok(out)
    }
}

} // verus!
