//! MFT FILE records: header, update-sequence fixup, attribute walk, and the
//! per-file facts the recovery engine needs (name, size, data runs).

use crate::bytes::{le16, le32, le64, read_u16_le, read_u32_le, read_u64_le};
use crate::error::Error;
use crate::filesystem::ntfs::attribute::{
    alist_result, filename_ok, filename_text, parsed_from, spec_resident_value, Attribute,
    AttributeListEntry, AttributeType, FileName,
};
use crate::filesystem::ntfs::boot::is_corrupt;
use crate::filesystem::ntfs::runlist::{decode_from, RawRun};
use crate::strings::{decimal, hex16_prefixed, hex_bytes, hex_string, push_decimal, push_hex16_prefixed};
use crate::types::DataRun;
use vstd::prelude::*;

verus! {

/// Default MFT record size in bytes.
pub const MFT_RECORD_SIZE_DEFAULT: u32 = 1024;

pub const FLAG_IN_USE: u16 = 0x01;

pub const FLAG_DIRECTORY: u16 = 0x02;

#[derive(Debug, Clone)]
pub struct MftRecord {
    /// Record bytes after fixup (empty when uninitialised).
    pub bytes: Vec<u8>,
    pub used_size: u32,
    pub allocated_size: u32,
    pub flags: u16,
    pub sequence: u16,
    pub first_attribute_offset: u16,
    pub mft_record_number: Option<u64>,
    /// Reference of the base record this one extends; 0 for base records.
    pub base_record_ref: u64,
    /// Parsed attributes, in record order.
    pub attributes: Vec<Attribute>,
}

/// `FILE` at the start of `b`.
pub open spec fn has_file_magic(b: Seq<u8>) -> bool {
    b[0] == 0x46u8 && b[1] == 0x49u8 && b[2] == 0x4Cu8 && b[3] == 0x45u8
}

/// Why a fixup failed.
pub enum FixupFault {
    SectorTooSmall,
    UsaOutOfBounds(int),
    PastRecord(int),
    UsnMismatch { offset: int, usn: int, got: int },
}

/// `e` is the error reported for fixup fault `f`.
pub open spec fn fixup_error(f: FixupFault, e: Error) -> bool {
    match f {
        FixupFault::SectorTooSmall => is_corrupt(e, "mft_fixup"@, 0, "bytes_per_sector < 2"@),
        FixupFault::UsaOutOfBounds(o) => is_corrupt(e, "mft_fixup"@, o, "USA out of bounds"@),
        FixupFault::PastRecord(o) => is_corrupt(e, "mft_fixup"@, o, "fixup runs past record"@),
        FixupFault::UsnMismatch { offset, usn, got } => is_corrupt(
            e,
            "mft_fixup"@,
            offset,
            "USN mismatch (expected "@ + hex16_prefixed(usn as u16) + ", got "@ + hex16_prefixed(
                got as u16,
            ) + ")"@,
        ),
    }
}

/// Fixup of sectors `i..count`: each sector's last two bytes must equal
/// `usn` and are replaced by the saved pair from the update sequence array.
pub open spec fn fixup_from(b: Seq<u8>, bps: int, usa: int, count: int, usn: int, i: int) -> Result<Seq<u8>, FixupFault>
    decreases count - i,
{
    if i >= count {
        Ok(b)
    } else {
        let se = i * bps;
        let up = usa + i * 2;
        if se < 2 || se > b.len() || up + 2 > b.len() {
            Err(FixupFault::PastRecord(se))
        } else if le16(b, se - 2) != usn {
            Err(FixupFault::UsnMismatch { offset: se, usn, got: le16(b, se - 2) })
        } else {
            fixup_from(b.update(se - 2, b[up]).update(se - 1, b[up + 1]), bps, usa, count, usn, i + 1)
        }
    }
}

/// The whole fixup of a record.
pub open spec fn spec_fixup(b: Seq<u8>, bps: int, usa: int, count: int) -> Result<Seq<u8>, FixupFault> {
    if bps < 2 {
        Err(FixupFault::SectorTooSmall)
    } else if usa + 2 > b.len() || count == 0 {
        Err(FixupFault::UsaOutOfBounds(usa))
    } else {
        fixup_from(b, bps, usa, count, le16(b, usa), 1)
    }
}

proof fn lemma_fixup_keeps_len(b: Seq<u8>, bps: int, usa: int, count: int, usn: int, i: int)
    ensures
        fixup_from(b, bps, usa, count, usn, i) matches Ok(f) ==> f.len() == b.len(),
    decreases count - i,
{
    if i < count {
        let se = i * bps;
        let up = usa + i * 2;
        if !(se < 2 || se > b.len() || up + 2 > b.len()) && le16(b, se - 2) == usn {
            lemma_fixup_keeps_len(b.update(se - 2, b[up]).update(se - 1, b[up + 1]), bps, usa, count, usn, i + 1);
        }
    }
}

/// A successful fixup keeps the record length.
pub proof fn lemma_spec_fixup_keeps_len(b: Seq<u8>, bps: int, usa: int, count: int)
    ensures
        spec_fixup(b, bps, usa, count) matches Ok(f) ==> f.len() == b.len(),
{
    if bps >= 2 && usa + 2 <= b.len() && count != 0 {
        lemma_fixup_keeps_len(b, bps, usa, count, le16(b, usa), 1);
    }
}

/// Apply the NTFS update-sequence fixup to a record in place.
#[verifier::loop_isolation(false)]
pub fn apply_fixup(buf: &mut Vec<u8>, bps: u16, usa_offset: usize, usa_count: usize) -> (r: Result<(), Error>)
    requires
        usa_count <= 0xFFFF,
        usa_offset <= 0xFFFF,
    ensures
        match spec_fixup(old(buf)@, bps as int, usa_offset as int, usa_count as int) {
            Ok(fixed) => r is Ok && final(buf)@ == fixed,
            Err(f) => r matches Err(e) && fixup_error(f, e),
        },
{
    let bps: usize = bps as usize;
    if bps < 2 {
        return Err(Error::corrupt("mft_fixup", 0, String::from_str("bytes_per_sector < 2")));
    }
    if usa_offset + 2 > buf.len() || usa_count == 0 {
        return Err(Error::corrupt("mft_fixup", usa_offset as u64, String::from_str("USA out of bounds")));
    }
    let usn: u16 = read_u16_le(buf.as_slice(), usa_offset).unwrap();
    let ghost b0: Seq<u8> = buf@;
    let mut i: usize = 1;
    while i < usa_count
        invariant
            1 <= i <= usa_count,
            usa_count <= 0xFFFF,
            usa_offset <= 0xFFFF,
            2 <= bps <= 0xFFFF,
            usn == le16(b0, usa_offset as int),
            buf@.len() == b0.len(),
            fixup_from(b0, bps as int, usa_offset as int, usa_count as int, usn as int, 1) == fixup_from(
                buf@,
                bps as int,
                usa_offset as int,
                usa_count as int,
                usn as int,
                i as int,
            ),
        decreases usa_count - i,
    {
        assert(i * bps <= 0xFFFF * 0xFFFF) by (nonlinear_arith)
            requires
                i <= 0xFFFF,
                bps <= 0xFFFF,
        ;
        let sector_end: usize = i * bps;
        let usa_pos: usize = usa_offset + i * 2;
        if sector_end < 2 || sector_end > buf.len() || usa_pos + 2 > buf.len() {
            return Err(
                Error::corrupt("mft_fixup", sector_end as u64, String::from_str("fixup runs past record")),
            );
        }
        let last_two: u16 = read_u16_le(buf.as_slice(), sector_end - 2).unwrap();
        if last_two != usn {
            let mut detail: String = String::from_str("USN mismatch (expected ");
            push_hex16_prefixed(&mut detail, usn);
            detail.append(", got ");
            push_hex16_prefixed(&mut detail, last_two);
            detail.append(")");
            return Err(Error::corrupt("mft_fixup", sector_end as u64, detail));
        }
        let lo: u8 = buf[usa_pos];
        let hi: u8 = buf[usa_pos + 1];
        buf.set(sector_end - 2, lo);
        buf.set(sector_end - 1, hi);
        i += 1;
    }
    Ok(())
}

/// Offsets of the attribute windows met walking from `cursor` up to `used`.
pub open spec fn attr_windows(b: Seq<u8>, cursor: int, used: int) -> Seq<int>
    decreases used - cursor,
{
    if cursor < 0 || cursor + 4 > used || le32(b, cursor) == 0xFFFF_FFFF || cursor + 8 > used {
        Seq::empty()
    } else {
        let len = le32(b, cursor + 4);
        if len < 24 || cursor + len > used {
            Seq::empty()
        } else {
            seq![cursor] + attr_windows(b, cursor + len, used)
        }
    }
}

/// The window at `o`.
pub open spec fn window_at(b: Seq<u8>, o: int) -> Seq<u8> {
    b.subrange(o, o + le32(b, o + 4))
}

/// `Attribute::parse` succeeds on a window of at least 24 bytes whose length
/// field equals its size.
pub open spec fn window_parses(w: Seq<u8>) -> bool {
    w[8] == 0 || w.len() >= 64
}

/// The windows among `offs` that parse.
pub open spec fn parsing_windows(b: Seq<u8>, offs: Seq<int>) -> Seq<int>
    decreases offs.len(),
{
    if offs.len() == 0 {
        offs
    } else {
        let rest = parsing_windows(b, offs.drop_last());
        if window_parses(window_at(b, offs.last())) {
            rest.push(offs.last())
        } else {
            rest
        }
    }
}

/// Parse the attributes of a fixed-up record from `start` up to `used_size`;
/// a bad length or the `0xFFFFFFFF` terminator ends the walk and attributes
/// that fail to parse are skipped.
pub fn parse_attributes(buf: &[u8], start: usize, used_size: usize) -> (r: Vec<Attribute>)
    requires
        used_size <= buf@.len(),
    ensures
        r@.len() == parsing_windows(buf@, attr_windows(buf@, start as int, used_size as int)).len(),
        forall|i: int|
            0 <= i < r@.len() ==> parsed_from(
                #[trigger] r@[i],
                window_at(buf@, parsing_windows(buf@, attr_windows(buf@, start as int, used_size as int))[i]),
            ),
{
    let mut out: Vec<Attribute> = Vec::new();
    let mut cursor: usize = start;
    let ghost mut seen: Seq<int> = Seq::empty();
    #[verifier::loop_isolation(false)]
    while cursor <= used_size && used_size - cursor >= 4
        invariant
            used_size <= buf@.len(),
            attr_windows(buf@, start as int, used_size as int) == seen + attr_windows(
                buf@,
                cursor as int,
                used_size as int,
            ),
            out@.len() == parsing_windows(buf@, seen).len(),
            forall|i: int|
                0 <= i < out@.len() ==> parsed_from(#[trigger] out@[i], window_at(buf@, parsing_windows(buf@, seen)[i])),
        decreases used_size - cursor,
    {
        let ty: u32 = read_u32_le(buf, cursor).unwrap();
        if ty == 0xFFFF_FFFF {
            break;
        }
        if used_size - cursor < 8 {
            break;
        }
        let len: usize = read_u32_le(buf, cursor + 4).unwrap() as usize;
        if len < 24 || len > used_size - cursor {
            break;
        }
        let w: &[u8] = &buf[cursor..cursor + len];
        assert(w@ =~= window_at(buf@, cursor as int));
        proof {
            assert(attr_windows(buf@, cursor as int, used_size as int) == seq![cursor as int]
                + attr_windows(buf@, cursor + len, used_size as int));
            assert(seen + attr_windows(buf@, cursor as int, used_size as int) =~= seen.push(
                cursor as int,
            ) + attr_windows(buf@, cursor + len, used_size as int));
            assert(seen.push(cursor as int).drop_last() =~= seen);
            seen = seen.push(cursor as int);
        }
        match Attribute::parse(w) {
            Ok(a) => {
                out.push(a);
            },
            Err(_) => {},
        }
        cursor += len;
    }
    proof {
        assert(seen + attr_windows(buf@, cursor as int, used_size as int) =~= seen);
    }
    out
}

/// Priority of a `$FILE_NAME` namespace: Win32+DOS, Win32, POSIX, DOS.
pub open spec fn spec_ns_priority(ns: u8) -> u8 {
    if ns == 3 {
        4
    } else if ns == 1 {
        3
    } else if ns == 0 {
        2
    } else if ns == 2 {
        1
    } else {
        0
    }
}

pub fn ns_priority(ns: u8) -> (r: u8)
    ensures
        r == spec_ns_priority(ns),
{
    match ns {
        3 => 4,
        1 => 3,
        0 => 2,
        2 => 1,
        _ => 0,
    }
}

/// `(parent, namespace, name)` of a `$FILE_NAME` attribute that decodes.
pub open spec fn attr_filename(a: Attribute) -> Option<(u64, u8, Seq<char>)> {
    if a.kind != AttributeType::FileName {
        None
    } else {
        match spec_resident_value(a) {
            Some(v) => if filename_ok(v) {
                Some(((le64(v, 0) as u64) & 0x0000_FFFF_FFFF_FFFF, v[0x41], filename_text(v)))
            } else {
                None
            },
            None => None,
        }
    }
}

/// Best `$FILE_NAME` among the first `n` attributes: the first one of the
/// highest namespace priority.
pub open spec fn best_upto(attrs: Seq<Attribute>, n: int) -> Option<(u64, u8, Seq<char>)>
    decreases n,
{
    if n <= 0 {
        None
    } else {
        let prev = best_upto(attrs, n - 1);
        match attr_filename(attrs[n - 1]) {
            None => prev,
            Some(f) => match prev {
                None => Some(f),
                Some(b) => if spec_ns_priority(f.1) > spec_ns_priority(b.1) {
                    Some(f)
                } else {
                    prev
                },
            },
        }
    }
}

/// Namespace priority of the `$FILE_NAME` that `a` holds, if any.
pub open spec fn filename_priority(a: Attribute) -> int {
    match attr_filename(a) {
        Some(g) => spec_ns_priority(g.1) as int,
        None => -1,
    }
}

/// The best `$FILE_NAME` among the first `n` attributes is absent exactly
/// when none of them holds a `$FILE_NAME` that parses; otherwise it is the
/// name of one of them whose namespace priority no other reaches past, and
/// the first such: every earlier name ranks strictly lower.
#[verifier::rlimit(40)]
pub proof fn law_best_filename_is_first_of_highest_priority(attrs: Seq<Attribute>, n: int)
    requires
        0 <= n <= attrs.len(),
    ensures
        best_upto(attrs, n) is None <==> forall|j: int| 0 <= j < n ==> #[trigger] attr_filename(attrs[j]) is None,
        best_upto(attrs, n) matches Some(f) ==> exists|i: int|
            0 <= i < n && #[trigger] attr_filename(attrs[i]) == Some(f) && (forall|j: int|
                0 <= j < n && #[trigger] attr_filename(attrs[j]) is Some ==> filename_priority(attrs[j]) <= spec_ns_priority(f.1)) && (forall|j: int|
                0 <= j < i && #[trigger] attr_filename(attrs[j]) is Some ==> filename_priority(attrs[j]) < spec_ns_priority(f.1)),
    decreases n,
{
    if n > 0 {
        law_best_filename_is_first_of_highest_priority(attrs, n - 1);
        let prev = best_upto(attrs, n - 1);
        match attr_filename(attrs[n - 1]) {
            None => {
                match prev {
                    Some(b) => {
                        let i = choose|i: int|
                            0 <= i < n - 1 && #[trigger] attr_filename(attrs[i]) == Some(b) && (forall|j: int|
                                0 <= j < n - 1 && #[trigger] attr_filename(attrs[j]) is Some ==> filename_priority(attrs[j]) <= spec_ns_priority(b.1)) && (forall|j: int|
                                0 <= j < i && #[trigger] attr_filename(attrs[j]) is Some ==> filename_priority(attrs[j]) < spec_ns_priority(b.1));
                        assert(attr_filename(attrs[i]) == Some(b));
                    },
                    None => {},
                }
            },
            Some(f) => {
                match prev {
                    None => {
                        assert(attr_filename(attrs[n - 1]) == Some(f));
                    },
                    Some(b) => {
                        let i = choose|i: int|
                            0 <= i < n - 1 && #[trigger] attr_filename(attrs[i]) == Some(b) && (forall|j: int|
                                0 <= j < n - 1 && #[trigger] attr_filename(attrs[j]) is Some ==> filename_priority(attrs[j]) <= spec_ns_priority(b.1)) && (forall|j: int|
                                0 <= j < i && #[trigger] attr_filename(attrs[j]) is Some ==> filename_priority(attrs[j]) < spec_ns_priority(b.1));
                        if spec_ns_priority(f.1) > spec_ns_priority(b.1) {
                            assert(attr_filename(attrs[n - 1]) == Some(f));
                        } else {
                            assert(attr_filename(attrs[i]) == Some(b));
                        }
                    },
                }
            },
        }
    }
}

/// Namespace of the `$FILE_NAME` that `a` holds, if any (else -1).
pub open spec fn name_namespace(a: Attribute) -> int {
    match attr_filename(a) {
        Some(f) => f.1 as int,
        None => -1,
    }
}

/// Some `$FILE_NAME` among the first `n` attributes is in namespace `ns`.
pub open spec fn has_name_in(attrs: Seq<Attribute>, n: int, ns: int) -> bool {
    exists|i: int| 0 <= i < n && #[trigger] name_namespace(attrs[i]) == ns
}

/// Namespace of the best `$FILE_NAME` among the first `n` attributes (-1
/// where there is none).
pub open spec fn best_namespace(attrs: Seq<Attribute>, n: int) -> int {
    match best_upto(attrs, n) {
        Some(b) => b.1 as int,
        None => -1,
    }
}

/// The best name's namespace follows the ranking Win32+DOS (3), then Win32
/// (1), then POSIX (0), then DOS (2): a record with a name in a namespace
/// has as its best name one in that namespace or a higher-ranked one. In
/// particular a record with both a Win32 and a DOS name is listed under
/// its Win32 (long) name.
#[verifier::rlimit(40)]
pub proof fn law_best_name_namespace_ranking(attrs: Seq<Attribute>, n: int)
    requires
        0 <= n <= attrs.len(),
    ensures
        has_name_in(attrs, n, 3) ==> best_namespace(attrs, n) == 3,
        has_name_in(attrs, n, 1) && !has_name_in(attrs, n, 3) ==> best_namespace(attrs, n) == 1,
        has_name_in(attrs, n, 0) && !has_name_in(attrs, n, 3) && !has_name_in(attrs, n, 1) ==> best_namespace(
            attrs,
            n,
        ) == 0,
        has_name_in(attrs, n, 2) && !has_name_in(attrs, n, 3) && !has_name_in(attrs, n, 1) && !has_name_in(
            attrs,
            n,
            0,
        ) ==> best_namespace(attrs, n) == 2,
        best_namespace(attrs, n) == -1 || has_name_in(attrs, n, best_namespace(attrs, n)),
    decreases n,
{
    if n > 0 {
        law_best_name_namespace_ranking(attrs, n - 1);
        assert forall|ns: int| has_name_in(attrs, n, ns) == (has_name_in(attrs, n - 1, ns) || name_namespace(
            attrs[n - 1],
        ) == ns) by {
            if has_name_in(attrs, n, ns) {
                let k = choose|k: int| 0 <= k < n && #[trigger] name_namespace(attrs[k]) == ns;
                if k < n - 1 {
                    assert(has_name_in(attrs, n - 1, ns));
                }
            }
            if has_name_in(attrs, n - 1, ns) {
                let k = choose|k: int| 0 <= k < n - 1 && #[trigger] name_namespace(attrs[k]) == ns;
                assert(name_namespace(attrs[k]) == ns);
            }
            if name_namespace(attrs[n - 1]) == ns {
                assert(name_namespace(attrs[n - 1]) == ns);
            }
        }
        let prev = best_upto(attrs, n - 1);
        let fo = attr_filename(attrs[n - 1]);
        assert(best_upto(attrs, n) == match fo {
            None => prev,
            Some(f) => match prev {
                None => Some(f),
                Some(b) => if spec_ns_priority(f.1) > spec_ns_priority(b.1) {
                    Some(f)
                } else {
                    prev
                },
            },
        });
        assert(name_namespace(attrs[n - 1]) == match fo {
            Some(f) => f.1 as int,
            None => -1,
        });
        assert(best_namespace(attrs, n - 1) == match prev {
            Some(b) => b.1 as int,
            None => -1,
        });
    }
}

/// An unnamed `$DATA` attribute.
pub open spec fn is_unnamed_data(a: Attribute) -> bool {
    a.kind == AttributeType::Data && a.name@.len() == 0
}

pub open spec fn spec_starting_vcn(a: Attribute) -> u64 {
    match a.non_resident_layout {
        Some(nr) => nr.starting_vcn,
        None => 0,
    }
}

pub open spec fn spec_value_size(a: Attribute) -> u64 {
    match a.non_resident_layout {
        Some(nr) => nr.real_size,
        None => match a.resident {
            Some(res) => res.value_length as u64,
            None => 0,
        },
    }
}

/// Last unnamed `$DATA` at VCN 0 among the first `n` attributes.
pub open spec fn anchor_upto(attrs: Seq<Attribute>, n: int) -> Option<int>
    decreases n,
{
    if n <= 0 {
        None
    } else if is_unnamed_data(attrs[n - 1]) && spec_starting_vcn(attrs[n - 1]) == 0 {
        Some(n - 1)
    } else {
        anchor_upto(attrs, n - 1)
    }
}

/// First unnamed `$DATA` not at VCN 0 among the first `n` attributes.
pub open spec fn fallback_upto(attrs: Seq<Attribute>, n: int) -> Option<int>
    decreases n,
{
    if n <= 0 {
        None
    } else {
        match fallback_upto(attrs, n - 1) {
            Some(k) => Some(k),
            None => if is_unnamed_data(attrs[n - 1]) && spec_starting_vcn(attrs[n - 1]) != 0 {
                Some(n - 1)
            } else {
                None
            },
        }
    }
}

/// Decoded runs of an attribute when its run list decodes.
pub open spec fn spec_run_list(a: Attribute) -> Option<Seq<RawRun>> {
    match a.non_resident_layout {
        None => None,
        Some(nr) => if nr.run_list_offset >= a.raw@.len() {
            Some(Seq::empty())
        } else {
            match decode_from(a.raw@.subrange(nr.run_list_offset as int, a.raw@.len() as int), 0, 0) {
                Ok(runs) => Some(runs),
                Err(_) => None,
            }
        },
    }
}

/// `a * b`, capped at `u64::MAX`.
pub open spec fn sat_mul(a: u64, b: u64) -> u64 {
    if a * b > u64::MAX {
        u64::MAX
    } else {
        (a * b) as u64
    }
}

/// `a + b`, capped at `u64::MAX`.
pub open spec fn sat_add(a: u64, b: u64) -> u64 {
    if a + b > u64::MAX {
        u64::MAX
    } else {
        (a + b) as u64
    }
}

fn saturating_mul(a: u64, b: u64) -> (r: u64)
    ensures
        r == sat_mul(a, b),
{
    match a.checked_mul(b) {
        Some(v) => v,
        None => u64::MAX,
    }
}

/// Device extents of cluster runs: sparse and negative runs are dropped.
pub open spec fn runs_to_extents(runs: Seq<RawRun>, spc: u64, part: u64) -> Seq<DataRun>
    decreases runs.len(),
{
    if runs.len() == 0 {
        Seq::empty()
    } else {
        let prev = runs_to_extents(runs.drop_last(), spc, part);
        let r = runs.last();
        match r.lcn {
            Some(lcn) => if lcn < 0 {
                prev
            } else {
                prev.push(
                    DataRun {
                        start_lba: sat_add(part, sat_mul(lcn as u64, spc)),
                        length_sectors: sat_mul(r.length_clusters, spc),
                    },
                )
            },
            None => prev,
        }
    }
}

/// Insert attribute index `i` into `sorted` after every index whose starting
/// VCN is not larger.
pub open spec fn insert_by_vcn(attrs: Seq<Attribute>, sorted: Seq<usize>, i: usize) -> Seq<usize>
    decreases sorted.len(),
{
    if sorted.len() == 0 {
        seq![i]
    } else if spec_starting_vcn(attrs[sorted.last() as int]) <= spec_starting_vcn(attrs[i as int]) {
        sorted.push(i)
    } else {
        insert_by_vcn(attrs, sorted.drop_last(), i).push(sorted.last())
    }
}

/// Stable sort of attribute indices by starting VCN.
pub open spec fn sort_by_vcn(attrs: Seq<Attribute>, idx: Seq<usize>) -> Seq<usize>
    decreases idx.len(),
{
    if idx.len() == 0 {
        idx
    } else {
        insert_by_vcn(attrs, sort_by_vcn(attrs, idx.drop_last()), idx.last())
    }
}

/// Indices of the non-resident unnamed `$DATA` attributes among the first `n`.
pub open spec fn nonres_chunks(attrs: Seq<Attribute>, n: int) -> Seq<usize>
    decreases n,
{
    if n <= 0 {
        Seq::empty()
    } else if is_unnamed_data(attrs[n - 1]) && attrs[n - 1].non_resident {
        nonres_chunks(attrs, n - 1).push((n - 1) as usize)
    } else {
        nonres_chunks(attrs, n - 1)
    }
}

/// Extents of the chunks `order`, in that order; chunks whose run list fails
/// to decode contribute nothing.
pub open spec fn chunk_extents(attrs: Seq<Attribute>, order: Seq<usize>, spc: u64, part: u64) -> Seq<DataRun>
    decreases order.len(),
{
    if order.len() == 0 {
        Seq::empty()
    } else {
        chunk_extents(attrs, order.drop_last(), spc, part) + match spec_run_list(attrs[order.last() as int]) {
            Some(runs) => runs_to_extents(runs, spc, part),
            None => Seq::empty(),
        }
    }
}

/// What `data_runs` returns.
pub open spec fn spec_data_runs(attrs: Seq<Attribute>, cluster_bytes: u32, bps: u16, part: u64) -> Option<Seq<DataRun>> {
    if !(exists|i: int| 0 <= i < attrs.len() && is_unnamed_data(#[trigger] attrs[i])) {
        None
    } else if nonres_chunks(attrs, attrs.len() as int).len() == 0 {
        Some(Seq::empty())
    } else if bps == 0 || cluster_bytes == 0 || cluster_bytes % (bps as u32) != 0 {
        Some(Seq::empty())
    } else {
        Some(
            chunk_extents(
                attrs,
                sort_by_vcn(attrs, nonres_chunks(attrs, attrs.len() as int)),
                (cluster_bytes / (bps as u32)) as u64,
                part,
            ),
        )
    }
}

/// First index at or after `k` of an attribute satisfying the `$DATA` test.
pub open spec fn first_unnamed_data(attrs: Seq<Attribute>, k: int) -> Option<int>
    decreases attrs.len() - k,
{
    if k < 0 || k >= attrs.len() {
        None
    } else if is_unnamed_data(attrs[k]) {
        Some(k)
    } else {
        first_unnamed_data(attrs, k + 1)
    }
}

/// Hex text of the first resident unnamed `$DATA` value (at most `max` bytes)
/// from attribute `k` on.
pub open spec fn head_hex_from(attrs: Seq<Attribute>, k: int, max: int) -> Seq<char>
    decreases attrs.len() - k,
{
    if k < 0 || k >= attrs.len() {
        Seq::empty()
    } else if is_unnamed_data(attrs[k]) && !attrs[k].non_resident && spec_resident_value(attrs[k]) is Some {
        let v = spec_resident_value(attrs[k])->0;
        hex_bytes(v.subrange(0, if max < v.len() { max } else { v.len() as int }))
    } else {
        head_hex_from(attrs, k + 1, max)
    }
}

/// Modification FILETIME from the first `$STANDARD_INFORMATION` (from `k`)
/// that holds one.
pub open spec fn std_time_from(attrs: Seq<Attribute>, k: int) -> Option<u64>
    decreases attrs.len() - k,
{
    if k < 0 || k >= attrs.len() {
        None
    } else if attrs[k].kind == AttributeType::StandardInformation && spec_resident_value(attrs[k]) is Some
        && spec_resident_value(attrs[k])->0.len() >= 16 {
        Some(le64(spec_resident_value(attrs[k])->0, 8) as u64)
    } else {
        std_time_from(attrs, k + 1)
    }
}

/// First attribute list attribute from `k`.
pub open spec fn first_alist(attrs: Seq<Attribute>, k: int) -> Option<int>
    decreases attrs.len() - k,
{
    if k < 0 || k >= attrs.len() {
        None
    } else if attrs[k].kind == AttributeType::AttributeList {
        Some(k)
    } else {
        first_alist(attrs, k + 1)
    }
}

/// All indices in `s` are below `n`.
pub open spec fn indices_below(s: Seq<usize>, n: int) -> bool {
    forall|j: int| 0 <= j < s.len() ==> #[trigger] s[j] < n
}

proof fn lemma_insert_below(attrs: Seq<Attribute>, sorted: Seq<usize>, i: usize)
    requires
        indices_below(sorted, attrs.len() as int),
        i < attrs.len(),
    ensures
        indices_below(insert_by_vcn(attrs, sorted, i), attrs.len() as int),
        insert_by_vcn(attrs, sorted, i).len() == sorted.len() + 1,
    decreases sorted.len(),
{
    if sorted.len() > 0 && spec_starting_vcn(attrs[sorted.last() as int]) > spec_starting_vcn(attrs[i as int]) {
        lemma_insert_below(attrs, sorted.drop_last(), i);
    }
}

proof fn lemma_sorted_below(attrs: Seq<Attribute>, idx: Seq<usize>)
    requires
        indices_below(idx, attrs.len() as int),
    ensures
        indices_below(sort_by_vcn(attrs, idx), attrs.len() as int),
    decreases idx.len(),
{
    if idx.len() > 0 {
        lemma_sorted_below(attrs, idx.drop_last());
        lemma_insert_below(attrs, sort_by_vcn(attrs, idx.drop_last()), idx.last());
    }
}

fn insert_sorted(attrs: &Vec<Attribute>, sorted: Vec<usize>, i: usize) -> (r: Vec<usize>)
    requires
        indices_below(sorted@, attrs@.len() as int),
        i < attrs@.len(),
    ensures
        r@ == insert_by_vcn(attrs@, sorted@, i),
        indices_below(r@, attrs@.len() as int),
    decreases sorted@.len(),
{
    proof {
        lemma_insert_below(attrs@, sorted@, i);
    }
    if sorted.len() == 0 {
        let mut v: Vec<usize> = Vec::new();
        v.push(i);
        return v;
    }
    let last: usize = sorted[sorted.len() - 1];
    if attrs[last].starting_vcn() <= attrs[i].starting_vcn() {
        let mut s: Vec<usize> = sorted;
        s.push(i);
        s
    } else {
        let mut s: Vec<usize> = sorted;
        let ghost s0: Seq<usize> = s@;
        s.pop();
        assert(s@ =~= s0.drop_last());
        let mut t: Vec<usize> = insert_sorted(attrs, s, i);
        t.push(last);
        t
    }
}

/// Stable sort of attribute indices by starting VCN.
fn sort_indices(attrs: &Vec<Attribute>, idx: &Vec<usize>) -> (r: Vec<usize>)
    requires
        indices_below(idx@, attrs@.len() as int),
    ensures
        r@ == sort_by_vcn(attrs@, idx@),
{
    let mut sorted: Vec<usize> = Vec::new();
    let mut j: usize = 0;
    while j < idx.len()
        invariant
            j <= idx@.len(),
            indices_below(idx@, attrs@.len() as int),
            sorted@ == sort_by_vcn(attrs@, idx@.subrange(0, j as int)),
            indices_below(sorted@, attrs@.len() as int),
        decreases idx.len() - j,
    {
        assert(idx@.subrange(0, j + 1).drop_last() =~= idx@.subrange(0, j as int));
        assert(idx@[j as int] < attrs@.len());
        sorted = insert_sorted(attrs, sorted, idx[j]);
        j += 1;
    }
    assert(idx@.subrange(0, idx@.len() as int) =~= idx@);
    sorted
}

/// What `recoverability_score` returns.
pub open spec fn spec_recoverability(rec: MftRecord) -> u8 {
    if rec.bytes@.len() == 0 {
        0
    } else if forall|i: int| 0 <= i < rec.attributes@.len() && is_unnamed_data(#[trigger] rec.attributes@[i]) ==> !rec.attributes@[i].non_resident {
        95
    } else {
        match first_unnamed_data(rec.attributes@, 0) {
            None => 40,
            Some(k) => match spec_run_list(rec.attributes@[k]) {
                Some(rs) => if rs.len() > 0 {
                    80
                } else {
                    30
                },
                None => 40,
            },
        }
    }
}

/// `rec` is what `MftRecord::parse` yields for `buf`: an uninitialised
/// record for anything but a `FILE` record; else the header fields, the
/// bytes after fixup and the attributes that parse from them.
/// The record bytes `buf` parse: they hold a whole record, and where they
/// carry the `FILE` magic, a plausible used size and intact fixups.
pub open spec fn mft_parse_ok(buf: Seq<u8>, bps: u16, record_size: u32) -> bool {
    let b = buf.subrange(0, record_size as int);
    &&& buf.len() >= record_size
    &&& has_file_magic(buf) ==> 0 < le32(buf, 0x18) <= record_size && spec_fixup(
        b,
        bps as int,
        le16(b, 4),
        le16(b, 6),
    ) is Ok
}

pub open spec fn record_parsed(buf: Seq<u8>, bps: u16, record_size: u32, rec: MftRecord) -> bool {
    let b = buf.subrange(0, record_size as int);
    &&& buf.len() >= record_size
    &&& if !has_file_magic(buf) {
        rec.record_bytes().len() == 0 && rec.attrs().len() == 0 && rec.flags == 0 && rec.base_record_ref == 0
            && rec.mft_record_number is None
    } else {
        &&& 0 < le32(buf, 0x18) <= record_size
        &&& spec_fixup(b, bps as int, le16(b, 4), le16(b, 6)) matches Ok(fixed) && rec.record_bytes() == fixed
            && rec.flags == le16(b, 0x16) && rec.sequence == le16(b, 0x10) && rec.used_size == le32(b, 0x18)
            && rec.allocated_size == le32(b, 0x1C) && rec.first_attribute_offset == le16(b, 0x14)
            && rec.base_record_ref == le64(b, 0x20) && rec.mft_record_number == (if record_size >= 0x30 {
            Some(le32(b, 0x2C) as u64)
        } else {
            None::<u64>
        }) && rec.attrs().len() == parsing_windows(fixed, attr_windows(fixed, le16(b, 0x14), le32(b, 0x18))).len()
            && forall|i: int|
            0 <= i < rec.attrs().len() ==> parsed_from(
                #[trigger] rec.attrs()[i],
                window_at(fixed, parsing_windows(fixed, attr_windows(fixed, le16(b, 0x14), le32(b, 0x18)))[i]),
            )
    }
}

impl MftRecord {
    /// The record bytes after fixup (empty when uninitialised).
    pub open spec fn record_bytes(&self) -> Seq<u8> {
        self.bytes@
    }

    /// The record's attributes.
    pub open spec fn attrs(&self) -> Seq<Attribute> {
        self.attributes@
    }

    /// Parse a FILE record of `record_size` bytes. Anything but a `FILE`
    /// record is returned as an uninitialised record.
    pub fn parse(buf: &[u8], bytes_per_sector: u16, record_size: u32) -> (r: Result<Self, Error>)
        requires
            buf@.len() >= record_size ==> record_size >= 4 && (has_file_magic(buf@) ==> record_size >= 0x28),
        ensures
            buf@.len() < record_size ==> r == Err::<Self, Error>(
                Error::UnexpectedEof { offset: 0, need: record_size as usize, have: buf@.len() as usize },
            ),
            r matches Ok(rec) ==> record_parsed(buf@, bytes_per_sector, record_size, rec),
            r is Ok <==> mft_parse_ok(buf@, bytes_per_sector, record_size),
            buf@.len() >= record_size && !has_file_magic(buf@) ==> (r matches Ok(rec)
                && rec.record_bytes().len() == 0 && rec.attrs().len() == 0 && rec.flags == 0
                && rec.base_record_ref == 0 && rec.mft_record_number is None),
            buf@.len() >= record_size && has_file_magic(buf@) && (le32(buf@, 0x18) == 0 || le32(buf@, 0x18) > record_size)
                ==> (r matches Err(e) && is_corrupt(
                e,
                "mft_record"@,
                0,
                "implausible used_size "@ + decimal(le32(buf@, 0x18) as nat) + " (record_size "@ + decimal(record_size as nat) + ")"@,
            )),
            buf@.len() >= record_size && has_file_magic(buf@) && 0 < le32(buf@, 0x18) <= record_size ==> ({
                let b = buf@.subrange(0, record_size as int);
                match spec_fixup(b, bytes_per_sector as int, le16(b, 4), le16(b, 6)) {
                    Err(f) => r matches Err(e) && crate::filesystem::ntfs::mft::fixup_error(f, e),
                    Ok(fixed) => r matches Ok(rec) && rec.record_bytes() == fixed
                        && rec.flags == le16(b, 0x16) && rec.sequence == le16(b, 0x10)
                        && rec.used_size == le32(b, 0x18) && rec.allocated_size == le32(b, 0x1C)
                        && rec.first_attribute_offset == le16(b, 0x14)
                        && rec.base_record_ref == le64(b, 0x20)
                        && rec.mft_record_number == (if record_size >= 0x30 { Some(le32(b, 0x2C) as u64) } else { None::<u64> })
                        && rec.attrs().len() == parsing_windows(fixed, attr_windows(fixed, le16(b, 0x14), le32(b, 0x18))).len()
                        && forall|i: int| 0 <= i < rec.attrs().len() ==> parsed_from(#[trigger] rec.attrs()[i],
                            window_at(fixed, parsing_windows(fixed, attr_windows(fixed, le16(b, 0x14), le32(b, 0x18)))[i])),
                }
            }),
    {
        let rs: usize = record_size as usize;
        if buf.len() < rs {
            return Err(Error::UnexpectedEof { offset: 0, need: rs, have: buf.len() });
        }
        let buf: &[u8] = &buf[0..rs];
        if !(buf[0] == 0x46 && buf[1] == 0x49 && buf[2] == 0x4C && buf[3] == 0x45) {
            return Ok(MftRecord::uninitialised());
        }
        let usa_offset: usize = read_u16_le(buf, 0x04).unwrap() as usize;
        let usa_count: usize = read_u16_le(buf, 0x06).unwrap() as usize;
        let sequence: u16 = read_u16_le(buf, 0x10).unwrap();
        let first_attribute_offset: u16 = read_u16_le(buf, 0x14).unwrap();
        let flags: u16 = read_u16_le(buf, 0x16).unwrap();
        let used_size: u32 = read_u32_le(buf, 0x18).unwrap();
        let allocated_size: u32 = read_u32_le(buf, 0x1C).unwrap();
        let base_record_ref: u64 = read_u64_le(buf, 0x20).unwrap();
        let record_number: Option<u64> = if buf.len() >= 0x30 {
            Some(read_u32_le(buf, 0x2C).unwrap() as u64)
        } else {
            None
        };
        if used_size == 0 || used_size > record_size {
            let mut detail: String = String::from_str("implausible used_size ");
            push_decimal(&mut detail, used_size as u64);
            detail.append(" (record_size ");
            push_decimal(&mut detail, record_size as u64);
            detail.append(")");
            return Err(Error::corrupt("mft_record", 0, detail));
        }
        let mut bytes: Vec<u8> = vstd::slice::slice_to_vec(buf);
        proof {
            lemma_spec_fixup_keeps_len(bytes@, bytes_per_sector as int, usa_offset as int, usa_count as int);
        }
        match apply_fixup(&mut bytes, bytes_per_sector, usa_offset, usa_count) {
            Ok(()) => {},
            Err(e) => return Err(e),
        }
        let attributes: Vec<Attribute> = parse_attributes(
            bytes.as_slice(),
            first_attribute_offset as usize,
            used_size as usize,
        );
        Ok(
            MftRecord {
                bytes,
                used_size,
                allocated_size,
                flags,
                sequence,
                first_attribute_offset,
                mft_record_number: record_number,
                base_record_ref,
                attributes,
            },
        )
    }

    fn uninitialised() -> (r: Self)
        ensures
            r.record_bytes().len() == 0,
            r.attrs().len() == 0,
            r.used_size == 0,
            r.allocated_size == 0,
            r.flags == 0,
            r.sequence == 0,
            r.first_attribute_offset == 0,
            r.base_record_ref == 0,
            r.mft_record_number is None,
    {
        MftRecord {
            bytes: Vec::new(),
            used_size: 0,
            allocated_size: 0,
            flags: 0,
            sequence: 0,
            first_attribute_offset: 0,
            mft_record_number: None,
            base_record_ref: 0,
            attributes: Vec::new(),
        }
    }

    /// Whether this came from a `FILE` record.
    pub fn is_initialised(&self) -> (r: bool)
        ensures
            r == (self.record_bytes().len() > 0),
    {
        self.bytes.len() > 0
    }

    /// In-use flag (clear for deleted records).
    pub fn is_in_use(&self) -> (r: bool)
        ensures
            r == (self.flags & FLAG_IN_USE != 0),
    {
        self.flags & FLAG_IN_USE != 0
    }

    /// Directory flag.
    pub fn is_directory(&self) -> (r: bool)
        ensures
            r == (self.flags & FLAG_DIRECTORY != 0),
    {
        self.flags & FLAG_DIRECTORY != 0
    }

    /// Record number stored in the header, when present.
    pub fn record_index(&self) -> (r: Option<u64>)
        ensures
            r == self.mft_record_number,
    {
        self.mft_record_number
    }

    /// Whether this record extends another (non-zero base reference).
    pub fn is_extension_record(&self) -> (r: bool)
        ensures
            r == (self.base_record_ref != 0),
    {
        self.base_record_ref != 0
    }

    /// Entries of the first `$ATTRIBUTE_LIST` attribute, if any.
    pub fn attribute_list_entries(&self) -> (r: Option<Vec<AttributeListEntry>>)
        ensures
            match first_alist(self.attrs(), 0) {
                None => r is None,
                Some(k) => alist_result(self.attrs()[k], r),
            },
    {
        let mut k: usize = 0;
        while k < self.attributes.len()
            invariant
                k <= self.attributes@.len(),
                first_alist(self.attributes@, 0) == first_alist(self.attributes@, k as int),
            decreases self.attributes.len() - k,
        {
            if self.attributes[k].kind == AttributeType::AttributeList {
                return self.attributes[k].parse_attribute_list();
            }
            k += 1;
        }
        None
    }

    /// Append an attribute taken from an extension record.
    pub fn append_attribute(&mut self, attr: Attribute)
        ensures
            final(self).attrs() == old(self).attrs().push(attr),
            final(self).record_bytes() == old(self).record_bytes(),
            final(self).flags == old(self).flags,
            final(self).mft_record_number == old(self).mft_record_number,
            final(self).base_record_ref == old(self).base_record_ref,
    {
        self.attributes.push(attr);
    }

    /// Consume the record, keeping its attributes.
    pub fn take_attributes(self) -> (r: Vec<Attribute>)
        ensures
            r@ == self.attrs(),
    {
        self.attributes
    }

    /// Name of the best `$FILE_NAME`.
    pub fn best_name(&self) -> (r: Option<String>)
        ensures
            match best_upto(self.attrs(), self.attrs().len() as int) {
                None => r is None,
                Some(f) => r matches Some(s) && s@ == f.2,
            },
    {
        match self.best_filename() {
            Some(f) => Some(f.name),
            None => None,
        }
    }

    /// The best `$FILE_NAME` with its parent: the first of the highest
    /// namespace priority (Win32+DOS, Win32, POSIX, DOS).
    pub fn best_filename(&self) -> (r: Option<FileName>)
        ensures
            match best_upto(self.attrs(), self.attrs().len() as int) {
                None => r is None,
                Some(f) => r matches Some(x) && x.parent_record == f.0 && x.namespace == f.1 && x.name@ == f.2,
            },
    {
        let mut best: Option<FileName> = None;
        let mut k: usize = 0;
        while k < self.attributes.len()
            invariant
                k <= self.attributes@.len(),
                match best_upto(self.attributes@, k as int) {
                    None => best is None,
                    Some(f) => best matches Some(x) && x.parent_record == f.0 && x.namespace == f.1 && x.name@ == f.2,
                },
            decreases self.attributes.len() - k,
        {
            let a: &Attribute = &self.attributes[k];
            k += 1;
            if a.kind != AttributeType::FileName {
                continue;
            }
            let fname: FileName = match a.parse_filename_full() {
                Some(f) => f,
                None => continue,
            };
            let beats: bool = match &best {
                None => true,
                Some(b) => ns_priority(fname.namespace) > ns_priority(b.namespace),
            };
            if beats {
                best = Some(fname);
            }
        }
        best
    }

    /// Modification time (FILETIME) from the first `$STANDARD_INFORMATION`
    /// that holds one.
    pub fn modified_time(&self) -> (r: Option<u64>)
        ensures
            r == std_time_from(self.attrs(), 0),
    {
        let mut k: usize = 0;
        while k < self.attributes.len()
            invariant
                k <= self.attributes@.len(),
                std_time_from(self.attributes@, 0) == std_time_from(self.attributes@, k as int),
            decreases self.attributes.len() - k,
        {
            if self.attributes[k].kind == AttributeType::StandardInformation {
                match self.attributes[k].parse_std_modified() {
                    Some(t) => {
                        return Some(t);
                    },
                    None => {},
                }
            }
            k += 1;
        }
        None
    }

    /// Logical file size: from the last unnamed `$DATA` at VCN 0, else the
    /// first other unnamed `$DATA`, else 0.
    pub fn real_size(&self) -> (r: u64)
        ensures
            r == (match anchor_upto(self.attrs(), self.attrs().len() as int) {
                Some(k) => spec_value_size(self.attrs()[k]),
                None => match fallback_upto(self.attrs(), self.attrs().len() as int) {
                    Some(k) => spec_value_size(self.attrs()[k]),
                    None => 0,
                },
            }),
    {
        let mut anchor: Option<usize> = None;
        let mut fallback: Option<usize> = None;
        let mut k: usize = 0;
        while k < self.attributes.len()
            invariant
                k <= self.attributes@.len(),
                anchor == (match anchor_upto(self.attributes@, k as int) {
                    Some(i) => Some(i as usize),
                    None => None::<usize>,
                }),
                fallback == (match fallback_upto(self.attributes@, k as int) {
                    Some(i) => Some(i as usize),
                    None => None::<usize>,
                }),
                anchor_upto(self.attributes@, k as int) matches Some(i) ==> 0 <= i < k,
                fallback_upto(self.attributes@, k as int) matches Some(i) ==> 0 <= i < k,
            decreases self.attributes.len() - k,
        {
            let a: &Attribute = &self.attributes[k];
            if a.kind == AttributeType::Data && a.is_unnamed() {
                if a.starting_vcn() == 0 {
                    anchor = Some(k);
                } else if fallback.is_none() {
                    fallback = Some(k);
                }
            }
            k += 1;
        }
        match anchor {
            Some(i) => self.attributes[i].value_size(),
            None => match fallback {
                Some(i) => self.attributes[i].value_size(),
                None => 0,
            },
        }
    }

    /// Whether every unnamed `$DATA` attribute is resident (true when none).
    pub fn is_data_resident(&self) -> (r: bool)
        ensures
            r == (forall|i: int| 0 <= i < self.attrs().len() && is_unnamed_data(#[trigger] self.attrs()[i]) ==> !self.attrs()[i].non_resident),
    {
        let mut found_any: bool = false;
        let mut all_resident: bool = true;
        let mut k: usize = 0;
        while k < self.attributes.len()
            invariant
                k <= self.attributes@.len(),
                !found_any ==> all_resident,
                all_resident == (forall|i: int| 0 <= i < k && is_unnamed_data(#[trigger] self.attributes@[i]) ==> !self.attributes@[i].non_resident),
            decreases self.attributes.len() - k,
        {
            let a: &Attribute = &self.attributes[k];
            if a.kind == AttributeType::Data && a.is_unnamed() {
                found_any = true;
                if a.non_resident {
                    all_resident = false;
                }
            }
            k += 1;
        }
        !found_any || all_resident
    }

    /// Device extents of the file's unnamed `$DATA`: `None` without one, empty
    /// when resident or when the geometry is inconsistent; otherwise the
    /// non-resident chunks in starting-VCN order, each run scaled from
    /// clusters to sectors and offset by the partition start (sparse and
    /// negative runs dropped, chunks whose run list fails skipped).
    pub fn data_runs(&self, cluster_bytes: u32, bytes_per_sector: u16, partition_start_lba: u64) -> (r: Option<Vec<DataRun>>)
        ensures
            match spec_data_runs(self.attrs(), cluster_bytes, bytes_per_sector, partition_start_lba) {
                None => r is None,
                Some(s) => r matches Some(v) && v@ == s,
            },
    {
        let mut any: bool = false;
        let mut nonres: Vec<usize> = Vec::new();
        let mut k: usize = 0;
        while k < self.attributes.len()
            invariant
                k <= self.attributes@.len(),
                any == (exists|i: int| 0 <= i < k && is_unnamed_data(#[trigger] self.attributes@[i])),
                nonres@ == nonres_chunks(self.attributes@, k as int),
                indices_below(nonres@, self.attributes@.len() as int),
            decreases self.attributes.len() - k,
        {
            let a: &Attribute = &self.attributes[k];
            if a.kind == AttributeType::Data && a.is_unnamed() {
                any = true;
                assert(is_unnamed_data(self.attributes@[k as int]));
                if a.non_resident {
                    nonres.push(k);
                }
            }
            k += 1;
        }
        if !any {
            return None;
        }
        if nonres.len() == 0 {
            return Some(Vec::new());
        }
        let order: Vec<usize> = sort_indices(&self.attributes, &nonres);
        if bytes_per_sector == 0 || cluster_bytes == 0 || cluster_bytes % (bytes_per_sector as u32) != 0 {
            return Some(Vec::new());
        }
        let spc: u64 = (cluster_bytes / (bytes_per_sector as u32)) as u64;
        proof {
            lemma_sorted_below(self.attributes@, nonres@);
        }
        let mut out: Vec<DataRun> = Vec::new();
        let mut j: usize = 0;
        while j < order.len()
            invariant
                j <= order@.len(),
                order@ == sort_by_vcn(self.attributes@, nonres@),
                indices_below(order@, self.attributes@.len() as int),
                out@ == chunk_extents(self.attributes@, order@.subrange(0, j as int), spc, partition_start_lba),
            decreases order.len() - j,
        {
            let ghost prefix: Seq<DataRun> = out@;
            assert(order@.subrange(0, j + 1).drop_last() =~= order@.subrange(0, j as int));
            assert(order@[j as int] < self.attributes@.len());
            let chunk: &Attribute = &self.attributes[order[j]];
            match chunk.run_list() {
                Ok(runs) => {
                    let mut q: usize = 0;
                    while q < runs.len()
                        invariant
                            q <= runs@.len(),
                            out@ == prefix + runs_to_extents(runs@.subrange(0, q as int), spc, partition_start_lba),
                        decreases runs.len() - q,
                    {
                        assert(runs@.subrange(0, q + 1).drop_last() =~= runs@.subrange(0, q as int));
                        let run: RawRun = runs[q];
                        let length_sectors: u64 = saturating_mul(run.length_clusters, spc);
                        match run.lcn {
                            None => {},
                            Some(lcn) => {
                                if lcn >= 0 {
                                    let volume_sector: u64 = saturating_mul(lcn as u64, spc);
                                    out.push(
                                        DataRun {
                                            start_lba: partition_start_lba.saturating_add(volume_sector),
                                            length_sectors,
                                        },
                                    );
                                }
                            },
                        }
                        assert(out@ =~= prefix + runs_to_extents(runs@.subrange(0, q + 1), spc, partition_start_lba));
                        q += 1;
                    }
                    assert(runs@.subrange(0, runs@.len() as int) =~= runs@);
                },
                Err(_) => {
                    assert(out@ =~= prefix + Seq::<DataRun>::empty());
                },
            }
            j += 1;
        }
        assert(order@.subrange(0, order@.len() as int) =~= order@);
        Some(out)
    }

    /// Upper-case hex of the first `max` bytes of the first resident unnamed
    /// `$DATA` value; empty when there is none.
    pub fn head_hex(&self, max: usize) -> (r: String)
        ensures
            r@ == head_hex_from(self.attrs(), 0, max as int),
    {
        let mut k: usize = 0;
        while k < self.attributes.len()
            invariant
                k <= self.attributes@.len(),
                head_hex_from(self.attributes@, 0, max as int) == head_hex_from(self.attributes@, k as int, max as int),
            decreases self.attributes.len() - k,
        {
            let a: &Attribute = &self.attributes[k];
            if a.kind == AttributeType::Data && a.is_unnamed() && !a.non_resident {
                match a.resident_value() {
                    Some(bytes) => {
                        let n: usize = if max < bytes.len() {
                            max
                        } else {
                            bytes.len()
                        };
                        return hex_string(&bytes[0..n]);
                    },
                    None => {},
                }
            }
            k += 1;
        }
        String::new()
    }

    /// 0..=100 estimate of how likely recovery is to succeed: 0 when
    /// uninitialised, 95 when resident, 80 for a non-empty run list, 30 for
    /// an empty one, 40 when it does not decode.
    #[verifier::loop_isolation(false)]
    pub fn recoverability_score(&self) -> (r: u8)
        ensures
            r == spec_recoverability(*self),
    {
        if !self.is_initialised() {
            return 0;
        }
        if self.is_data_resident() {
            return 95;
        }
        let mut k: usize = 0;
        while k < self.attributes.len()
            invariant
                k <= self.attributes@.len(),
                first_unnamed_data(self.attributes@, 0) == first_unnamed_data(self.attributes@, k as int),
            decreases self.attributes.len() - k,
        {
            let a: &Attribute = &self.attributes[k];
            if a.kind == AttributeType::Data && a.is_unnamed() {
                return match a.run_list() {
                    Ok(rs) => if rs.len() > 0 {
                        80
                    } else {
                        30
                    },
                    Err(_) => 40,
                };
            }
            k += 1;
        }
        40
    }
}

} // verus!
