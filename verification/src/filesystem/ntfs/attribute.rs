//! NTFS attribute parser: the common header, resident and non-resident
//! layouts, and the values of `$FILE_NAME`, `$ATTRIBUTE_LIST` and
//! `$STANDARD_INFORMATION`.

use crate::bytes::{le16, le32, le64, read_u16_le, read_u32_le, read_u64_le};
use crate::error::Error;
use crate::filesystem::ntfs::boot::is_corrupt;
use crate::filesystem::ntfs::runlist::{decode, decode_from, fault_error, RawRun};
use crate::strings::{decimal, from_utf16_lossy, push_decimal, utf16_lossy_text};
use vstd::prelude::*;

verus! {

/// Attribute type codes.
#[derive(Debug, Clone, Copy, PartialEq, Eq, Structural)]
pub enum AttributeType {
    StandardInformation,
    AttributeList,
    FileName,
    ObjectId,
    SecurityDescriptor,
    VolumeName,
    VolumeInformation,
    Data,
    IndexRoot,
    IndexAllocation,
    Bitmap,
    ReparsePoint,
    EaInformation,
    Ea,
    LoggedUtilityStream,
    Other(u32),
}

/// Numeric code of an attribute type.
pub open spec fn spec_to_u32(t: AttributeType) -> u32 {
    match t {
        AttributeType::StandardInformation => 0x10,
        AttributeType::AttributeList => 0x20,
        AttributeType::FileName => 0x30,
        AttributeType::ObjectId => 0x40,
        AttributeType::SecurityDescriptor => 0x50,
        AttributeType::VolumeName => 0x60,
        AttributeType::VolumeInformation => 0x70,
        AttributeType::Data => 0x80,
        AttributeType::IndexRoot => 0x90,
        AttributeType::IndexAllocation => 0xA0,
        AttributeType::Bitmap => 0xB0,
        AttributeType::ReparsePoint => 0xC0,
        AttributeType::EaInformation => 0xD0,
        AttributeType::Ea => 0xE0,
        AttributeType::LoggedUtilityStream => 0x100,
        AttributeType::Other(v) => v,
    }
}

/// Attribute type of a numeric code; unknown codes become `Other`.
pub open spec fn spec_from_u32(v: u32) -> AttributeType {
    if v == 0x10 {
        AttributeType::StandardInformation
    } else if v == 0x20 {
        AttributeType::AttributeList
    } else if v == 0x30 {
        AttributeType::FileName
    } else if v == 0x40 {
        AttributeType::ObjectId
    } else if v == 0x50 {
        AttributeType::SecurityDescriptor
    } else if v == 0x60 {
        AttributeType::VolumeName
    } else if v == 0x70 {
        AttributeType::VolumeInformation
    } else if v == 0x80 {
        AttributeType::Data
    } else if v == 0x90 {
        AttributeType::IndexRoot
    } else if v == 0xA0 {
        AttributeType::IndexAllocation
    } else if v == 0xB0 {
        AttributeType::Bitmap
    } else if v == 0xC0 {
        AttributeType::ReparsePoint
    } else if v == 0xD0 {
        AttributeType::EaInformation
    } else if v == 0xE0 {
        AttributeType::Ea
    } else if v == 0x100 {
        AttributeType::LoggedUtilityStream
    } else {
        AttributeType::Other(v)
    }
}

/// `Other` is only used for codes that have no named variant.
pub open spec fn is_canonical(t: AttributeType) -> bool {
    t matches AttributeType::Other(v) ==> !(spec_from_u32(v) !is Other)
}

impl AttributeType {
    /// Numeric code.
    pub fn to_u32(self) -> (r: u32)
        ensures
            r == spec_to_u32(self),
    {
        match self {
            AttributeType::StandardInformation => 0x10,
            AttributeType::AttributeList => 0x20,
            AttributeType::FileName => 0x30,
            AttributeType::ObjectId => 0x40,
            AttributeType::SecurityDescriptor => 0x50,
            AttributeType::VolumeName => 0x60,
            AttributeType::VolumeInformation => 0x70,
            AttributeType::Data => 0x80,
            AttributeType::IndexRoot => 0x90,
            AttributeType::IndexAllocation => 0xA0,
            AttributeType::Bitmap => 0xB0,
            AttributeType::ReparsePoint => 0xC0,
            AttributeType::EaInformation => 0xD0,
            AttributeType::Ea => 0xE0,
            AttributeType::LoggedUtilityStream => 0x100,
            AttributeType::Other(v) => v,
        }
    }

    /// Type of a numeric code.
    pub fn from_u32(v: u32) -> (r: Self)
        ensures
            r == spec_from_u32(v),
    {
        match v {
            0x10 => AttributeType::StandardInformation,
            0x20 => AttributeType::AttributeList,
            0x30 => AttributeType::FileName,
            0x40 => AttributeType::ObjectId,
            0x50 => AttributeType::SecurityDescriptor,
            0x60 => AttributeType::VolumeName,
            0x70 => AttributeType::VolumeInformation,
            0x80 => AttributeType::Data,
            0x90 => AttributeType::IndexRoot,
            0xA0 => AttributeType::IndexAllocation,
            0xB0 => AttributeType::Bitmap,
            0xC0 => AttributeType::ReparsePoint,
            0xD0 => AttributeType::EaInformation,
            0xE0 => AttributeType::Ea,
            0x100 => AttributeType::LoggedUtilityStream,
            other => AttributeType::Other(other),
        }
    }
}

/// Decoding a code and encoding the type gives the code back; encoding a
/// type (with `Other` only for unnamed codes) and decoding gives the type back.
pub proof fn law_attribute_type_round_trip(v: u32, t: AttributeType)
    requires
        is_canonical(t),
    ensures
        spec_to_u32(spec_from_u32(v)) == v,
        spec_from_u32(spec_to_u32(t)) == t,
{
}

/// Resident layout fields.
#[derive(Debug, Clone, Copy, PartialEq, Eq, Structural)]
pub struct ResidentLayout {
    pub value_length: u32,
    pub value_offset: u16,
}

/// Non-resident layout fields.
#[derive(Debug, Clone, Copy, PartialEq, Eq, Structural)]
pub struct NonResidentLayout {
    pub starting_vcn: u64,
    pub last_vcn: u64,
    pub run_list_offset: u16,
    pub allocated_size: u64,
    pub real_size: u64,
    pub initialised_size: u64,
}

/// A parsed attribute with its raw bytes.
#[derive(Debug, Clone)]
pub struct Attribute {
    pub kind: AttributeType,
    pub name: String,
    pub flags: u16,
    pub attribute_id: u16,
    pub non_resident: bool,
    pub raw: Vec<u8>,
    /// Resident layout (None if non-resident).
    pub resident: Option<ResidentLayout>,
    /// Non-resident layout (None if resident).
    pub non_resident_layout: Option<NonResidentLayout>,
}

/// One `$FILE_NAME` value.
#[derive(Debug, Clone)]
pub struct FileName {
    /// Parent directory's MFT record number (low 48 bits of the reference).
    pub parent_record: u64,
    /// 0 = POSIX, 1 = Win32, 2 = DOS, 3 = Win32 and DOS.
    pub namespace: u8,
    /// Decoded leaf name.
    pub name: String,
}

/// One `$ATTRIBUTE_LIST` entry: where one of the file's attributes lives.
#[derive(Debug, Clone)]
pub struct AttributeListEntry {
    pub kind: AttributeType,
    pub name: String,
    pub starting_vcn: u64,
    /// MFT record holding the attribute (low 48 bits of the reference).
    pub mft_record: u64,
    pub mft_sequence: u16,
    pub attribute_id: u16,
}

/// `n` little-endian UTF-16 code units starting at `off`.
pub open spec fn utf16_units(b: Seq<u8>, off: int, n: int) -> Seq<u16> {
    Seq::new(n as nat, |i: int| le16(b, off + 2 * i) as u16)
}

/// Name of the attribute whose header is `b`: empty when absent or out of bounds.
pub open spec fn header_name(b: Seq<u8>) -> Seq<char> {
    let n = b[9] as int;
    let off = le16(b, 10);
    if n == 0 || off + n * 2 > b.len() {
        Seq::empty()
    } else {
        utf16_lossy_text(utf16_units(b, off, n))
    }
}

/// `a` is the attribute that parsing `b` yields.
pub open spec fn parsed_from(a: Attribute, b: Seq<u8>) -> bool {
    &&& a.kind == spec_from_u32(le32(b, 0) as u32)
    &&& a.name@ == header_name(b)
    &&& a.flags == le16(b, 12)
    &&& a.attribute_id == le16(b, 14)
    &&& a.non_resident == (b[8] != 0)
    &&& a.raw@ == b
    &&& if b[8] != 0 {
        &&& a.resident is None
        &&& a.non_resident_layout == Some(
            NonResidentLayout {
                starting_vcn: le64(b, 16) as u64,
                last_vcn: le64(b, 24) as u64,
                run_list_offset: le16(b, 32) as u16,
                allocated_size: le64(b, 40) as u64,
                real_size: le64(b, 48) as u64,
                initialised_size: le64(b, 56) as u64,
            },
        )
    } else {
        &&& a.resident == Some(
            ResidentLayout { value_length: le32(b, 16) as u32, value_offset: le16(b, 20) as u16 },
        )
        &&& a.non_resident_layout is None
    }
}

/// Read `n` UTF-16 code units at `off`.
fn read_units(buf: &[u8], off: usize, n: usize) -> (r: Vec<u16>)
    requires
        off + 2 * n <= buf@.len(),
    ensures
        r@ == utf16_units(buf@, off as int, n as int),
{
    let mut codes: Vec<u16> = Vec::new();
    let mut i: usize = 0;
    while i < n
        invariant
            i <= n,
            off + 2 * n <= buf@.len(),
            buf@.len() == buf.len(),
            codes@ =~= utf16_units(buf@, off as int, i as int),
        decreases n - i,
    {
        let c: u16 = read_u16_le(buf, off + 2 * i).unwrap();
        codes.push(c);
        i += 1;
    }
    codes
}

/// The resident value of `a`, when it lies inside the raw bytes.
pub open spec fn spec_resident_value(a: Attribute) -> Option<Seq<u8>> {
    match a.resident {
        None => None,
        Some(r) => if r.value_offset + r.value_length <= a.raw@.len() {
            Some(a.raw@.subrange(r.value_offset as int, r.value_offset + r.value_length))
        } else {
            None
        },
    }
}

/// Entry offsets of an `$ATTRIBUTE_LIST` value walked from `cursor`, with
/// `count` entries already taken (at most 4096 in all).
pub open spec fn alist_offsets(v: Seq<u8>, cursor: int, count: int) -> Seq<int>
    decreases v.len() - cursor,
{
    if cursor < 0 || cursor + 0x1A > v.len() || count >= 4096 {
        Seq::empty()
    } else {
        let rec_len = le16(v, cursor + 4);
        if rec_len < 0x1A || cursor + rec_len > v.len() {
            Seq::empty()
        } else {
            seq![cursor] + alist_offsets(v, cursor + rec_len, count + 1)
        }
    }
}

/// Seconds between 1601-01-01 and 1970-01-01, both UTC.
pub const FILETIME_UNIX_OFFSET_SECS: i64 = 11_644_473_600;

/// A Windows FILETIME as Unix time: whole seconds since 1970-01-01 UTC
/// (negative before it) and the nanoseconds past that second.
pub fn filetime_to_unix(ft: u64) -> (r: (i64, u32))
    ensures
        r.0 == ft / 10_000_000 - FILETIME_UNIX_OFFSET_SECS,
        r.1 == (ft % 10_000_000) * 100,
        r.1 < 1_000_000_000,
{
    let secs: i64 = (ft / 10_000_000) as i64 - FILETIME_UNIX_OFFSET_SECS;
    let nanos: u32 = ((ft % 10_000_000) * 100) as u32;
    (secs, nanos)
}

/// `e` is the list entry at offset `c` of value `v`.
pub open spec fn alist_entry_at(e: AttributeListEntry, v: Seq<u8>, c: int) -> bool {
    let rec_len = le16(v, c + 4);
    let name_len = v[c + 6] as int;
    let name_off = v[c + 7] as int;
    let mft_ref = le64(v, c + 0x10) as u64;
    &&& e.kind == spec_from_u32(le32(v, c) as u32)
    &&& e.starting_vcn == le64(v, c + 8)
    &&& e.mft_record == mft_ref & 0x0000_FFFF_FFFF_FFFF
    &&& e.mft_sequence == ((mft_ref >> 48u64) & 0xFFFF) as u16
    &&& e.attribute_id == le16(v, c + 0x18)
    &&& e.name@ == (if name_len > 0 && name_off + name_len * 2 <= rec_len {
        utf16_lossy_text(utf16_units(v, c + name_off, name_len))
    } else {
        Seq::empty()
    })
}

impl Attribute {
    /// Parse one attribute from `buf`, which starts at its header.
    pub fn parse(buf: &[u8]) -> (r: Result<Self, Error>)
        ensures
            buf@.len() < 16 ==> r == Err::<Self, Error>(
                Error::UnexpectedEof { offset: 0, need: 16, have: buf@.len() as usize },
            ),
            buf@.len() >= 16 && (le32(buf@, 4) < 16 || le32(buf@, 4) > buf@.len()) ==> (r matches Err(
                e,
            ) && is_corrupt(
                e,
                "ntfs_attr"@,
                0,
                "invalid attribute length "@ + decimal(le32(buf@, 4) as nat),
            )),
            buf@.len() >= 16 && 16 <= le32(buf@, 4) <= buf@.len() && buf@[8] != 0 && buf@.len() < 64
                ==> r == Err::<Self, Error>(
                Error::UnexpectedEof { offset: 0, need: 64, have: buf@.len() as usize },
            ),
            buf@.len() >= 16 && 16 <= le32(buf@, 4) <= buf@.len() && buf@[8] == 0 && buf@.len() < 24
                ==> r == Err::<Self, Error>(
                Error::UnexpectedEof { offset: 0, need: 24, have: buf@.len() as usize },
            ),
            buf@.len() >= 16 && 16 <= le32(buf@, 4) <= buf@.len() && (if buf@[8] != 0 {
                buf@.len() >= 64
            } else {
                buf@.len() >= 24
            }) ==> (r matches Ok(a) && parsed_from(a, buf@)),
    {
        if buf.len() < 16 {
            return Err(Error::UnexpectedEof { offset: 0, need: 16, have: buf.len() });
        }
        let ty: u32 = read_u32_le(buf, 0).unwrap();
        let kind: AttributeType = AttributeType::from_u32(ty);
        let length: usize = read_u32_le(buf, 4).unwrap() as usize;
        if length < 16 || length > buf.len() {
            let mut detail: String = String::from_str("invalid attribute length ");
            push_decimal(&mut detail, length as u64);
            return Err(Error::corrupt("ntfs_attr", 0, detail));
        }
        let non_resident: bool = buf[8] != 0;
        let name_len: usize = buf[9] as usize;
        let name_off: usize = read_u16_le(buf, 10).unwrap() as usize;
        let flags: u16 = read_u16_le(buf, 12).unwrap();
        let attribute_id: u16 = read_u16_le(buf, 14).unwrap();
        let name: String = if name_len == 0 {
            String::new()
        } else if name_off + name_len * 2 > buf.len() {
            String::new()
        } else {
            let codes: Vec<u16> = read_units(buf, name_off, name_len);
            from_utf16_lossy(codes.as_slice())
        };
        let (resident, non_resident_layout) = if non_resident {
            if buf.len() < 64 {
                return Err(Error::UnexpectedEof { offset: 0, need: 64, have: buf.len() });
            }
            (
                None,
                Some(
                    NonResidentLayout {
                        starting_vcn: read_u64_le(buf, 16).unwrap(),
                        last_vcn: read_u64_le(buf, 24).unwrap(),
                        run_list_offset: read_u16_le(buf, 32).unwrap(),
                        allocated_size: read_u64_le(buf, 40).unwrap(),
                        real_size: read_u64_le(buf, 48).unwrap(),
                        initialised_size: read_u64_le(buf, 56).unwrap(),
                    },
                ),
            )
        } else {
            if buf.len() < 24 {
                return Err(Error::UnexpectedEof { offset: 0, need: 24, have: buf.len() });
            }
            (
                Some(
                    ResidentLayout {
                        value_length: read_u32_le(buf, 16).unwrap(),
                        value_offset: read_u16_le(buf, 20).unwrap(),
                    },
                ),
                None,
            )
        };
        Ok(
            Attribute {
                kind,
                name,
                flags,
                attribute_id,
                non_resident,
                raw: vstd::slice::slice_to_vec(buf),
                resident,
                non_resident_layout,
            },
        )
    }

    /// Whether the attribute has no name.
    pub fn is_unnamed(&self) -> (r: bool)
        ensures
            r == (self.name@.len() == 0),
    {
        self.name.as_str().is_empty()
    }

    /// Logical size of the value: the non-resident real size, else the
    /// resident value length, else 0.
    pub fn value_size(&self) -> (r: u64)
        ensures
            r == (match self.non_resident_layout {
                Some(nr) => nr.real_size,
                None => match self.resident {
                    Some(res) => res.value_length as u64,
                    None => 0,
                },
            }),
    {
        if let Some(nr) = &self.non_resident_layout {
            return nr.real_size;
        }
        if let Some(r) = &self.resident {
            return r.value_length as u64;
        }
        0
    }

    /// The resident value bytes, when they lie inside the raw attribute.
    pub fn resident_value(&self) -> (r: Option<&[u8]>)
        ensures
            match spec_resident_value(*self) {
                Some(v) => r matches Some(s) && s@ == v,
                None => r is None,
            },
    {
        let r: &ResidentLayout = match &self.resident {
            Some(r) => r,
            None => return None,
        };
        let off: usize = r.value_offset as usize;
        let len: usize = r.value_length as usize;
        if len > self.raw.len() || off > self.raw.len() - len {
            return None;
        }
        Some(&self.raw.as_slice()[off..off + len])
    }

    /// Decode the run list of a non-resident attribute into cluster runs.
    pub fn run_list(&self) -> (r: Result<Vec<RawRun>, Error>)
        ensures
            match self.non_resident_layout {
                None => r matches Err(e) && is_corrupt(e, "ntfs_attr"@, 0, "run_list on resident attr"@),
                Some(nr) => if nr.run_list_offset >= self.raw@.len() {
                    r matches Ok(v) && v@.len() == 0
                } else {
                    match decode_from(self.raw@.subrange(nr.run_list_offset as int, self.raw@.len() as int), 0, 0) {
                        Ok(runs) => r matches Ok(v) && v@ == runs,
                        Err(f) => r matches Err(e) && fault_error(f, e),
                    }
                },
            },
    {
        let nr: &NonResidentLayout = match &self.non_resident_layout {
            Some(nr) => nr,
            None => {
                return Err(Error::corrupt("ntfs_attr", 0, String::from_str("run_list on resident attr")));
            },
        };
        let off: usize = nr.run_list_offset as usize;
        if off >= self.raw.len() {
            return Ok(Vec::new());
        }
        decode(&self.raw.as_slice()[off..self.raw.len()])
    }

    /// `(namespace, name)` of a `$FILE_NAME` value.
    pub fn parse_filename(&self) -> (r: Option<(u8, String)>)
        ensures
            match spec_resident_value(*self) {
                Some(v) => if filename_ok(v) {
                    r matches Some(p) && p.0 == v[0x41] && p.1@ == filename_text(v)
                } else {
                    r is None
                },
                None => r is None,
            },
    {
        let f: FileName = match self.parse_filename_full() {
            Some(f) => f,
            None => return None,
        };
        Some((f.namespace, f.name))
    }

    /// The full `$FILE_NAME` value: parent record, namespace and name.
    pub fn parse_filename_full(&self) -> (r: Option<FileName>)
        ensures
            match spec_resident_value(*self) {
                Some(v) => if filename_ok(v) {
                    r matches Some(f) && f.parent_record == (le64(v, 0) as u64) & 0x0000_FFFF_FFFF_FFFF
                        && f.namespace == v[0x41] && f.name@ == filename_text(v)
                } else {
                    r is None
                },
                None => r is None,
            },
    {
        let v: &[u8] = match self.resident_value() {
            Some(v) => v,
            None => return None,
        };
        if v.len() < 0x42 {
            return None;
        }
        let parent_ref: u64 = read_u64_le(v, 0).unwrap();
        let parent_record: u64 = parent_ref & 0x0000_FFFF_FFFF_FFFF;
        let name_len: usize = v[0x40] as usize;
        let namespace: u8 = v[0x41];
        let end: usize = 0x42 + name_len * 2;
        if end > v.len() {
            return None;
        }
        let codes: Vec<u16> = read_units(v, 0x42, name_len);
        Some(FileName { parent_record, namespace, name: from_utf16_lossy(codes.as_slice()) })
    }

    /// Entries of a resident `$ATTRIBUTE_LIST`; `None` for other kinds and
    /// for non-resident lists. The walk stops at the first entry whose length
    /// is short or overruns the value, and after 4096 entries.
    #[verifier::loop_isolation(false)]
    pub fn parse_attribute_list(&self) -> (r: Option<Vec<AttributeListEntry>>)
        ensures
            alist_result(*self, r),
    {
        if self.kind != AttributeType::AttributeList {
            return None;
        }
        if self.non_resident {
            return None;
        }
        let v: &[u8] = match self.resident_value() {
            Some(v) => v,
            None => return None,
        };
        let mut out: Vec<AttributeListEntry> = Vec::new();
        let mut cursor: usize = 0;
        let ghost mut offs: Seq<int> = Seq::empty();
        while v.len() - cursor >= 0x1A && out.len() < 4096
            invariant
                cursor <= v@.len(),
                out@.len() <= 4096,
                offs.len() == out@.len(),
                alist_offsets(v@, 0, 0) == offs + alist_offsets(v@, cursor as int, out@.len() as int),
                forall|k: int| 0 <= k < out@.len() ==> alist_entry_at(#[trigger] out@[k], v@, offs[k]),
            decreases v@.len() - cursor,
        {
            let ty: u32 = read_u32_le(v, cursor).unwrap();
            let rec_len: usize = read_u16_le(v, cursor + 4).unwrap() as usize;
            if rec_len < 0x1A || rec_len > v.len() - cursor {
                break;
            }
            let name_len: usize = v[cursor + 6] as usize;
            let name_off: usize = v[cursor + 7] as usize;
            let starting_vcn: u64 = read_u64_le(v, cursor + 8).unwrap();
            let mft_ref: u64 = read_u64_le(v, cursor + 0x10).unwrap();
            let attr_id: u16 = read_u16_le(v, cursor + 0x18).unwrap();
            let name: String = if name_len > 0 && name_off + name_len * 2 <= rec_len {
                let codes: Vec<u16> = read_units(v, cursor + name_off, name_len);
                from_utf16_lossy(codes.as_slice())
            } else {
                String::new()
            };
            let e: AttributeListEntry = AttributeListEntry {
                kind: AttributeType::from_u32(ty),
                name,
                starting_vcn,
                mft_record: mft_ref & 0x0000_FFFF_FFFF_FFFF,
                mft_sequence: ((mft_ref >> 48) & 0xFFFF) as u16,
                attribute_id: attr_id,
            };
            assert(alist_entry_at(e, v@, cursor as int));
            proof {
                assert(alist_offsets(v@, cursor as int, out@.len() as int) == seq![cursor as int]
                    + alist_offsets(v@, cursor + rec_len, out@.len() + 1int));
                assert(offs + alist_offsets(v@, cursor as int, out@.len() as int) =~= offs.push(
                    cursor as int,
                ) + alist_offsets(v@, cursor + rec_len, out@.len() + 1int));
                offs = offs.push(cursor as int);
            }
            out.push(e);
            cursor += rec_len;
        }
        assert(offs + alist_offsets(v@, cursor as int, out@.len() as int) =~= offs);
        Some(out)
    }

    /// Starting VCN of a non-resident attribute (0 when resident).
    pub fn starting_vcn(&self) -> (r: u64)
        ensures
            r == (match self.non_resident_layout {
                Some(nr) => nr.starting_vcn,
                None => 0,
            }),
    {
        match &self.non_resident_layout {
            Some(nr) => nr.starting_vcn,
            None => 0,
        }
    }

    /// Modification time of a `$STANDARD_INFORMATION` value, as a Windows
    /// FILETIME (100 ns ticks since 1601-01-01 UTC).
    pub fn parse_std_modified(&self) -> (r: Option<u64>)
        ensures
            match spec_resident_value(*self) {
                Some(v) => if v.len() >= 16 {
                    r == Some(le64(v, 8) as u64)
                } else {
                    r is None
                },
                None => r is None,
            },
    {
        let v: &[u8] = match self.resident_value() {
            Some(v) => v,
            None => return None,
        };
        if v.len() < 16 {
            return None;
        }
        Some(read_u64_le(v, 8).unwrap())
    }
}

/// `r` is what `parse_attribute_list` returns for `a`.
pub open spec fn alist_result(a: Attribute, r: Option<Vec<AttributeListEntry>>) -> bool {
    if a.kind != AttributeType::AttributeList || a.non_resident {
        r is None
    } else {
        match spec_resident_value(a) {
            None => r is None,
            Some(v) => r matches Some(out) && out@.len() == alist_offsets(v, 0, 0).len() && forall|i: int|
                0 <= i < out@.len() ==> alist_entry_at(#[trigger] out@[i], v, alist_offsets(v, 0, 0)[i]),
        }
    }
}

/// A `$FILE_NAME` value long enough for its header and name.
pub open spec fn filename_ok(v: Seq<u8>) -> bool {
    v.len() >= 0x42 && 0x42 + (v[0x40] as int) * 2 <= v.len()
}

/// The name held by a `$FILE_NAME` value.
pub open spec fn filename_text(v: Seq<u8>) -> Seq<char> {
    utf16_lossy_text(utf16_units(v, 0x42, v[0x40] as int))
}

} // verus!
