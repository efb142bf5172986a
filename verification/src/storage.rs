//! Read-only random access to a block device or image, an in-memory reader,
//! and SMART health classification.

use crate::error::Error;
use crate::types::{DriveInfo, SmartHealth, SmartReport};
use memmap2::Mmap;
use vstd::prelude::*;

verus! {

/// Bytes a read of `len` at `offset` yields from a device holding `c`: the
/// requested range, cut short at the end of the device.
pub open spec fn read_result(c: Seq<u8>, offset: int, len: int) -> Seq<u8> {
    if offset >= c.len() {
        Seq::empty()
    } else if offset + len <= c.len() {
        c.subrange(offset, offset + len)
    } else {
        c.subrange(offset, c.len() as int)
    }
}

/// Knobs for unreliable media.
#[derive(Debug, Clone, Copy, PartialEq, Eq, Structural)]
pub struct ReadOptions {
    /// On a bad sector, return zeroes for the unreadable range.
    pub zero_on_bad: bool,
    /// On a bad sector, retry with shrinking I/O sizes down to one sector.
    pub shrink_retry: bool,
    /// Maximum retries per sector.
    pub max_retries: u8,
}

impl ReadOptions {
    /// Zero-fill and shrinking retries, three attempts per sector.
    pub fn new() -> (r: Self)
        ensures
            r == (ReadOptions { zero_on_bad: true, shrink_retry: true, max_retries: 3 }),
    {
        ReadOptions { zero_on_bad: true, shrink_retry: true, max_retries: 3 }
    }
}

impl Default for ReadOptions {
    fn default() -> (r: Self)
        ensures
            r == (ReadOptions { zero_on_bad: true, shrink_retry: true, max_retries: 3 }),
    {
        ReadOptions::new()
    }
}

/// A read-only random-access view of a device. Offsets are absolute byte
/// offsets from sector 0; reads never modify anything. Each reader says what
/// its device holds, its sector size and whether its reads can fail.
pub trait SectorReader {
    /// The device's bytes.
    spec fn spec_contents(&self) -> Seq<u8>;

    /// The logical sector size.
    spec fn spec_sector_size(&self) -> u32;

    /// Reads never fail (as with bytes held in memory).
    spec fn spec_reliable(&self) -> bool;

    /// Read up to `len` bytes at `offset`; fewer come back at the end of the
    /// device, none past it.
    fn read_at(&self, offset: u64, len: usize) -> (r: Result<Vec<u8>, Error>)
        ensures
            r matches Ok(v) ==> v@ == read_result(self.spec_contents(), offset as int, len as int),
            self.spec_reliable() ==> r is Ok,
    ;

    /// Read with options; readers without bad-sector handling ignore them.
    fn read_at_with(&self, offset: u64, len: usize, opts: ReadOptions) -> (r: Result<Vec<u8>, Error>)
        ensures
            r matches Ok(v) ==> v@ == read_result(self.spec_contents(), offset as int, len as int),
            self.spec_reliable() ==> r is Ok,
    {
        self.read_at(offset, len)
    }

    /// Total length of the device in bytes.
    fn size_bytes(&self) -> (r: u64)
        ensures
            r == self.spec_contents().len(),
    ;

    /// Logical sector size advertised by the device.
    fn sector_size(&self) -> (r: u32)
        ensures
            r == self.spec_sector_size(),
    ;

    /// Stable identifier for logs.
    fn label(&self) -> String;

    /// Read `len` bytes at `offset` into a fresh vector (shorter at the end).
    fn read_vec(&self, offset: u64, len: usize) -> (r: Result<Vec<u8>, Error>)
        ensures
            r matches Ok(v) ==> v@ == read_result(self.spec_contents(), offset as int, len as int),
            self.spec_reliable() ==> r is Ok,
    {
        self.read_at(offset, len)
    }

    /// Read the sector at `lba`.
    fn read_lba(&self, lba: u64) -> (r: Result<Vec<u8>, Error>)
        requires
            lba * self.spec_sector_size() <= u64::MAX,
        ensures
            r matches Ok(v) ==> v@ == read_result(
                self.spec_contents(),
                lba * self.spec_sector_size(),
                self.spec_sector_size() as int,
            ),
            self.spec_reliable() ==> r is Ok,
    {
        let s: u32 = self.sector_size();
        proof {
            assert(lba * s <= u64::MAX);
        }
        self.read_vec(lba * (s as u64), s as usize)
    }

    /// Read `count` sectors starting at `lba`; an `Internal` error when the
    /// byte length does not fit in `usize`.
    fn read_lba_run(&self, lba: u64, count: u64) -> (r: Result<Vec<u8>, Error>)
        requires
            lba * self.spec_sector_size() <= u64::MAX,
        ensures
            (count as usize) * self.spec_sector_size() > usize::MAX ==> r is Err,
            r matches Ok(v) ==> v@ == read_result(
                self.spec_contents(),
                lba * self.spec_sector_size(),
                (count as usize) * self.spec_sector_size(),
            ),
            self.spec_reliable() && (count as usize) * self.spec_sector_size() <= usize::MAX ==> r is Ok,
    {
        let s: u32 = self.sector_size();
        let len: usize = match (count as usize).checked_mul(s as usize) {
            Some(l) => l,
            None => {
                return Err(Error::internal(String::from_str("read_lba_run: length overflow")));
            },
        };
        self.read_vec(lba * (s as u64), len)
    }
}

/// `s` followed by zeros up to `n` bytes.
pub open spec fn zero_padded(s: Seq<u8>, n: int) -> Seq<u8> {
    s + Seq::new((n - s.len()) as nat, |i: int| 0u8)
}

/// Read `len` bytes at `offset` into a zero-filled buffer of that length:
/// what lies past the device's end stays zero.
pub fn read_zero_padded<R: SectorReader>(reader: &R, offset: u64, len: usize) -> (r: Result<Vec<u8>, Error>)
    ensures
        r matches Ok(v) ==> v@ == zero_padded(read_result(reader.spec_contents(), offset as int, len as int), len as int),
        reader.spec_reliable() ==> r is Ok,
{
    let mut v: Vec<u8> = match reader.read_vec(offset, len) {
        Ok(d) => d,
        Err(e) => {
            return Err(e);
        },
    };
    let ghost got: Seq<u8> = v@;
    while v.len() < len
        invariant
            got.len() <= v@.len() <= len,
            v@ == zero_padded(got, v@.len() as int),
        decreases len - v.len(),
    {
        v.push(0u8);
        assert(v@ =~= zero_padded(got, v@.len() as int));
    }
    Ok(v)
}

/// An enumerated drive, as enumeration produced it and opening consumes it.
#[derive(Debug, Clone)]
pub struct Drive {
    pub info: DriveInfo,
}

impl Drive {
    pub fn new(info: DriveInfo) -> (r: Self)
        ensures
            r.info == info,
    {
        Drive { info }
    }
}

/// An opened, read-only drive.
#[derive(Debug)]
pub struct DriveHandle<R: SectorReader> {
    pub info: DriveInfo,
    pub reader: R,
}

impl<R: SectorReader> DriveHandle<R> {
    pub fn new(info: DriveInfo, reader: R) -> (r: Self)
        ensures
            r.info == info,
            r.reader == reader,
    {
        DriveHandle { info, reader }
    }

    /// The reader, for sharing with workers.
    pub fn reader(&self) -> (r: &R)
        ensures
            *r == self.reader,
    {
        &self.reader
    }
}

/// In-memory reader for tests and disk-image work.
#[derive(Debug)]
pub struct FixtureReader {
    label: String,
    sector_size: u32,
    data: Vec<u8>,
}

impl FixtureReader {
    /// The name given at construction.
    pub closed spec fn label_view(&self) -> Seq<char> {
        self.label@
    }

    /// A reader over `bytes`.
    pub fn new(label: String, sector_size: u32, bytes: Vec<u8>) -> (r: Self)
        ensures
            r.spec_contents() == bytes@,
            r.spec_sector_size() == sector_size,
            r.label_view() == label@,
    {
        FixtureReader { label, sector_size, data: bytes }
    }

    /// Replace the backing bytes.
    pub fn set_bytes(&mut self, bytes: Vec<u8>)
        ensures
            final(self).spec_contents() == bytes@,
            final(self).spec_sector_size() == old(self).spec_sector_size(),
            final(self).label_view() == old(self).label_view(),
    {
        self.data = bytes;
    }
}

impl SectorReader for FixtureReader {
    closed spec fn spec_contents(&self) -> Seq<u8> {
        self.data@
    }

    closed spec fn spec_sector_size(&self) -> u32 {
        self.sector_size
    }

    open spec fn spec_reliable(&self) -> bool {
        true
    }

    fn read_at(&self, offset: u64, len: usize) -> (r: Result<Vec<u8>, Error>) {
        if offset >= self.data.len() as u64 {
            return Ok(Vec::new());
        }
        let off: usize = offset as usize;
        let avail: usize = self.data.len() - off;
        let n: usize = if len < avail {
            len
        } else {
            avail
        };
        let v: Vec<u8> = vstd::slice::slice_to_vec(&self.data.as_slice()[off..off + n]);
        Ok(v)
    }

    fn size_bytes(&self) -> (r: u64) {
        self.data.len() as u64
    }

    fn sector_size(&self) -> (r: u32) {
        self.sector_size
    }

    fn label(&self) -> (r: String)
        ensures
            r@ == self.label_view(),
    {
        self.label.clone()
    }
}

/// A memory map of an image file or a device, declared so that a reader can
/// hold one.
#[verifier::external_type_specification]
#[verifier::external_body]
pub struct ExMmap(Mmap);

/// The bytes a memory map holds.
pub uninterp spec fn mapped_bytes(m: Mmap) -> Seq<u8>;

/// The mapped bytes, through `Mmap`'s `Deref` to `[u8]` (a slice of the
/// map's whole length). The contract claims that the slice is what the map
/// holds; memmap2 documents that the bytes stay as mapped as long as nothing
/// modifies the underlying file.
#[verifier::external_body]
fn mapped_slice(m: &Mmap) -> (r: &[u8])
    ensures
        r@ == mapped_bytes(*m),
{
    &m[..]
}

/// Reader over a memory map: the kernel pages data in as it is read.
#[derive(Debug)]
pub struct MmapReader {
    label: String,
    mmap: Mmap,
    sector_size: u32,
}

impl MmapReader {
    /// The name given at construction.
    pub closed spec fn label_view(&self) -> Seq<char> {
        self.label@
    }

    /// A reader over `mmap` with 512-byte sectors.
    pub fn new(label: String, mmap: Mmap) -> (r: Self)
        ensures
            r.spec_contents() == mapped_bytes(mmap),
            r.spec_sector_size() == 512,
            r.label_view() == label@,
    {
        MmapReader { label, mmap, sector_size: 512 }
    }

    /// A reader over `mmap` with the given logical sector size.
    pub fn with_sector_size(label: String, mmap: Mmap, sector_size: u32) -> (r: Self)
        ensures
            r.spec_contents() == mapped_bytes(mmap),
            r.spec_sector_size() == sector_size,
            r.label_view() == label@,
    {
        MmapReader { label, mmap, sector_size }
    }
}

impl SectorReader for MmapReader {
    closed spec fn spec_contents(&self) -> Seq<u8> {
        mapped_bytes(self.mmap)
    }

    closed spec fn spec_sector_size(&self) -> u32 {
        self.sector_size
    }

    open spec fn spec_reliable(&self) -> bool {
        true
    }

    fn read_at(&self, offset: u64, len: usize) -> (r: Result<Vec<u8>, Error>) {
        let data: &[u8] = mapped_slice(&self.mmap);
        if offset >= data.len() as u64 {
            return Ok(Vec::new());
        }
        let off: usize = offset as usize;
        let avail: usize = data.len() - off;
        let n: usize = if len < avail {
            len
        } else {
            avail
        };
        let v: Vec<u8> = vstd::slice::slice_to_vec(&data[off..off + n]);
        Ok(v)
    }

    fn size_bytes(&self) -> (r: u64) {
        mapped_slice(&self.mmap).len() as u64
    }

    fn sector_size(&self) -> (r: u32) {
        self.sector_size
    }

    fn label(&self) -> (r: String)
        ensures
            r@ == self.label_view(),
    {
        self.label.clone()
    }
}

/// A shared borrow of a reader reads the same device, so one reader can
/// serve a carver and the code that copies out what it found.
impl<'a, R: SectorReader> SectorReader for &'a R {
    open spec fn spec_contents(&self) -> Seq<u8> {
        (**self).spec_contents()
    }

    open spec fn spec_sector_size(&self) -> u32 {
        (**self).spec_sector_size()
    }

    open spec fn spec_reliable(&self) -> bool {
        (**self).spec_reliable()
    }

    fn read_at(&self, offset: u64, len: usize) -> (r: Result<Vec<u8>, Error>) {
        (**self).read_at(offset, len)
    }

    fn size_bytes(&self) -> (r: u64) {
        (**self).size_bytes()
    }

    fn sector_size(&self) -> (r: u32) {
        (**self).sector_size()
    }

    fn label(&self) -> String {
        (**self).label()
    }
}

/// Health bucket of a SMART report.
pub open spec fn spec_classify(r: SmartReport) -> SmartHealth {
    if r.reallocated_sectors matches Some(n) && n > 100 {
        SmartHealth::Failing
    } else if r.reallocated_sectors matches Some(n) && n > 0 {
        SmartHealth::Caution
    } else if r.pending_sectors matches Some(n) && n > 0 {
        SmartHealth::Caution
    } else if r.temperature_c matches Some(t) && t > 70 {
        SmartHealth::Caution
    } else if r.wear_leveling_remaining matches Some(w) && w < 10 {
        SmartHealth::Failing
    } else if r.wear_leveling_remaining matches Some(w) && w < 30 {
        SmartHealth::Caution
    } else {
        SmartHealth::Healthy
    }
}

/// Classify a SMART report into an overall health bucket.
pub fn classify(report: &SmartReport) -> (r: SmartHealth)
    ensures
        r == spec_classify(*report),
{
    if let Some(reall) = report.reallocated_sectors {
        if reall > 100 {
            return SmartHealth::Failing;
        }
        if reall > 0 {
            return SmartHealth::Caution;
        }
    }
    if let Some(pending) = report.pending_sectors {
        if pending > 0 {
            return SmartHealth::Caution;
        }
    }
    if let Some(temp) = report.temperature_c {
        if temp > 70 {
            return SmartHealth::Caution;
        }
    }
    if let Some(wear) = report.wear_leveling_remaining {
        if wear < 10 {
            return SmartHealth::Failing;
        }
        if wear < 30 {
            return SmartHealth::Caution;
        }
    }
    SmartHealth::Healthy
}

} // verus!
