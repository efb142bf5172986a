//! A FAT32 volume: cluster geometry, FAT chains as device extents, and the
//! walk from the root directory through every sub-directory that lists
//! allocated and deleted files.

use crate::bytes::{le16, le32};
use crate::error::Error;
use crate::filesystem::fat::bpb::{bpb_fields, has_fat32_id, pow2_u16, pow2_u8, Fat32Bpb};
use crate::filesystem::fat::dir::{entry_name, walk, DirIter, FatDirEntry, ATTR_DIR, ATTR_VOLUME, DELETED_MARKER};
use crate::filesystem::ntfs::volume::{guess_kind, spec_guess_kind};
use crate::storage::{read_result, read_zero_padded, zero_padded, SectorReader};
use crate::strings::{hex_bytes, hex_string, str_eq};
use crate::types::{DataRun, FileKind, FileRecord, FileSource, PartitionInfo};
use std::collections::HashSet;
use vstd::prelude::*;
use vstd::set_lib::{lemma_int_range, lemma_len_subset, lemma_map_size_bound, set_int_range};
use vstd::wrapping::u64_specs::{wrapping_add, wrapping_mul};

verus! {

/// FAT entries at or above this value end a chain (or mark a bad cluster).
pub const END_OF_CHAIN_MIN: u32 = 0x0FFF_FFF8;

/// Bytes of FAT read at a time: 4 KiB covers 1024 entries.
pub const FAT_PAGE: usize = 4096;

/// Longest chain followed for one file, in clusters.
pub const MAX_FILE_CLUSTERS: u32 = 1048576;

/// The boot sectors that `Fat32Bpb::parse` accepts.
pub open spec fn bpb_accepts(b: Seq<u8>) -> bool {
    let f = bpb_fields(b);
    &&& b.len() >= 512
    &&& b[0x1FE] == 0x55 && b[0x1FF] == 0xAA
    &&& has_fat32_id(b)
    &&& pow2_u16(f.bytes_per_sector)
    &&& pow2_u8(f.sectors_per_cluster)
    &&& f.num_fats != 0 && f.fat_size_sectors != 0 && f.root_cluster >= 2
}

/// First sector of the data area, relative to the partition.
pub open spec fn data_start_sector(b: Fat32Bpb) -> int {
    b.reserved_sectors + b.fat_size_sectors * b.num_fats
}

/// Device byte offset of `cluster` (at least 2) on a partition starting at
/// `start`; the sector number and the byte offset wrap around at 64 bits.
pub open spec fn cluster_offset(b: Fat32Bpb, start: u64, cluster: u32) -> u64 {
    wrapping_mul(
        wrapping_add(start, (data_start_sector(b) + (cluster - 2) * b.sectors_per_cluster) as u64),
        b.bytes_per_sector as u64,
    )
}

/// Device byte offset of the first FAT: the reserved sectors past the
/// partition's start (the partition's byte offset wraps at 64 bits).
pub open spec fn fat_offset(b: Fat32Bpb, start: u64) -> u64 {
    wrapping_add((b.reserved_sectors * b.bytes_per_sector) as u64, wrapping_mul(start, b.bytes_per_sector as u64))
}

/// Device byte offset of the FAT entry of `cluster`.
pub open spec fn fat_entry_byte(fat_off: u64, cluster: u32) -> u64 {
    wrapping_add(fat_off, (cluster * 4) as u64)
}

/// The 4 KiB page that holds a byte offset.
pub open spec fn page_of(byte: u64) -> u64 {
    byte & !4095u64
}

/// A page buffer after a read that returned `data`: the bytes read replace
/// its start, the rest stays as it was.
pub open spec fn overlay(page: Seq<u8>, data: Seq<u8>) -> Seq<u8> {
    data + page.subrange(data.len() as int, page.len() as int)
}

/// The 28-bit FAT entry stored little-endian at `off` of a page.
pub open spec fn entry_at(page: Seq<u8>, off: int) -> u32 {
    ((page[off] as u32) | ((page[off + 1] as u32) << 8u32) | ((page[off + 2] as u32) << 16u32) | ((
    page[off + 3] as u32) << 24u32)) & 0x0FFF_FFFF
}

/// Extents after adding one cluster at `lba` of `spc` sectors: the last
/// run grows where the cluster follows it directly, else a run starts.
pub open spec fn add_cluster(runs: Seq<DataRun>, lba: u64, spc: u64) -> Seq<DataRun> {
    if runs.len() > 0 && wrapping_add(runs.last().start_lba, runs.last().length_sectors) == lba {
        runs.update(
            runs.len() - 1,
            DataRun { start_lba: runs.last().start_lba, length_sectors: (runs.last().length_sectors + spc) as u64 },
        )
    } else {
        runs.push(DataRun { start_lba: lba, length_sectors: spc })
    }
}

/// The extents of the chain from `cluster`, following at most `left` more
/// clusters, given the extents gathered so far and the FAT page held in the
/// buffer (`page`, read from `page_base`). A page is read when the entry
/// lies outside the held one; the walk ends at a free, reserved or
/// end-of-chain entry, at a read past the device's end, or at an entry
/// that straddles the page's end.
pub open spec fn chain_from(
    dev: Seq<u8>,
    b: Fat32Bpb,
    start: u64,
    cluster: u32,
    left: nat,
    page_base: u64,
    page: Seq<u8>,
    runs: Seq<DataRun>,
) -> Seq<DataRun>
    decreases left,
{
    if left == 0 || cluster < 2 || cluster >= END_OF_CHAIN_MIN {
        runs
    } else {
        let eb = fat_entry_byte(fat_offset(b, start), cluster);
        let ep = page_of(eb);
        let data = read_result(dev, ep as int, FAT_PAGE as int);
        if page_base != ep && data.len() == 0 {
            runs
        } else {
            let pg = if page_base != ep {
                overlay(page, data)
            } else {
                page
            };
            let off = eb - ep;
            if off > FAT_PAGE - 4 {
                runs
            } else {
                let lba = cluster_offset(b, start, cluster) / (b.bytes_per_sector as u64);
                chain_from(
                    dev,
                    b,
                    start,
                    entry_at(pg, off),
                    (left - 1) as nat,
                    ep,
                    pg,
                    add_cluster(runs, lba, b.sectors_per_cluster as u64),
                )
            }
        }
    }
}

/// Upper-case hex of `n` bytes.
pub open spec fn hex_len_ok(s: Seq<char>) -> bool {
    s.len() == 0 || s.len() == 32
}

/// `f` is the `k`-th file record (from 0) listed for partition `pi`.
pub open spec fn fat_file_listed(f: FileRecord, k: int, pi: u32) -> bool {
    &&& f.id == k + 1
    &&& f.kind == spec_guess_kind(f.name@)
    &&& f.path@ == f.name@
    &&& f.modified is None
    &&& f.size_bytes <= u32::MAX
    &&& hex_len_ok(f.head_hex@)
    &&& f.source matches FileSource::Filesystem { partition_index, record_id, is_deleted, is_resident, runs }
        && partition_index == pi && record_id == f.id && !is_resident && f.recoverability == (if is_deleted {
        60u8
    } else {
        95u8
    })
}

/// What a directory walk keeps of a file entry.
pub struct FatFileModel {
    pub name: Seq<char>,
    pub size_bytes: int,
    pub first_cluster: u32,
    pub is_deleted: bool,
}

/// First cluster named by the 8.3 entry `e` (high and low halves).
pub open spec fn entry_first_cluster(e: Seq<u8>) -> u32 {
    ((le16(e, 0x14) as u32) << 16u32) | (le16(e, 0x1A) as u32)
}

/// The file that the 8.3 entry `e` describes, its long name assembled from
/// `pending`.
pub open spec fn file_model(e: Seq<u8>, pending: Seq<Seq<u16>>) -> FatFileModel {
    let deleted = e[0] == DELETED_MARKER;
    FatFileModel {
        name: entry_name(e, pending, deleted),
        size_bytes: le32(e, 0x1C),
        first_cluster: entry_first_cluster(e),
        is_deleted: deleted,
    }
}

/// Bytes per cluster.
pub open spec fn cluster_size(b: Fat32Bpb) -> int {
    b.bytes_per_sector * b.sectors_per_cluster
}

/// The rest of one directory cluster's walk from `cursor`: the clusters
/// still to visit and the files listed so far, given both before it. The
/// walk stops at the buffer's end, at the end-of-directory entry, or once
/// `max` files are listed; a sub-directory other than `.` and `..` with a
/// valid first cluster is queued, a file is listed, a volume label skipped.
pub open spec fn dir_scan(
    data: Seq<u8>,
    cursor: int,
    pending: Seq<Seq<u16>>,
    stack: Seq<u32>,
    files: Seq<FatFileModel>,
    max: int,
) -> (Seq<u32>, Seq<FatFileModel>)
    decreases data.len() - cursor,
{
    let w = walk(data, cursor, pending);
    match w.0 {
        None => (stack, files),
        Some(off) => if files.len() >= max {
            (stack, files)
        } else {
            let e = data.subrange(off, off + 32);
            if e[0] == 0 {
                (stack, files)
            } else {
                proof {
                    lemma_walk_advances(data, cursor, pending);
                }
                let attr = e[0x0B];
                if attr & ATTR_VOLUME != 0 && attr & ATTR_DIR == 0 {
                    dir_scan(data, w.1, Seq::empty(), stack, files, max)
                } else if attr & ATTR_DIR != 0 {
                    let fc = entry_first_cluster(e);
                    let name = entry_name(e, w.2, e[0] == DELETED_MARKER);
                    let queued = if fc >= 2 && name != "."@ && name != ".."@ {
                        stack.push(fc)
                    } else {
                        stack
                    };
                    dir_scan(data, w.1, Seq::empty(), queued, files, max)
                } else {
                    dir_scan(data, w.1, Seq::empty(), stack, files.push(file_model(e, w.2)), max)
                }
            }
        },
    }
}

/// The files listed by the depth-first walk of the directory tree: the
/// cluster on top of `stack` is taken off and, unless it was visited
/// before, is not a valid cluster or lies past the device's end, its
/// entries are walked ([`dir_scan`]) with the sub-directories it queues on
/// top.
pub open spec fn tree_scan(
    dev: Seq<u8>,
    b: Fat32Bpb,
    start: u64,
    stack: Seq<u32>,
    visited: Set<u32>,
    files: Seq<FatFileModel>,
    max: int,
) -> Seq<FatFileModel>
    decreases 0x1_0000_0000 - visited.len(), stack.len(),
{
    if stack.len() == 0 {
        files
    } else {
        let c = stack.last();
        let rest = stack.drop_last();
        if visited.contains(c) {
            tree_scan(dev, b, start, rest, visited, files, max)
        } else {
            proof {
                lemma_u32_set_bounded(visited);
                lemma_u32_set_bounded(visited.insert(c));
            }
            let seen = visited.insert(c);
            if c < 2 || c >= END_OF_CHAIN_MIN {
                tree_scan(dev, b, start, rest, seen, files, max)
            } else {
                let data = read_result(dev, cluster_offset(b, start, c) as int, cluster_size(b));
                if data.len() == 0 {
                    tree_scan(dev, b, start, rest, seen, files, max)
                } else {
                    let r = dir_scan(data, 0, Seq::empty(), rest, files, max);
                    tree_scan(dev, b, start, r.0, seen, r.1, max)
                }
            }
        }
    }
}

/// The extents of the chain of a file starting at `first`.
pub open spec fn file_chain(dev: Seq<u8>, b: Fat32Bpb, start: u64, first: u32) -> Seq<DataRun> {
    chain_from(dev, b, start, first, MAX_FILE_CLUSTERS as nat, u64::MAX, Seq::new(FAT_PAGE as nat, |i: int| 0u8), Seq::empty())
}

/// The 16 bytes at the start of an extent, zero beyond the device's end.
pub open spec fn head_bytes(dev: Seq<u8>, b: Fat32Bpb, run: DataRun) -> Seq<u8> {
    zero_padded(read_result(dev, wrapping_mul(run.start_lba, b.bytes_per_sector as u64) as int, 16), 16)
}

/// Where reads do not fail: `f`'s extents are the chain from its first
/// cluster, and its head the hex of the first 16 bytes of its first extent.
pub open spec fn fat_file_exact(f: FileRecord, m: FatFileModel, dev: Seq<u8>, b: Fat32Bpb, start: u64) -> bool {
    f.source matches FileSource::Filesystem { runs, .. } && runs@ == file_chain(dev, b, start, m.first_cluster) && (
    if runs@.len() > 0 {
        f.head_hex@ == hex_bytes(head_bytes(dev, b, runs@[0]))
    } else {
        f.head_hex@.len() == 0
    })
}

/// `f` is the record listed for the file entry `m`: same name, size and
/// deletion; as extents the chain from its first cluster, or none where
/// that chain could not be read; as head the hex of the first 16 bytes of
/// its first extent (of zeros where they could not be read), or nothing
/// without extents.
pub open spec fn fat_file_of(f: FileRecord, m: FatFileModel, dev: Seq<u8>, b: Fat32Bpb, start: u64) -> bool {
    &&& f.name@ == m.name
    &&& f.size_bytes == m.size_bytes
    &&& f.source matches FileSource::Filesystem { is_deleted, runs, .. } && is_deleted == m.is_deleted && (runs@
        == file_chain(dev, b, start, m.first_cluster) || runs@.len() == 0) && (if runs@.len() > 0 {
        f.head_hex@ == hex_bytes(head_bytes(dev, b, runs@[0])) || f.head_hex@ == hex_bytes(
            Seq::new(16, |i: int| 0u8),
        )
    } else {
        f.head_hex@.len() == 0
    })
}

/// A step of the directory walk that finds an entry moves forward, and no
/// step leaves the buffer.
pub proof fn lemma_walk_advances(b: Seq<u8>, cursor: int, pending: Seq<Seq<u16>>)
    requires
        0 <= cursor <= b.len(),
    ensures
        walk(b, cursor, pending).0 is Some ==> cursor < walk(b, cursor, pending).1 <= b.len(),
        walk(b, cursor, pending).0 matches Some(off) ==> cursor <= off && off + 32 == walk(b, cursor, pending).1,
        cursor <= walk(b, cursor, pending).1 <= b.len(),
    decreases b.len() - cursor,
{
    if cursor + 32 <= b.len() {
        let e = b.subrange(cursor, cursor + 32);
        if e[0] != 0 && e[0x0B] == 0x0F {
            lemma_walk_advances(b, cursor + 32, pending.push(crate::filesystem::fat::dir::lfn_units(e)));
        }
    }
}

/// Any set of `u32` values is finite and has at most 2^32 members.
pub proof fn lemma_u32_set_bounded(s: Set<u32>)
    ensures
        s.finite(),
        s.len() <= 0x1_0000_0000,
{
    let full = set_int_range(0, 0x1_0000_0000);
    lemma_int_range(0, 0x1_0000_0000);
    let f = |i: int| i as u32;
    let img = full.map(f);
    lemma_map_size_bound(full, img, f);
    assert forall|x: u32| s.contains(x) implies img.contains(x) by {
        assert(full.contains(x as int));
        assert(f(x as int) == x);
    }
    lemma_len_subset(s, img);
}

/// A FAT32 volume opened on a partition.
#[derive(Debug)]
pub struct Fat32Volume<R: SectorReader> {
    pub bpb: Fat32Bpb,
    pub partition: PartitionInfo,
    pub reader: R,
}

impl<R: SectorReader> Fat32Volume<R> {
    /// The device's bytes.
    pub open spec fn device(&self) -> Seq<u8> {
        self.reader.spec_contents()
    }

    /// Whether the volume's reads never fail.
    pub open spec fn reliable(&self) -> bool {
        self.reader.spec_reliable()
    }

    /// The geometry that `open` checked.
    pub open spec fn wf(&self) -> bool {
        pow2_u16(self.bpb.bytes_per_sector) && pow2_u8(self.bpb.sectors_per_cluster)
    }

    /// Open the volume: parse the boot sector at the partition's first
    /// sector.
    pub fn open(reader: R, partition: PartitionInfo) -> (r: Result<Self, Error>)
        requires
            partition.start_lba * reader.spec_sector_size() <= u64::MAX,
            partition.start_lba * 512 + 0x200 <= u64::MAX,
        ensures
            ({
                let bs = read_result(
                    reader.spec_contents(),
                    partition.start_lba * reader.spec_sector_size(),
                    reader.spec_sector_size() as int,
                );
                &&& !bpb_accepts(bs) ==> r is Err
                &&& reader.spec_reliable() && bpb_accepts(bs) ==> r is Ok
                &&& r matches Ok(v) ==> bpb_accepts(bs) && v.bpb == bpb_fields(bs) && v.partition == partition
                    && v.device() == reader.spec_contents() && v.wf() && v.reliable() == reader.spec_reliable()
            }),
    {
        let bs: Vec<u8> = match reader.read_lba(partition.start_lba) {
            Ok(b) => b,
            Err(e) => {
                return Err(e);
            },
        };
        let bpb: Fat32Bpb = match Fat32Bpb::parse(bs.as_slice(), partition.start_lba) {
            Ok(b) => b,
            Err(e) => {
                return Err(e);
            },
        };
        Ok(Fat32Volume { bpb, partition, reader })
    }

    /// Device byte offset of a cluster.
    fn cluster_byte_offset(&self, cluster: u32) -> (r: u64)
        requires
            cluster >= 2,
        ensures
            r == cluster_offset(self.bpb, self.partition.start_lba, cluster),
    {
        let bytes_per_sector: u64 = self.bpb.bytes_per_sector as u64;
        let reserved: u64 = self.bpb.reserved_sectors as u64;
        assert(self.bpb.fat_size_sectors * self.bpb.num_fats <= 0xFFFF_FFFF * 0xFF) by (nonlinear_arith);
        let fat_total: u64 = (self.bpb.fat_size_sectors as u64) * (self.bpb.num_fats as u64);
        let data_start: u64 = reserved + fat_total;
        assert((cluster - 2) * self.bpb.sectors_per_cluster <= 0xFFFF_FFFF * 0xFF) by (nonlinear_arith)
            requires
                cluster >= 2,
        ;
        let cluster_off: u64 = ((cluster as u64) - 2) * (self.bpb.sectors_per_cluster as u64);
        let lba: u64 = self.partition.start_lba.wrapping_add(data_start + cluster_off);
        lba.wrapping_mul(bytes_per_sector)
    }

    /// Follow the FAT chain from `first_cluster` (at most `max_clusters`
    /// clusters) and give it as device extents, adjacent clusters merged into
    /// one run ([`chain_from`]). The FAT is read a 4 KiB page at a time into
    /// one buffer of zeros; a short read at the device's end leaves the rest
    /// of the buffer as it was.
    pub fn cluster_chain(&self, first_cluster: u32, max_clusters: u32) -> (r: Result<Vec<DataRun>, Error>)
        requires
            self.wf(),
        ensures
            r matches Ok(runs) ==> {
                &&& runs@ == chain_from(
                    self.device(),
                    self.bpb,
                    self.partition.start_lba,
                    first_cluster,
                    max_clusters as nat,
                    u64::MAX,
                    Seq::new(FAT_PAGE as nat, |i: int| 0u8),
                    Seq::empty(),
                )
                &&& runs@.len() <= max_clusters
                &&& forall|k: int| 0 <= k < runs@.len() ==> (#[trigger] runs@[k]).length_sectors > 0
                    && runs@[k].length_sectors % (self.bpb.sectors_per_cluster as u64) == 0
                &&& (first_cluster < 2 || first_cluster >= END_OF_CHAIN_MIN || max_clusters == 0) ==> runs@.len() == 0
            },
            self.reliable() ==> r is Ok,
    {
        let mut runs: Vec<DataRun> = Vec::new();
        let mut cluster: u32 = first_cluster;
        let mut count: u32 = 0;
        let bytes_per_sector: u64 = self.bpb.bytes_per_sector as u64;
        let spc: u64 = self.bpb.sectors_per_cluster as u64;
        assert(self.bpb.reserved_sectors * self.bpb.bytes_per_sector <= 0xFFFF * 0xFFFF) by (nonlinear_arith);
        let fat_byte_offset: u64 = ((self.bpb.reserved_sectors as u64) * bytes_per_sector).wrapping_add(
            self.partition.start_lba.wrapping_mul(bytes_per_sector),
        );
        let mut page_base: u64 = u64::MAX;
        let mut page: Vec<u8> = Vec::new();
        while page.len() < FAT_PAGE
            invariant
                page@.len() <= FAT_PAGE,
                forall|i: int| 0 <= i < page@.len() ==> page@[i] == 0u8,
            decreases FAT_PAGE - page.len(),
        {
            page.push(0u8);
        }
        let ghost dev: Seq<u8> = self.device();
        let ghost b: Fat32Bpb = self.bpb;
        let ghost st: u64 = self.partition.start_lba;
        let ghost whole: Seq<DataRun> = chain_from(
            dev,
            b,
            st,
            first_cluster,
            max_clusters as nat,
            u64::MAX,
            Seq::new(FAT_PAGE as nat, |i: int| 0u8),
            Seq::empty(),
        );
        assert(page@ =~= Seq::new(FAT_PAGE as nat, |i: int| 0u8));
        assert(runs@ =~= Seq::<DataRun>::empty());
        while count < max_clusters
            invariant
                self.wf(),
                dev == self.device(),
                b == self.bpb,
                st == self.partition.start_lba,
                fat_byte_offset == fat_offset(b, st),
                bytes_per_sector == self.bpb.bytes_per_sector,
                spc == self.bpb.sectors_per_cluster,
                page@.len() == FAT_PAGE,
                count <= max_clusters,
                runs@.len() <= count,
                forall|k: int| 0 <= k < runs@.len() ==> (#[trigger] runs@[k]).length_sectors > 0
                    && runs@[k].length_sectors % spc == 0 && runs@[k].length_sectors <= count * spc,
                count == 0 ==> cluster == first_cluster,
                (first_cluster < 2 || first_cluster >= END_OF_CHAIN_MIN) ==> count == 0,
                chain_from(dev, b, st, cluster, (max_clusters - count) as nat, page_base, page@, runs@) == whole,
            ensures
                chain_from(dev, b, st, cluster, (max_clusters - count) as nat, page_base, page@, runs@) == runs@,
                page@.len() == FAT_PAGE,
                count <= max_clusters,
                runs@.len() <= count,
                forall|k: int| 0 <= k < runs@.len() ==> (#[trigger] runs@[k]).length_sectors > 0
                    && runs@[k].length_sectors % spc == 0,
                (first_cluster < 2 || first_cluster >= END_OF_CHAIN_MIN) ==> count == 0,
                chain_from(dev, b, st, cluster, (max_clusters - count) as nat, page_base, page@, runs@) == whole,
            decreases max_clusters - count,
        {
            if cluster < 2 || cluster >= END_OF_CHAIN_MIN {
                break;
            }
            let entry_byte: u64 = fat_byte_offset.wrapping_add((cluster as u64) * 4);
            let entry_page: u64 = entry_byte & !4095u64;
            let ghost old_page: Seq<u8> = page@;
            if page_base != entry_page {
                let data: Vec<u8> = match self.reader.read_vec(entry_page, FAT_PAGE) {
                    Ok(d) => d,
                    Err(e) => {
                        return Err(e);
                    },
                };
                if data.len() == 0 {
                    break;
                }
                let mut q: usize = 0;
                while q < data.len()
                    invariant
                        page@.len() == FAT_PAGE,
                        old_page.len() == FAT_PAGE,
                        data@.len() <= FAT_PAGE,
                        q <= data@.len(),
                        page@ == data@.subrange(0, q as int) + old_page.subrange(q as int, FAT_PAGE as int),
                    decreases data.len() - q,
                {
                    page.set(q, data[q]);
                    q += 1;
                    assert(page@ =~= data@.subrange(0, q as int) + old_page.subrange(q as int, FAT_PAGE as int));
                }
                assert(page@ =~= overlay(old_page, data@));
                page_base = entry_page;
            }
            assert(entry_page <= entry_byte && entry_byte - entry_page <= 4095) by (bit_vector)
                requires
                    entry_page == entry_byte & !4095u64,
            ;
            let off: usize = (entry_byte - entry_page) as usize;
            if off > FAT_PAGE - 4 {
                break;
            }
            let next: u32 = ((page[off] as u32) | ((page[off + 1] as u32) << 8u32) | ((page[off + 2] as u32) << 16u32) | ((page[off + 3] as u32) << 24u32)) & 0x0FFF_FFFF;
            assert(next == entry_at(page@, off as int));
            let cluster_lba: u64 = self.cluster_byte_offset(cluster) / bytes_per_sector;
            let ghost before: Seq<DataRun> = runs@;
            assert((count + 1) * spc == count * spc + spc && count * spc + spc <= 0xFFFF_FFFF * 0xFF + 0xFF) by (nonlinear_arith)
                requires
                    count < max_clusters,
                    spc <= 0xFF,
            ;
            let n: usize = runs.len();
            if n > 0 && runs[n - 1].start_lba.wrapping_add(runs[n - 1].length_sectors) == cluster_lba {
                let last: DataRun = runs[n - 1];
                runs.set(n - 1, DataRun { start_lba: last.start_lba, length_sectors: last.length_sectors + spc });
                assert((last.length_sectors + spc) % (spc as int) == 0) by (nonlinear_arith)
                    requires
                        last.length_sectors % spc == 0,
                        spc > 0,
                ;
            } else {
                runs.push(DataRun { start_lba: cluster_lba, length_sectors: spc });
                assert(spc % spc == 0) by (nonlinear_arith)
                    requires
                        spc > 0,
                ;
            }
            assert(runs@ == add_cluster(before, cluster_lba, spc));
            assert forall|k: int| 0 <= k < runs@.len() implies (#[trigger] runs@[k]).length_sectors > 0
                && runs@[k].length_sectors % spc == 0 && runs@[k].length_sectors <= (count + 1) * spc by {
                if k < before.len() && k != n - 1 {
                    assert(runs@[k] == before[k]);
                }
            }
            count += 1;
            cluster = next;
        }
        Ok(runs)
    }

    /// List the files of the volume: walk the root directory and, depth
    /// first, every sub-directory it reaches (each cluster once, `.` and `..`
    /// skipped), reading one cluster per directory; every file entry,
    /// deleted or not, is listed ([`tree_scan`]) with its FAT chain as
    /// extents and the hex of its first 16 bytes, until `max_entries` are
    /// listed. Read errors on a directory cluster end the walk with that
    /// error.
    #[verifier::rlimit(40)]
    pub fn collect_files(&self, partition_index: u32, max_entries: u64) -> (r: Result<Vec<FileRecord>, Error>)
        requires
            self.wf(),
        ensures
            r matches Ok(v) ==> {
                let fs = tree_scan(
                    self.device(),
                    self.bpb,
                    self.partition.start_lba,
                    seq![self.bpb.root_cluster],
                    Set::empty(),
                    Seq::empty(),
                    max_entries as int,
                );
                &&& v@.len() == fs.len()
                &&& v@.len() <= max_entries
                &&& forall|k: int|
                    0 <= k < v@.len() ==> fat_file_listed(#[trigger] v@[k], k, partition_index) && fat_file_of(
                        v@[k],
                        fs[k],
                        self.device(),
                        self.bpb,
                        self.partition.start_lba,
                    )
                &&& self.reliable() ==> forall|k: int|
                    0 <= k < v@.len() ==> fat_file_exact(#[trigger] v@[k], fs[k], self.device(), self.bpb, self.partition.start_lba)
            },
            self.reliable() ==> r is Ok,
    {
        let ghost dev: Seq<u8> = self.device();
        let ghost b: Fat32Bpb = self.bpb;
        let ghost st: u64 = self.partition.start_lba;
        let ghost max: int = max_entries as int;
        let mut out: Vec<FileRecord> = Vec::new();
        assert(self.bpb.bytes_per_sector * self.bpb.sectors_per_cluster <= 0xFFFF * 0xFF) by (nonlinear_arith);
        let cluster_bytes: usize = (self.bpb.bytes_per_sector as usize) * (self.bpb.sectors_per_cluster as usize);
        let mut clusters_to_visit: Vec<u32> = Vec::new();
        clusters_to_visit.push(self.bpb.root_cluster);
        let mut visited: HashSet<u32> = HashSet::new();
        let mut id: u64 = 0;
        let ghost mut models: Seq<FatFileModel> = Seq::empty();
        let ghost whole: Seq<FatFileModel> = tree_scan(dev, b, st, seq![b.root_cluster], Set::empty(), Seq::empty(), max);
        proof {
            lemma_u32_set_bounded(visited@);
            assert(clusters_to_visit@ =~= seq![b.root_cluster]);
            assert(visited@ =~= Set::<u32>::empty());
        }
        while clusters_to_visit.len() > 0
            invariant
                self.wf(),
                dev == self.device(),
                b == self.bpb,
                st == self.partition.start_lba,
                max == max_entries,
                cluster_bytes == cluster_size(b),
                out@.len() <= max_entries,
                id == out@.len(),
                models.len() == out@.len(),
                forall|k: int|
                    0 <= k < out@.len() ==> fat_file_listed(#[trigger] out@[k], k, partition_index) && fat_file_of(
                        out@[k],
                        models[k],
                        dev,
                        b,
                        st,
                    ),
                self.reliable() ==> forall|k: int|
                    0 <= k < out@.len() ==> fat_file_exact(#[trigger] out@[k], models[k], dev, b, st),
                visited@.finite(),
                visited@.len() <= 0x1_0000_0000,
                tree_scan(dev, b, st, clusters_to_visit@, visited@, models, max) == whole,
            ensures
                models == whole,
                out@.len() <= max_entries,
                models.len() == out@.len(),
                forall|k: int|
                    0 <= k < out@.len() ==> fat_file_listed(#[trigger] out@[k], k, partition_index) && fat_file_of(
                        out@[k],
                        models[k],
                        dev,
                        b,
                        st,
                    ),
                self.reliable() ==> forall|k: int|
                    0 <= k < out@.len() ==> fat_file_exact(#[trigger] out@[k], models[k], dev, b, st),
            decreases 0x1_0000_0000 - visited@.len(), clusters_to_visit@.len(),
        {
            let ghost stack0: Seq<u32> = clusters_to_visit@;
            let cluster: u32 = clusters_to_visit.pop().unwrap();
            let ghost v0: Set<u32> = visited@;
            let ghost rest: Seq<u32> = clusters_to_visit@;
            assert(cluster == stack0.last() && rest == stack0.drop_last());
            if !visited.insert(cluster) {
                assert(visited@ =~= v0);
                continue;
            }
            proof {
                lemma_u32_set_bounded(visited@);
                assert(visited@.len() == v0.len() + 1);
            }
            if cluster < 2 || cluster >= END_OF_CHAIN_MIN {
                continue;
            }
            let off: u64 = self.cluster_byte_offset(cluster);
            let data: Vec<u8> = match self.reader.read_vec(off, cluster_bytes) {
                Ok(d) => d,
                Err(e) => {
                    return Err(e);
                },
            };
            if data.len() == 0 {
                continue;
            }
            let ghost target: (Seq<u32>, Seq<FatFileModel>) = dir_scan(data@, 0, Seq::empty(), rest, models, max);
            let mut iter = DirIter::new(data.as_slice());
            proof {
                assert(iter.pending() =~= Seq::<Seq<u16>>::empty());
            }
            loop
                invariant_except_break
                    dir_scan(data@, iter.cursor as int, iter.pending(), clusters_to_visit@, models, max) == target,
                invariant
                    self.wf(),
                    dev == self.device(),
                    b == self.bpb,
                    st == self.partition.start_lba,
                    max == max_entries,
                    out@.len() <= max_entries,
                    id == out@.len(),
                    models.len() == out@.len(),
                    forall|k: int|
                        0 <= k < out@.len() ==> fat_file_listed(#[trigger] out@[k], k, partition_index)
                            && fat_file_of(out@[k], models[k], dev, b, st),
                    self.reliable() ==> forall|k: int|
                        0 <= k < out@.len() ==> fat_file_exact(#[trigger] out@[k], models[k], dev, b, st),
                    iter.pending_lfn@.len() == iter.pending_lfn_seq@.len(),
                    iter.buf@ == data@,
                    iter.cursor <= data@.len(),
                ensures
                    out@.len() <= max_entries,
                    id == out@.len(),
                    models.len() == out@.len(),
                    forall|k: int|
                        0 <= k < out@.len() ==> fat_file_listed(#[trigger] out@[k], k, partition_index)
                            && fat_file_of(out@[k], models[k], dev, b, st),
                    self.reliable() ==> forall|k: int|
                        0 <= k < out@.len() ==> fat_file_exact(#[trigger] out@[k], models[k], dev, b, st),
                    clusters_to_visit@ == target.0,
                    models == target.1,
                decreases data@.len() - iter.cursor,
            {
                let ghost c0: int = iter.cursor as int;
                let ghost p0: Seq<Seq<u16>> = iter.pending();
                let ghost w = walk(data@, c0, p0);
                assert(dir_scan(data@, c0, p0, clusters_to_visit@, models, max) == target);
                proof {
                    lemma_walk_advances(iter.buf@, iter.cursor as int, iter.pending());
                }
                let entry: FatDirEntry = match iter.next_entry() {
                    Some(e) => e,
                    None => {
                        break;
                    },
                };
                if out.len() as u64 >= max_entries {
                    break;
                }
                assert(w.0 is Some);
                let ghost e: Seq<u8> = data@.subrange(w.0->0, w.0->0 + 32);
                match entry {
                    FatDirEntry::EndOfDirectory => {
                        break;
                    },
                    FatDirEntry::Volume(_) => {},
                    FatDirEntry::Subdir(sub) => {
                        if sub.first_cluster >= 2 && !str_eq(sub.name.as_str(), ".") && !str_eq(sub.name.as_str(), "..") {
                            clusters_to_visit.push(sub.first_cluster);
                        }
                    },
                    FatDirEntry::File(f) => {
                        let kind: FileKind = guess_kind(f.name.as_str());
                        let runs: Vec<DataRun> = match self.cluster_chain(f.first_cluster, MAX_FILE_CLUSTERS) {
                            Ok(v) => v,
                            Err(_) => Vec::new(),
                        };
                        let head_hex: String = if runs.len() > 0 {
                            let first_byte: u64 = runs[0].start_lba.wrapping_mul(self.bpb.bytes_per_sector as u64);
                            let head: Vec<u8> = match read_zero_padded(&self.reader, first_byte, 16) {
                                Ok(h) => h,
                                Err(_) => zeros16(),
                            };
                            proof {
                                lemma_hex_bytes_len(head@);
                            }
                            hex_string(head.as_slice())
                        } else {
                            String::new()
                        };
                        id += 1;
                        let path: String = f.name.clone();
                        let fr = FileRecord {
                            id,
                            name: f.name,
                            path,
                            kind,
                            size_bytes: f.size_bytes as u64,
                            modified: None,
                            source: FileSource::Filesystem {
                                partition_index,
                                record_id: id,
                                is_deleted: f.is_deleted,
                                is_resident: false,
                                runs,
                            },
                            recoverability: if f.is_deleted {
                                60
                            } else {
                                95
                            },
                            head_hex,
                        };
                        proof {
                            models = models.push(file_model(e, w.2));
                        }
                        out.push(fr);
                        assert(fat_file_of(out@[out@.len() - 1], models[models.len() - 1], dev, b, st));
                    },
                    FatDirEntry::DeletedRaw(_) => {},
                }
                assert(iter.pending() =~= Seq::<Seq<u16>>::empty());
            }
        }
        Ok(out)
    }
}

proof fn lemma_hex_bytes_len(b: Seq<u8>)
    ensures
        hex_bytes(b).len() == 2 * b.len(),
    decreases b.len(),
{
    if b.len() > 0 {
        lemma_hex_bytes_len(b.drop_last());
    }
}

fn zeros16() -> (v: Vec<u8>)
    ensures
        v@ == Seq::new(16, |i: int| 0u8),
{
    let mut v: Vec<u8> = Vec::new();
    while v.len() < 16
        invariant
            v@.len() <= 16,
            forall|i: int| 0 <= i < v@.len() ==> v@[i] == 0u8,
        decreases 16 - v.len(),
    {
        v.push(0u8);
    }
    assert(v@ =~= Seq::new(16, |i: int| 0u8));
    v
}

} // verus!
