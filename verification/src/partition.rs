//! MBR and GPT partition tables, and reading a device's table.

pub mod gpt;
pub mod mbr;

use crate::checksum::crc32_iso_hdlc;
use crate::error::Error;
use crate::partition::gpt::{array_result, crc_region, header_result, parse as gpt_parse, GptHeader};
use crate::partition::mbr::{has_mbr_signature, is_protective_mbr, mbr_partition, parse as mbr_parse, spec_is_protective, used_entries};
use crate::storage::{read_result, SectorReader};
use crate::strings::push_decimal;
use crate::types::{PartitionInfo, PartitionScheme};
use vstd::prelude::*;

verus! {

/// The first 34 sectors of a device (fewer where it is shorter): the MBR,
/// the GPT header and the usual entry array.
pub open spec fn table_area(c: Seq<u8>, ss: u32) -> Seq<u8> {
    read_result(c, 0, 34 * ss)
}

/// `area` starts with a protective MBR.
pub open spec fn protective_area(area: Seq<u8>, ss: u32) -> bool {
    area.len() >= ss && spec_is_protective(area.subrange(0, ss as int))
}

/// `parts` is what the GPT in `area` lists (see `gpt::parse`).
pub open spec fn gpt_parts(area: Seq<u8>, ss: u32, parts: Vec<PartitionInfo>) -> bool {
    let hb = area.subrange(ss as int, 2 * ss);
    &&& area.len() >= 2 * ss
    &&& exists|h: GptHeader|
        header_result(hb, ss as int, crc32_iso_hdlc(crc_region(hb)), Ok(h)) && #[trigger] array_result(
            area,
            ss as int,
            h,
            Ok::<Vec<PartitionInfo>, Error>(parts),
        )
}

/// `p` is one raw partition over a whole device of `size` bytes.
pub open spec fn is_raw_partition(p: PartitionInfo, size: u64, ss: u32) -> bool {
    &&& p.index == 0
    &&& p.scheme == PartitionScheme::Raw
    &&& p.type_id@ == "raw"@
    &&& p.name is None
    &&& p.filesystem is None
    &&& p.start_lba == 0
    &&& p.length_sectors == size / (ss as u64)
    &&& p.sector_size == ss
    &&& !p.reconstructed
}

/// The table without a GPT: the used entries of the MBR where the first
/// sector carries its signature and uses at least one, else one raw
/// partition over the device.
pub open spec fn fallback_parts(area: Seq<u8>, ss: u32, size: u64, parts: Seq<PartitionInfo>) -> bool {
    let s0 = area.subrange(0, ss as int);
    if area.len() >= ss && s0.len() >= 512 && has_mbr_signature(s0) && used_entries(s0, 4).len() > 0 {
        &&& parts.len() == used_entries(s0, 4).len()
        &&& forall|k: int|
            0 <= k < parts.len() ==> mbr_partition(#[trigger] parts[k], s0, used_entries(s0, 4)[k], ss, size / (ss as u64))
    } else {
        parts.len() == 1 && is_raw_partition(parts[0], size, ss)
    }
}

/// Read a device's partition table: GPT behind a protective MBR first, then
/// the MBR, and failing both one raw partition covering the whole device.
pub fn read_table<R: SectorReader>(reader: &R) -> (r: Result<Vec<PartitionInfo>, Error>)
    ensures
        (reader.spec_sector_size() == 0 || reader.spec_sector_size() > 65536) ==> r is Err,
        r matches Ok(parts) ==> {
            let ss = reader.spec_sector_size();
            let area = table_area(reader.spec_contents(), ss);
            let size = reader.spec_contents().len() as u64;
            &&& (protective_area(area, ss) && gpt_parts(area, ss, parts)) || fallback_parts(area, ss, size, parts@)
            &&& !protective_area(area, ss) ==> fallback_parts(area, ss, size, parts@)
            &&& protective_area(area, ss) && (exists|ps: Vec<PartitionInfo>| #[trigger] gpt_parts(area, ss, ps))
                ==> gpt_parts(area, ss, parts)
        },
        r matches Ok(parts) ==> forall|k: int| 0 <= k < parts@.len() ==> (#[trigger] parts@[k]).sector_size == reader.spec_sector_size(),
        reader.spec_reliable() && 0 < reader.spec_sector_size() <= 65536 ==> r is Ok,
{
    let ssz: u32 = reader.sector_size();
    if ssz == 0 || ssz > 65_536 {
        let mut detail: String = String::from_str("implausible sector size ");
        push_decimal(&mut detail, ssz as u64);
        return Err(Error::corrupt("sector_size", 0, detail));
    }
    assert((34u64 as usize) * reader.spec_sector_size() <= usize::MAX);
    let header: Vec<u8> = match reader.read_lba_run(0, 34) {
        Ok(h) => h,
        Err(e) => return Err(e),
    };
    let s: usize = ssz as usize;
    if header.len() >= s && is_protective_mbr(&header.as_slice()[0..s]) {
        match gpt_parse(header.as_slice(), ssz) {
            Ok(parts) => {
                return Ok(parts);
            },
            Err(_) => {},
        }
    }
    let size: u64 = reader.size_bytes();
    if header.len() >= s {
        match mbr_parse(&header.as_slice()[0..s], ssz, size) {
            Ok(parts) => {
                if parts.len() > 0 {
                    return Ok(parts);
                }
            },
            Err(_) => {},
        }
    }
    let mut out: Vec<PartitionInfo> = Vec::new();
    out.push(raw_partition(size, ssz));
    Ok(out)
}

/// One raw partition over a whole device of `size` bytes.
fn raw_partition(size: u64, ssz: u32) -> (p: PartitionInfo)
    requires
        ssz != 0,
    ensures
        p.index == 0,
        p.scheme == PartitionScheme::Raw,
        p.type_id@ == "raw"@,
        p.name is None,
        p.filesystem is None,
        p.start_lba == 0,
        p.length_sectors == size / (ssz as u64),
        p.sector_size == ssz,
        !p.reconstructed,
{
    PartitionInfo {
        index: 0,
        scheme: PartitionScheme::Raw,
        type_id: String::from_str("raw"),
        name: None,
        filesystem: None,
        start_lba: 0,
        length_sectors: size / (ssz as u64),
        sector_size: ssz,
        reconstructed: false,
    }
}

} // verus!
