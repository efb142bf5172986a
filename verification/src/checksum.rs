//! CRC-32 (ISO-HDLC, the polynomial of PNG chunks and GPT headers), computed
//! by the `crc` crate.

use vstd::prelude::*;

verus! {

/// `n` steps of the bit-serial CRC register, shifting right with the
/// reflected polynomial `0xEDB88320`.
pub open spec fn crc32_shift(crc: u32, n: nat) -> u32
    decreases n,
{
    if n == 0 {
        crc
    } else {
        crc32_shift(
            if crc & 1u32 == 1u32 {
                (crc >> 1u32) ^ 0xEDB8_8320u32
            } else {
                crc >> 1u32
            },
            (n - 1) as nat,
        )
    }
}

/// The CRC register after feeding `s`, least significant bit of each byte
/// first, from the value `crc`.
pub open spec fn crc32_update(crc: u32, s: Seq<u8>) -> u32
    decreases s.len(),
{
    if s.len() == 0 {
        crc
    } else {
        crc32_shift(crc32_update(crc, s.drop_last()) ^ (s.last() as u32), 8)
    }
}

/// CRC-32/ISO-HDLC of `data`: polynomial `0x04C11DB7` with reflected input
/// and output, initial value and final XOR `0xFFFFFFFF`.
pub open spec fn crc32_iso_hdlc(data: Seq<u8>) -> u32 {
    crc32_update(0xFFFF_FFFFu32, data) ^ 0xFFFF_FFFFu32
}

/// Calls `crc::Crc::<u32>::checksum` with the `crc::CRC_32_ISO_HDLC`
/// parameters (width 32, polynomial `0x04C11DB7`, initial value
/// `0xFFFFFFFF`, reflected in and out, final XOR `0xFFFFFFFF`). Its contract
/// claims that the table-driven checksum the crate computes is the CRC those
/// parameters define, [`crc32_iso_hdlc`] of the bytes passed in.
#[verifier::external_body]
pub(crate) fn crc32(data: &[u8]) -> (r: u32)
    ensures
        r == crc32_iso_hdlc(data@),
{
    crc::Crc::<u32>::new(&crc::CRC_32_ISO_HDLC).checksum(data)
}

} // verus!
