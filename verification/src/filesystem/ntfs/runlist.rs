//! NTFS data-run list decoder.
//!
//! Each run starts with a header byte whose low nibble is the byte width of
//! the run length (unsigned) and whose high nibble is the byte width of the
//! LCN delta (signed); `0x00` ends the list. A run without an LCN field is
//! sparse (`lcn: None`) and does not move the LCN cursor; the first real run's
//! delta is taken from 0. Runs are volume-relative and measured in clusters.

use crate::error::Error;
use vstd::prelude::*;

verus! {

/// One decoded run: starting cluster (`None` when sparse) and length.
#[derive(Debug, Clone, Copy, PartialEq, Eq, Structural)]
pub struct RawRun {
    pub lcn: Option<i64>,
    pub length_clusters: u64,
}

/// OR-accumulation of the first `n` bytes, byte `i` shifted left by
/// `8 * (i mod 8)` bits (fields wider than 8 bytes wrap around).
pub open spec fn le_fold(b: Seq<u8>, n: int) -> u64
    decreases n,
{
    if n <= 0 {
        0
    } else {
        le_fold(b, n - 1) | ((b[n - 1] as u64) << ((8 * ((n - 1) % 8)) as u64))
    }
}

/// Unsigned little-endian value of `b`.
pub open spec fn unsigned_le(b: Seq<u8>) -> u64 {
    le_fold(b, b.len() as int)
}

/// Bits above an `n`-byte field, all set (none when the field is 8 bytes or wider).
pub open spec fn sign_mask(n: int) -> u64 {
    if n >= 8 {
        0
    } else {
        !(((1u64 << ((n * 8) as u64)) - 1) as u64)
    }
}

/// Position of the sign bit of an `n`-byte field, modulo 64.
pub open spec fn sign_shift(n: int) -> u64 {
    if n % 8 == 0 {
        63
    } else {
        (8 * (n % 8) - 1) as u64
    }
}

/// Signed little-endian value of `b`, sign-extended from its top bit.
pub open spec fn signed_le(b: Seq<u8>) -> i64 {
    let n = b.len() as int;
    if n == 0 {
        0
    } else {
        let v = le_fold(b, n);
        let sign_bit = 1u64 << sign_shift(n);
        if v & sign_bit != 0 {
            (v | sign_mask(n)) as i64
        } else {
            v as i64
        }
    }
}

/// Why a run list failed to decode, and where.
pub enum RunlistFault {
    /// A run header with a zero-width length field; offset after the header.
    ZeroLengthWidth(int),
    /// The run's fields run past the buffer.
    Truncated { offset: int, need: int, have: int },
    /// The LCN left the `i64` range; offset of the delta field.
    LcnOverflow(int),
    /// The LCN went negative; offset of the delta field.
    NegativeLcn(int),
}

/// `e` is the error reported for fault `f`.
pub open spec fn fault_error(f: RunlistFault, e: Error) -> bool {
    match f {
        RunlistFault::ZeroLengthWidth(o) => e matches Error::Corrupt { what, offset, detail } && what@
            == "runlist"@ && offset == o && detail@ == "length encoding length is 0"@,
        RunlistFault::Truncated { offset: o, need: n, have: h } => e == (Error::UnexpectedEof {
            offset: o as u64,
            need: n as usize,
            have: h as usize,
        }),
        RunlistFault::LcnOverflow(o) => e matches Error::Corrupt { what, offset, detail } && what@
            == "runlist"@ && offset == o && detail@ == "LCN overflow"@,
        RunlistFault::NegativeLcn(o) => e matches Error::Corrupt { what, offset, detail } && what@
            == "runlist"@ && offset == o && detail@ == "negative LCN"@,
    }
}

/// Runs decoded from `cursor` on, with `lcn` the current LCN cursor.
pub open spec fn decode_from(b: Seq<u8>, cursor: int, lcn: i64) -> Result<Seq<RawRun>, RunlistFault>
    decreases b.len() - cursor,
{
    if cursor < 0 || cursor >= b.len() || b[cursor] == 0 {
        Ok(Seq::empty())
    } else {
        let h = b[cursor];
        let lb = (h % 16) as int;
        let ob = (h / 16) as int;
        let c1 = cursor + 1;
        if lb == 0 {
            Err(RunlistFault::ZeroLengthWidth(c1))
        } else if c1 + lb + ob > b.len() {
            Err(RunlistFault::Truncated { offset: c1, need: lb + ob, have: b.len() - c1 })
        } else {
            let length = unsigned_le(b.subrange(c1, c1 + lb));
            let c2 = c1 + lb;
            if ob == 0 {
                match decode_from(b, c2, lcn) {
                    Ok(rest) => Ok(seq![RawRun { lcn: None, length_clusters: length }] + rest),
                    Err(f) => Err(f),
                }
            } else {
                let nl = lcn + signed_le(b.subrange(c2, c2 + ob));
                if nl < i64::MIN || nl > i64::MAX {
                    Err(RunlistFault::LcnOverflow(c2))
                } else if nl < 0 {
                    Err(RunlistFault::NegativeLcn(c2))
                } else {
                    match decode_from(b, c2 + ob, nl as i64) {
                        Ok(rest) => Ok(
                            seq![RawRun { lcn: Some(nl as i64), length_clusters: length }] + rest,
                        ),
                        Err(f) => Err(f),
                    }
                }
            }
        }
    }
}

/// `256` to the power `k`.
pub open spec fn pow256(k: nat) -> nat
    decreases k,
{
    if k == 0 {
        1
    } else {
        256 * pow256((k - 1) as nat)
    }
}

/// The number the first `n` bytes of `b` spell, least significant first:
/// byte `i` weighs `256^i`.
pub open spec fn le_number(b: Seq<u8>, n: nat) -> nat
    decreases n,
{
    if n == 0 {
        0
    } else {
        le_number(b, (n - 1) as nat) + b[n - 1] as nat * pow256((n - 1) as nat)
    }
}

proof fn lemma_or_shift(x: u64, y: u64, k: u64)
    requires
        k <= 56,
        x < (1u64 << k),
        y < 256,
    ensures
        x | (y << k) == x + y * (1u64 << k),
        x + y * (1u64 << k) < (1u64 << k) * 256,
        (1u64 << k) * 256 == (1u64 << (k + 8)) || k == 56,
{
    assert(x | (y << k) == x + y * (1u64 << k) && x + y * (1u64 << k) < (1u64 << k) * 256 && ((1u64 << k) * 256
        == (1u64 << (k + 8)) || k == 56)) by (bit_vector)
        requires
            k <= 56,
            x < (1u64 << k),
            y < 256,
    ;
}

proof fn lemma_shift_is_pow(n: nat)
    requires
        n <= 7,
    ensures
        (1u64 << ((8 * n) as u64)) as nat == pow256(n),
    decreases n,
{
    if n == 0 {
        assert((1u64 << 0u64) == 1u64) by (bit_vector);
    } else {
        lemma_shift_is_pow((n - 1) as nat);
        let k = (8 * (n - 1)) as u64;
        assert(((8 * n) as u64) == k + 8);
        let a = 1u64 << k;
        let c = 1u64 << ((k + 8) as u64);
        assert(a <= 0x1_0000_0000_0000u64 && c == (a * 256) as u64 && a * 256 <= u64::MAX) by (bit_vector)
            requires
                k <= 48,
                a == 1u64 << k,
                c == 1u64 << ((k + 8) as u64),
        ;
    }
}

/// Up to eight bytes, the little-endian reading is the number the bytes
/// spell, and it stays below `256^n`.
pub proof fn lemma_le_fold_is_number(b: Seq<u8>, n: nat)
    requires
        n <= 8,
        n <= b.len(),
    ensures
        le_fold(b, n as int) as nat == le_number(b, n),
        le_number(b, n) < pow256(n),
    decreases n,
{
    if n > 0 {
        lemma_le_fold_is_number(b, (n - 1) as nat);
        let m = (n - 1) as nat;
        lemma_shift_is_pow(m);
        let k = (8 * m) as u64;
        assert((8 * ((n - 1) % 8)) as u64 == k);
        let x = le_fold(b, m as int);
        let y = b[n - 1] as u64;
        lemma_or_shift(x, y, k);
        assert(pow256(n) == 256 * pow256(m));
        assert(le_number(b, n) < pow256(n)) by (nonlinear_arith)
            requires
                le_number(b, n) == le_number(b, m) + y * pow256(m),
                le_number(b, m) < pow256(m),
                y < 256,
                pow256(n) == 256 * pow256(m),
        ;
    }
}

/// Every run's length is the number its length field spells: the
/// `header & 0x0F` bytes after the header, least significant first (a field
/// of up to eight bytes), for the first run decoded from any position.
pub proof fn law_run_length_is_its_field(b: Seq<u8>, cursor: int, lcn: i64)
    requires
        0 <= cursor < b.len(),
        b[cursor] != 0,
        (b[cursor] % 16) <= 8,
    ensures
        decode_from(b, cursor, lcn) matches Ok(runs) ==> runs.len() >= 1 && runs[0].length_clusters as nat
            == le_number(b.subrange(cursor + 1, cursor + 1 + (b[cursor] % 16) as int), (b[cursor] % 16) as nat),
{
    let lb = (b[cursor] % 16) as int;
    let ob = (b[cursor] / 16) as int;
    if lb != 0 && cursor + 1 + lb + ob <= b.len() {
        let field = b.subrange(cursor + 1, cursor + 1 + lb);
        lemma_le_fold_is_number(field, lb as nat);
    }
}

/// Unsigned little-endian value of `bytes`.
pub fn read_unsigned_le(bytes: &[u8]) -> (r: u64)
    ensures
        r == unsigned_le(bytes@),
{
    let mut v: u64 = 0;
    let mut i: usize = 0;
    while i < bytes.len()
        invariant
            i <= bytes@.len(),
            v == le_fold(bytes@, i as int),
        decreases bytes.len() - i,
    {
        let sh: u64 = 8 * ((i % 8) as u64);
        v = v | ((bytes[i] as u64) << sh);
        i += 1;
    }
    v
}

/// Signed little-endian value of `bytes`, sign-extended.
pub fn read_signed_le(bytes: &[u8]) -> (r: i64)
    ensures
        r == signed_le(bytes@),
{
    let n: usize = bytes.len();
    if n == 0 {
        return 0;
    }
    let mut v: u64 = read_unsigned_le(bytes);
    let sh: u64 = if n % 8 == 0 {
        63
    } else {
        (8 * (n % 8) - 1) as u64
    };
    let sign_bit: u64 = 1u64 << sh;
    if v & sign_bit != 0 {
        let mask: u64 = if n >= 8 {
            0
        } else {
            let w: u64 = (n as u64) * 8;
            assert(1u64 << w >= 1) by (bit_vector)
                requires
                    w < 64,
            ;
            !((1u64 << w) - 1)
        };
        v = v | mask;
    }
    v as i64
}

/// Decode a run list.
pub fn decode(buf: &[u8]) -> (r: Result<Vec<RawRun>, Error>)
    ensures
        match decode_from(buf@, 0, 0) {
            Ok(runs) => r matches Ok(v) && v@ == runs,
            Err(f) => r matches Err(e) && fault_error(f, e),
        },
{
    let mut out: Vec<RawRun> = Vec::new();
    let mut cursor: usize = 0;
    let mut current_lcn: i64 = 0;
    while cursor < buf.len()
        invariant
            cursor <= buf@.len(),
            match decode_from(buf@, 0, 0) {
                Ok(runs) => decode_from(buf@, cursor as int, current_lcn) matches Ok(rest) && runs
                    == out@ + rest,
                Err(f) => decode_from(buf@, cursor as int, current_lcn) == Err::<Seq<RawRun>, RunlistFault>(f),
            },
        decreases buf.len() - cursor,
    {
        let header: u8 = buf[cursor];
        if header == 0 {
            assert(out@ + Seq::<RawRun>::empty() =~= out@);
            return Ok(out);
        }
        let len_bytes: usize = (header & 0x0F) as usize;
        let off_bytes: usize = (header >> 4) as usize;
        assert(header & 0x0F == header % 16) by (bit_vector);
        assert(header >> 4 == header / 16) by (bit_vector);
        cursor += 1;
        if len_bytes == 0 {
            return Err(
                Error::corrupt("runlist", cursor as u64, String::from_str("length encoding length is 0")),
            );
        }
        if len_bytes + off_bytes > buf.len() - cursor {
            return Err(
                Error::UnexpectedEof {
                    offset: cursor as u64,
                    need: len_bytes + off_bytes,
                    have: buf.len() - cursor,
                },
            );
        }
        let length: u64 = read_unsigned_le(&buf[cursor..cursor + len_bytes]);
        cursor += len_bytes;
        let lcn: Option<i64> = if off_bytes == 0 {
            None
        } else {
            let delta: i64 = read_signed_le(&buf[cursor..cursor + off_bytes]);
            current_lcn = match current_lcn.checked_add(delta) {
                Some(x) => x,
                None => {
                    return Err(
                        Error::corrupt("runlist", cursor as u64, String::from_str("LCN overflow")),
                    );
                },
            };
            if current_lcn < 0 {
                return Err(
                    Error::corrupt("runlist", cursor as u64, String::from_str("negative LCN")),
                );
            }
            Some(current_lcn)
        };
        cursor += off_bytes;
        let ghost before: Seq<RawRun> = out@;
        out.push(RawRun { lcn, length_clusters: length });
        proof {
            if decode_from(buf@, 0, 0) is Ok {
                assert(before + (seq![RawRun { lcn, length_clusters: length }] + decode_from(
                    buf@,
                    cursor as int,
                    current_lcn,
                )->Ok_0) =~= out@ + decode_from(buf@, cursor as int, current_lcn)->Ok_0);
            }
        }
    }
    assert(out@ + Seq::<RawRun>::empty() =~= out@);
    Ok(out)
}

} // verus!
