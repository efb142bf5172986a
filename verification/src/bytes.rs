//! Bounds-checked little/big-endian integer reads and byte-pattern searches
//! over byte windows.

use vstd::prelude::*;

verus! {

/// Little-endian value of the two bytes at `off`.
pub open spec fn le16(b: Seq<u8>, off: int) -> int {
    b[off] as int + b[off + 1] as int * 0x100
}

/// Little-endian value of the four bytes at `off`.
pub open spec fn le32(b: Seq<u8>, off: int) -> int {
    le16(b, off) + le16(b, off + 2) * 0x1_0000
}

/// Little-endian value of the eight bytes at `off`.
pub open spec fn le64(b: Seq<u8>, off: int) -> int {
    le32(b, off) + le32(b, off + 4) * 0x1_0000_0000
}

/// Big-endian value of the two bytes at `off`.
pub open spec fn be16(b: Seq<u8>, off: int) -> int {
    b[off] as int * 0x100 + b[off + 1] as int
}

/// Big-endian value of the four bytes at `off`.
pub open spec fn be32(b: Seq<u8>, off: int) -> int {
    be16(b, off) * 0x1_0000 + be16(b, off + 2)
}

/// Big-endian value of the eight bytes at `off`.
pub open spec fn be64(b: Seq<u8>, off: int) -> int {
    be32(b, off) * 0x1_0000_0000 + be32(b, off + 4)
}

/// `true` when `n` bytes starting at `off` lie inside `b`.
pub open spec fn fits(b: Seq<u8>, off: int, n: int) -> bool {
    0 <= off && off + n <= b.len()
}

/// Little-endian `u16` at `off`, or `None` when it would run past the end.
pub fn read_u16_le(buf: &[u8], off: usize) -> (r: Option<u16>)
    ensures
        r == (if fits(buf@, off as int, 2) { Some(le16(buf@, off as int) as u16) } else { None }),
{
    if off > buf.len() || buf.len() - off < 2 {
        return None;
    }
    let lo: u16 = buf[off] as u16;
    let hi: u16 = buf[off + 1] as u16;
    Some(lo + hi * 256)
}

/// Big-endian `u16` at `off`, or `None` when it would run past the end.
pub fn read_u16_be(buf: &[u8], off: usize) -> (r: Option<u16>)
    ensures
        r == (if fits(buf@, off as int, 2) { Some(be16(buf@, off as int) as u16) } else { None }),
{
    if off > buf.len() || buf.len() - off < 2 {
        return None;
    }
    let hi: u16 = buf[off] as u16;
    let lo: u16 = buf[off + 1] as u16;
    Some(hi * 256 + lo)
}

/// Little-endian `u32` at `off`, or `None` when it would run past the end.
pub fn read_u32_le(buf: &[u8], off: usize) -> (r: Option<u32>)
    ensures
        r == (if fits(buf@, off as int, 4) { Some(le32(buf@, off as int) as u32) } else { None }),
{
    if off > buf.len() || buf.len() - off < 4 {
        return None;
    }
    let lo: u32 = read_u16_le(buf, off).unwrap() as u32;
    let hi: u32 = read_u16_le(buf, off + 2).unwrap() as u32;
    Some(lo + hi * 0x1_0000)
}

/// Big-endian `u32` at `off`, or `None` when it would run past the end.
pub fn read_u32_be(buf: &[u8], off: usize) -> (r: Option<u32>)
    ensures
        r == (if fits(buf@, off as int, 4) { Some(be32(buf@, off as int) as u32) } else { None }),
{
    if off > buf.len() || buf.len() - off < 4 {
        return None;
    }
    let hi: u32 = read_u16_be(buf, off).unwrap() as u32;
    let lo: u32 = read_u16_be(buf, off + 2).unwrap() as u32;
    Some(hi * 0x1_0000 + lo)
}

/// Little-endian `u64` at `off`, or `None` when it would run past the end.
pub fn read_u64_le(buf: &[u8], off: usize) -> (r: Option<u64>)
    ensures
        r == (if fits(buf@, off as int, 8) { Some(le64(buf@, off as int) as u64) } else { None }),
{
    if off > buf.len() || buf.len() - off < 8 {
        return None;
    }
    let lo: u64 = read_u32_le(buf, off).unwrap() as u64;
    let hi: u64 = read_u32_le(buf, off + 4).unwrap() as u64;
    Some(lo + hi * 0x1_0000_0000)
}

/// Big-endian `u64` at `off`, or `None` when it would run past the end.
pub fn read_u64_be(buf: &[u8], off: usize) -> (r: Option<u64>)
    ensures
        r == (if fits(buf@, off as int, 8) { Some(be64(buf@, off as int) as u64) } else { None }),
{
    if off > buf.len() || buf.len() - off < 8 {
        return None;
    }
    let hi: u64 = read_u32_be(buf, off).unwrap() as u64;
    let lo: u64 = read_u32_be(buf, off + 4).unwrap() as u64;
    Some(hi * 0x1_0000_0000 + lo)
}

/// `needle` occurs in `hay` at position `p`.
pub open spec fn occurs_at(hay: Seq<u8>, needle: Seq<u8>, p: int) -> bool {
    0 <= p && p + needle.len() <= hay.len() && hay.subrange(p, p + needle.len()) == needle
}

/// Last position `p` with `p + needle.len() <= end` where `needle` occurs.
pub open spec fn last_occurrence(hay: Seq<u8>, needle: Seq<u8>, end: int) -> Option<int> {
    if needle.len() > 0 && exists|p: int| p + needle.len() <= end && #[trigger] occurs_at(hay, needle, p) {
        Some(
            choose|p: int|
                p + needle.len() <= end && occurs_at(hay, needle, p) && forall|q: int|
                    p < q && q + needle.len() <= end ==> !#[trigger] occurs_at(hay, needle, q),
        )
    } else {
        None
    }
}

/// `needle` (non-empty) occurs somewhere at or after `start`.
pub open spec fn occurs_from(hay: Seq<u8>, needle: Seq<u8>, start: int) -> bool {
    needle.len() > 0 && exists|p: int| start <= p && #[trigger] occurs_at(hay, needle, p)
}

/// Compare `hay[p..p+needle.len()]` with `needle`.
pub fn matches_at(hay: &[u8], needle: &[u8], p: usize) -> (r: bool)
    requires
        p + needle.len() <= hay.len(),
    ensures
        r == occurs_at(hay@, needle@, p as int),
{
    let mut k: usize = 0;
    while k < needle.len()
        invariant
            k <= needle.len(),
            p + needle.len() <= hay.len(),
            forall|j: int| 0 <= j < k ==> hay@[p + j] == needle@[j],
        decreases needle.len() - k,
    {
        if hay[p + k] != needle[k] {
            assert(hay@.subrange(p as int, p + needle.len())[k as int] != needle@[k as int]);
            return false;
        }
        k += 1;
    }
    assert(hay@.subrange(p as int, p + needle.len()) =~= needle@);
    true
}

/// Search `haystack[start..]` for `needle`, returning the absolute position of
/// the first match. An empty needle or a start past the end finds nothing.
pub fn find_from(haystack: &[u8], needle: &[u8], start: usize) -> (r: Option<usize>)
    ensures
        match r {
            Some(p) => {
                &&& start <= p
                &&& needle.len() > 0
                &&& occurs_at(haystack@, needle@, p as int)
                &&& forall|q: int| start <= q < p ==> !occurs_at(haystack@, needle@, q)
            },
            None => forall|q: int| start <= q ==> !occurs_at(haystack@, needle@, q) || needle.len() == 0,
        },
        r is Some == occurs_from(haystack@, needle@, start as int),
{
    if needle.len() == 0 || start >= haystack.len() || needle.len() > haystack.len() - start {
        return None;
    }
    let last: usize = haystack.len() - needle.len();
    let mut p: usize = start;
    while p <= last
        invariant
            start <= p,
            p <= last + 1,
            needle.len() > 0,
            last + needle.len() == haystack.len(),
            forall|q: int| start <= q < p ==> !occurs_at(haystack@, needle@, q),
        decreases last + 1 - p,
    {
        if matches_at(haystack, needle, p) {
            return Some(p);
        }
        p += 1;
    }
    None
}

/// Search `haystack[..end]` (with `end` clamped to the length) for the last
/// occurrence of `needle` that lies entirely before `end`.
pub fn rfind_within(haystack: &[u8], needle: &[u8], end: usize) -> (r: Option<usize>)
    ensures
        match r {
            Some(p) => {
                &&& needle.len() > 0
                &&& p + needle.len() <= end
                &&& occurs_at(haystack@, needle@, p as int)
                &&& forall|q: int| p < q && q + needle.len() <= end ==> !occurs_at(haystack@, needle@, q)
            },
            None => needle.len() == 0 || forall|q: int| 0 <= q && q + needle.len() <= end ==> !occurs_at(haystack@, needle@, q),
        },
        match r {
            Some(p) => last_occurrence(haystack@, needle@, end as int) == Some(p as int),
            None => last_occurrence(haystack@, needle@, end as int) is None,
        },
{
    if needle.len() == 0 {
        return None;
    }
    let upper: usize = if end < haystack.len() { end } else { haystack.len() };
    if needle.len() > upper {
        return None;
    }
    let mut p: usize = upper - needle.len() + 1;
    while p > 0
        invariant
            p + needle.len() <= upper + 1,
            upper <= haystack.len(),
            upper <= end,
            needle.len() > 0,
            forall|q: int| p <= q && q + needle.len() <= end ==> !occurs_at(haystack@, needle@, q),
        decreases p,
    {
        p -= 1;
        if matches_at(haystack, needle, p) {
            proof {
                let w = choose|x: int|
                    x + needle.len() <= end && occurs_at(haystack@, needle@, x) && forall|q: int|
                        x < q && q + needle.len() <= end ==> !#[trigger] occurs_at(haystack@, needle@, q);
                assert(occurs_at(haystack@, needle@, p as int));
                if w != p as int {
                    assert(w < p ==> !occurs_at(haystack@, needle@, p as int));
                }
            }
            return Some(p);
        }
    }
    proof {
        assert forall|q: int| q + needle.len() <= end implies !#[trigger] occurs_at(haystack@, needle@, q) by {
            if q < 0 {
            }
        }
    }
    None
}

} // verus!
