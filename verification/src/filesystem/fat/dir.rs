//! FAT32 directory entries, with long-file-name reassembly. Entries are 32
//! bytes; long-name entries (attribute `0x0F`) precede their 8.3 entry in
//! reverse order; deleted entries start with `0xE5`.

use crate::bytes::{le16, le32, read_u16_le, read_u32_le};
use crate::strings::{char_from_u32, is_scalar, push_char};
use vstd::prelude::*;

verus! {

pub const ENTRY_SIZE: usize = 32;

pub const ATTR_LFN: u8 = 0x0F;

pub const ATTR_VOLUME: u8 = 0x08;

pub const ATTR_DIR: u8 = 0x10;

pub const DELETED_MARKER: u8 = 0xE5;

#[derive(Debug, Clone)]
pub struct FileEntry {
    pub name: String,
    pub size_bytes: u32,
    pub first_cluster: u32,
    pub is_deleted: bool,
}

#[derive(Debug, Clone)]
pub struct SubdirEntry {
    pub name: String,
    pub first_cluster: u32,
}

#[derive(Debug, Clone)]
pub enum FatDirEntry {
    File(FileEntry),
    Subdir(SubdirEntry),
    Volume(String),
    DeletedRaw(DirEntryRaw),
    EndOfDirectory,
}

#[derive(Debug, Clone)]
pub struct DirEntryRaw {
    pub bytes: [u8; 32],
}

/// Iterator over the 32-byte entries of a directory buffer.
#[derive(Debug)]
pub struct DirIter<'a> {
    pub buf: &'a [u8],
    pub cursor: usize,
    /// Long-name pieces met since the last 8.3 entry, in disk order.
    pub pending_lfn: Vec<[u16; 13]>,
    /// Their sequence bytes.
    pub pending_lfn_seq: Vec<u8>,
}

/// Offset within an LFN entry of name unit `k` (five, six, then two units).
pub open spec fn lfn_pos(k: int) -> int {
    if k < 5 {
        1 + 2 * k
    } else if k < 11 {
        0x0E + 2 * (k - 5)
    } else {
        0x1C + 2 * (k - 11)
    }
}

/// The bytes of a long-name entry that hold no name unit: the sequence byte,
/// the attribute, the type, the checksum and the first-cluster field.
pub open spec fn lfn_fixed_byte(b: int) -> bool {
    b == 0 || b == 0x0B || b == 0x0C || b == 0x0D || b == 0x1A || b == 0x1B
}

/// The 13 name units of a long-name entry fill every byte of the 32-byte
/// entry that is not a fixed field, two bytes each, in the order of their
/// positions: each unit lies inside the entry, clear of the fixed fields, and
/// after the one before it.
pub proof fn law_lfn_units_fill_the_name_bytes()
    ensures
        forall|k: int| 0 <= k < 13 ==> 0 <= #[trigger] lfn_pos(k) && lfn_pos(k) + 2 <= 32,
        forall|k: int| 0 <= k < 13 ==> !lfn_fixed_byte(#[trigger] lfn_pos(k)) && !lfn_fixed_byte(lfn_pos(k) + 1),
        forall|k: int, l: int| 0 <= k < l < 13 ==> #[trigger] lfn_pos(k) + 2 <= #[trigger] lfn_pos(l),
        forall|b: int|
            0 <= b < 32 && !lfn_fixed_byte(b) ==> exists|k: int| 0 <= k < 13 && #[trigger] lfn_pos(k) <= b <= lfn_pos(k) + 1,
{
    assert forall|b: int| 0 <= b < 32 && !lfn_fixed_byte(b) implies exists|k: int|
        0 <= k < 13 && #[trigger] lfn_pos(k) <= b <= lfn_pos(k) + 1 by {
        let k = if b < 0x0B {
            (b - 1) / 2
        } else if b < 0x1A {
            5 + (b - 0x0E) / 2
        } else {
            11 + (b - 0x1C) / 2
        };
        assert(lfn_pos(k) <= b <= lfn_pos(k) + 1);
    }
}

/// The 13 name units of the LFN entry `e`.
pub open spec fn lfn_units(e: Seq<u8>) -> Seq<u16> {
    Seq::new(13, |k: int| le16(e, lfn_pos(k)) as u16)
}

/// Pending pieces in name order (the last one met comes first).
pub open spec fn pieces_in_order(p: Seq<Seq<u16>>) -> Seq<u16>
    decreases p.len(),
{
    if p.len() == 0 {
        Seq::empty()
    } else {
        p.last() + pieces_in_order(p.drop_last())
    }
}

/// Characters of name units up to the first `0x0000` or `0xFFFF`; units that
/// are not scalar values become `?`.
pub open spec fn units_text(u: Seq<u16>) -> Seq<char>
    decreases u.len(),
{
    if u.len() == 0 || u[0] == 0 || u[0] == 0xFFFF {
        Seq::empty()
    } else {
        seq![if is_scalar(u[0] as u32) {
            (u[0] as u32) as char
        } else {
            '?'
        }] + units_text(u.drop_first())
    }
}

/// Bytes before the first space.
pub open spec fn until_space(s: Seq<u8>) -> Seq<u8>
    decreases s.len(),
{
    if s.len() == 0 || s[0] == 0x20u8 {
        Seq::empty()
    } else {
        seq![s[0]] + until_space(s.drop_first())
    }
}

/// Bytes as Latin-1 characters.
pub open spec fn latin1(s: Seq<u8>) -> Seq<char> {
    Seq::new(s.len(), |i: int| (s[i] as u32) as char)
}

/// The 8.3 name of entry `e` (`_` replacing the marker of a deleted entry).
pub open spec fn short_name(e: Seq<u8>, deleted: bool) -> Seq<char> {
    let first: u8 = if deleted {
        0x5Fu8
    } else {
        e[0]
    };
    let base = latin1(until_space(seq![first] + e.subrange(1, 8)));
    let ext = latin1(until_space(e.subrange(8, 11)));
    if ext.len() == 0 {
        base
    } else {
        base + seq!['.'] + ext
    }
}

/// Name of the 8.3 entry `e` given the pending long-name pieces.
pub open spec fn entry_name(e: Seq<u8>, pending: Seq<Seq<u16>>, deleted: bool) -> Seq<char> {
    if pending.len() > 0 {
        units_text(pieces_in_order(pending))
    } else {
        short_name(e, deleted)
    }
}

/// `r` is the entry produced for the 8.3 entry `e`.
pub open spec fn sfn_entry(r: FatDirEntry, e: Seq<u8>, pending: Seq<Seq<u16>>) -> bool {
    let deleted = e[0] == DELETED_MARKER;
    let attr = e[0x0B];
    let first_cluster = ((le16(e, 0x14) as u32) << 16u32) | (le16(e, 0x1A) as u32);
    let name = entry_name(e, pending, deleted);
    if attr & ATTR_VOLUME != 0 && attr & ATTR_DIR == 0 {
        r matches FatDirEntry::Volume(n) && n@ == name
    } else if attr & ATTR_DIR != 0 {
        r matches FatDirEntry::Subdir(d) && d.name@ == name && d.first_cluster == first_cluster
    } else {
        r matches FatDirEntry::File(f) && f.name@ == name && f.first_cluster == first_cluster
            && f.size_bytes == le32(e, 0x1C) && f.is_deleted == deleted
    }
}

/// Walk from `cursor` with `pending` pieces: the offset of the entry that
/// ends the step (`None` at the end of the buffer), the cursor after it, and
/// the pieces pending when it was reached.
pub open spec fn walk(b: Seq<u8>, cursor: int, pending: Seq<Seq<u16>>) -> (Option<int>, int, Seq<Seq<u16>>)
    decreases b.len() - cursor,
{
    if cursor < 0 || cursor + 32 > b.len() {
        (None, cursor, pending)
    } else {
        let e = b.subrange(cursor, cursor + 32);
        if e[0] != 0 && e[0x0B] == ATTR_LFN {
            walk(b, cursor + 32, pending.push(lfn_units(e)))
        } else {
            (Some(cursor), cursor + 32, pending)
        }
    }
}

impl<'a> DirIter<'a> {
    /// Iterator at the start of `buf`.
    pub fn new(buf: &'a [u8]) -> (r: Self)
        ensures
            r.buf@ == buf@,
            r.cursor == 0,
            r.pending_lfn@.len() == 0,
            r.pending_lfn_seq@.len() == 0,
    {
        DirIter { buf, cursor: 0, pending_lfn: Vec::new(), pending_lfn_seq: Vec::new() }
    }

    /// The pending pieces as unit sequences.
    pub open spec fn pending(&self) -> Seq<Seq<u16>> {
        self.pending_lfn@.map_values(|a: [u16; 13]| a@)
    }

    /// Next entry: long-name pieces are collected until their 8.3 entry,
    /// which yields a file, a subdirectory or the volume label; a zero first
    /// byte yields the end-of-directory marker; `None` at the end of the buffer.
    pub fn next_entry(&mut self) -> (r: Option<FatDirEntry>)
        requires
            old(self).pending_lfn@.len() == old(self).pending_lfn_seq@.len(),
        ensures
            ({
                let w = walk(old(self).buf@, old(self).cursor as int, old(self).pending());
                &&& final(self).buf@ == old(self).buf@
                &&& final(self).cursor == w.1
                &&& final(self).pending_lfn@.len() == final(self).pending_lfn_seq@.len()
                &&& match w.0 {
                    None => r is None && final(self).pending() == w.2,
                    Some(off) => {
                        let e = old(self).buf@.subrange(off, off + 32);
                        if e[0] == 0 {
                            r matches Some(FatDirEntry::EndOfDirectory) && final(self).pending() == w.2
                        } else {
                            r matches Some(x) && sfn_entry(x, e, w.2) && final(self).pending_lfn@.len() == 0
                        }
                    },
                }
            }),
    {
        loop
            invariant
                self.buf@ == old(self).buf@,
                self.pending_lfn@.len() == self.pending_lfn_seq@.len(),
                walk(self.buf@, self.cursor as int, self.pending()) == walk(
                    old(self).buf@,
                    old(self).cursor as int,
                    old(self).pending(),
                ),
            decreases self.buf@.len() - self.cursor,
        {
            if self.cursor > self.buf.len() || self.buf.len() - self.cursor < ENTRY_SIZE {
                return None;
            }
            let start: usize = self.cursor;
            let e: &[u8] = &self.buf[start..start + ENTRY_SIZE];
            self.cursor = start + ENTRY_SIZE;
            if e[0] == 0x00 {
                return Some(FatDirEntry::EndOfDirectory);
            }
            let attr: u8 = e[0x0B];
            if attr == ATTR_LFN {
                let seq_raw: u8 = e[0];
                let mut chars: [u16; 13] = [0u16; 13];
                let mut k: usize = 0;
                while k < 13
                    invariant
                        k <= 13,
                        e@.len() == 32,
                        forall|j: int| 0 <= j < k ==> chars@[j] == le16(e@, lfn_pos(j)) as u16,
                        chars@.len() == 13,
                    decreases 13 - k,
                {
                    let p: usize = if k < 5 {
                        1 + 2 * k
                    } else if k < 11 {
                        0x0E + 2 * (k - 5)
                    } else {
                        0x1C + 2 * (k - 11)
                    };
                    chars.set(k, read_u16_le(e, p).unwrap());
                    k += 1;
                }
                assert(chars@ =~= lfn_units(e@));
                let ghost before: Seq<[u16; 13]> = self.pending_lfn@;
                self.pending_lfn.push(chars);
                self.pending_lfn_seq.push(seq_raw);
                assert(self.pending() =~= before.map_values(|a: [u16; 13]| a@).push(lfn_units(e@)));
                continue;
            }
            let is_deleted: bool = e[0] == DELETED_MARKER;
            let hi: u32 = read_u16_le(e, 0x14).unwrap() as u32;
            let lo: u32 = read_u16_le(e, 0x1A).unwrap() as u32;
            let first_cluster: u32 = (hi << 16) | lo;
            let size_bytes: u32 = read_u32_le(e, 0x1C).unwrap();
            let name: String = self.consume_name(e, is_deleted);
            self.pending_lfn.clear();
            self.pending_lfn_seq.clear();
            if attr & ATTR_VOLUME != 0 && attr & ATTR_DIR == 0 {
                return Some(FatDirEntry::Volume(name));
            }
            if attr & ATTR_DIR != 0 {
                return Some(FatDirEntry::Subdir(SubdirEntry { name, first_cluster }));
            }
            return Some(FatDirEntry::File(FileEntry { name, size_bytes, first_cluster, is_deleted }));
        }
    }

    /// Name of the 8.3 entry `sfn`: the pending long name when there is one,
    /// else the short name.
    #[verifier::loop_isolation(false)]
    fn consume_name(&self, sfn: &[u8], is_deleted: bool) -> (r: String)
        requires
            sfn@.len() == 32,
        ensures
            r@ == entry_name(sfn@, self.pending(), is_deleted),
    {
        if self.pending_lfn.len() > 0 {
            let mut flat: Vec<u16> = Vec::new();
            let mut k: usize = self.pending_lfn.len();
            while k > 0
                invariant
                    k <= self.pending_lfn@.len(),
                    flat@ == pieces_in_order(self.pending().subrange(k as int, self.pending().len() as int)),
                decreases k,
            {
                k -= 1;
                let piece: [u16; 13] = self.pending_lfn[k];
                let ghost sub: Seq<Seq<u16>> = self.pending().subrange(k as int, self.pending().len() as int);
                let mut j: usize = 0;
                let ghost before: Seq<u16> = flat@;
                while j < 13
                    invariant
                        j <= 13,
                        flat@ == before + piece@.subrange(0, j as int),
                    decreases 13 - j,
                {
                    flat.push(piece[j]);
                    j += 1;
                }
                proof {
                    assert(piece@.subrange(0, 13) =~= piece@);
                    assert(self.pending()[k as int] == piece@);
                    lemma_pieces_prepend(self.pending().subrange(k + 1, self.pending().len() as int), piece@);
                    assert(sub =~= seq![piece@] + self.pending().subrange(k + 1, self.pending().len() as int));
                }
            }
            assert(self.pending().subrange(0, self.pending().len() as int) =~= self.pending());
            let mut name: String = String::new();
            let mut i: usize = 0;
            assert(flat@.subrange(0, flat@.len() as int) =~= flat@);
            while i < flat.len()
                invariant
                    i <= flat@.len(),
                    name@ + units_text(flat@.subrange(i as int, flat@.len() as int)) == units_text(flat@),
                decreases flat.len() - i,
            {
                let c: u16 = flat[i];
                assert(flat@.subrange(i as int, flat@.len() as int).drop_first() =~= flat@.subrange(i + 1, flat@.len() as int));
                if c == 0 || c == 0xFFFF {
                    assert(name@ + Seq::<char>::empty() =~= name@);
                    return name;
                }
                let ch: char = match char_from_u32(c as u32) {
                    Some(ch) => ch,
                    None => '?',
                };
                let ghost before: Seq<char> = name@;
                push_char(&mut name, ch);
                assert(before + units_text(flat@.subrange(i as int, flat@.len() as int)) =~= name@
                    + units_text(flat@.subrange(i + 1, flat@.len() as int)));
                i += 1;
            }
            assert(name@ + Seq::<char>::empty() =~= name@);
            return name;
        }
        let first: u8 = if is_deleted {
            0x5F
        } else {
            sfn[0]
        };
        let mut base: String = String::new();
        let ghost bseq: Seq<u8> = seq![first] + sfn@.subrange(1, 8);
        let mut i: usize = 0;
        assert(bseq.subrange(0, 8) =~= bseq);
        while i < 8
            invariant
                i <= 8,
                sfn@.len() == 32,
                bseq == seq![first] + sfn@.subrange(1, 8),
                base@ + latin1(until_space(bseq.subrange(i as int, 8))) == latin1(until_space(bseq)),
            decreases 8 - i,
        {
            let b: u8 = if i == 0 {
                first
            } else {
                sfn[i]
            };
            assert(b == bseq[i as int]);
            assert(bseq.subrange(i as int, 8).drop_first() =~= bseq.subrange(i + 1, 8));
            if b == 0x20 {
                assert(base@ + Seq::<char>::empty() =~= base@);
                break;
            }
            let ghost before: Seq<char> = base@;
            push_char(&mut base, char_from_u32(b as u32).unwrap());
            assert(before + latin1(until_space(bseq.subrange(i as int, 8))) =~= base@ + latin1(
                until_space(bseq.subrange(i + 1, 8)),
            ));
            i += 1;
        }
        proof {
            if i == 8 {
                assert(base@ + Seq::<char>::empty() =~= base@);
            }
        }
        let mut ext: String = String::new();
        let ghost eseq: Seq<u8> = sfn@.subrange(8, 11);
        let mut j: usize = 0;
        assert(eseq.subrange(0, 3) =~= eseq);
        while j < 3
            invariant
                j <= 3,
                sfn@.len() == 32,
                eseq == sfn@.subrange(8, 11),
                ext@ + latin1(until_space(eseq.subrange(j as int, 3))) == latin1(until_space(eseq)),
            decreases 3 - j,
        {
            let b: u8 = sfn[8 + j];
            assert(eseq.subrange(j as int, 3).drop_first() =~= eseq.subrange(j + 1, 3));
            if b == 0x20 {
                assert(ext@ + Seq::<char>::empty() =~= ext@);
                break;
            }
            let ghost before: Seq<char> = ext@;
            push_char(&mut ext, char_from_u32(b as u32).unwrap());
            assert(before + latin1(until_space(eseq.subrange(j as int, 3))) =~= ext@ + latin1(
                until_space(eseq.subrange(j + 1, 3)),
            ));
            j += 1;
        }
        proof {
            if j == 3 {
                assert(ext@ + Seq::<char>::empty() =~= ext@);
            }
        }
        if ext.as_str().is_empty() {
            base
        } else {
            push_char(&mut base, '.');
            base.append(ext.as_str());
            base
        }
    }
}

proof fn lemma_pieces_prepend(p: Seq<Seq<u16>>, x: Seq<u16>)
    ensures
        pieces_in_order(seq![x] + p) == pieces_in_order(p) + x,
    decreases p.len(),
{
    if p.len() == 0 {
        assert((seq![x] + p).drop_last() =~= Seq::<Seq<u16>>::empty());
        assert((seq![x] + p).last() == x);
        assert(pieces_in_order(Seq::<Seq<u16>>::empty()) == Seq::<u16>::empty());
        assert(pieces_in_order(seq![x] + p) == x + pieces_in_order(Seq::<Seq<u16>>::empty()));
        assert(pieces_in_order(seq![x] + p) =~= pieces_in_order(p) + x);
    } else {
        assert((seq![x] + p).drop_last() =~= seq![x] + p.drop_last());
        assert((seq![x] + p).last() == p.last());
        lemma_pieces_prepend(p.drop_last(), x);
        let a = pieces_in_order(p.drop_last());
        assert(pieces_in_order(seq![x] + p) == p.last() + pieces_in_order(seq![x] + p.drop_last()));
        assert(pieces_in_order(p) == p.last() + a);
        assert(p.last() + (a + x) =~= (p.last() + a) + x);
    }
}

} // verus!
