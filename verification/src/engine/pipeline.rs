//! The pure steps of a scan: which phases a strategy runs, which byte ranges
//! of the device lie outside every partition (the carving targets of a deep
//! scan), and how carved and enumerated files become file records.

use crate::strings::{hex_lower_padded, push_char, push_hex_lower_padded};
use crate::types::{CarvedFile, FileKind, FileRecord, FileSource, PartitionInfo};
use vstd::prelude::*;

verus! {

/// Byte ranges are `(start, end)` pairs, half-open.
pub open spec fn in_spans(s: Seq<(u64, u64)>, x: int) -> bool {
    exists|k: int| 0 <= k < s.len() && (#[trigger] s[k]).0 <= x < s[k].1
}

/// First byte of partition `p` on a device of sector size `ss`.
pub open spec fn span_start(p: PartitionInfo, ss: u32) -> int {
    p.start_lba * ss
}

/// End of partition `p` (exclusive), cut at the device's end.
pub open spec fn span_end(p: PartitionInfo, ss: u32, device_bytes: u64) -> int {
    let end = p.start_lba * ss + p.length_sectors * ss;
    if end < device_bytes {
        end
    } else {
        device_bytes as int
    }
}

/// The byte range that partition `p` occupies.
pub open spec fn partition_span(p: PartitionInfo, ss: u32, device_bytes: u64) -> (u64, u64) {
    (span_start(p, ss) as u64, span_end(p, ss, device_bytes) as u64)
}

/// The byte ranges of the partitions, in their order.
pub open spec fn partition_spans(parts: Seq<PartitionInfo>, ss: u32, device_bytes: u64) -> Seq<(u64, u64)> {
    parts.map_values(|p: PartitionInfo| partition_span(p, ss, device_bytes))
}

/// Every partition's first and last byte offsets fit in a `u64`.
pub open spec fn spans_fit(parts: Seq<PartitionInfo>, ss: u32) -> bool {
    forall|i: int| 0 <= i < parts.len() ==> #[trigger] parts[i].start_lba * ss + parts[i].length_sectors * ss <= u64::MAX
}

/// Every partition starts inside the device.
pub open spec fn starts_within(parts: Seq<PartitionInfo>, ss: u32, device_bytes: u64) -> bool {
    forall|i: int| 0 <= i < parts.len() ==> span_start(#[trigger] parts[i], ss) <= device_bytes
}

/// Insert `e` into `sorted` after every range that starts no later.
pub open spec fn insert_by_start(sorted: Seq<(u64, u64)>, e: (u64, u64)) -> Seq<(u64, u64)>
    decreases sorted.len(),
{
    if sorted.len() == 0 {
        seq![e]
    } else if sorted.last().0 <= e.0 {
        sorted.push(e)
    } else {
        insert_by_start(sorted.drop_last(), e).push(sorted.last())
    }
}

/// Stable sort of ranges by start.
pub open spec fn sort_by_start(s: Seq<(u64, u64)>) -> Seq<(u64, u64)>
    decreases s.len(),
{
    if s.len() == 0 {
        s
    } else {
        insert_by_start(sort_by_start(s.drop_last()), s.last())
    }
}

/// Walk ranges sorted by start with a cursor at the furthest end seen so
/// far; each range that starts past the cursor leaves the gap before it.
/// Gives the gaps and the final cursor.
pub open spec fn sweep(sp: Seq<(u64, u64)>) -> (Seq<(u64, u64)>, u64)
    decreases sp.len(),
{
    if sp.len() == 0 {
        (Seq::empty(), 0)
    } else {
        let prev = sweep(sp.drop_last());
        let s = sp.last().0;
        let e = sp.last().1;
        (
            if s > prev.1 {
                prev.0.push((prev.1, s))
            } else {
                prev.0
            },
            if e > prev.1 {
                e
            } else {
                prev.1
            },
        )
    }
}

/// The gaps of `sorted` and the tail of the device after the last of them.
pub open spec fn gaps(sorted: Seq<(u64, u64)>, device_bytes: u64) -> Seq<(u64, u64)> {
    let w = sweep(sorted);
    if w.1 < device_bytes {
        w.0.push((w.1, device_bytes))
    } else {
        w.0
    }
}

/// What `compute_unallocated_ranges` returns.
pub open spec fn unallocated(parts: Seq<PartitionInfo>, ss: u32, device_bytes: u64) -> Seq<(u64, u64)> {
    gaps(sort_by_start(partition_spans(parts, ss, device_bytes)), device_bytes)
}

/// Ranges sorted by start.
pub open spec fn sorted_by_start(s: Seq<(u64, u64)>) -> bool {
    forall|i: int, j: int| 0 <= i < j < s.len() ==> (#[trigger] s[i]).0 <= (#[trigger] s[j]).0
}

/// A range of a partition: it ends inside the device, and it ends no
/// earlier than it starts unless it was cut at the device's end.
pub open spec fn span_ok(e: (u64, u64), device_bytes: u64) -> bool {
    e.1 <= device_bytes && (e.0 <= e.1 || e.1 == device_bytes)
}

pub open spec fn spans_ok(s: Seq<(u64, u64)>, device_bytes: u64) -> bool {
    forall|i: int| 0 <= i < s.len() ==> span_ok(#[trigger] s[i], device_bytes)
}

pub open spec fn span_starts_within(s: Seq<(u64, u64)>, device_bytes: u64) -> bool {
    forall|i: int| 0 <= i < s.len() ==> (#[trigger] s[i]).0 <= device_bytes
}

/// Ranges that are non-empty.
pub open spec fn all_nonempty(r: Seq<(u64, u64)>) -> bool {
    forall|k: int| 0 <= k < r.len() ==> (#[trigger] r[k]).0 < r[k].1
}

/// Ranges in increasing order, none overlapping the next.
pub open spec fn ordered_disjoint(r: Seq<(u64, u64)>) -> bool {
    forall|j: int, k: int| 0 <= j < k < r.len() ==> (#[trigger] r[j]).1 <= (#[trigger] r[k]).0
}

proof fn lemma_in_spans_push(s: Seq<(u64, u64)>, e: (u64, u64), x: int)
    ensures
        in_spans(s.push(e), x) <==> (in_spans(s, x) || (e.0 <= x < e.1)),
{
    let t = s.push(e);
    if in_spans(s, x) {
        let k = choose|k: int| 0 <= k < s.len() && (#[trigger] s[k]).0 <= x < s[k].1;
        assert(t[k] == s[k]);
    }
    if e.0 <= x < e.1 {
        assert(t[s.len() as int] == e);
    }
    if in_spans(t, x) {
        let k = choose|k: int| 0 <= k < t.len() && (#[trigger] t[k]).0 <= x < t[k].1;
        if k < s.len() {
            assert(t[k] == s[k]);
        }
    }
}

proof fn lemma_insert_by_start(sorted: Seq<(u64, u64)>, e: (u64, u64))
    requires
        sorted_by_start(sorted),
    ensures
        ({
            let t = insert_by_start(sorted, e);
            &&& sorted_by_start(t)
            &&& t.len() == sorted.len() + 1
            &&& forall|j: int| 0 <= j < t.len() ==> #[trigger] t[j] == e || sorted.contains(t[j])
            &&& t.contains(e)
            &&& forall|i: int| 0 <= i < sorted.len() ==> t.contains(#[trigger] sorted[i])
            &&& forall|j: int| 0 <= j < t.len() ==> (#[trigger] t[j]).0 <= e.0 || (sorted.len() > 0 && t[j].0
                <= sorted.last().0)
        }),
    decreases sorted.len(),
{
    let t = insert_by_start(sorted, e);
    if sorted.len() == 0 {
        assert(t[0] == e);
    } else if sorted.last().0 <= e.0 {
        assert(t[sorted.len() as int] == e);
        assert forall|i: int| 0 <= i < sorted.len() implies t.contains(#[trigger] sorted[i]) by {
            assert(t[i] == sorted[i]);
        }
        assert forall|j: int| 0 <= j < t.len() implies #[trigger] t[j] == e || sorted.contains(t[j]) by {
            if j < sorted.len() {
                assert(t[j] == sorted[j]);
            }
        }
    } else {
        let p = sorted.drop_last();
        let last = sorted.last();
        assert(sorted_by_start(p));
        lemma_insert_by_start(p, e);
        let u = insert_by_start(p, e);
        assert(t == u.push(last));
        assert forall|i: int, j: int| 0 <= i < j < t.len() implies (#[trigger] t[i]).0 <= (#[trigger] t[j]).0 by {
            if j == t.len() - 1 {
                assert(t[j] == last);
                assert(t[i] == u[i]);
                if u[i] != e {
                    assert(p.contains(u[i]));
                    let m = choose|m: int| 0 <= m < p.len() && p[m] == u[i];
                    assert(sorted[m] == p[m]);
                    assert(sorted[sorted.len() - 1] == last);
                }
            } else {
                assert(t[i] == u[i] && t[j] == u[j]);
            }
        }
        assert forall|j: int| 0 <= j < t.len() implies #[trigger] t[j] == e || sorted.contains(t[j]) by {
            if j == t.len() - 1 {
                assert(t[j] == last);
                assert(sorted[sorted.len() - 1] == last);
            } else {
                assert(t[j] == u[j]);
                if u[j] != e {
                    let m = choose|m: int| 0 <= m < p.len() && p[m] == u[j];
                    assert(sorted[m] == p[m]);
                }
            }
        }
        let ke = choose|k: int| 0 <= k < u.len() && u[k] == e;
        assert(t[ke] == e);
        assert forall|i: int| 0 <= i < sorted.len() implies t.contains(#[trigger] sorted[i]) by {
            if i == sorted.len() - 1 {
                assert(t[t.len() - 1] == last);
            } else {
                assert(p[i] == sorted[i]);
                assert(u.contains(p[i]));
                let m = choose|m: int| 0 <= m < u.len() && u[m] == p[i];
                assert(t[m] == u[m]);
            }
        }
        assert forall|j: int| 0 <= j < t.len() implies (#[trigger] t[j]).0 <= e.0 || (sorted.len() > 0
            && t[j].0 <= sorted.last().0) by {
            if j == t.len() - 1 {
                assert(t[j] == last);
            } else {
                assert(t[j] == u[j]);
                if u[j].0 > e.0 {
                    assert(p.len() > 0 && u[j].0 <= p.last().0);
                    assert(sorted[p.len() - 1] == p.last());
                    assert(sorted[p.len() - 1].0 <= sorted[sorted.len() - 1].0);
                }
            }
        }
    }
}

proof fn lemma_sort_by_start(s: Seq<(u64, u64)>)
    ensures
        ({
            let t = sort_by_start(s);
            &&& sorted_by_start(t)
            &&& t.len() == s.len()
            &&& forall|j: int| 0 <= j < t.len() ==> s.contains(#[trigger] t[j])
            &&& forall|i: int| 0 <= i < s.len() ==> t.contains(#[trigger] s[i])
        }),
    decreases s.len(),
{
    if s.len() > 0 {
        let p = s.drop_last();
        lemma_sort_by_start(p);
        let sp = sort_by_start(p);
        lemma_insert_by_start(sp, s.last());
        let t = sort_by_start(s);
        assert forall|j: int| 0 <= j < t.len() implies s.contains(#[trigger] t[j]) by {
            if t[j] == s.last() {
                assert(s[s.len() - 1] == s.last());
            } else {
                let m = choose|m: int| 0 <= m < sp.len() && sp[m] == t[j];
                assert(p.contains(sp[m]));
                let q = choose|q: int| 0 <= q < p.len() && p[q] == sp[m];
                assert(s[q] == p[q]);
            }
        }
        assert forall|i: int| 0 <= i < s.len() implies t.contains(#[trigger] s[i]) by {
            if i < s.len() - 1 {
                assert(p[i] == s[i]);
                assert(sp.contains(p[i]));
                let m = choose|m: int| 0 <= m < sp.len() && sp[m] == p[i];
                assert(t.contains(sp[m]));
            }
        }
    }
}

/// The properties that the sweep keeps, from one range to the next.
proof fn lemma_sweep(sp: Seq<(u64, u64)>, device_bytes: u64)
    requires
        sorted_by_start(sp),
        spans_ok(sp, device_bytes),
    ensures
        ({
            let w = sweep(sp);
            let r = w.0;
            let c = w.1 as int;
            &&& c <= device_bytes
            &&& forall|j: int| 0 <= j < sp.len() ==> (#[trigger] sp[j]).1 <= c
            &&& forall|x: int| 0 <= x < c ==> (in_spans(r, x) <==> !in_spans(sp, x))
            &&& forall|x: int| c <= x < device_bytes ==> !in_spans(r, x)
            &&& all_nonempty(r)
            &&& sp.len() > 0 ==> forall|k: int| 0 <= k < r.len() ==> (#[trigger] r[k]).1 <= sp.last().0
            &&& span_starts_within(sp, device_bytes) ==> (forall|k: int| 0 <= k < r.len() ==> (#[trigger] r[k]).1
                <= c) && ordered_disjoint(r)
        }),
    decreases sp.len(),
{
    if sp.len() == 0 {
        return;
    }
    let p = sp.drop_last();
    assert(sorted_by_start(p));
    assert(spans_ok(p, device_bytes));
    lemma_sweep(p, device_bytes);
    let w0 = sweep(p);
    let r0 = w0.0;
    let c0 = w0.1 as int;
    let s = sp.last().0 as int;
    let e = sp.last().1 as int;
    let w = sweep(sp);
    let r = w.0;
    let c = w.1 as int;
    let last = sp.last();
    assert(sp[sp.len() - 1] == last);
    assert(span_ok(sp[sp.len() - 1], device_bytes));
    assert(sp =~= p.push(last));
    // every earlier gap ends at or before the start of the last range
    assert(forall|k: int| 0 <= k < r0.len() ==> (#[trigger] r0[k]).1 <= s) by {
        if p.len() > 0 {
            assert(p[p.len() - 1] == sp[p.len() - 1]);
        }
    }
    assert forall|j: int| 0 <= j < sp.len() implies (#[trigger] sp[j]).1 <= c by {
        if j < p.len() {
            assert(p[j] == sp[j]);
        }
    }
    assert forall|x: int| 0 <= x < c implies (in_spans(r, x) <==> !in_spans(sp, x)) by {
        lemma_in_spans_push(p, last, x);
        lemma_in_spans_push(r0, (c0 as u64, s as u64), x);
        if x < c0 {
            if !in_spans(p, x) {
                let k = choose|k: int| 0 <= k < r0.len() && (#[trigger] r0[k]).0 <= x < r0[k].1;
                assert(r0[k].1 <= s);
            }
        } else {
            assert(!in_spans(r0, x));
            if in_spans(p, x) {
                let k = choose|k: int| 0 <= k < p.len() && (#[trigger] p[k]).0 <= x < p[k].1;
                assert(p[k] == sp[k]);
            }
        }
    }
    assert forall|x: int| c <= x < device_bytes implies !in_spans(r, x) by {
        lemma_in_spans_push(r0, (c0 as u64, s as u64), x);
    }
    assert forall|k: int| 0 <= k < r.len() implies (#[trigger] r[k]).0 < r[k].1 by {
        if k < r0.len() {
            assert(r[k] == r0[k]);
        }
    }
    assert forall|k: int| 0 <= k < r.len() implies (#[trigger] r[k]).1 <= sp.last().0 by {
        if k < r0.len() {
            assert(r[k] == r0[k]);
        }
    }
    if span_starts_within(sp, device_bytes) {
        assert(span_starts_within(p, device_bytes)) by {
            assert forall|i: int| 0 <= i < p.len() implies (#[trigger] p[i]).0 <= device_bytes by {
                assert(p[i] == sp[i]);
            }
        }
        assert(sp[sp.len() - 1].0 <= device_bytes);
        assert forall|k: int| 0 <= k < r.len() implies (#[trigger] r[k]).1 <= c by {
            if k < r0.len() {
                assert(r[k] == r0[k]);
            }
        }
        assert forall|j: int, k: int| 0 <= j < k < r.len() implies (#[trigger] r[j]).1 <= (#[trigger] r[k]).0 by {
            if k < r0.len() {
                assert(r[j] == r0[j] && r[k] == r0[k]);
            } else {
                assert(r[j] == r0[j]);
            }
        }
    }
}

/// What the final gap adds to the sweep's properties.
proof fn lemma_gaps(sorted: Seq<(u64, u64)>, device_bytes: u64)
    requires
        sorted_by_start(sorted),
        spans_ok(sorted, device_bytes),
    ensures
        ({
            let g = gaps(sorted, device_bytes);
            &&& all_nonempty(g)
            &&& forall|x: int| 0 <= x < device_bytes ==> (in_spans(g, x) <==> !in_spans(sorted, x))
            &&& span_starts_within(sorted, device_bytes) ==> ordered_disjoint(g) && forall|k: int|
                0 <= k < g.len() ==> (#[trigger] g[k]).1 <= device_bytes
        }),
{
    lemma_sweep(sorted, device_bytes);
    let w = sweep(sorted);
    let r = w.0;
    let c = w.1;
    let g = gaps(sorted, device_bytes);
    if c < device_bytes {
        let tail = (c, device_bytes);
        assert forall|k: int| 0 <= k < g.len() implies (#[trigger] g[k]).0 < g[k].1 by {
            if k < r.len() {
                assert(g[k] == r[k]);
            }
        }
        assert forall|x: int| 0 <= x < device_bytes implies (in_spans(g, x) <==> !in_spans(sorted, x)) by {
            lemma_in_spans_push(r, tail, x);
            if x >= c && in_spans(sorted, x) {
                let k = choose|k: int| 0 <= k < sorted.len() && (#[trigger] sorted[k]).0 <= x < sorted[k].1;
            }
        }
        if span_starts_within(sorted, device_bytes) {
            assert forall|j: int, k: int| 0 <= j < k < g.len() implies (#[trigger] g[j]).1 <= (#[trigger] g[k]).0 by {
                assert(g[j] == r[j]);
                if k < r.len() {
                    assert(g[k] == r[k]);
                }
            }
            assert forall|k: int| 0 <= k < g.len() implies (#[trigger] g[k]).1 <= device_bytes by {
                if k < r.len() {
                    assert(g[k] == r[k]);
                }
            }
        }
    }
}

proof fn lemma_spans_of_partitions(parts: Seq<PartitionInfo>, ss: u32, device_bytes: u64)
    requires
        spans_fit(parts, ss),
    ensures
        spans_ok(partition_spans(parts, ss, device_bytes), device_bytes),
        starts_within(parts, ss, device_bytes) ==> span_starts_within(partition_spans(parts, ss, device_bytes), device_bytes),
        partition_spans(parts, ss, device_bytes).len() == parts.len(),
{
    let sp = partition_spans(parts, ss, device_bytes);
    assert forall|i: int| 0 <= i < sp.len() implies span_ok(#[trigger] sp[i], device_bytes) by {
        let q = parts[i];
        assert(q.start_lba * ss + q.length_sectors * ss <= u64::MAX);
        assert(0 <= q.length_sectors * ss) by (nonlinear_arith);
        assert(0 <= q.start_lba * ss) by (nonlinear_arith);
    }
    if starts_within(parts, ss, device_bytes) {
        assert forall|i: int| 0 <= i < sp.len() implies (#[trigger] sp[i]).0 <= device_bytes by {
            assert(span_start(parts[i], ss) <= device_bytes);
            assert(0 <= parts[i].start_lba * ss) by (nonlinear_arith);
        }
    }
}

fn insert_span(sorted: Vec<(u64, u64)>, e: (u64, u64)) -> (r: Vec<(u64, u64)>)
    ensures
        r@ == insert_by_start(sorted@, e),
    decreases sorted@.len(),
{
    if sorted.len() == 0 {
        let mut v: Vec<(u64, u64)> = Vec::new();
        v.push(e);
        return v;
    }
    let last: (u64, u64) = sorted[sorted.len() - 1];
    if last.0 <= e.0 {
        let mut s: Vec<(u64, u64)> = sorted;
        s.push(e);
        s
    } else {
        let mut s: Vec<(u64, u64)> = sorted;
        let ghost s0: Seq<(u64, u64)> = s@;
        s.pop();
        assert(s@ =~= s0.drop_last());
        let mut t: Vec<(u64, u64)> = insert_span(s, e);
        t.push(last);
        t
    }
}

/// Byte ranges not covered by any partition: the gaps where deleted or
/// formatted data may be carved. A partition covers `start_lba` to
/// `start_lba + length_sectors` sectors, cut at the device's end.
///
/// Below the device's end the ranges are exactly the bytes that no
/// partition covers, and none of them is empty; when every partition starts
/// inside the device they also come in increasing order without overlap and
/// end inside it.
pub fn compute_unallocated_ranges(partitions: &[PartitionInfo], sector_size: u32, device_bytes: u64) -> (r: Vec<(u64, u64)>)
    requires
        spans_fit(partitions@, sector_size),
    ensures
        r@ == unallocated(partitions@, sector_size, device_bytes),
        all_nonempty(r@),
        forall|x: int| 0 <= x < device_bytes ==> (in_spans(r@, x) <==> !in_spans(
            partition_spans(partitions@, sector_size, device_bytes),
            x,
        )),
        starts_within(partitions@, sector_size, device_bytes) ==> ordered_disjoint(r@) && forall|k: int|
            0 <= k < r@.len() ==> (#[trigger] r@[k]).1 <= device_bytes,
{
    let ss: u64 = sector_size as u64;
    let ghost spans: Seq<(u64, u64)> = partition_spans(partitions@, sector_size, device_bytes);
    let mut sorted: Vec<(u64, u64)> = Vec::new();
    let mut i: usize = 0;
    while i < partitions.len()
        invariant
            i <= partitions@.len(),
            spans_fit(partitions@, sector_size),
            ss == sector_size,
            spans == partition_spans(partitions@, sector_size, device_bytes),
            sorted@ == sort_by_start(spans.subrange(0, i as int)),
        decreases partitions.len() - i,
    {
        let p: &PartitionInfo = &partitions[i];
        proof {
            assert(p.start_lba * ss + p.length_sectors * ss <= u64::MAX);
            assert(0 <= p.length_sectors * ss) by (nonlinear_arith);
            assert(0 <= p.start_lba * ss) by (nonlinear_arith);
        }
        let start: u64 = p.start_lba * ss;
        let full_end: u64 = start + p.length_sectors * ss;
        let end: u64 = if full_end < device_bytes {
            full_end
        } else {
            device_bytes
        };
        assert((start, end) == spans[i as int]);
        assert(spans.subrange(0, i + 1).drop_last() =~= spans.subrange(0, i as int));
        sorted = insert_span(sorted, (start, end));
        i += 1;
    }
    assert(spans.subrange(0, partitions@.len() as int) =~= spans);
    let ghost sp: Seq<(u64, u64)> = sorted@;
    let mut ranges: Vec<(u64, u64)> = Vec::new();
    let mut cursor: u64 = 0;
    let mut j: usize = 0;
    while j < sorted.len()
        invariant
            j <= sp.len(),
            sorted@ == sp,
            (ranges@, cursor) == sweep(sp.subrange(0, j as int)),
        decreases sorted.len() - j,
    {
        let (start, end): (u64, u64) = sorted[j];
        assert(sp.subrange(0, j + 1).drop_last() =~= sp.subrange(0, j as int));
        assert(sp.subrange(0, j + 1).last() == sp[j as int]);
        if start > cursor {
            ranges.push((cursor, start));
        }
        if end > cursor {
            cursor = end;
        }
        j += 1;
    }
    assert(sp.subrange(0, sp.len() as int) =~= sp);
    if cursor < device_bytes {
        ranges.push((cursor, device_bytes));
    }
    proof {
        lemma_spans_of_partitions(partitions@, sector_size, device_bytes);
        lemma_sort_by_start(spans);
        let t = sort_by_start(spans);
        assert(spans_ok(t, device_bytes)) by {
            assert forall|k: int| 0 <= k < t.len() implies span_ok(#[trigger] t[k], device_bytes) by {
                let m = choose|m: int| 0 <= m < spans.len() && spans[m] == t[k];
            }
        }
        if starts_within(partitions@, sector_size, device_bytes) {
            assert forall|k: int| 0 <= k < t.len() implies (#[trigger] t[k]).0 <= device_bytes by {
                let m = choose|m: int| 0 <= m < spans.len() && spans[m] == t[k];
            }
        }
        lemma_gaps(t, device_bytes);
        assert forall|x: int| 0 <= x < device_bytes implies (in_spans(t, x) <==> in_spans(spans, x)) by {
            if in_spans(t, x) {
                let k = choose|k: int| 0 <= k < t.len() && (#[trigger] t[k]).0 <= x < t[k].1;
                let m = choose|m: int| 0 <= m < spans.len() && spans[m] == t[k];
                assert(spans[m].0 <= x < spans[m].1);
            }
            if in_spans(spans, x) {
                let k = choose|k: int| 0 <= k < spans.len() && (#[trigger] spans[k]).0 <= x < spans[k].1;
                let m = choose|m: int| 0 <= m < t.len() && t[m] == spans[k];
                assert(t[m].0 <= x < t[m].1);
            }
        }
    }
    ranges
}

/// Identifiers of carved files start here, clear of those that filesystem
/// walks hand out.
pub const CARVED_ID_BASE: u64 = 10_000_000;

/// The name a carved file is listed under: `carved_`, its offset as eight
/// or more lower-case hexadecimal digits, a dot and its kind's extension.
pub open spec fn carved_name(offset: u64, kind: FileKind) -> Seq<char> {
    "carved_"@ + hex_lower_padded(offset as nat, 8) + seq!['.'] + kind.spec_extension()
}

/// The progress of a carve in percent, capped at 100; 0 when there is
/// nothing to carve.
pub open spec fn spec_carve_percent(carved: u64, total: u64) -> u64 {
    if total > 0 {
        let p = (carved * 100) / (total as int);
        if p < 100 {
            p as u64
        } else {
            100
        }
    } else {
        0
    }
}

/// The scan pipeline's decisions between its reads.
pub struct ScanPipeline;

impl ScanPipeline {
    /// Whether a file found by a filesystem walk passes the request's
    /// filters: its kind is asked for (an empty list asks for all) and it is
    /// no smaller than the minimum.
    pub fn wants_file(kind: FileKind, size_bytes: u64, file_kinds: &[FileKind], min_carve_bytes: u64) -> (b: bool)
        ensures
            b == ((file_kinds@.len() == 0 || file_kinds@.contains(kind)) && size_bytes >= min_carve_bytes),
    {
        if size_bytes < min_carve_bytes {
            return false;
        }
        if file_kinds.len() == 0 {
            return true;
        }
        let mut i: usize = 0;
        while i < file_kinds.len()
            invariant
                i <= file_kinds@.len(),
                size_bytes >= min_carve_bytes,
                forall|j: int| 0 <= j < i ==> file_kinds@[j] != kind,
            decreases file_kinds.len() - i,
        {
            if file_kinds[i] == kind {
                assert(file_kinds@[i as int] == kind);
                return true;
            }
            i += 1;
        }
        false
    }

    /// Whether partition `index` is to be scanned: it is among the selected
    /// ones, or none were selected.
    pub fn wants_partition(index: u32, selected: &[u32]) -> (b: bool)
        ensures
            b == (selected@.len() == 0 || selected@.contains(index)),
    {
        if selected.len() == 0 {
            return true;
        }
        let mut i: usize = 0;
        while i < selected.len()
            invariant
                i <= selected@.len(),
                forall|j: int| 0 <= j < i ==> selected@[j] != index,
            decreases selected.len() - i,
        {
            if selected[i] == index {
                assert(selected@[i as int] == index);
                return true;
            }
            i += 1;
        }
        false
    }

    /// Progress of a carve in percent.
    pub fn carve_percent(carved: u64, total: u64) -> (p: u64)
        requires
            carved * 100 <= u64::MAX,
        ensures
            p == spec_carve_percent(carved, total),
            p <= 100,
    {
        if total > 0 {
            let q: u64 = carved * 100 / total;
            if q < 100 {
                q
            } else {
                100
            }
        } else {
            0
        }
    }

    /// The record under which a carved file is listed: identifier `id`,
    /// name [`carved_name`], path `Carved/` and its kind's label, the carved
    /// extent as its source, no modification time and no head bytes.
    pub fn carved_record(id: u64, cf: &CarvedFile) -> (r: FileRecord)
        ensures
            r.id == id,
            r.name@ == carved_name(cf.offset_bytes, cf.kind),
            r.path@ == "Carved/"@ + cf.kind.spec_as_str(),
            r.kind == cf.kind,
            r.size_bytes == cf.length_bytes,
            r.modified is None,
            r.source matches FileSource::Carved { offset_bytes, length_bytes, signature } && offset_bytes
                == cf.offset_bytes && length_bytes == cf.length_bytes && signature@ == cf.signature@,
            r.recoverability == cf.recoverability,
            r.head_hex@.len() == 0,
    {
        let mut name: String = String::from_str("carved_");
        push_hex_lower_padded(&mut name, cf.offset_bytes, 8);
        push_char(&mut name, '.');
        name.append(cf.kind.extension());
        let mut path: String = String::from_str("Carved/");
        path.append(cf.kind.as_str());
        FileRecord {
            id,
            name,
            path,
            kind: cf.kind,
            size_bytes: cf.length_bytes,
            modified: None,
            source: FileSource::Carved {
                offset_bytes: cf.offset_bytes,
                length_bytes: cf.length_bytes,
                signature: String::from_str(cf.signature),
            },
            recoverability: cf.recoverability,
            head_hex: String::new(),
        }
    }
}

} // verus!
