//! Chunked scanner over a [`SectorReader`].
//!
//! The device is read in chunks that keep an overlap of the previous chunk in
//! front, so candidates straddling a boundary are not lost. Each byte is
//! routed through the first-byte index; a candidate whose magic matches is
//! validated with a window that grows (up to the signature's size cap and the
//! configured budget) while its validator asks for more.

use crate::carve::signature::{
    anchor_index, MagicByte, catalog, driven_ids, extent_upto, has_fixed_byte, is_text_kind,
    lemma_anchor_is_first_fixed, lemma_candidates_are_anchored, lemma_catalog_has_fixed_bytes,
    magic_matches, signatures, with_anchor, Signature, SignatureIndex, SignatureSpec, ValidatorRef,
};
use crate::carve::validation::Validation;
use crate::carve::validators::Validator;
use crate::error::Error;
use crate::storage::{read_result, SectorReader};
use crate::types::{CarvedFile, FileKind};
use std::sync::atomic::{AtomicBool, Ordering};
use std::sync::Arc;
use vstd::prelude::*;

verus! {

/// Tunable scanner parameters.
#[derive(Debug, Clone)]
pub struct ScanConfig {
    /// Bytes per chunk read from the device.
    pub chunk_size: usize,
    /// Bytes of the previous chunk kept in front of the next one.
    pub overlap: usize,
    /// First size tried when a validator asks for a wider window.
    pub initial_validation_window: usize,
    /// Hard cap on a validation window.
    pub max_validation_window: usize,
    /// Restrict carving to these kinds; `None` or empty means all.
    pub kinds: Option<Vec<FileKind>>,
    /// Drop carved files shorter than this.
    pub min_carve_bytes: u64,
    /// Continue after the end of a confirmed file instead of the next byte.
    pub skip_after_hit: bool,
}

impl ScanConfig {
    /// 4 MiB chunks, 64 KiB overlap, 1 MiB initial and 64 MiB maximum
    /// validation windows, all kinds, no minimum, skipping past hits.
    pub fn new() -> (r: Self)
        ensures
            r.chunk_size == 0x40_0000,
            r.overlap == 0x1_0000,
            r.initial_validation_window == 0x10_0000,
            r.max_validation_window == 0x400_0000,
            r.kinds is None,
            r.min_carve_bytes == 0,
            r.skip_after_hit,
    {
        ScanConfig {
            chunk_size: 4 * 1024 * 1024,
            overlap: 64 * 1024,
            initial_validation_window: 1024 * 1024,
            max_validation_window: 64 * 1024 * 1024,
            kinds: None,
            min_carve_bytes: 0,
            skip_after_hit: true,
        }
    }
}

impl Default for ScanConfig {
    fn default() -> (r: Self)
        ensures
            r.chunk_size == 0x40_0000,
            r.overlap == 0x1_0000,
            r.initial_validation_window == 0x10_0000,
            r.max_validation_window == 0x400_0000,
            r.kinds is None,
            r.min_carve_bytes == 0,
            r.skip_after_hit,
    {
        ScanConfig::new()
    }
}

/// Totals reported at the end of a scan.
#[derive(Debug, Clone, Copy, PartialEq, Eq, Structural)]
pub struct ScanStats {
    pub bytes_scanned: u64,
    pub candidates_examined: u64,
    pub files_confirmed: u64,
    pub rejections: u64,
    pub needs_more_giveups: u64,
}

impl ScanStats {
    /// All counters zero.
    pub fn new() -> (r: Self)
        ensures
            r == (ScanStats {
                bytes_scanned: 0,
                candidates_examined: 0,
                files_confirmed: 0,
                rejections: 0,
                needs_more_giveups: 0,
            }),
    {
        ScanStats {
            bytes_scanned: 0,
            candidates_examined: 0,
            files_confirmed: 0,
            rejections: 0,
            needs_more_giveups: 0,
        }
    }
}

impl ScanStats {
    /// All counters zero.
    pub open spec fn spec_zero() -> ScanStats {
        ScanStats {
            bytes_scanned: 0,
            candidates_examined: 0,
            files_confirmed: 0,
            rejections: 0,
            needs_more_giveups: 0,
        }
    }
}

impl Default for ScanStats {
    fn default() -> (r: Self)
        ensures
            r == (ScanStats {
                bytes_scanned: 0,
                candidates_examined: 0,
                files_confirmed: 0,
                rejections: 0,
                needs_more_giveups: 0,
            }),
    {
        ScanStats::new()
    }
}

/// Cancellation flag shared by clones.
#[derive(Debug, Clone)]
pub struct CancelToken {
    flag: Arc<AtomicBool>,
}

impl CancelToken {
    /// A token that is not cancelled.
    pub fn new() -> Self {
        CancelToken { flag: Arc::new(AtomicBool::new(false)) }
    }

    /// Ask every holder of this token (and its clones) to stop.
    pub fn cancel(&self) {
        self.flag.store(true, Ordering::SeqCst);
    }

    /// Whether cancellation was requested.
    pub fn is_cancelled(&self) -> bool {
        self.flag.load(Ordering::SeqCst)
    }
}

/// Whether `kind` passes the configured kind filter.
pub open spec fn spec_kind_enabled(cfg: ScanConfig, kind: FileKind) -> bool {
    match cfg.kinds {
        None => true,
        Some(v) => v@.len() == 0 || v@.contains(kind),
    }
}

/// `f` was confirmed by catalog signature `i` on the device bytes `c`: the
/// signature is magic-driven and enabled, its magic matches at the file's
/// offset, the file is long enough, and its validator confirms exactly this
/// length, recoverability and kind on the device bytes from that offset.
pub open spec fn carved_by(c: Seq<u8>, cfg: ScanConfig, i: int, f: CarvedFile) -> bool {
    let s = catalog()[i];
    &&& 0 <= i < catalog().len()
    &&& !is_text_kind(s.kind)
    &&& spec_kind_enabled(cfg, s.kind)
    &&& f.signature@ == s.name
    &&& magic_matches(c, f.offset_bytes + s.magic_offset, s.magic)
    &&& f.length_bytes >= cfg.min_carve_bytes
    &&& confirmed_on(c, s.validator, f.offset_bytes as int, f.length_bytes, f.recoverability, f.kind)
}

/// Some window of the device bytes from `at` is confirmed by `v` with this
/// length, recoverability and kind.
pub open spec fn confirmed_on(c: Seq<u8>, v: ValidatorRef, at: int, length: u64, recov: u8, kind: FileKind) -> bool {
    exists|n: int|
        0 <= n && at + n <= c.len() && #[trigger] v.spec_validate_with_kind(c.subrange(at, at + n))
            == (Validation::Confirmed { length, recoverability: recov }, kind)
}

/// What the final check of a window of `len` device bytes from `at` gives:
/// the confirmation it yields, if any.
pub open spec fn final_verdict(c: Seq<u8>, v: ValidatorRef, at: int, len: int) -> Option<(u64, FileKind, u8)> {
    match v.spec_validate_with_kind(c.subrange(at, at + len)) {
        (Validation::Confirmed { length, recoverability }, kind) => Some((length, kind, recoverability)),
        _ => None,
    }
}

/// Widening a validation window of `len` device bytes from `at` towards
/// `size` (at most `max_window`): read the missing bytes (fewer at the
/// device's end; none ends the widening with a last check), ask again,
/// and while more is asked for and the cap is not reached, double `size`.
pub open spec fn widen(
    c: Seq<u8>,
    v: ValidatorRef,
    at: int,
    len: int,
    size: int,
    max_window: int,
) -> Option<(u64, FileKind, u8)>
    decreases max_window - len,
{
    if size > len && len >= 0 && at >= 0 {
        let chunk = read_result(c, at + len, size - len);
        if chunk.len() == 0 {
            final_verdict(c, v, at, len)
        } else {
            let grown = len + chunk.len();
            match v.spec_validate_with_kind(c.subrange(at, at + grown)) {
                (Validation::Confirmed { length, recoverability }, kind) => Some((length, kind, recoverability)),
                (Validation::Rejected, _) => None,
                (Validation::NeedsMore, _) => if size >= max_window {
                    None
                } else {
                    widen(c, v, at, grown, if 2 * size < max_window {
                        2 * size
                    } else {
                        max_window
                    }, max_window)
                },
            }
        }
    } else {
        final_verdict(c, v, at, len)
    }
}

/// The outcome of validating a candidate at `at` whose first `initial`
/// device bytes are in hand: the first verdict decides unless more is
/// asked for; then, below the cap, the window is widened from the larger
/// of the initial window size and twice what is in hand.
pub open spec fn validation_outcome(
    c: Seq<u8>,
    v: ValidatorRef,
    at: int,
    initial: int,
    max_window: int,
    initial_window: int,
) -> Option<(u64, FileKind, u8)> {
    match v.spec_validate_with_kind(c.subrange(at, at + initial)) {
        (Validation::Confirmed { length, recoverability }, kind) => Some((length, kind, recoverability)),
        (Validation::Rejected, _) => None,
        (Validation::NeedsMore, _) => if initial >= max_window {
            None
        } else {
            let grown = if initial_window > 2 * initial {
                initial_window
            } else {
                2 * initial
            };
            widen(c, v, at, initial, if grown < max_window {
                grown
            } else {
                max_window
            }, max_window)
        },
    }
}

/// Widening from `len` bytes in hand towards `size`, with a validator that
/// asks for more on every window shorter than `nn` bytes and confirms the
/// same file on every window from `nn` bytes up to the cap, ends in that
/// confirmation.
proof fn lemma_widen_confirms(
    c: Seq<u8>,
    v: ValidatorRef,
    at: int,
    len: int,
    size: int,
    max_window: int,
    nn: int,
    res: (u64, FileKind, u8),
)
    requires
        0 <= at,
        0 <= len < size <= max_window,
        len < nn <= max_window,
        at + nn <= c.len(),
        forall|k: int|
            len <= k < nn ==> (#[trigger] v.spec_validate_with_kind(c.subrange(at, at + k))).0 is NeedsMore,
        forall|k: int|
            nn <= k <= max_window && at + k <= c.len() ==> #[trigger] v.spec_validate_with_kind(
                c.subrange(at, at + k),
            ) == (Validation::Confirmed { length: res.0, recoverability: res.2 }, res.1),
    ensures
        widen(c, v, at, len, size, max_window) == Some(res),
    decreases max_window - len,
{
    let chunk = read_result(c, at + len, size - len);
    let grown = len + chunk.len();
    assert(chunk.len() > 0);
    assert(grown <= size && at + grown <= c.len());
    assert(grown == size || at + grown == c.len());
    if grown >= nn {
        assert(v.spec_validate_with_kind(c.subrange(at, at + grown)) == (Validation::Confirmed {
            length: res.0,
            recoverability: res.2,
        }, res.1));
    } else {
        assert((v.spec_validate_with_kind(c.subrange(at, at + grown))).0 is NeedsMore);
        let next = if 2 * size < max_window {
            2 * size
        } else {
            max_window
        };
        lemma_widen_confirms(c, v, at, grown, next, max_window, nn, res);
    }
}

/// A validator that asks for more does not lose the file: where the bytes
/// in hand (at least one, at most the cap) are too few, and the validator
/// asks for more on every window shorter than `nn` bytes but confirms the
/// same file on every window from `nn` bytes up to the cap (`nn` within the
/// cap and the device), the window is widened until the file is confirmed.
pub proof fn law_needs_more_widens_the_window(
    c: Seq<u8>,
    v: ValidatorRef,
    at: int,
    initial: int,
    max_window: int,
    initial_window: int,
    nn: int,
    res: (u64, FileKind, u8),
)
    requires
        0 <= at,
        1 <= initial <= max_window,
        at + initial <= c.len(),
        nn <= max_window,
        at + nn <= c.len(),
        forall|k: int|
            initial <= k < nn ==> (#[trigger] v.spec_validate_with_kind(c.subrange(at, at + k))).0 is NeedsMore,
        forall|k: int|
            nn <= k <= max_window && k >= initial && at + k <= c.len() ==> #[trigger] v.spec_validate_with_kind(
                c.subrange(at, at + k),
            ) == (Validation::Confirmed { length: res.0, recoverability: res.2 }, res.1),
    ensures
        validation_outcome(c, v, at, initial, max_window, initial_window) == Some(res),
{
    if initial >= nn {
        assert(v.spec_validate_with_kind(c.subrange(at, at + initial)) == (Validation::Confirmed {
            length: res.0,
            recoverability: res.2,
        }, res.1));
    } else {
        assert((v.spec_validate_with_kind(c.subrange(at, at + initial))).0 is NeedsMore);
        let grown = if initial_window > 2 * initial {
            initial_window
        } else {
            2 * initial
        };
        let size = if grown < max_window {
            grown
        } else {
            max_window
        };
        lemma_widen_confirms(c, v, at, initial, size, max_window, nn, res);
    }
}

/// A confirmed file as the scan finds it: the catalog signature that
/// matched, where the file starts, its length, kind and recoverability.
pub struct CarveHit {
    pub sig: int,
    pub offset: u64,
    pub length: u64,
    pub kind: FileKind,
    pub recoverability: u8,
}

/// `f` reports the hit `h`.
pub open spec fn reports(f: CarvedFile, h: CarveHit) -> bool {
    &&& f.kind == h.kind
    &&& f.offset_bytes == h.offset
    &&& f.length_bytes == h.length
    &&& f.recoverability == h.recoverability
    &&& 0 <= h.sig < catalog().len()
    &&& f.signature@ == catalog()[h.sig].name
}

/// Largest validation window for a signature: its own cap or the
/// configured one, whichever is smaller.
pub open spec fn window_cap(cfg: ScanConfig, s: SignatureSpec) -> int {
    if s.max_size < cfg.max_validation_window {
        s.max_size
    } else {
        cfg.max_validation_window as int
    }
}

/// Trying the candidate signatures `ids` from the `j`-th on at position
/// `p` of a buffer of `len` device bytes from `origin`: a signature whose
/// kind is enabled, whose candidate start lies in the buffer and whose
/// magic matches there is validated on the rest of the buffer (widened as
/// asked); the first confirmation of a long-enough file is the hit.
pub open spec fn probe_hit(
    c: Seq<u8>,
    cfg: ScanConfig,
    origin: int,
    len: int,
    p: int,
    ids: Seq<u16>,
    j: int,
) -> Option<CarveHit>
    decreases ids.len() - j,
{
    if j < 0 || j >= ids.len() {
        None
    } else {
        let s = catalog()[ids[j] as int];
        let cof = s.magic_offset + anchor_index(s.magic);
        if !spec_kind_enabled(cfg, s.kind) || p < cof || !magic_matches(
            c.subrange(origin, origin + len),
            p - cof + s.magic_offset,
            s.magic,
        ) {
            probe_hit(c, cfg, origin, len, p, ids, j + 1)
        } else {
            let at = origin + (p - cof);
            match validation_outcome(
                c,
                s.validator,
                at,
                len - (p - cof),
                window_cap(cfg, s),
                cfg.initial_validation_window as int,
            ) {
                Some((length, kind, recov)) => if length >= cfg.min_carve_bytes {
                    Some(CarveHit { sig: ids[j] as int, offset: at as u64, length, kind, recoverability: recov })
                } else {
                    probe_hit(c, cfg, origin, len, p, ids, j + 1)
                },
                None => probe_hit(c, cfg, origin, len, p, ids, j + 1),
            }
        }
    }
}

/// The hit at position `p` of a buffer of `len` device bytes from
/// `origin`: the signatures anchored on the byte there, in catalog order.
#[verifier::opaque]
pub open spec fn probe_at(c: Seq<u8>, cfg: ScanConfig, origin: int, len: int, p: int) -> Option<CarveHit> {
    probe_hit(c, cfg, origin, len, p, with_anchor(driven_ids(), c[origin + p]), 0)
}

/// Bytes kept from one buffer for the next: the configured overlap, at
/// least the longest reach of a magic.
pub open spec fn scan_overlap(cfg: ScanConfig) -> int {
    if cfg.overlap > extent_upto(catalog().len() as int) {
        cfg.overlap as int
    } else {
        extent_upto(catalog().len() as int)
    }
}

/// How far a buffer of `len` device bytes from `origin` is scanned: all of
/// it when it reaches `end`, else all but the overlap (when it is longer).
pub open spec fn scan_limit(origin: int, len: int, ov: int, end: int) -> int {
    if origin + len < end && len > ov {
        len - ov
    } else {
        len
    }
}

/// One step of a scan: a probe at position `p` of a buffer of `len` device
/// bytes from `origin`, or the end of a pass over a buffer, which counts
/// the `scanned` bytes it covered.
pub enum ScanStep {
    Probe { origin: int, len: int, p: int },
    Pass { scanned: int },
}

/// The steps of a scan from position `p` of a buffer of `len` device bytes
/// from `origin`, up to `end`: each position is probed in turn; after a
/// hit, scanning resumes past the file (or at the next byte), in the same
/// buffer where the file ends inside it, else in a fresh buffer read from
/// the file's end. A pass ends where the buffer's scan limit is reached or
/// the buffer is given up after a hit.
pub open spec fn scan_buf(
    c: Seq<u8>,
    cfg: ScanConfig,
    end: int,
    origin: int,
    len: int,
    p: int,
) -> Seq<ScanStep>
    decreases end - origin, len - p, 2int,
{
    let se = scan_limit(origin, len, scan_overlap(cfg), end);
    if len <= 0 || p < 0 || p > len || origin < 0 || origin >= end {
        Seq::empty()
    } else if p < se {
        let probe = seq![ScanStep::Probe { origin, len, p }];
        let pass = seq![ScanStep::Pass { scanned: se }];
        match probe_at(c, cfg, origin, len, p) {
            None => probe + scan_buf(c, cfg, end, origin, len, p + 1),
            Some(h) => probe + if !cfg.skip_after_hit {
                scan_buf(c, cfg, end, origin, len, p + 1)
            } else {
                let after = h.offset + h.length;
                if after > u64::MAX {
                    pass
                } else if after < origin + len {
                    let np = after - origin;
                    if np > p && np < len {
                        scan_buf(c, cfg, end, origin, len, np)
                    } else {
                        scan_buf(c, cfg, end, origin, len, p + 1)
                    }
                } else if after < end {
                    if after > origin {
                        pass + scan_fresh(c, cfg, end, after)
                    } else {
                        pass
                    }
                } else {
                    pass
                }
            },
        }
    } else {
        scan_next(c, cfg, end, origin, len)
    }
}

/// The steps of a scan that starts over with a fresh buffer read at `o`.
pub open spec fn scan_fresh(c: Seq<u8>, cfg: ScanConfig, end: int, o: int) -> Seq<ScanStep>
    decreases end - o, cfg.chunk_size + 1, 0int,
{
    if o < 0 || o >= end {
        Seq::empty()
    } else {
        let want = if cfg.chunk_size < end - o {
            cfg.chunk_size as int
        } else {
            end - o
        };
        let v = read_result(c, o, want);
        if v.len() == 0 {
            Seq::empty()
        } else {
            scan_buf(c, cfg, end, o, v.len() as int, 0)
        }
    }
}

/// The steps after a buffer of `len` device bytes from `origin` is scanned
/// to its limit: the pass ends, then the buffer is refilled.
pub open spec fn scan_next(c: Seq<u8>, cfg: ScanConfig, end: int, origin: int, len: int) -> Seq<ScanStep>
    decreases end - origin, 0int, 1int,
{
    let se = scan_limit(origin, len, scan_overlap(cfg), end);
    if se <= 0 || origin < 0 || len <= 0 {
        Seq::empty()
    } else {
        seq![ScanStep::Pass { scanned: se }] + scan_refill(c, cfg, end, origin, len)
    }
}

/// The steps after the pass over a buffer of `len` device bytes from
/// `origin`: the unscanned tail is kept and topped up to a chunk plus the
/// overlap (not past `end`); the scan ends when nothing is left.
pub open spec fn scan_refill(c: Seq<u8>, cfg: ScanConfig, end: int, origin: int, len: int) -> Seq<ScanStep>
    decreases end - origin, 0int, 0int,
{
    let ov = scan_overlap(cfg);
    let se = scan_limit(origin, len, ov, end);
    let more = origin + len < end;
    let o = origin + se;
    let tail = len - se;
    let cap = cfg.chunk_size + ov;
    let want = if cap > tail {
        cap - tail
    } else {
        0
    };
    let pos = o + tail;
    let remaining = if end > pos {
        end - pos
    } else {
        0
    };
    let to_read = if want < remaining {
        want
    } else {
        remaining
    };
    if se <= 0 || origin < 0 || len <= 0 {
        Seq::empty()
    } else if to_read == 0 {
        if !more || o >= end {
            Seq::empty()
        } else {
            scan_buf(c, cfg, end, o, tail, 0)
        }
    } else {
        let v = read_result(c, pos, to_read);
        if (v.len() == 0 && !more) || o >= end {
            Seq::empty()
        } else {
            scan_buf(c, cfg, end, o, tail + v.len(), 0)
        }
    }
}

/// The steps of scanning device bytes `[start, end)` (the end clipped to
/// the device), beginning with a buffer of one chunk read at `start`.
pub open spec fn scan_steps(c: Seq<u8>, cfg: ScanConfig, start: int, end: int) -> Seq<ScanStep> {
    let stop = if end < c.len() {
        end
    } else {
        c.len() as int
    };
    if end <= start || start >= stop {
        Seq::empty()
    } else {
        let v = read_result(c, start, cfg.chunk_size as int);
        scan_buf(c, cfg, stop, start, v.len() as int, 0)
    }
}

/// The files the probes among `steps` confirm, in order.
#[verifier::opaque]
pub open spec fn hits_of(c: Seq<u8>, cfg: ScanConfig, steps: Seq<ScanStep>) -> Seq<CarveHit>
    decreases steps.len(),
{
    if steps.len() == 0 {
        Seq::empty()
    } else {
        let prev = hits_of(c, cfg, steps.drop_last());
        match steps.last() {
            ScanStep::Probe { origin, len, p } => match probe_at(c, cfg, origin, len, p) {
                Some(h) => prev.push(h),
                None => prev,
            },
            ScanStep::Pass { .. } => prev,
        }
    }
}

/// The hits of scanning device bytes `[start, end)`.
pub open spec fn scan_hits(c: Seq<u8>, cfg: ScanConfig, start: int, end: int) -> Seq<CarveHit> {
    hits_of(c, cfg, scan_steps(c, cfg, start, end))
}

/// Candidates whose magic matched (and were therefore validated) while
/// trying the signatures `ids` from the `j`-th on at position `p`, up to
/// and including the one that gives the hit.
pub open spec fn probe_examined(
    c: Seq<u8>,
    cfg: ScanConfig,
    origin: int,
    len: int,
    p: int,
    ids: Seq<u16>,
    j: int,
) -> nat
    decreases ids.len() - j,
{
    if j < 0 || j >= ids.len() {
        0
    } else {
        let s = catalog()[ids[j] as int];
        let cof = s.magic_offset + anchor_index(s.magic);
        if !spec_kind_enabled(cfg, s.kind) || p < cof || !magic_matches(
            c.subrange(origin, origin + len),
            p - cof + s.magic_offset,
            s.magic,
        ) {
            probe_examined(c, cfg, origin, len, p, ids, j + 1)
        } else {
            match validation_outcome(
                c,
                s.validator,
                origin + (p - cof),
                len - (p - cof),
                window_cap(cfg, s),
                cfg.initial_validation_window as int,
            ) {
                Some((length, _, _)) => if length >= cfg.min_carve_bytes {
                    1
                } else {
                    1 + probe_examined(c, cfg, origin, len, p, ids, j + 1)
                },
                None => 1 + probe_examined(c, cfg, origin, len, p, ids, j + 1),
            }
        }
    }
}

/// Candidates validated by the probe at position `p` of a buffer.
#[verifier::opaque]
pub open spec fn probe_count(c: Seq<u8>, cfg: ScanConfig, origin: int, len: int, p: int) -> nat {
    probe_examined(c, cfg, origin, len, p, with_anchor(driven_ids(), c[origin + p]), 0)
}

/// Candidates validated over all probes among `steps`.
#[verifier::opaque]
pub open spec fn steps_examined(c: Seq<u8>, cfg: ScanConfig, steps: Seq<ScanStep>) -> nat
    decreases steps.len(),
{
    if steps.len() == 0 {
        0
    } else {
        steps_examined(c, cfg, steps.drop_last()) + match steps.last() {
            ScanStep::Probe { origin, len, p } => probe_count(c, cfg, origin, len, p),
            ScanStep::Pass { .. } => 0nat,
        }
    }
}

/// Bytes covered by the passes among `steps`.
#[verifier::opaque]
pub open spec fn steps_scanned(steps: Seq<ScanStep>) -> nat
    decreases steps.len(),
{
    if steps.len() == 0 {
        0
    } else {
        steps_scanned(steps.drop_last()) + match steps.last() {
            ScanStep::Probe { .. } => 0nat,
            ScanStep::Pass { scanned } => if scanned > 0 {
                scanned as nat
            } else {
                0nat
            },
        }
    }
}

/// `n`, or `u64::MAX` where it does not fit: what a counter bumped with
/// saturating additions reads after a total of `n`.
pub open spec fn saturated(n: int) -> u64 {
    if n > u64::MAX {
        u64::MAX
    } else if n < 0 {
        0
    } else {
        n as u64
    }
}

/// The counters a scan reports for its `steps`.
#[verifier::opaque]
pub open spec fn scan_stats_of(c: Seq<u8>, cfg: ScanConfig, steps: Seq<ScanStep>) -> ScanStats {
    ScanStats {
        bytes_scanned: saturated(steps_scanned(steps) as int),
        candidates_examined: saturated(steps_examined(c, cfg, steps) as int),
        files_confirmed: saturated(hits_of(c, cfg, steps).len() as int),
        rejections: saturated(steps_examined(c, cfg, steps) - hits_of(c, cfg, steps).len()),
        needs_more_giveups: 0,
    }
}

/// `f` was confirmed by some catalog signature.
pub open spec fn carved_ok(c: Seq<u8>, cfg: ScanConfig, f: CarvedFile) -> bool {
    exists|i: int| carved_by(c, cfg, i, f)
}

/// Unfolding the step summaries on one more step.
proof fn lemma_steps_push(c: Seq<u8>, cfg: ScanConfig, steps: Seq<ScanStep>, x: ScanStep)
    ensures
        hits_of(c, cfg, steps.push(x)) == match x {
            ScanStep::Probe { origin, len, p } => match probe_at(c, cfg, origin, len, p) {
                Some(h) => hits_of(c, cfg, steps).push(h),
                None => hits_of(c, cfg, steps),
            },
            ScanStep::Pass { .. } => hits_of(c, cfg, steps),
        },
        steps_examined(c, cfg, steps.push(x)) == steps_examined(c, cfg, steps) + match x {
            ScanStep::Probe { origin, len, p } => probe_count(c, cfg, origin, len, p),
            ScanStep::Pass { .. } => 0nat,
        },
        steps_scanned(steps.push(x)) == steps_scanned(steps) + match x {
            ScanStep::Probe { .. } => 0nat,
            ScanStep::Pass { scanned } => if scanned > 0 {
                scanned as nat
            } else {
                0nat
            },
        },
{
    reveal(hits_of);
    reveal(steps_examined);
    reveal(steps_scanned);
    assert(steps.push(x).drop_last() =~= steps);
}

/// No steps, no counts.
proof fn lemma_stats_empty(c: Seq<u8>, cfg: ScanConfig)
    ensures
        scan_stats_of(c, cfg, Seq::empty()) == ScanStats::spec_zero(),
        steps_examined(c, cfg, Seq::empty()) >= hits_of(c, cfg, Seq::empty()).len(),
        hits_of(c, cfg, Seq::empty()) == Seq::<CarveHit>::empty(),
{
    reveal(scan_stats_of);
    reveal(hits_of);
    reveal(steps_examined);
    reveal(steps_scanned);
}

/// The counters after one more probe, from what the probe added to them.
proof fn lemma_stats_probe(
    c: Seq<u8>,
    cfg: ScanConfig,
    steps: Seq<ScanStep>,
    origin: int,
    len: int,
    p: int,
    st0: ScanStats,
    st1: ScanStats,
)
    requires
        st0 == scan_stats_of(c, cfg, steps),
        steps_examined(c, cfg, steps) >= hits_of(c, cfg, steps).len(),
        ({
            let n = probe_count(c, cfg, origin, len, p);
            let h: int = if probe_at(c, cfg, origin, len, p) is Some {
                1
            } else {
                0
            };
            &&& n >= h
            &&& st1.candidates_examined == saturated(st0.candidates_examined + n)
            &&& st1.files_confirmed == saturated(st0.files_confirmed + h)
            &&& st1.rejections == saturated(st0.rejections + n - h)
            &&& st1.bytes_scanned == st0.bytes_scanned
            &&& st1.needs_more_giveups == st0.needs_more_giveups
        }),
    ensures
        st1 == scan_stats_of(c, cfg, steps.push(ScanStep::Probe { origin, len, p })),
        steps_examined(c, cfg, steps.push(ScanStep::Probe { origin, len, p })) >= hits_of(
            c,
            cfg,
            steps.push(ScanStep::Probe { origin, len, p }),
        ).len(),
{
    reveal(scan_stats_of);
    lemma_steps_push(c, cfg, steps, ScanStep::Probe { origin, len, p });
}

/// The counters after a pass over `se` bytes ends.
proof fn lemma_stats_pass(c: Seq<u8>, cfg: ScanConfig, steps: Seq<ScanStep>, se: int, st0: ScanStats, st1: ScanStats)
    requires
        st0 == scan_stats_of(c, cfg, steps),
        steps_examined(c, cfg, steps) >= hits_of(c, cfg, steps).len(),
        se >= 0,
        st1.bytes_scanned == saturated(st0.bytes_scanned + se),
        st1.candidates_examined == st0.candidates_examined,
        st1.files_confirmed == st0.files_confirmed,
        st1.rejections == st0.rejections,
        st1.needs_more_giveups == st0.needs_more_giveups,
    ensures
        st1 == scan_stats_of(c, cfg, steps.push(ScanStep::Pass { scanned: se })),
        steps_examined(c, cfg, steps.push(ScanStep::Pass { scanned: se })) >= hits_of(
            c,
            cfg,
            steps.push(ScanStep::Pass { scanned: se }),
        ).len(),
{
    reveal(scan_stats_of);
    lemma_steps_push(c, cfg, steps, ScanStep::Pass { scanned: se });
}

proof fn lemma_magic_in_device(c: Seq<u8>, o: int, len: int, at: int, m: Seq<Option<u8>>)
    requires
        0 <= o,
        0 <= len,
        o + len <= c.len(),
        magic_matches(c.subrange(o, o + len), at, m),
    ensures
        magic_matches(c, o + at, m),
{
    assert forall|k: int| 0 <= k < m.len() implies (#[trigger] m[k] matches Some(b) ==> c[o + at
        + k] == b) by {
        assert(c.subrange(o, o + len)[at + k] == c[o + at + k]);
    }
}

proof fn lemma_extent_small(n: int)
    requires
        n <= catalog().len(),
    ensures
        extent_upto(n) <= 16,
    decreases n,
{
    lemma_catalog_small();
    if n > 0 {
        lemma_extent_small(n - 1);
    }
}

proof fn lemma_catalog_small()
    ensures
        forall|i: int|
            0 <= i < catalog().len() ==> 0 <= (#[trigger] catalog()[i]).magic_offset <= 4
                && catalog()[i].magic.len() <= 12,
{
}

/// Step `st` probes device position `q` in a buffer of device bytes (the
/// device holds `dev_len`) that starts at or before it and reaches `reach`
/// bytes past it, or up to `stop`.
pub open spec fn probe_reaches(st: ScanStep, q: int, reach: int, stop: int, dev_len: int) -> bool {
    st matches ScanStep::Probe { origin, len, p } && origin + p == q && 0 <= p < len && 0 <= origin && origin
        + len <= dev_len && (origin + len >= q + reach || origin + len >= stop)
}

/// Some step of `steps` probes `q` (see [`probe_reaches`]).
pub open spec fn probed_in(steps: Seq<ScanStep>, q: int, reach: int, stop: int, dev_len: int) -> bool {
    exists|k: int| 0 <= k < steps.len() && #[trigger] probe_reaches(steps[k], q, reach, stop, dev_len)
}

/// `q` lies inside one of the files `hits`.
pub open spec fn inside_hit(hits: Seq<CarveHit>, q: int) -> bool {
    exists|k: int| 0 <= k < hits.len() && #[trigger] hits[k].offset <= q < hits[k].offset + hits[k].length
}

/// `q` is probed by `steps`, or lies inside a file they confirm.
pub open spec fn covered(c: Seq<u8>, cfg: ScanConfig, steps: Seq<ScanStep>, q: int, stop: int) -> bool {
    probed_in(steps, q, scan_overlap(cfg), stop, c.len() as int) || inside_hit(hits_of(c, cfg, steps), q)
}

proof fn lemma_hits_of_append(c: Seq<u8>, cfg: ScanConfig, a: Seq<ScanStep>, b: Seq<ScanStep>)
    ensures
        hits_of(c, cfg, a + b) == hits_of(c, cfg, a) + hits_of(c, cfg, b),
    decreases b.len(),
{
    reveal(hits_of);
    if b.len() == 0 {
        assert(a + b =~= a);
        assert(hits_of(c, cfg, a) + hits_of(c, cfg, b) =~= hits_of(c, cfg, a));
    } else {
        lemma_hits_of_append(c, cfg, a, b.drop_last());
        assert((a + b).drop_last() =~= a + b.drop_last());
        assert((a + b).last() == b.last());
        match b.last() {
            ScanStep::Probe { origin, len, p } => match probe_at(c, cfg, origin, len, p) {
                Some(h) => {
                    assert(hits_of(c, cfg, a) + hits_of(c, cfg, b.drop_last()).push(h) =~= (hits_of(c, cfg, a)
                        + hits_of(c, cfg, b.drop_last())).push(h));
                },
                None => {},
            },
            ScanStep::Pass { .. } => {},
        }
    }
}

/// What is covered by the rest of a scan stays covered with steps before it.
proof fn lemma_covered_after(c: Seq<u8>, cfg: ScanConfig, a: Seq<ScanStep>, b: Seq<ScanStep>, q: int, stop: int)
    requires
        covered(c, cfg, b, q, stop),
    ensures
        covered(c, cfg, a + b, q, stop),
{
    lemma_hits_of_append(c, cfg, a, b);
    if probed_in(b, q, scan_overlap(cfg), stop, c.len() as int) {
        let k = choose|k: int| 0 <= k < b.len() && #[trigger] probe_reaches(b[k], q, scan_overlap(cfg), stop, c.len() as int);
        assert((a + b)[a.len() + k] == b[k]);
    } else {
        let hb = hits_of(c, cfg, b);
        let k = choose|k: int| 0 <= k < hb.len() && #[trigger] hb[k].offset <= q < hb[k].offset + hb[k].length;
        let ha = hits_of(c, cfg, a);
        assert((ha + hb)[ha.len() + k] == hb[k]);
    }
}

/// A probe that finds a file starts it at or before the probed position.
proof fn lemma_probe_hit_start(c: Seq<u8>, cfg: ScanConfig, origin: int, len: int, p: int, ids: Seq<u16>, j: int)
    requires
        0 <= origin,
        origin + p <= u64::MAX,
        forall|k: int| 0 <= k < ids.len() ==> 0 <= #[trigger] ids[k] < catalog().len(),
    ensures
        probe_hit(c, cfg, origin, len, p, ids, j) matches Some(h) ==> origin <= h.offset <= origin + p,
    decreases ids.len() - j,
{
    if 0 <= j < ids.len() {
        lemma_catalog_has_fixed_bytes();
        lemma_catalog_small();
        let s = catalog()[ids[j] as int];
        lemma_anchor_is_first_fixed(s.magic);
        lemma_probe_hit_start(c, cfg, origin, len, p, ids, j + 1);
    }
}

/// The probe at position `p` of a buffer: the file it finds starts in the
/// buffer, at or before the probed position.
proof fn lemma_probe_at_start(c: Seq<u8>, cfg: ScanConfig, origin: int, len: int, p: int)
    requires
        0 <= origin,
        origin + p <= u64::MAX,
    ensures
        probe_at(c, cfg, origin, len, p) matches Some(h) ==> origin <= h.offset <= origin + p,
{
    reveal(probe_at);
    let ids = with_anchor(driven_ids(), c[origin + p]);
    lemma_candidates_are_anchored(c[origin + p]);
    assert forall|k: int| 0 <= k < ids.len() implies 0 <= #[trigger] ids[k] < catalog().len() by {
        assert(ids.contains(ids[k]));
    }
    lemma_probe_hit_start(c, cfg, origin, len, p, ids, 0);
}

/// Scanning a buffer from position `p` covers every position from there
/// to `end`.
proof fn lemma_cover_buf(c: Seq<u8>, cfg: ScanConfig, end: int, origin: int, len: int, p: int, q: int)
    requires
        cfg.chunk_size > scan_overlap(cfg),
        c.len() <= u64::MAX,
        end <= c.len(),
        0 <= origin,
        0 < len,
        origin + len <= c.len(),
        0 <= p <= len,
        origin + p <= q < end,
        len > scan_overlap(cfg) || origin + len >= end,
    ensures
        covered(c, cfg, scan_buf(c, cfg, end, origin, len, p), q, end),
    decreases end - origin, len - p, 2int,
{
    let ov = scan_overlap(cfg);
    let se = scan_limit(origin, len, ov, end);
    let steps = scan_buf(c, cfg, end, origin, len, p);
    if p < se {
        let pstep = ScanStep::Probe { origin, len, p };
        let probe = seq![pstep];
        if q == origin + p {
            assert(steps[0] == pstep);
            assert(probe_reaches(steps[0], q, ov, end, c.len() as int));
            assert(probed_in(steps, q, ov, end, c.len() as int));
        } else {
            lemma_probe_at_start(c, cfg, origin, len, p);
            match probe_at(c, cfg, origin, len, p) {
                None => {
                    lemma_cover_buf(c, cfg, end, origin, len, p + 1, q);
                    lemma_covered_after(c, cfg, probe, scan_buf(c, cfg, end, origin, len, p + 1), q, end);
                    assert(steps == probe + scan_buf(c, cfg, end, origin, len, p + 1));
                },
                Some(h) => {
                    let after = h.offset + h.length;
                    if !cfg.skip_after_hit {
                        lemma_cover_buf(c, cfg, end, origin, len, p + 1, q);
                        lemma_covered_after(c, cfg, probe, scan_buf(c, cfg, end, origin, len, p + 1), q, end);
                        assert(steps == probe + scan_buf(c, cfg, end, origin, len, p + 1));
                    } else {
                        let rest = steps.subrange(1, steps.len() as int);
                        assert(steps =~= probe + rest);
                        if q < after {
                            // The probe's own file covers everything up to its end.
                            lemma_stats_empty(c, cfg);
                            lemma_steps_push(c, cfg, Seq::<ScanStep>::empty(), pstep);
                            assert(Seq::<ScanStep>::empty().push(pstep) =~= probe);
                            assert(hits_of(c, cfg, probe) =~= seq![h]);
                            lemma_hits_of_append(c, cfg, probe, rest);
                            assert(hits_of(c, cfg, steps)[0] == h);
                            assert(inside_hit(hits_of(c, cfg, steps), q));
                        } else if after < origin + len {
                            let np = after - origin;
                            if np > p && np < len {
                                lemma_cover_buf(c, cfg, end, origin, len, np, q);
                                assert(rest =~= scan_buf(c, cfg, end, origin, len, np));
                            } else {
                                lemma_cover_buf(c, cfg, end, origin, len, p + 1, q);
                                assert(rest =~= scan_buf(c, cfg, end, origin, len, p + 1));
                            }
                            lemma_covered_after(c, cfg, probe, rest, q, end);
                        } else {
                            let pass = seq![ScanStep::Pass { scanned: se }];
                            lemma_cover_fresh(c, cfg, end, after, q);
                            assert(rest =~= pass + scan_fresh(c, cfg, end, after));
                            lemma_covered_after(c, cfg, pass, scan_fresh(c, cfg, end, after), q, end);
                            lemma_covered_after(c, cfg, probe, rest, q, end);
                        }
                    }
                },
            }
        }
    } else {
        lemma_cover_refill(c, cfg, end, origin, len, q);
        lemma_covered_after(c, cfg, seq![ScanStep::Pass { scanned: se }], scan_refill(c, cfg, end, origin, len), q, end);
        assert(steps == scan_next(c, cfg, end, origin, len));
        assert(steps == seq![ScanStep::Pass { scanned: se }] + scan_refill(c, cfg, end, origin, len));
    }
}

/// A fresh buffer read at `o` covers every position from there to `end`.
proof fn lemma_cover_fresh(c: Seq<u8>, cfg: ScanConfig, end: int, o: int, q: int)
    requires
        cfg.chunk_size > scan_overlap(cfg),
        c.len() <= u64::MAX,
        end <= c.len(),
        0 <= o <= q < end,
    ensures
        covered(c, cfg, scan_fresh(c, cfg, end, o), q, end),
    decreases end - o, cfg.chunk_size + 1, 0int,
{
    let want = if cfg.chunk_size < end - o {
        cfg.chunk_size as int
    } else {
        end - o
    };
    assert(read_result(c, o, want).len() == want);
    lemma_cover_buf(c, cfg, end, o, want, 0, q);
}

/// After the pass over a buffer, the refilled buffer covers every position
/// from the pass's limit to `end`.
proof fn lemma_cover_refill(c: Seq<u8>, cfg: ScanConfig, end: int, origin: int, len: int, q: int)
    requires
        cfg.chunk_size > scan_overlap(cfg),
        c.len() <= u64::MAX,
        end <= c.len(),
        0 <= origin,
        0 < len,
        origin + len <= c.len(),
        origin + scan_limit(origin, len, scan_overlap(cfg), end) <= q < end,
        len > scan_overlap(cfg) || origin + len >= end,
    ensures
        covered(c, cfg, scan_refill(c, cfg, end, origin, len), q, end),
    decreases end - origin, 0int, 0int,
{
    let ov = scan_overlap(cfg);
    let se = scan_limit(origin, len, ov, end);
    let o = origin + se;
    let tail = len - se;
    let cap = cfg.chunk_size + ov;
    let pos = o + tail;
    let to_read = if cap - tail < end - pos {
        cap - tail
    } else {
        end - pos
    };
    assert(origin + len < end);
    assert(to_read > 0);
    assert(read_result(c, pos, to_read).len() == to_read);
    lemma_cover_buf(c, cfg, end, o, tail + to_read, 0, q);
}

/// Chunked scanning loses no position: with chunks longer than the overlap,
/// every position of `[start, end)` on the device is either probed, in a
/// buffer of device bytes that reaches the overlap (at least the longest
/// magic) past it or the end of the range, or lies inside a file found
/// earlier. Such a probe tests magics on the device's own bytes (see
/// [`law_probe_tests_device_magic`]), so a signature across a chunk
/// boundary is seen whole.
pub proof fn law_chunk_boundaries(c: Seq<u8>, cfg: ScanConfig, start: int, end: int, q: int)
    requires
        cfg.chunk_size > scan_overlap(cfg),
        c.len() <= u64::MAX,
        0 <= start <= q < end,
        q < c.len(),
    ensures
        covered(
            c,
            cfg,
            scan_steps(c, cfg, start, end),
            q,
            if end < c.len() {
                end
            } else {
                c.len() as int
            },
        ),
{
    let stop = if end < c.len() {
        end
    } else {
        c.len() as int
    };
    let v = read_result(c, start, cfg.chunk_size as int);
    lemma_cover_buf(c, cfg, stop, start, v.len() as int, 0, q);
}

/// A magic test on a buffer of device bytes is the same test on the device,
/// wherever the magic lies inside the buffer: a probed position whose
/// buffer reaches past its magic sees the device's own bytes.
pub proof fn law_buffer_magic_is_device_magic(c: Seq<u8>, origin: int, len: int, at: int, m: Seq<MagicByte>)
    requires
        0 <= origin,
        0 <= len,
        origin + len <= c.len(),
        0 <= at,
        at + m.len() <= len,
    ensures
        magic_matches(c.subrange(origin, origin + len), at, m) == magic_matches(c, origin + at, m),
{
    let w = c.subrange(origin, origin + len);
    if magic_matches(c, origin + at, m) {
        assert forall|k: int| 0 <= k < m.len() implies (#[trigger] m[k] matches Some(b) ==> w[at + k] == b) by {
            assert(w[at + k] == c[origin + at + k]);
        }
    }
    if magic_matches(w, at, m) {
        assert forall|k: int| 0 <= k < m.len() implies (#[trigger] m[k] matches Some(b) ==> c[origin + at + k] == b) by {
            assert(w[at + k] == c[origin + at + k]);
        }
    }
}

/// Every magic-driven signature's magic ends within the longest extent.
proof fn lemma_extent_bounds(n: int)
    requires
        0 <= n <= catalog().len(),
    ensures
        forall|i: int|
            0 <= i < n && !is_text_kind(catalog()[i].kind) ==> (#[trigger] catalog()[i]).magic_offset
                + catalog()[i].magic.len() <= extent_upto(n),
    decreases n,
{
    if n > 0 {
        lemma_extent_bounds(n - 1);
    }
}

/// A probe of device position `q` (see [`probe_reaches`]) tests each
/// magic-driven signature's magic on the device's own bytes: where the
/// candidate starts inside the buffer and the magic ends before `stop`, the
/// test on the buffer is the test on the device.
pub proof fn law_probe_tests_device_magic(c: Seq<u8>, cfg: ScanConfig, st: ScanStep, q: int, stop: int, i: int)
    requires
        probe_reaches(st, q, scan_overlap(cfg), stop, c.len() as int),
        stop <= c.len(),
        0 <= i < catalog().len(),
        !is_text_kind(catalog()[i].kind),
        st->p >= catalog()[i].magic_offset + anchor_index(catalog()[i].magic),
        q - anchor_index(catalog()[i].magic) + catalog()[i].magic.len() <= stop,
    ensures
        magic_matches(
            c.subrange(st->origin, st->origin + st->len),
            st->p - (catalog()[i].magic_offset + anchor_index(catalog()[i].magic)) + catalog()[i].magic_offset,
            catalog()[i].magic,
        ) == magic_matches(
            c,
            q - (catalog()[i].magic_offset + anchor_index(catalog()[i].magic)) + catalog()[i].magic_offset,
            catalog()[i].magic,
        ),
{
    let s = catalog()[i];
    lemma_catalog_has_fixed_bytes();
    lemma_catalog_small();
    lemma_anchor_is_first_fixed(s.magic);
    lemma_extent_bounds(catalog().len() as int);
    let at = st->p - (s.magic_offset + anchor_index(s.magic)) + s.magic_offset;
    law_buffer_magic_is_device_magic(c, st->origin, st->len, at, s.magic);
}

/// The carver: a reader, the signature index and a configuration.
#[derive(Debug)]
pub struct Carver<R: SectorReader> {
    reader: R,
    index: SignatureIndex,
    sigs: Vec<Signature>,
    config: ScanConfig,
}

impl<R: SectorReader> Carver<R> {
    #[verifier::type_invariant]
    closed spec fn inv(self) -> bool {
        &&& self.index.well_formed()
        &&& self.index.magic_driven@ == driven_ids()
        &&& self.index.max_magic_extent == extent_upto(catalog().len() as int)
        &&& self.sigs@.len() == catalog().len()
        &&& forall|i: int| 0 <= i < self.sigs@.len() ==> #[trigger] self.sigs@[i]@ == catalog()[i]
    }

    /// The device bytes the carver reads.
    pub closed spec fn device(&self) -> Seq<u8> {
        self.reader.spec_contents()
    }

    /// Whether the carver's reads never fail.
    pub closed spec fn reader_reliable(&self) -> bool {
        self.reader.spec_reliable()
    }

    /// The configuration the carver runs with.
    pub closed spec fn config_view(&self) -> ScanConfig {
        self.config
    }

    /// A carver over `reader`.
    pub fn new(reader: R, config: ScanConfig) -> (r: Self)
        ensures
            r.device() == reader.spec_contents(),
            r.config_view() == config,
            r.reader_reliable() == reader.spec_reliable(),
    {
        let index: SignatureIndex = SignatureIndex::build();
        let sigs: Vec<Signature> = signatures();
        Carver { reader, index, sigs, config }
    }

    /// Whether `kind` passes the configured kind filter.
    #[verifier::loop_isolation(false)]
    pub fn kind_enabled(&self, kind: FileKind) -> (r: bool)
        ensures
            r == spec_kind_enabled(self.config_view(), kind),
    {
        match &self.config.kinds {
            None => true,
            Some(v) => {
                if v.len() == 0 {
                    return true;
                }
                let mut j: usize = 0;
                while j < v.len()
                    invariant
                        j <= v@.len(),
                        forall|q: int| 0 <= q < j ==> v@[q] != kind,
                    decreases v.len() - j,
                {
                    if v[j] == kind {
                        assert(v@[j as int] == kind);
                        assert(v@.contains(kind));
                        return true;
                    }
                    j += 1;
                }
                false
            },
        }
    }

    /// Validate the candidate at device offset `cstart_abs`, starting with the
    /// bytes already in hand and widening the window (doubling, up to the
    /// signature's cap and the configured maximum) while the validator asks
    /// for more. `Some((length, kind, recoverability))` on confirmation.
    pub fn try_validate(&self, sig: &Signature, cstart_abs: u64, initial: &[u8]) -> (r: Result<
        Option<(u64, FileKind, u8)>,
        Error,
    >)
        requires
            self.device().len() <= u64::MAX,
            cstart_abs + initial@.len() <= self.device().len(),
            initial@ == self.device().subrange(cstart_abs as int, cstart_abs + initial@.len()),
        ensures
            r matches Ok(Some((length, kind, recov))) ==> confirmed_on(
                self.device(),
                sig.validator,
                cstart_abs as int,
                length,
                recov,
                kind,
            ),
            r matches Ok(res) ==> res == validation_outcome(
                self.device(),
                sig.validator,
                cstart_abs as int,
                initial@.len() as int,
                if sig.max_size < self.config_view().max_validation_window {
                    sig.max_size as int
                } else {
                    self.config_view().max_validation_window as int
                },
                self.config_view().initial_validation_window as int,
            ),
            self.reader_reliable() ==> r is Ok,
    {
        let ghost c: Seq<u8> = self.device();
        let max_window: usize = if sig.max_size < self.config.max_validation_window as u64 {
            sig.max_size as usize
        } else {
            self.config.max_validation_window
        };
        match sig.validator.validate_with_kind(initial) {
            (Validation::Confirmed { length, recoverability }, kind) => {
                assert(c.subrange(cstart_abs as int, cstart_abs + initial@.len()) == initial@);
                return Ok(Some((length, kind, recoverability)));
            },
            (Validation::Rejected, _) => return Ok(None),
            (Validation::NeedsMore, _) => {},
        }
        if initial.len() >= max_window {
            return Ok(None);
        }
        let mut window: Vec<u8> = vstd::slice::slice_to_vec(initial);
        let iv: usize = self.config.initial_validation_window;
        let doubled: usize = match initial.len().checked_mul(2) {
            Some(d) => d,
            None => max_window,
        };
        let grown: usize = if iv > doubled {
            iv
        } else {
            doubled
        };
        let mut size: usize = if grown < max_window {
            grown
        } else {
            max_window
        };
        let ghost outcome: Option<(u64, FileKind, u8)> = validation_outcome(
            c,
            sig.validator,
            cstart_abs as int,
            initial@.len() as int,
            max_window as int,
            iv as int,
        );
        assert(outcome == widen(c, sig.validator, cstart_abs as int, window@.len() as int, size as int, max_window as int));
        while size > window.len()
            invariant
                c == self.device(),
                c.len() <= u64::MAX,
                size <= max_window,
                window@.len() <= max_window,
                cstart_abs + window@.len() <= c.len(),
                window@ == c.subrange(cstart_abs as int, cstart_abs + window@.len()),
                outcome == widen(c, sig.validator, cstart_abs as int, window@.len() as int, size as int, max_window as int),
                outcome == validation_outcome(
                    c,
                    sig.validator,
                    cstart_abs as int,
                    initial@.len() as int,
                    max_window as int,
                    iv as int,
                ),
                max_window == (if sig.max_size < self.config_view().max_validation_window {
                    sig.max_size as int
                } else {
                    self.config_view().max_validation_window as int
                }),
                iv == self.config_view().initial_validation_window,
            ensures
                window@.len() <= max_window,
                cstart_abs + window@.len() <= c.len(),
                window@ == c.subrange(cstart_abs as int, cstart_abs + window@.len()),
                outcome == final_verdict(c, sig.validator, cstart_abs as int, window@.len() as int),
                outcome == validation_outcome(
                    c,
                    sig.validator,
                    cstart_abs as int,
                    initial@.len() as int,
                    max_window as int,
                    iv as int,
                ),
            decreases max_window - window@.len(),
        {
            let ghost len0: int = window@.len() as int;
            let ghost size0: int = size as int;
            let need: usize = size - window.len();
            let read_off: u64 = cstart_abs + window.len() as u64;
            let chunk: Vec<u8> = match self.reader.read_at(read_off, need) {
                Ok(v) => v,
                Err(e) => return Err(e),
            };
            let ghost rd: Seq<u8> = chunk@;
            assert(rd == read_result(c, cstart_abs + len0, size0 - len0));
            if chunk.len() == 0 {
                break;
            }
            let ghost before: Seq<u8> = window@;
            let mut chunk = chunk;
            window.append(&mut chunk);
            assert(window@ =~= c.subrange(cstart_abs as int, cstart_abs + window@.len()));
            assert(window@.len() == len0 + rd.len());
            match sig.validator.validate_with_kind(window.as_slice()) {
                (Validation::Confirmed { length, recoverability }, kind) => {
                    return Ok(Some((length, kind, recoverability)));
                },
                (Validation::Rejected, _) => return Ok(None),
                (Validation::NeedsMore, _) => {
                    if size >= max_window {
                        return Ok(None);
                    }
                    size = match size.checked_mul(2) {
                        Some(d) => if d < max_window {
                            d
                        } else {
                            max_window
                        },
                        None => max_window,
                    };
                },
            }
        }
        match sig.validator.validate_with_kind(window.as_slice()) {
            (Validation::Confirmed { length, recoverability }, kind) => Ok(
                Some((length, kind, recoverability)),
            ),
            _ => Ok(None),
        }
    }

    /// Try every enabled signature anchored on the byte at `p` of `buf`
    /// (which holds the device bytes from `buf_origin`); the first whose
    /// magic matches and whose validator confirms a long-enough file wins.
    #[verifier::loop_isolation(false)]
    #[verifier::rlimit(60)]
    fn probe(&self, buf: &[u8], buf_origin: u64, p: usize, stats: &mut ScanStats) -> (r: Result<Option<CarvedFile>, Error>)
        requires
            p < buf@.len(),
            self.device().len() <= u64::MAX,
            buf_origin + buf@.len() <= self.device().len(),
            buf@ == self.device().subrange(buf_origin as int, buf_origin + buf@.len()),
        ensures
            r matches Ok(Some(f)) ==> carved_ok(self.device(), self.config_view(), f) && buf_origin
                <= f.offset_bytes <= buf_origin + p,
            r matches Ok(h) ==> match probe_at(self.device(), self.config_view(), buf_origin as int, buf@.len() as int, p as int) {
                None => h is None,
                Some(m) => h matches Some(f) && reports(f, m),
            },
            r is Ok ==> ({
                let n = probe_count(self.device(), self.config_view(), buf_origin as int, buf@.len() as int, p as int);
                let h: int = if probe_at(self.device(), self.config_view(), buf_origin as int, buf@.len() as int, p as int) is Some {
                    1
                } else {
                    0
                };
                &&& n >= h
                &&& final(stats).candidates_examined == saturated(old(stats).candidates_examined + n)
                &&& final(stats).files_confirmed == saturated(old(stats).files_confirmed + h)
                &&& final(stats).rejections == saturated(old(stats).rejections + n - h)
                &&& final(stats).bytes_scanned == old(stats).bytes_scanned
                &&& final(stats).needs_more_giveups == old(stats).needs_more_giveups
            }),
            self.reader_reliable() ==> r is Ok,
    {
        proof {
            use_type_invariant(self);
            lemma_catalog_has_fixed_bytes();
            lemma_catalog_small();
        }
        let ghost c: Seq<u8> = self.device();
        let ghost cfg: ScanConfig = self.config;
        let buf_len: usize = buf.len();
        let b: u8 = buf[p];
        let cands: &[u16] = self.index.candidates(b);
        proof {
            lemma_candidates_are_anchored(b);
        }
        let mut hit: Option<CarvedFile> = None;
        let mut j: usize = 0;
        proof {
            reveal(probe_at);
            reveal(probe_count);
        }
        let ghost want: Option<CarveHit> = probe_at(c, cfg, buf_origin as int, buf_len as int, p as int);
        let ghost want_n: nat = probe_count(c, cfg, buf_origin as int, buf_len as int, p as int);
        let ghost s0: ScanStats = *stats;
        let ghost mut ex: int = 0;
        assert(b == c[buf_origin + p]);
        while j < cands.len() && hit.is_none()
            invariant
                j <= cands@.len(),
                cands@ == with_anchor(driven_ids(), b),
                0 <= ex,
                hit is None ==> want_n == ex + probe_examined(c, cfg, buf_origin as int, buf_len as int, p as int, cands@, j as int),
                hit is Some ==> want_n == ex && ex >= 1,
                stats.candidates_examined == saturated(s0.candidates_examined + ex),
                stats.files_confirmed == saturated(s0.files_confirmed + if hit is Some { 1int } else { 0int }),
                stats.rejections == saturated(s0.rejections + ex - if hit is Some { 1int } else { 0int }),
                stats.bytes_scanned == s0.bytes_scanned,
                stats.needs_more_giveups == s0.needs_more_giveups,
                hit matches Some(f) ==> carved_ok(c, cfg, f) && buf_origin <= f.offset_bytes <= buf_origin
                    + p,
                hit is None ==> want == probe_hit(c, cfg, buf_origin as int, buf_len as int, p as int, cands@, j as int),
                hit matches Some(f) ==> want matches Some(m) && reports(f, m),
            decreases cands@.len() - j,
        {
            let id: u16 = cands[j];
            assert(cands@.contains(id)) by {
                assert(cands@[j as int] == id);
            }
            let sig: &Signature = &self.sigs[id as usize];
            assert(sig@ == catalog()[id as int]);
            j += 1;
            if !self.kind_enabled(sig.kind) {
                continue;
            }
            proof {
                lemma_anchor_is_first_fixed(sig.magic@);
            }
            let cof: usize = sig.candidate_offset_from_anchor();
            if p < cof {
                continue;
            }
            let cstart: usize = p - cof;
            if !sig.matches(buf, cstart) {
                continue;
            }
            stats.candidates_examined = stats.candidates_examined.saturating_add(1);
            proof {
                ex = ex + 1;
            }
            let abs_start: u64 = buf_origin + cstart as u64;
            let window: &[u8] = &buf[cstart..buf_len];
            assert(window@ =~= c.subrange(abs_start as int, abs_start + window@.len()));
            match self.try_validate(sig, abs_start, window) {
                Err(e) => {
                    return Err(e);
                },
                Ok(Some((len, kind, recov))) => {
                    if len >= self.config.min_carve_bytes {
                        let f: CarvedFile = CarvedFile {
                            kind,
                            offset_bytes: abs_start,
                            length_bytes: len,
                            signature: sig.name,
                            recoverability: recov,
                        };
                        proof {
                            lemma_magic_in_device(
                                c,
                                buf_origin as int,
                                buf_len as int,
                                cstart + sig.magic_offset,
                                sig.magic@,
                            );
                            assert(carved_by(c, cfg, id as int, f));
                        }
                        hit = Some(f);
                        stats.files_confirmed = stats.files_confirmed.saturating_add(1);
                    } else {
                        stats.rejections = stats.rejections.saturating_add(1);
                    }
                },
                Ok(None) => {
                    stats.rejections = stats.rejections.saturating_add(1);
                },
            }
        }
        proof {
            if hit is None {
                assert(probe_examined(c, cfg, buf_origin as int, buf_len as int, p as int, cands@, j as int) == 0);
            }
        }
        Ok(hit)
    }

    /// Scan device bytes `[start, end)` (the end is clipped to the device),
    /// appending each confirmed file to `found`: exactly the hits of
    /// [`scan_hits`], in order. The counters report the bytes each pass
    /// covered, the candidates validated, the files confirmed and the
    /// candidates rejected ([`scan_stats_of`]). The first matching signature at a position
    /// wins; with `skip_after_hit` scanning resumes after the carved file,
    /// otherwise at the next byte. A cancellation ends the scan with
    /// `Cancelled`.
    #[verifier::loop_isolation(false)]
    #[verifier::spinoff_prover]
    #[verifier::rlimit(100)]
    pub fn scan_range(&self, start: u64, end: u64, found: &mut Vec<CarvedFile>, cancel: &CancelToken) -> (r: Result<ScanStats, Error>)
        requires
            self.config_view().chunk_size + self.config_view().overlap + 16 <= usize::MAX,
        ensures
            old(found)@.len() <= final(found)@.len(),
            final(found)@.subrange(0, old(found)@.len() as int) == old(found)@,
            forall|k: int|
                old(found)@.len() <= k < final(found)@.len() ==> carved_ok(
                    self.device(),
                    self.config_view(),
                    #[trigger] final(found)@[k],
                ) && final(found)@[k].offset_bytes >= start,
            (end <= start || start >= self.device().len()) ==> r == Ok::<ScanStats, Error>(ScanStats::spec_zero())
                && final(found)@ == old(found)@,
            r is Ok ==> ({
                let hits = scan_hits(self.device(), self.config_view(), start as int, end as int);
                &&& final(found)@.len() == old(found)@.len() + hits.len()
                &&& forall|k: int| 0 <= k < hits.len() ==> reports(#[trigger] final(found)@[old(found)@.len() + k], hits[k])
            }),
            r matches Ok(st) ==> st == scan_stats_of(
                self.device(),
                self.config_view(),
                scan_steps(self.device(), self.config_view(), start as int, end as int),
            ),
            self.reader_reliable() ==> (r is Ok || r == Err::<ScanStats, Error>(Error::Cancelled)),
    {
        proof {
            use_type_invariant(self);
            lemma_extent_small(catalog().len() as int);
            lemma_stats_empty(self.device(), self.config);
        }
        let ghost f0: Seq<CarvedFile> = found@;
        let ghost cfg: ScanConfig = self.config;
        let ghost total: Seq<ScanStep> = scan_steps(self.device(), cfg, start as int, end as int);
        let ghost mut steps: Seq<ScanStep> = Seq::empty();
        let ghost mut hits: Seq<CarveHit> = Seq::empty();
        if end <= start {
            return Ok(ScanStats::new());
        }
        let device_end: u64 = self.reader.size_bytes();
        let end: u64 = if end < device_end {
            end
        } else {
            device_end
        };
        if start >= end {
            return Ok(ScanStats::new());
        }
        let ghost c: Seq<u8> = self.device();
        let mut stats: ScanStats = ScanStats::new();
        let chunk_size: usize = self.config.chunk_size;
        let overlap: usize = if self.config.overlap > self.index.max_magic_extent {
            self.config.overlap
        } else {
            self.index.max_magic_extent
        };
        let mut buf_origin: u64 = start;
        let mut buf: Vec<u8> = match self.reader.read_at(start, chunk_size) {
            Ok(v) => v,
            Err(e) => return Err(e),
        };
        assert(overlap == scan_overlap(cfg));
        assert(total == steps + scan_buf(c, cfg, end as int, buf_origin as int, buf@.len() as int, 0));
        proof {
            lemma_stats_empty(c, cfg);
        }
        while buf.len() > 0
            invariant
                overlap == scan_overlap(cfg),
                chunk_size == cfg.chunk_size,
                hits == hits_of(c, cfg, steps),
                found@.len() == f0.len() + hits.len(),
                forall|k: int| 0 <= k < hits.len() ==> reports(#[trigger] found@[f0.len() + k], hits[k]),
                total == steps + scan_buf(c, cfg, end as int, buf_origin as int, buf@.len() as int, 0),
                stats == scan_stats_of(c, cfg, steps),
                steps_examined(c, cfg, steps) >= hits_of(c, cfg, steps).len(),
                c == self.device(),
                cfg == self.config_view(),
                c.len() <= u64::MAX,
                end <= c.len(),
                start <= buf_origin < end,
                buf_origin + buf@.len() <= c.len(),
                buf@ == c.subrange(buf_origin as int, buf_origin + buf@.len()),
                f0.len() <= found@.len(),
                found@.subrange(0, f0.len() as int) == f0,
                forall|k: int|
                    f0.len() <= k < found@.len() ==> carved_ok(c, cfg, #[trigger] found@[k])
                        && found@[k].offset_bytes >= start,
            decreases end - buf_origin,
        {
            if cancel.is_cancelled() {
                return Err(Error::Cancelled);
            }
            let buf_len: usize = buf.len();
            let next_offset: u64 = match buf_origin.checked_add(buf_len as u64) {
                Some(x) => x,
                None => u64::MAX,
            };
            let more_available: bool = next_offset < end;
            let scan_end: usize = if more_available && buf_len > overlap {
                buf_len - overlap
            } else {
                buf_len
            };
            let mut p: usize = 0;
            let mut dropped: bool = false;
            let ghost o0: u64 = buf_origin;
            let ghost pass_step: ScanStep = ScanStep::Pass { scanned: scan_end as int };
            assert(scan_end == scan_limit(o0 as int, buf_len as int, overlap as int, end as int));
            while p < scan_end
                invariant
                    !dropped,
                    hits == hits_of(c, cfg, steps),
                    found@.len() == f0.len() + hits.len(),
                    forall|k: int| 0 <= k < hits.len() ==> reports(#[trigger] found@[f0.len() + k], hits[k]),
                    total == steps + scan_buf(c, cfg, end as int, o0 as int, buf_len as int, p as int),
                    stats == scan_stats_of(c, cfg, steps),
                    steps_examined(c, cfg, steps) >= hits_of(c, cfg, steps).len(),
                    buf_origin == o0,
                    o0 + buf_len <= c.len(),
                    p <= buf_len,
                    buf_len == buf@.len(),
                    start <= buf_origin < end,
                    buf@ == c.subrange(buf_origin as int, buf_origin + buf@.len()),
                    f0.len() <= found@.len(),
                    found@.subrange(0, f0.len() as int) == f0,
                    forall|k: int|
                        f0.len() <= k < found@.len() ==> carved_ok(c, cfg, #[trigger] found@[k])
                            && found@[k].offset_bytes >= start,
                decreases buf_len - p,
            {
                if cancel.is_cancelled() {
                    return Err(Error::Cancelled);
                }
                let ghost st0: ScanStats = stats;
                let hit: Option<CarvedFile> = match self.probe(buf.as_slice(), buf_origin, p, &mut stats) {
                    Ok(h) => h,
                    Err(e) => return Err(e),
                };
                let ghost probed: Option<CarveHit> = probe_at(c, cfg, o0 as int, buf_len as int, p as int);
                let ghost s_prev: Seq<ScanStep> = steps;
                let ghost h_prev: Seq<CarveHit> = hits;
                let ghost rest_hits: Seq<ScanStep> = scan_buf(c, cfg, end as int, o0 as int, buf_len as int, p as int);
                let ghost pstep: ScanStep = ScanStep::Probe { origin: o0 as int, len: buf_len as int, p: p as int };
                assert(p < scan_limit(o0 as int, buf_len as int, scan_overlap(cfg), end as int));
                proof {
                    lemma_stats_probe(c, cfg, steps, o0 as int, buf_len as int, p as int, st0, stats);
                    lemma_steps_push(c, cfg, steps, pstep);
                    steps = steps.push(pstep);
                    if probed is Some {
                        hits = hits.push(probed->0);
                    }
                }
                match hit {
                    Some(cf) => {
                        let ghost m: CarveHit = probed->0;
                        let ghost ff: Seq<CarvedFile> = found@;
                        found.push(cf);
                        proof {
                            assert forall|k: int| 0 <= k < hits.len() implies reports(#[trigger] found@[f0.len() + k], hits[k]) by {
                                if k < h_prev.len() {
                                    assert(found@[f0.len() + k] == ff[f0.len() + k]);
                                }
                            }
                        }
                        assert(found@.subrange(0, f0.len() as int) =~= f0);
                        if self.config.skip_after_hit {
                            let limit: u64 = buf_origin + buf_len as u64;
                            match cf.offset_bytes.checked_add(cf.length_bytes) {
                                Some(abs_after) => {
                                    if abs_after < limit {
                                        let np: usize = (abs_after - buf_origin) as usize;
                                        if np > p {
                                            p = np;
                                        } else {
                                            p = p + 1;
                                        }
                                        assert(total == steps + scan_buf(c, cfg, end as int, o0 as int, buf_len as int, p as int)) by {
                                            assert(rest_hits == seq![pstep] + scan_buf(c, cfg, end as int, o0 as int, buf_len as int, p as int));
                                            assert(s_prev + rest_hits =~= steps + scan_buf(c, cfg, end as int, o0 as int, buf_len as int, p as int));
                                        }
                                    } else {
                                        buf_origin = if abs_after < end {
                                            abs_after
                                        } else {
                                            end
                                        };
                                        dropped = true;
                                        assert(total == s_prev + (seq![pstep, pass_step] + scan_fresh(c, cfg, end as int, buf_origin as int))) by {
                                            assert(rest_hits =~= seq![pstep, pass_step] + scan_fresh(c, cfg, end as int, buf_origin as int));
                                        }
                                        break;
                                    }
                                },
                                None => {
                                    buf_origin = end;
                                    dropped = true;
                                    assert(total == s_prev + (seq![pstep, pass_step] + scan_fresh(c, cfg, end as int, buf_origin as int))) by {
                                        assert(rest_hits =~= seq![pstep, pass_step]);
                                        assert(scan_fresh(c, cfg, end as int, buf_origin as int) =~= Seq::<ScanStep>::empty());
                                        assert(seq![pstep, pass_step] + Seq::<ScanStep>::empty() =~= seq![pstep, pass_step]);
                                    }
                                    break;
                                },
                            }
                        } else {
                            p += 1;
                            assert(total == steps + scan_buf(c, cfg, end as int, o0 as int, buf_len as int, p as int)) by {
                                assert(rest_hits == seq![pstep] + scan_buf(c, cfg, end as int, o0 as int, buf_len as int, p as int));
                                assert(s_prev + rest_hits =~= steps + scan_buf(c, cfg, end as int, o0 as int, buf_len as int, p as int));
                            }
                        }
                    },
                    None => {
                        p += 1;
                        assert(total == steps + scan_buf(c, cfg, end as int, o0 as int, buf_len as int, p as int)) by {
                            assert(rest_hits == seq![pstep] + scan_buf(c, cfg, end as int, o0 as int, buf_len as int, p as int));
                            assert(s_prev + rest_hits =~= steps + scan_buf(c, cfg, end as int, o0 as int, buf_len as int, p as int));
                        }
                    },
                }
            }
            let ghost s_before: Seq<ScanStep> = steps;
            proof {
                if !dropped {
                    assert(total == steps + scan_next(c, cfg, end as int, o0 as int, buf_len as int));
                    assert(total == s_before + (seq![pass_step] + scan_refill(c, cfg, end as int, o0 as int, buf_len as int)));
                } else {
                    assert(total == s_before.drop_last() + (seq![s_before.last(), pass_step] + scan_fresh(c, cfg, end as int, buf_origin as int)));
                }
            }
            let ghost st_pass: ScanStats = stats;
            stats.bytes_scanned = stats.bytes_scanned.saturating_add(scan_end as u64);
            proof {
                lemma_stats_pass(c, cfg, steps, scan_end as int, st_pass, stats);
                lemma_steps_push(c, cfg, steps, pass_step);
                steps = steps.push(pass_step);
                if !dropped {
                    assert(total =~= steps + scan_refill(c, cfg, end as int, o0 as int, buf_len as int));
                } else {
                    assert(s_before =~= s_before.drop_last().push(s_before.last()));
                    assert(total =~= steps + scan_fresh(c, cfg, end as int, buf_origin as int));
                }
            }
            if dropped {
                assert(total == steps + scan_fresh(c, cfg, end as int, buf_origin as int));
                if buf_origin >= end {
                    assert(total =~= steps);
                    break;
                }
                let room: u64 = end - buf_origin;
                let want: usize = if (chunk_size as u64) < room {
                    chunk_size
                } else {
                    room as usize
                };
                let v: Vec<u8> = match self.reader.read_at(buf_origin, want) {
                    Ok(v) => v,
                    Err(e) => return Err(e),
                };
                if v.len() == 0 {
                    assert(total =~= steps);
                    break;
                }
                buf = v;
                continue;
            }
            let tail: usize = buf_len - scan_end;
            let mut rest: Vec<u8> = vstd::slice::slice_to_vec(&buf.as_slice()[scan_end..buf_len]);
            buf_origin = buf_origin + scan_end as u64;
            assert(rest@ =~= c.subrange(buf_origin as int, buf_origin + tail));
            let cap: usize = chunk_size + overlap;
            let want: usize = if cap > tail {
                cap - tail
            } else {
                0
            };
            let pos: u64 = buf_origin + tail as u64;
            let remaining: u64 = if end > pos {
                end - pos
            } else {
                0
            };
            let to_read: usize = if (want as u64) < remaining {
                want
            } else {
                remaining as usize
            };
            if to_read == 0 {
                buf = rest;
                if !more_available {
                    assert(total =~= steps);
                    break;
                }
                continue;
            }
            let mut v: Vec<u8> = match self.reader.read_at(pos, to_read) {
                Ok(v) => v,
                Err(e) => return Err(e),
            };
            if v.len() == 0 && !more_available {
                assert(total =~= steps);
                break;
            }
            rest.append(&mut v);
            assert(rest@ =~= c.subrange(buf_origin as int, buf_origin + rest@.len()));
            buf = rest;
        }
        assert(total =~= steps);
        Ok(stats)
    }
}

} // verus!
