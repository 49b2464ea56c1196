//! Busy / stall accounting of the worker threads. Measurement only: no
//! scheduling decision reads these counters.
//!
//! Per worker and per kind, the recorder keeps a nanosecond total, a call
//! count, a coarse timeline of 0.25 ms bins and a bounded list of spans.
//! Times are nanoseconds on one process clock; the recorder measures them
//! against the origin set by [`begin`].

use vstd::prelude::*;
use vstd::arithmetic::div_mod::lemma_add_mod_noop;
use crate::specfence::flags::stall_flag_spec;

verus! {

pub const KIND_EVM_FIRST: u8 = 0;
pub const KIND_EVM_FIRST_ABORT: u8 = 1;
pub const KIND_EVM_REFULL: u8 = 2;
pub const KIND_EVM_REPART: u8 = 3;
pub const KIND_VALIDATE: u8 = 4;
pub const KIND_PUBLISH: u8 = 5;
pub const KIND_SCHED: u8 = 6;
pub const KIND_DETECT: u8 = 7;
pub const KIND_LEARN: u8 = 8;
pub const KIND_LOCK: u8 = 9;
pub const KIND_SPIN: u8 = 10;
pub const KIND_STALL_HANDOFF: u8 = 11;
pub const KIND_STALL_COMMIT: u8 = 12;
pub const KIND_STALL_REFUSE: u8 = 13;
pub const KIND_STALL_WAITONCE: u8 = 14;
pub const KIND_STALL_NOREADY: u8 = 15;
pub const KIND_STALL_JOIN: u8 = 16;
pub const KIND_N: usize = 17;

/// Predecessor field of a span that has none.
pub const PRED_NONE: u32 = 0xFFFF_FFFF;
/// Width of one timeline bin.
pub const BIN_NS: u64 = 250_000;
/// Number of timeline bins per worker and kind.
pub const BINS: usize = 200;
/// Worker slots; higher worker indexes share the last slot.
pub const WORKERS: usize = 16;
/// Spans kept per worker; later spans are only counted as dropped.
pub const SPANS_PER_WORKER: usize = 8192;

/// Name of each kind; `"other"` outside the known kinds.
pub open spec fn kind_name_spec(k: u8) -> Seq<char> {
    if k == 0 {
        "evm_first"@
    } else if k == 1 {
        "evm_first_abort"@
    } else if k == 2 {
        "evm_refull"@
    } else if k == 3 {
        "evm_repart"@
    } else if k == 4 {
        "validate"@
    } else if k == 5 {
        "publish"@
    } else if k == 6 {
        "sched"@
    } else if k == 7 {
        "detect"@
    } else if k == 8 {
        "learn"@
    } else if k == 9 {
        "lock"@
    } else if k == 10 {
        "spin"@
    } else if k == 11 {
        "stall_handoff"@
    } else if k == 12 {
        "stall_commit"@
    } else if k == 13 {
        "stall_refuse"@
    } else if k == 14 {
        "stall_waitonce"@
    } else if k == 15 {
        "stall_noready"@
    } else if k == 16 {
        "stall_join"@
    } else {
        "other"@
    }
}

/// Name of a kind.
pub fn kind_name(k: u8) -> (r: &'static str)
    ensures
        r@ == kind_name_spec(k),
{
    match k {
        0 => "evm_first",
        1 => "evm_first_abort",
        2 => "evm_refull",
        3 => "evm_repart",
        4 => "validate",
        5 => "publish",
        6 => "sched",
        7 => "detect",
        8 => "learn",
        9 => "lock",
        10 => "spin",
        11 => "stall_handoff",
        12 => "stall_commit",
        13 => "stall_refuse",
        14 => "stall_waitonce",
        15 => "stall_noready",
        16 => "stall_join",
        _ => "other",
    }
}

/// `a + x` on a 64-bit counter that wraps.
pub open spec fn wadd(a: u64, x: int) -> u64 {
    ((a as int + x) % 0x1_0000_0000_0000_0000) as u64
}

/// Nanoseconds of `[t0, t0 + dur)` that fall into bin `b`.
pub open spec fn overlap(t0: int, dur: int, b: int) -> int {
    let lo = b * BIN_NS;
    let hi = lo + BIN_NS;
    let s = if t0 > lo {
        t0
    } else {
        lo
    };
    let e = if t0 + dur < hi {
        t0 + dur
    } else {
        hi
    };
    if e > s {
        e - s
    } else {
        0
    }
}

/// Nanoseconds of `[t0, t0 + dur)` past the last bin.
pub open spec fn overflow_part(t0: int, dur: int) -> int {
    let cap = BINS * BIN_NS;
    let s = if t0 > cap {
        t0
    } else {
        cap
    };
    if t0 + dur > s {
        t0 + dur - s
    } else {
        0
    }
}

proof fn lemma_wadd(a: u64, x: int, y: int)
    requires
        0 <= x < 0x1_0000_0000_0000_0000,
        0 <= y < 0x1_0000_0000_0000_0000,
    ensures
        wadd(wadd(a, x), y) == wadd(a, x + y),
{
    let m: int = 0x1_0000_0000_0000_0000;
    lemma_add_mod_noop(a as int + x, y, m);
    assert(y % m == y);
    assert(((a as int + x) % m) % m == (a as int + x) % m) by {
        vstd::arithmetic::div_mod::lemma_mod_twice(a as int + x, m);
    }
}

proof fn lemma_wrapping_is_wadd(a: u64, x: u64)
    ensures
        vstd::wrapping::u64_specs::wrapping_add(a, x) == wadd(a, x as int),
{
}

/// One recorded span.
#[derive(Clone, Copy)]
pub struct SpanRec {
    pub w: u8,
    pub k: u8,
    pub inc: u16,
    pub tx: u32,
    pub pred: u32,
    pub t0: u64,
    pub dur: u64,
    pub gross: u64,
}

/// Per-thread state of the recorder: worker slot, nested-time counter and
/// the origin copied at [`bind`].
pub struct BusyStallThread {
    wid: u8,
    nested: u64,
    origin: Option<u64>,
}

impl BusyStallThread {
    pub closed spec fn wf(self) -> bool {
        self.wid < WORKERS
    }

    pub closed spec fn worker(self) -> nat {
        self.wid as nat
    }

    pub closed spec fn nested_ns(self) -> u64 {
        self.nested
    }

    pub closed spec fn origin_ns(self) -> Option<u64> {
        self.origin
    }

    /// A well-formed thread state names one of the worker slots.
    pub proof fn lemma_worker_in_range(self)
        requires
            self.wf(),
        ensures
            self.worker() < WORKERS,
    {
    }

    /// A thread that has not bound a worker yet: slot 0, nothing nested.
    pub fn new() -> (r: Self)
        ensures
            r.wf(),
            r.worker() == 0,
            r.nested_ns() == 0,
            r.origin_ns() is None,
    {
        BusyStallThread { wid: 0, nested: 0, origin: None }
    }
}

/// Nanoseconds from the thread's origin to `t`; 0 without an origin.
pub open spec fn since_origin_spec(origin: Option<u64>, t: u64) -> u64 {
    match origin {
        Some(o) => if t > o {
            (t - o) as u64
        } else {
            0
        },
        None => 0,
    }
}

fn since_origin(th: &BusyStallThread, t: u64) -> (r: u64)
    ensures
        r == since_origin_spec(th.origin_ns(), t),
{
    match th.origin {
        Some(o) => t.saturating_sub(o),
        None => 0,
    }
}

/// Totals of one worker in a sealed snapshot.
pub struct BusyStallWorker {
    pub worker: usize,
    pub life_ns: u64,
    pub ns: Vec<u64>,
    pub cnt: Vec<u64>,
    pub dropped_spans: u64,
}

/// One non-empty timeline bin in a sealed snapshot.
#[derive(Clone, Copy)]
pub struct BusyStallBin {
    pub w: u8,
    pub k: u8,
    pub bin: u16,
    pub ns: u64,
}

/// One span in a sealed snapshot.
pub struct BusyStallSpan {
    pub w: u8,
    pub k: u8,
    pub kind: String,
    pub inc: u16,
    pub tx: u32,
    pub pred: Option<u32>,
    pub t0_ns: u64,
    pub dur_ns: u64,
    pub gross_ns: u64,
}

/// Sealed view of the recorder.
pub struct BusyStallSnap {
    pub enabled: bool,
    pub bin_ns: u64,
    pub bins: usize,
    pub kinds: Vec<String>,
    pub workers: Vec<BusyStallWorker>,
    /// Non-zero bins only; `bin` is an index, not a timestamp.
    pub timeline: Vec<BusyStallBin>,
    pub timeline_overflow_ns: u64,
    pub spans: Vec<BusyStallSpan>,
}

/// The snapshot has the fixed bin geometry and every kind name in order.
pub open spec fn snap_header_ok(s: BusyStallSnap, enabled: bool) -> bool {
    &&& s.enabled == enabled
    &&& s.bin_ns == BIN_NS
    &&& s.bins == BINS
    &&& s.kinds@.len() == KIND_N
    &&& forall|i: int| 0 <= i < KIND_N ==> #[trigger] s.kinds@[i]@ == kind_name_spec(i as u8)
}

fn kind_names() -> (r: Vec<String>)
    ensures
        r@.len() == KIND_N,
        forall|i: int| 0 <= i < KIND_N ==> #[trigger] r@[i]@ == kind_name_spec(i as u8),
{
    let mut v: Vec<String> = Vec::new();
    let mut i: u8 = 0;
    while (i as usize) < KIND_N
        invariant
            i <= KIND_N,
            v@.len() == i,
            forall|j: int| 0 <= j < i ==> #[trigger] v@[j]@ == kind_name_spec(j as u8),
        decreases KIND_N - i,
    {
        v.push(kind_name(i).to_owned());
        i = i + 1;
    }
    v
}

impl BusyStallSnap {
    /// The snapshot of a disabled recorder: geometry and names, no data.
    pub fn disabled() -> (r: Self)
        ensures
            disabled_snap(r),
    {
        BusyStallSnap {
            enabled: false,
            bin_ns: BIN_NS,
            bins: BINS,
            kinds: kind_names(),
            workers: Vec::new(),
            timeline: Vec::new(),
            timeline_overflow_ns: 0,
            spans: Vec::new(),
        }
    }
}


/// The snapshot that a disabled recorder hands out.
pub open spec fn disabled_snap(s: BusyStallSnap) -> bool {
    &&& snap_header_ok(s, false)
    &&& s.workers@.len() == 0
    &&& s.timeline@.len() == 0
    &&& s.timeline_overflow_ns == 0
    &&& s.spans@.len() == 0
}

/// Flat index of bin `b` of worker `w` and kind `k`.
pub open spec fn bin_index(w: int, k: int, b: int) -> int {
    (w * KIND_N + k) * BINS + b
}

/// Process-wide recorder state.
pub struct BusyStallStore {
    enabled: bool,
    ns: Vec<u64>,
    cnt: Vec<u64>,
    life: Vec<u64>,
    dropped: Vec<u64>,
    spans: Vec<Vec<SpanRec>>,
    timeline: Vec<u64>,
    overflow: u64,
    origin: Option<u64>,
    sealed: BusyStallSnap,
}

impl BusyStallStore {
    pub closed spec fn wf(self) -> bool {
        &&& self.ns@.len() == WORKERS * KIND_N
        &&& self.cnt@.len() == WORKERS * KIND_N
        &&& self.life@.len() == WORKERS
        &&& self.dropped@.len() == WORKERS
        &&& self.spans@.len() == WORKERS
        &&& forall|w: int| 0 <= w < WORKERS ==> #[trigger] self.spans@[w]@.len()
            <= SPANS_PER_WORKER
        &&& self.timeline@.len() == WORKERS * KIND_N * BINS
        &&& !self.enabled ==> disabled_snap(self.sealed)
    }

    pub closed spec fn is_enabled(self) -> bool {
        self.enabled
    }

    /// Nanosecond total of worker `w`, kind `k`.
    pub closed spec fn ns_at(self, w: int, k: int) -> u64 {
        self.ns@[w * KIND_N + k]
    }

    /// Call count of worker `w`, kind `k`.
    pub closed spec fn cnt_at(self, w: int, k: int) -> u64 {
        self.cnt@[w * KIND_N + k]
    }

    pub closed spec fn life_at(self, w: int) -> u64 {
        self.life@[w]
    }

    pub closed spec fn dropped_at(self, w: int) -> u64 {
        self.dropped@[w]
    }

    pub closed spec fn spans_at(self, w: int) -> Seq<SpanRec> {
        self.spans@[w]@
    }

    /// Timeline bin `b` of worker `w`, kind `k`.
    pub closed spec fn bin_at(self, w: int, k: int, b: int) -> u64 {
        self.timeline@[bin_index(w, k, b)]
    }

    pub closed spec fn overflow_ns(self) -> u64 {
        self.overflow
    }

    pub closed spec fn origin_ns(self) -> Option<u64> {
        self.origin
    }

    pub closed spec fn sealed_snap(self) -> BusyStallSnap {
        self.sealed
    }

    /// Everything but the timeline and its overflow is equal.
    pub closed spec fn same_but_timeline(self, other: Self) -> bool {
        &&& self.enabled == other.enabled
        &&& self.ns@ == other.ns@
        &&& self.cnt@ == other.cnt@
        &&& self.life@ == other.life@
        &&& self.dropped@ == other.dropped@
        &&& self.spans@ == other.spans@
        &&& self.origin == other.origin
        &&& self.sealed == other.sealed
    }

    /// Everything but the counters, the timeline and its overflow is equal.
    pub closed spec fn same_but_counters(self, other: Self) -> bool {
        &&& self.enabled == other.enabled
        &&& self.life@ == other.life@
        &&& self.dropped@ == other.dropped@
        &&& self.spans@ == other.spans@
        &&& self.origin == other.origin
        &&& self.sealed == other.sealed
    }

    /// Everything but the spans and the dropped counts is equal.
    pub closed spec fn same_but_spans(self, other: Self) -> bool {
        &&& self.enabled == other.enabled
        &&& self.ns@ == other.ns@
        &&& self.cnt@ == other.cnt@
        &&& self.life@ == other.life@
        &&& self.timeline@ == other.timeline@
        &&& self.overflow == other.overflow
        &&& self.origin == other.origin
        &&& self.sealed == other.sealed
    }

    /// A fresh recorder. `enabled` is the process-wide switch.
    pub fn new(enabled: bool) -> (r: Self)
        ensures
            r.wf(),
            r.is_enabled() == enabled,
            r.origin_ns() is None,
            r.overflow_ns() == 0,
            forall|w: int, k: int| 0 <= w < WORKERS && 0 <= k < KIND_N ==> #[trigger] r.ns_at(w, k)
                == 0 && r.cnt_at(w, k) == 0,
            forall|w: int, k: int, b: int|
                0 <= w < WORKERS && 0 <= k < KIND_N && 0 <= b < BINS ==> #[trigger] r.bin_at(
                    w,
                    k,
                    b,
                ) == 0,
            forall|w: int| 0 <= w < WORKERS ==> #[trigger] r.spans_at(w).len() == 0 && r.life_at(w)
                == 0 && r.dropped_at(w) == 0,
            disabled_snap(r.sealed_snap()),
    {
        let mut spans: Vec<Vec<SpanRec>> = Vec::new();
        while spans.len() < WORKERS
            invariant
                spans@.len() <= WORKERS,
                forall|w: int| 0 <= w < spans@.len() ==> #[trigger] spans@[w]@.len() == 0,
            decreases WORKERS - spans.len(),
        {
            spans.push(Vec::new());
        }
        let r = BusyStallStore {
            enabled,
            ns: zeros(WORKERS * KIND_N),
            cnt: zeros(WORKERS * KIND_N),
            life: zeros(WORKERS),
            dropped: zeros(WORKERS),
            spans,
            timeline: zeros(WORKERS * KIND_N * BINS),
            overflow: 0,
            origin: None,
            sealed: BusyStallSnap::disabled(),
        };
        proof {
            assert forall|w: int, k: int, b: int|
                0 <= w < WORKERS && 0 <= k < KIND_N && 0 <= b < BINS implies #[trigger] r.bin_at(
                w,
                k,
                b,
            ) == 0 by {
                assert(0 <= bin_index(w, k, b) < WORKERS * KIND_N * BINS) by (nonlinear_arith)
                    requires
                        0 <= w < WORKERS,
                        0 <= k < KIND_N,
                        0 <= b < BINS,
                ;
            }
            assert forall|w: int, k: int| 0 <= w < WORKERS && 0 <= k < KIND_N implies #[trigger] r.ns_at(
                w,
                k,
            ) == 0 && r.cnt_at(w, k) == 0 by {
                assert(0 <= w * KIND_N + k < WORKERS * KIND_N) by (nonlinear_arith)
                    requires
                        0 <= w < WORKERS,
                        0 <= k < KIND_N,
                ;
            }
        }
        r
    }

    /// Add `[t0, t0 + dur)` to the timeline of worker `w`, kind `kind`: each
    /// bin gets the part of the interval that falls into it, the overflow
    /// counter gets the part past the last bin.
    fn paint(&mut self, w: usize, kind: u8, t0: u64, dur: u64)
        requires
            old(self).wf(),
            w < WORKERS,
        ensures
            final(self).wf(),
            final(self).same_but_timeline(*old(self)),
            dur == 0 || kind as int >= KIND_N ==> final(self).timeline@ == old(self).timeline@
                && final(self).overflow == old(self).overflow,
            dur > 0 && (kind as int) < KIND_N ==> final(self).painted(
                *old(self),
                w as int,
                kind as int,
                t0 as int,
                dur as int,
            ),
    {
        if dur == 0 || kind as usize >= KIND_N {
            return;
        }
        let k = kind as usize;
        let ghost old_tl = self.timeline@;
        let base = (w * KIND_N + k) * BINS;
        proof {
            assert(base + BINS <= WORKERS * KIND_N * BINS) by (nonlinear_arith)
                requires
                    w < WORKERS,
                    k < KIND_N,
                    base == (w * KIND_N + k) * BINS,
            ;
            assert forall|b: int| #[trigger] bin_index(w as int, k as int, b) == base + b by {
                assert(bin_index(w as int, k as int, b) == base + b) by (nonlinear_arith)
                    requires
                        base == (w * KIND_N + k) * BINS,
                ;
            }
        }
        let mut left = dur;
        let mut t = t0;
        while left > 0
            invariant_except_break
                self.overflow == old(self).overflow,
            invariant
                self.wf(),
                self.same_but_timeline(*old(self)),
                base + BINS <= WORKERS * KIND_N * BINS,
                forall|b: int| #[trigger] bin_index(w as int, k as int, b) == base + b,
                old_tl == old(self).timeline@,
                t as int + left as int == t0 as int + dur as int,
                t >= t0,
                t > t0 ==> t as int <= BINS * BIN_NS,
                forall|i: int|
                    0 <= i < self.timeline@.len() && !(base <= i < base + BINS) ==> #[trigger] self.timeline@[i]
                        == old_tl[i],
                forall|b: int|
                    0 <= b < BINS ==> #[trigger] self.timeline@[base + b] == wadd(
                        old_tl[base + b],
                        overlap(t0 as int, t - t0, b),
                    ),
            ensures
                self.wf(),
                self.same_but_timeline(*old(self)),
                forall|i: int|
                    0 <= i < self.timeline@.len() && !(base <= i < base + BINS) ==> #[trigger] self.timeline@[i]
                        == old_tl[i],
                forall|b: int|
                    0 <= b < BINS ==> #[trigger] self.timeline@[base + b] == wadd(
                        old_tl[base + b],
                        overlap(t0 as int, dur as int, b),
                    ),
                self.overflow == wadd(old(self).overflow, overflow_part(t0 as int, dur as int)),
            decreases left,
        {
            let binu = t / BIN_NS;
            if binu >= BINS as u64 {
                self.overflow = self.overflow.wrapping_add(left);
                proof {
                    lemma_wrapping_is_wadd(old(self).overflow, left);
                    assert forall|b: int| 0 <= b < BINS implies overlap(t0 as int, t - t0, b)
                        == overlap(t0 as int, dur as int, b) by {}
                }
                break;
            }
            let bin = binu as usize;
            let bin_end = (binu + 1) * BIN_NS;
            let room = bin_end - t;
            let take = if left < room {
                left
            } else {
                room
            };
            let idx = base + bin;
            let cur = self.timeline[idx];
            self.timeline.set(idx, cur.wrapping_add(take));
            proof {
                lemma_wrapping_is_wadd(cur, take);
                assert forall|b: int| 0 <= b < BINS implies #[trigger] self.timeline@[base + b]
                    == wadd(old_tl[base + b], overlap(t0 as int, t + take - t0, b)) by {
                    if b == bin as int {
                        assert(overlap(t0 as int, t - t0, b) <= BIN_NS);
                        lemma_wadd(
                            old_tl[base + b],
                            overlap(t0 as int, t - t0, b),
                            take as int,
                        );
                    }
                }
            }
            left = left - take;
            t = t + take;
        }
        proof {
            if left == 0 {
                assert(self.overflow == wadd(old(self).overflow, 0));
            }
        }
        proof {
            assert forall|b: int| 0 <= b < BINS implies #[trigger] self.bin_at(
                w as int,
                k as int,
                b,
            ) == wadd(old(self).bin_at(w as int, k as int, b), overlap(t0 as int, dur as int, b))
                by {
                assert(bin_index(w as int, k as int, b) == base + b);
            }
            assert forall|w2: int, k2: int, b: int|
                0 <= w2 < WORKERS && 0 <= k2 < KIND_N && 0 <= b < BINS && !(w2 == w && k2
                    == k) implies #[trigger] self.bin_at(w2, k2, b) == old(self).bin_at(w2, k2, b)
                by {
                lemma_bin_index_disjoint(w as int, k as int, w2, k2, b);
            }
        }
    }

    /// The timeline of worker `w`, kind `k` got `[t0, t0 + dur)` added,
    /// every other timeline is unchanged.
    pub closed spec fn painted(self, old: Self, w: int, k: int, t0: int, dur: int) -> bool {
        &&& forall|b: int|
            0 <= b < BINS ==> #[trigger] self.bin_at(w, k, b) == wadd(
                old.bin_at(w, k, b),
                overlap(t0, dur, b),
            )
        &&& forall|w2: int, k2: int, b: int|
            0 <= w2 < WORKERS && 0 <= k2 < KIND_N && 0 <= b < BINS && !(w2 == w && k2 == k)
                ==> #[trigger] self.bin_at(w2, k2, b) == old.bin_at(w2, k2, b)
        &&& self.overflow_ns() == wadd(old.overflow_ns(), overflow_part(t0, dur))
    }
}

proof fn lemma_bin_index_disjoint(w: int, k: int, w2: int, k2: int, b: int)
    requires
        0 <= w < WORKERS,
        0 <= k < KIND_N,
        0 <= w2 < WORKERS,
        0 <= k2 < KIND_N,
        0 <= b < BINS,
        !(w2 == w && k2 == k),
    ensures
        !(bin_index(w, k, 0) <= bin_index(w2, k2, b) < bin_index(w, k, 0) + BINS),
        0 <= bin_index(w2, k2, b) < WORKERS * KIND_N * BINS,
{
    assert(w * KIND_N + k != w2 * KIND_N + k2) by (nonlinear_arith)
        requires
            0 <= k < KIND_N,
            0 <= k2 < KIND_N,
            !(w2 == w && k2 == k),
    ;
    assert(!(bin_index(w, k, 0) <= bin_index(w2, k2, b) < bin_index(w, k, 0) + BINS))
        by (nonlinear_arith)
        requires
            w * KIND_N + k != w2 * KIND_N + k2,
            0 <= b < BINS,
    ;
    assert(0 <= bin_index(w2, k2, b) < WORKERS * KIND_N * BINS) by (nonlinear_arith)
        requires
            0 <= w2 < WORKERS,
            0 <= k2 < KIND_N,
            0 <= b < BINS,
    ;
}

fn zeros(n: usize) -> (r: Vec<u64>)
    ensures
        r@.len() == n,
        forall|i: int| 0 <= i < n ==> #[trigger] r@[i] == 0,
{
    let mut v: Vec<u64> = Vec::new();
    while v.len() < n
        invariant
            v@.len() <= n,
            forall|i: int| 0 <= i < v@.len() ==> #[trigger] v@[i] == 0,
        decreases n - v.len(),
    {
        v.push(0);
    }
    v
}

/// Every recorder field is equal.
pub open spec fn same_store(a: BusyStallStore, b: BusyStallStore) -> bool {
    a.same_but_timeline(b) && a.timeline_eq(b) && a.overflow_ns() == b.overflow_ns()
}

impl BusyStallStore {
    pub closed spec fn timeline_eq(self, other: Self) -> bool {
        self.timeline@ == other.timeline@
    }

    /// Counter `(w, k)` got `ns` nanoseconds and one call, every other counter
    /// is unchanged, and the timeline got `[t0, t0 + ns)`.
    pub closed spec fn bumped(self, old: Self, w: int, k: int, ns: u64, t0: u64) -> bool {
        &&& self.same_but_counters(old)
        &&& self.ns@ == old.ns@.update(w * KIND_N + k, wadd(old.ns@[w * KIND_N + k], ns as int))
        &&& self.cnt@ == old.cnt@.update(w * KIND_N + k, wadd(old.cnt@[w * KIND_N + k], 1))
        &&& self.painted(old, w, k, t0 as int, ns as int)
    }

    /// A span `rec` was appended to worker `w`, or, when its list is full,
    /// the worker's dropped count went up by one.
    pub closed spec fn spanned(self, old: Self, w: int, rec: SpanRec) -> bool {
        &&& self.same_but_spans(old)
        &&& old.spans@[w]@.len() < SPANS_PER_WORKER ==> self.spans@ == old.spans@.update(
            w,
            self.spans@[w],
        ) && self.spans@[w]@ == old.spans@[w]@.push(rec) && self.dropped@ == old.dropped@
        &&& old.spans@[w]@.len() >= SPANS_PER_WORKER ==> self.spans@ == old.spans@
            && self.dropped@ == old.dropped@.update(w, wadd(old.dropped@[w], 1))
    }
}

proof fn lemma_counter_index(w: int, k: int)
    requires
        0 <= w < WORKERS,
        0 <= k < KIND_N,
    ensures
        0 <= w * KIND_N + k < WORKERS * KIND_N,
{
    assert(0 <= w * KIND_N + k < WORKERS * KIND_N) by (nonlinear_arith)
        requires
            0 <= w < WORKERS,
            0 <= k < KIND_N,
    ;
}

/// The outcome of charging `ns` nanoseconds at `t0` to `kind` on worker `w`:
/// nothing for a zero charge or an unknown kind, else a bump.
pub open spec fn bump_outcome(
    new: BusyStallStore,
    old: BusyStallStore,
    w: int,
    kind: u8,
    ns: u64,
    t0: u64,
) -> bool {
    if ns == 0 || kind as int >= KIND_N {
        same_store(new, old)
    } else {
        new.bumped(old, w, kind as int, ns, t0)
    }
}

/// The outcome of recording a span: nothing when both durations are zero.
pub open spec fn span_outcome(
    new: BusyStallStore,
    old: BusyStallStore,
    w: int,
    rec: SpanRec,
) -> bool {
    if rec.dur == 0 && rec.gross == 0 {
        same_store(new, old)
    } else {
        new.spanned(old, w, rec)
    }
}

fn bump(store: &mut BusyStallStore, th: &BusyStallThread, kind: u8, ns: u64, t0: u64)
    requires
        old(store).wf(),
        th.wf(),
    ensures
        final(store).wf(),
        final(store).is_enabled() == old(store).is_enabled(),
        bump_outcome(*final(store), *old(store), th.worker() as int, kind, ns, t0),
{
    if ns == 0 || kind as usize >= KIND_N {
        return;
    }
    let w = th.wid as usize;
    let i = w * KIND_N + kind as usize;
    proof {
        lemma_counter_index(w as int, kind as int);
    }
    let cur_ns = store.ns[i];
    store.ns.set(i, cur_ns.wrapping_add(ns));
    let cur_cnt = store.cnt[i];
    store.cnt.set(i, cur_cnt.wrapping_add(1));
    proof {
        lemma_wrapping_is_wadd(cur_ns, ns);
        lemma_wrapping_is_wadd(cur_cnt, 1);
    }
    let ghost mid = *store;
    store.paint(w, kind, t0, ns);
    proof {
        assert(store.painted(mid, w as int, kind as int, t0 as int, ns as int));
        assert forall|b: int| 0 <= b < BINS implies #[trigger] mid.bin_at(w as int, kind as int, b)
            == old(store).bin_at(w as int, kind as int, b) by {}
    }
}

fn push_span(
    store: &mut BusyStallStore,
    th: &BusyStallThread,
    kind: u8,
    tx: u32,
    pred: u32,
    inc: u16,
    t0: u64,
    dur: u64,
    gross: u64,
)
    requires
        old(store).wf(),
        th.wf(),
    ensures
        final(store).wf(),
        final(store).is_enabled() == old(store).is_enabled(),
        span_outcome(
            *final(store),
            *old(store),
            th.worker() as int,
            SpanRec { w: th.worker() as u8, k: kind, inc, tx, pred, t0, dur, gross },
        ),
{
    if dur == 0 && gross == 0 {
        return;
    }
    let w = th.wid as usize;
    if store.spans[w].len() >= SPANS_PER_WORKER {
        let d = store.dropped[w];
        store.dropped.set(w, d.wrapping_add(1));
        proof {
            lemma_wrapping_is_wadd(d, 1);
        }
        return;
    }
    let rec = SpanRec { w: w as u8, k: kind, inc, tx, pred, t0, dur, gross };
    let mut list = store.spans.remove(w);
    list.push(rec);
    store.spans.insert(w, list);
    proof {
        assert(store.spans@ =~= old(store).spans@.update(w as int, store.spans@[w as int]));
    }
}

/// Whether the recorder is on.
pub fn enabled(store: &BusyStallStore) -> (r: bool)
    ensures
        r == store.is_enabled(),
{
    store.enabled
}

/// Start a run at `origin`: every counter, span list, bin and the overflow
/// go back to zero. Call on the host thread before workers start.
#[verifier::spinoff_prover]
pub fn begin(store: &mut BusyStallStore, origin: u64)
    requires
        old(store).wf(),
    ensures
        final(store).wf(),
        final(store).is_enabled() == old(store).is_enabled(),
        !old(store).is_enabled() ==> same_store(*final(store), *old(store)),
        old(store).is_enabled() ==> {
            &&& final(store).is_enabled()
            &&& final(store).origin_ns() == Some(origin)
            &&& final(store).overflow_ns() == 0
            &&& final(store).sealed_snap() == old(store).sealed_snap()
            &&& forall|w: int, k: int|
                0 <= w < WORKERS && 0 <= k < KIND_N ==> #[trigger] final(store).ns_at(w, k) == 0
                    && final(store).cnt_at(w, k) == 0
            &&& forall|w: int, k: int, b: int|
                0 <= w < WORKERS && 0 <= k < KIND_N && 0 <= b < BINS ==> #[trigger] final(store).bin_at(w, k, b) == 0
            &&& forall|w: int|
                0 <= w < WORKERS ==> #[trigger] final(store).spans_at(w).len() == 0 && final(store).life_at(w) == 0 && final(store).dropped_at(w) == 0
        },
{
    if !store.enabled {
        return;
    }
    let fresh = BusyStallStore::new(true);
    store.ns = fresh.ns;
    store.cnt = fresh.cnt;
    store.life = fresh.life;
    store.dropped = fresh.dropped;
    store.spans = fresh.spans;
    store.timeline = fresh.timeline;
    store.overflow = 0;
    store.origin = Some(origin);
    proof {
        assert forall|w: int, k: int|
            0 <= w < WORKERS && 0 <= k < KIND_N implies #[trigger] store.ns_at(w, k) == 0
                && store.cnt_at(w, k) == 0 by {
            assert(fresh.ns_at(w, k) == 0 && fresh.cnt_at(w, k) == 0);
        }
        assert forall|w: int, k: int, b: int|
            0 <= w < WORKERS && 0 <= k < KIND_N && 0 <= b < BINS implies #[trigger] store.bin_at(
            w,
            k,
            b,
        ) == 0 by {
            assert(fresh.bin_at(w, k, b) == 0);
        }
        assert forall|w: int| 0 <= w < WORKERS implies #[trigger] store.spans_at(w).len() == 0
            && store.life_at(w) == 0 && store.dropped_at(w) == 0 by {
            assert(fresh.spans_at(w).len() == 0);
        }
    }
}

/// Bind the calling thread to worker slot `worker_i` (the last slot for
/// higher indexes) and copy the run origin. Call before the worker picks.
pub fn bind(store: &BusyStallStore, th: &mut BusyStallThread, worker_i: usize)
    requires
        old(th).wf(),
    ensures
        final(th).wf(),
        !store.is_enabled() ==> *final(th) == *old(th),
        store.is_enabled() ==> final(th).worker() == (if worker_i < WORKERS {
            worker_i as nat
        } else {
            (WORKERS - 1) as nat
        }) && final(th).nested_ns() == 0 && final(th).origin_ns() == store.origin_ns(),
{
    if !store.enabled {
        return;
    }
    let w = if worker_i < WORKERS {
        worker_i
    } else {
        WORKERS - 1
    };
    th.wid = w as u8;
    th.nested = 0;
    th.origin = store.origin;
}

/// Record the lifetime of the calling worker at `now`.
pub fn worker_exit(store: &mut BusyStallStore, th: &BusyStallThread, now: u64)
    requires
        old(store).wf(),
        th.wf(),
    ensures
        final(store).wf(),
        final(store).is_enabled() == old(store).is_enabled(),
        !old(store).is_enabled() || th.origin_ns() is None ==> same_store(
            *final(store),
            *old(store),
        ),
        old(store).is_enabled() && th.origin_ns() is Some ==> final(store).same_but_life(
            *old(store),
            th.worker() as int,
            since_origin_spec(th.origin_ns(), now),
        ),
{
    if !store.enabled {
        return;
    }
    if th.origin.is_none() {
        return;
    }
    let life = since_origin(th, now);
    store.life.set(th.wid as usize, life);
}

impl BusyStallStore {
    /// Only the lifetime of worker `w` changed, to `life`.
    pub closed spec fn same_but_life(self, old: Self, w: int, life: u64) -> bool {
        &&& self.life@ == old.life@.update(w, life)
        &&& self.enabled == old.enabled
        &&& self.ns@ == old.ns@
        &&& self.cnt@ == old.cnt@
        &&& self.dropped@ == old.dropped@
        &&& self.spans@ == old.spans@
        &&& self.timeline@ == old.timeline@
        &&& self.overflow == old.overflow
        &&& self.origin == old.origin
        &&& self.sealed == old.sealed
    }
}

/// Charge `ns` nanoseconds that started at `t0` to `kind`. Counters and
/// timeline only; the nested counter is untouched.
pub fn charge(store: &mut BusyStallStore, th: &BusyStallThread, kind: u8, ns: u64, t0: u64)
    requires
        old(store).wf(),
        th.wf(),
    ensures
        final(store).wf(),
        final(store).is_enabled() == old(store).is_enabled(),
        !old(store).is_enabled() || ns == 0 ==> same_store(*final(store), *old(store)),
        old(store).is_enabled() && ns > 0 ==> bump_outcome(
            *final(store),
            *old(store),
            th.worker() as int,
            kind,
            ns,
            since_origin_spec(th.origin_ns(), t0),
        ),
{
    if !store.enabled || ns == 0 {
        return;
    }
    let t0_ns = since_origin(th, t0);
    bump(store, th, kind, ns, t0_ns);
}


/// A charge that first bumps (when `ns > 0`) and then records a span.
pub open spec fn bump_then_span(
    new: BusyStallStore,
    old: BusyStallStore,
    w: int,
    kind: u8,
    ns: u64,
    t0: u64,
    rec: SpanRec,
) -> bool {
    exists|mid: BusyStallStore|
        #![trigger mid.wf()]
        mid.wf() && (if ns > 0 {
            bump_outcome(mid, old, w, kind, ns, t0)
        } else {
            same_store(mid, old)
        }) && span_outcome(new, mid, w, rec)
}

/// Charge `ns` nanoseconds that started at `t0` to `kind`, and record a span
/// of `ns` (net) and `gross` nanoseconds for transaction `tx`.
pub fn charge_span(
    store: &mut BusyStallStore,
    th: &BusyStallThread,
    kind: u8,
    ns: u64,
    t0: u64,
    tx: u32,
    pred: u32,
    inc: u16,
    gross: u64,
)
    requires
        old(store).wf(),
        th.wf(),
    ensures
        final(store).wf(),
        final(store).is_enabled() == old(store).is_enabled(),
        !old(store).is_enabled() || (ns == 0 && gross == 0) ==> same_store(
            *final(store),
            *old(store),
        ),
        old(store).is_enabled() && !(ns == 0 && gross == 0) ==> bump_then_span(
            *final(store),
            *old(store),
            th.worker() as int,
            kind,
            ns,
            since_origin_spec(th.origin_ns(), t0),
            SpanRec {
                w: th.worker() as u8,
                k: kind,
                inc,
                tx,
                pred,
                t0: since_origin_spec(th.origin_ns(), t0),
                dur: ns,
                gross,
            },
        ),
{
    if !store.enabled || (ns == 0 && gross == 0) {
        return;
    }
    let t0_ns = since_origin(th, t0);
    if ns > 0 {
        bump(store, th, kind, ns, t0_ns);
    }
    let ghost mid = *store;
    push_span(store, th, kind, tx, pred, inc, t0_ns, ns, gross);
    proof {
        assert(mid.wf());
    }
}

/// Charge a stall nested inside a parent interval: counters, timeline,
/// the nested counter (which the parent subtracts) and, when `span`, a span.
pub fn charge_nested(
    store: &mut BusyStallStore,
    th: &mut BusyStallThread,
    kind: u8,
    ns: u64,
    t0: u64,
    tx: u32,
    pred: u32,
    inc: u16,
    span: bool,
)
    requires
        old(store).wf(),
        old(th).wf(),
    ensures
        final(store).wf(),
        final(store).is_enabled() == old(store).is_enabled(),
        final(th).wf(),
        final(th).worker() == old(th).worker(),
        final(th).origin_ns() == old(th).origin_ns(),
        !old(store).is_enabled() || ns == 0 ==> same_store(*final(store), *old(store))
            && *final(th) == *old(th),
        old(store).is_enabled() && ns > 0 ==> {
            let t0n = since_origin_spec(old(th).origin_ns(), t0);
            let rec = SpanRec {
                w: old(th).worker() as u8,
                k: kind,
                inc,
                tx,
                pred,
                t0: t0n,
                dur: ns,
                gross: ns,
            };
            &&& final(th).nested_ns() == (if old(th).nested_ns() + ns > u64::MAX {
                u64::MAX as int
            } else {
                old(th).nested_ns() + ns
            })
            &&& span ==> bump_then_span(
                *final(store),
                *old(store),
                old(th).worker() as int,
                kind,
                ns,
                t0n,
                rec,
            )
            &&& !span ==> bump_outcome(
                *final(store),
                *old(store),
                old(th).worker() as int,
                kind,
                ns,
                t0n,
            )
        },
{
    if !store.enabled || ns == 0 {
        return;
    }
    let t0_ns = since_origin(th, t0);
    bump(store, th, kind, ns, t0_ns);
    th.nested = th.nested.saturating_add(ns);
    if span {
        let ghost mid = *store;
        push_span(store, th, kind, tx, pred, inc, t0_ns, ns, ns);
        proof {
            assert(mid.wf());
        }
    }
}

/// Hand the nested time to the parent and reset it.
pub fn take_nested(store: &BusyStallStore, th: &mut BusyStallThread) -> (r: u64)
    requires
        old(th).wf(),
    ensures
        final(th).wf(),
        final(th).worker() == old(th).worker(),
        final(th).origin_ns() == old(th).origin_ns(),
        !store.is_enabled() ==> r == 0 && *final(th) == *old(th),
        store.is_enabled() ==> r == old(th).nested_ns() && final(th).nested_ns() == 0,
{
    if !store.enabled {
        return 0;
    }
    let r = th.nested;
    th.nested = 0;
    r
}

/// Kind of one execution attempt: a failed first incarnation, a partial or
/// a full re-execution, or a successful first incarnation.
pub open spec fn exec_kind(ok: bool, inc: usize, partial: bool) -> u8 {
    if !ok && inc == 0 {
        KIND_EVM_FIRST_ABORT
    } else if ok && inc == 0 {
        KIND_EVM_FIRST
    } else if partial {
        KIND_EVM_REPART
    } else {
        KIND_EVM_REFULL
    }
}

/// `inc` clamped to 16 bits.
pub open spec fn clamp_inc(inc: usize) -> u16 {
    if inc > 0xFFFF {
        0xFFFF
    } else {
        inc as u16
    }
}

fn clamp_u16(inc: usize) -> (r: u16)
    ensures
        r == clamp_inc(inc),
{
    if inc > 0xFFFF {
        0xFFFF
    } else {
        inc as u16
    }
}

/// One execution attempt of `exec_ns` nanoseconds. Nested stalls already
/// charged inside it are subtracted; the span keeps the full attempt as
/// its gross time. The predecessor is the block predecessor, else the
/// ordered one.
pub fn charge_exec(
    store: &mut BusyStallStore,
    th: &mut BusyStallThread,
    ok: bool,
    inc: usize,
    partial: bool,
    exec_ns: u64,
    t0: u64,
    tx: usize,
    ordered_pred: Option<usize>,
    block_pred: Option<usize>,
)
    requires
        old(store).wf(),
        old(th).wf(),
    ensures
        final(store).wf(),
        final(store).is_enabled() == old(store).is_enabled(),
        final(th).wf(),
        final(th).worker() == old(th).worker(),
        final(th).origin_ns() == old(th).origin_ns(),
        !old(store).is_enabled() ==> same_store(*final(store), *old(store)) && *final(th) == *old(
            th,
        ),
        old(store).is_enabled() ==> {
            let mine = if exec_ns > old(th).nested_ns() {
                (exec_ns - old(th).nested_ns()) as u64
            } else {
                0u64
            };
            let kind = exec_kind(ok, inc, partial);
            let pred = if block_pred is Some {
                block_pred
            } else {
                ordered_pred
            };
            let t0n = since_origin_spec(old(th).origin_ns(), t0);
            let rec = SpanRec {
                w: old(th).worker() as u8,
                k: kind,
                inc: clamp_inc(inc),
                tx: tx as u32,
                pred: match pred {
                    Some(p) => p as u32,
                    None => PRED_NONE,
                },
                t0: t0n,
                dur: mine,
                gross: exec_ns,
            };
            &&& final(th).nested_ns() == 0
            &&& bump_then_span(*final(store), *old(store), old(th).worker() as int, kind, mine, t0n, rec)
        },
{
    if !store.enabled {
        return;
    }
    let nested = take_nested(store, th);
    let mine = exec_ns.saturating_sub(nested);
    let kind = if !ok {
        if inc == 0 {
            KIND_EVM_FIRST_ABORT
        } else if partial {
            KIND_EVM_REPART
        } else {
            KIND_EVM_REFULL
        }
    } else if inc == 0 {
        KIND_EVM_FIRST
    } else if partial {
        KIND_EVM_REPART
    } else {
        KIND_EVM_REFULL
    };
    let pred = match block_pred {
        Some(p) => Some(p),
        None => ordered_pred,
    };
    let pred32: u32 = match pred {
        Some(p) => p as u32,
        None => PRED_NONE,
    };
    let t0_ns = since_origin(th, t0);
    if mine > 0 {
        bump(store, th, kind, mine, t0_ns);
    }
    let ghost mid = *store;
    push_span(store, th, kind, tx as u32, pred32, clamp_u16(inc), t0_ns, mine, exec_ns);
    proof {
        assert(mid.wf());
    }
}

/// The publish step of `finish_execution` (`finish_ns` long): nested lock
/// waits are subtracted and the remainder is charged with a span.
pub fn charge_publish(
    store: &mut BusyStallStore,
    th: &mut BusyStallThread,
    finish_ns: u64,
    t0: u64,
    tx: usize,
    inc: usize,
)
    requires
        old(store).wf(),
        old(th).wf(),
    ensures
        final(store).wf(),
        final(store).is_enabled() == old(store).is_enabled(),
        final(th).wf(),
        final(th).worker() == old(th).worker(),
        final(th).origin_ns() == old(th).origin_ns(),
        !old(store).is_enabled() ==> same_store(*final(store), *old(store)) && *final(th) == *old(
            th,
        ),
        old(store).is_enabled() ==> {
            let mine = if finish_ns > old(th).nested_ns() {
                (finish_ns - old(th).nested_ns()) as u64
            } else {
                0u64
            };
            let t0n = since_origin_spec(old(th).origin_ns(), t0);
            let rec = SpanRec {
                w: old(th).worker() as u8,
                k: KIND_PUBLISH,
                inc: clamp_inc(inc),
                tx: tx as u32,
                pred: PRED_NONE,
                t0: t0n,
                dur: mine,
                gross: finish_ns,
            };
            &&& final(th).nested_ns() == 0
            &&& (mine == 0 && finish_ns == 0) ==> same_store(*final(store), *old(store))
            &&& !(mine == 0 && finish_ns == 0) ==> bump_then_span(
                *final(store),
                *old(store),
                old(th).worker() as int,
                KIND_PUBLISH,
                mine,
                t0n,
                rec,
            )
        },
{
    if !store.enabled {
        return;
    }
    let nested = take_nested(store, th);
    let mine = finish_ns.saturating_sub(nested);
    charge_span(store, th, KIND_PUBLISH, mine, t0, tx as u32, PRED_NONE, clamp_u16(inc), finish_ns);
}

/// A whole pick of `ns` nanoseconds, minus the nested time charged inside.
pub fn charge_pick(store: &mut BusyStallStore, th: &mut BusyStallThread, ns: u64, t0: u64)
    requires
        old(store).wf(),
        old(th).wf(),
    ensures
        final(store).wf(),
        final(store).is_enabled() == old(store).is_enabled(),
        final(th).wf(),
        final(th).worker() == old(th).worker(),
        final(th).origin_ns() == old(th).origin_ns(),
        !old(store).is_enabled() ==> same_store(*final(store), *old(store)) && *final(th) == *old(
            th,
        ),
        old(store).is_enabled() ==> {
            let mine = if ns > old(th).nested_ns() {
                (ns - old(th).nested_ns()) as u64
            } else {
                0u64
            };
            &&& final(th).nested_ns() == 0
            &&& bump_outcome(
                *final(store),
                *old(store),
                old(th).worker() as int,
                KIND_SCHED,
                mine,
                since_origin_spec(old(th).origin_ns(), t0),
            )
        },
{
    if !store.enabled {
        return;
    }
    let nested = take_nested(store, th);
    let mine = ns.saturating_sub(nested);
    if mine > 0 {
        let t0_ns = since_origin(th, t0);
        bump(store, th, KIND_SCHED, mine, t0_ns);
    }
}

/// An open interval of `kind`. When finished, the time of its children
/// is subtracted and the rest is charged (and added to the nested counter
/// of the enclosing interval).
pub struct NestGuard {
    kind: u8,
    t0: u64,
    nested0: u64,
    tx: u32,
    pred: u32,
    inc: u16,
    span: bool,
}

impl NestGuard {
    pub closed spec fn kind(self) -> u8 {
        self.kind
    }

    pub closed spec fn start(self) -> u64 {
        self.t0
    }

    /// Nested counter when the interval opened.
    pub closed spec fn nested_start(self) -> u64 {
        self.nested0
    }

    pub closed spec fn tx(self) -> u32 {
        self.tx
    }

    pub closed spec fn pred(self) -> u32 {
        self.pred
    }

    pub closed spec fn inc(self) -> u16 {
        self.inc
    }

    pub closed spec fn records_span(self) -> bool {
        self.span
    }

    /// Close the interval at `now`.
    pub fn finish(self, store: &mut BusyStallStore, th: &mut BusyStallThread, now: u64)
        requires
            old(store).wf(),
            old(th).wf(),
        ensures
            final(store).wf(),
            final(store).is_enabled() == old(store).is_enabled(),
            final(th).wf(),
            final(th).worker() == old(th).worker(),
            final(th).origin_ns() == old(th).origin_ns(),
            ({
                let total = if now > self.start() {
                    now - self.start()
                } else {
                    0
                };
                let child = if old(th).nested_ns() > self.nested_start() {
                    old(th).nested_ns() - self.nested_start()
                } else {
                    0
                };
                let mine = if total > child {
                    (total - child) as u64
                } else {
                    0u64
                };
                let t0n = since_origin_spec(old(th).origin_ns(), self.start());
                let rec = SpanRec {
                    w: old(th).worker() as u8,
                    k: self.kind(),
                    inc: self.inc(),
                    tx: self.tx(),
                    pred: self.pred(),
                    t0: t0n,
                    dur: mine,
                    gross: mine,
                };
                &&& mine == 0 ==> same_store(*final(store), *old(store)) && *final(th) == *old(th)
                &&& mine > 0 ==> final(th).nested_ns() == (if old(th).nested_ns() + mine
                    > u64::MAX {
                    u64::MAX as int
                } else {
                    old(th).nested_ns() + mine
                })
                &&& mine > 0 && self.records_span() ==> bump_then_span(
                    *final(store),
                    *old(store),
                    old(th).worker() as int,
                    self.kind(),
                    mine,
                    t0n,
                    rec,
                )
                &&& mine > 0 && !self.records_span() ==> bump_outcome(
                    *final(store),
                    *old(store),
                    old(th).worker() as int,
                    self.kind(),
                    mine,
                    t0n,
                )
            }),
    {
        let total = now.saturating_sub(self.t0);
        let child = th.nested.saturating_sub(self.nested0);
        let mine = total.saturating_sub(child);
        if mine == 0 {
            return;
        }
        let t0_ns = since_origin(th, self.t0);
        bump(store, th, self.kind, mine, t0_ns);
        th.nested = th.nested.saturating_add(mine);
        if self.span {
            let ghost mid = *store;
            push_span(store, th, self.kind, self.tx, self.pred, self.inc, t0_ns, mine, mine);
            proof {
                assert(mid.wf());
            }
        }
    }
}

/// Predecessor of a guard: `PRED_NONE` for `usize::MAX`, else truncated.
pub open spec fn guard_pred(pred: usize) -> u32 {
    if pred == usize::MAX {
        PRED_NONE
    } else {
        pred as u32
    }
}

/// Open an interval that started at `t0`. `None` when the recorder is off.
pub fn guard_at(
    store: &BusyStallStore,
    th: &BusyStallThread,
    kind: u8,
    t0: u64,
    tx: usize,
    pred: usize,
    inc: u16,
    span: bool,
) -> (r: Option<NestGuard>)
    ensures
        !store.is_enabled() ==> r is None,
        store.is_enabled() ==> r is Some && r->0.kind() == kind && r->0.start() == t0
            && r->0.nested_start() == th.nested_ns() && r->0.tx() == tx as u32 && r->0.pred()
            == guard_pred(pred) && r->0.inc() == inc && r->0.records_span() == span,
{
    if !store.enabled {
        return None;
    }
    Some(
        NestGuard {
            kind,
            t0,
            nested0: th.nested,
            tx: tx as u32,
            pred: if pred == usize::MAX {
                PRED_NONE
            } else {
                pred as u32
            },
            inc,
            span,
        },
    )
}

/// Open an interval that starts now (`now`).
pub fn guard(
    store: &BusyStallStore,
    th: &BusyStallThread,
    kind: u8,
    now: u64,
    tx: usize,
    pred: usize,
    inc: u16,
    span: bool,
) -> (r: Option<NestGuard>)
    ensures
        !store.is_enabled() ==> r is None,
        store.is_enabled() ==> r is Some && r->0.kind() == kind && r->0.start() == now
            && r->0.nested_start() == th.nested_ns() && r->0.tx() == tx as u32 && r->0.pred()
            == guard_pred(pred) && r->0.inc() == inc && r->0.records_span() == span,
{
    if !store.enabled {
        return None;
    }
    guard_at(store, th, kind, now, tx, pred, inc, span)
}

/// Status-lock acquire that started at `t0` (from [`lock_t0`]) and ended at
/// `now`: charged as a nested lock stall without a span.
pub fn time_lock_acq(
    store: &mut BusyStallStore,
    th: &mut BusyStallThread,
    t0: Option<u64>,
    now: u64,
)
    requires
        old(store).wf(),
        old(th).wf(),
    ensures
        final(store).wf(),
        final(store).is_enabled() == old(store).is_enabled(),
        final(th).wf(),
        final(th).worker() == old(th).worker(),
        final(th).origin_ns() == old(th).origin_ns(),
        t0 is None ==> same_store(*final(store), *old(store)) && *final(th) == *old(th),
        t0 is Some ==> {
            let ns = if now > t0->0 {
                (now - t0->0) as u64
            } else {
                0u64
            };
            let t0n = since_origin_spec(old(th).origin_ns(), t0->0);
            &&& !old(store).is_enabled() || ns == 0 ==> same_store(*final(store), *old(store))
                && *final(th) == *old(th)
            &&& old(store).is_enabled() && ns > 0 ==> bump_outcome(
                *final(store),
                *old(store),
                old(th).worker() as int,
                KIND_LOCK,
                ns,
                t0n,
            ) && final(th).nested_ns() == (if old(th).nested_ns() + ns > u64::MAX {
                u64::MAX as int
            } else {
                old(th).nested_ns() + ns
            })
        },
{
    match t0 {
        None => {},
        Some(t) => {
            let ns = now.saturating_sub(t);
            charge_nested(store, th, KIND_LOCK, ns, t, PRED_NONE, PRED_NONE, 0, false);
        },
    }
}

/// Start time of a lock acquire: `now` when the recorder is on.
pub fn lock_t0(store: &BusyStallStore, now: u64) -> (r: Option<u64>)
    ensures
        r == (if store.is_enabled() {
            Some(now)
        } else {
            None
        }),
{
    if store.enabled {
        Some(now)
    } else {
        None
    }
}

/// The last sealed snapshot; the disabled snapshot when the recorder is off.
pub fn last_snap(store: &BusyStallStore) -> (r: &BusyStallSnap)
    requires
        store.wf(),
    ensures
        *r == store.sealed_snap(),
        !store.is_enabled() ==> disabled_snap(*r),
{
    &store.sealed
}


impl BusyStallStore {
    /// Raw timeline entry at flat index `i`.
    pub closed spec fn flat_bin(self, i: int) -> u64 {
        self.timeline@[i]
    }

    /// Every field but the sealed snapshot is equal.
    pub closed spec fn same_but_sealed(self, other: Self) -> bool {
        &&& self.enabled == other.enabled
        &&& self.ns@ == other.ns@
        &&& self.cnt@ == other.cnt@
        &&& self.life@ == other.life@
        &&& self.dropped@ == other.dropped@
        &&& self.spans@ == other.spans@
        &&& self.timeline@ == other.timeline@
        &&& self.overflow == other.overflow
        &&& self.origin == other.origin
    }
}


/// What every field-preserving predicate keeps: the switch, the origin
/// and the sealed snapshot.
pub open spec fn keeps_switch(new: BusyStallStore, old: BusyStallStore) -> bool {
    &&& new.is_enabled() == old.is_enabled()
    &&& new.origin_ns() == old.origin_ns()
    &&& new.sealed_snap() == old.sealed_snap()
}

/// Every counter, bin, overflow, lifetime, span list and dropped count is
/// as in `old`.
pub open spec fn same_observed(new: BusyStallStore, old: BusyStallStore) -> bool {
    &&& forall|w: int, k: int| #[trigger] new.ns_at(w, k) == old.ns_at(w, k)
    &&& forall|w: int, k: int| #[trigger] new.cnt_at(w, k) == old.cnt_at(w, k)
    &&& forall|w: int, k: int, b: int| #[trigger] new.bin_at(w, k, b) == old.bin_at(w, k, b)
    &&& new.overflow_ns() == old.overflow_ns()
    &&& forall|w: int| #[trigger] new.life_at(w) == old.life_at(w)
    &&& forall|w: int| #[trigger] new.spans_at(w) == old.spans_at(w)
    &&& forall|w: int| #[trigger] new.dropped_at(w) == old.dropped_at(w)
}

/// An unchanged recorder looks unchanged.
pub proof fn lemma_same_store(new: BusyStallStore, old: BusyStallStore)
    requires
        same_store(new, old),
    ensures
        keeps_switch(new, old),
        same_observed(new, old),
{
}

proof fn lemma_other_counter(w: int, k: int, w2: int, k2: int)
    requires
        0 <= w < WORKERS,
        0 <= k < KIND_N,
        0 <= w2 < WORKERS,
        0 <= k2 < KIND_N,
        !(w2 == w && k2 == k),
    ensures
        w2 * KIND_N + k2 != w * KIND_N + k,
        0 <= w2 * KIND_N + k2 < WORKERS * KIND_N,
{
    assert(w2 * KIND_N + k2 != w * KIND_N + k) by (nonlinear_arith)
        requires
            0 <= k < KIND_N,
            0 <= k2 < KIND_N,
            !(w2 == w && k2 == k),
    ;
    lemma_counter_index(w2, k2);
}

/// A bump of `(w, k)` by `ns` at `t0`: that counter grows by `ns` and one
/// call, every other counter stays, the timeline of `(w, k)` gets the
/// interval and every other timeline stays; spans, dropped counts,
/// lifetimes, the switch, the origin and the snapshot stay.
pub proof fn lemma_bumped(new: BusyStallStore, old: BusyStallStore, w: int, k: int, ns: u64, t0: u64)
    requires
        old.wf(),
        new.bumped(old, w, k, ns, t0),
        0 <= w < WORKERS,
        0 <= k < KIND_N,
    ensures
        keeps_switch(new, old),
        new.ns_at(w, k) == wadd(old.ns_at(w, k), ns as int),
        new.cnt_at(w, k) == wadd(old.cnt_at(w, k), 1),
        forall|w2: int, k2: int|
            0 <= w2 < WORKERS && 0 <= k2 < KIND_N && !(w2 == w && k2 == k) ==> #[trigger] new.ns_at(w2, k2)
                == old.ns_at(w2, k2) && new.cnt_at(w2, k2) == old.cnt_at(w2, k2),
        forall|b: int| 0 <= b < BINS ==> #[trigger] new.bin_at(w, k, b) == wadd(old.bin_at(w, k, b), overlap(t0 as int, ns as int, b)),
        forall|w2: int, k2: int, b: int|
            0 <= w2 < WORKERS && 0 <= k2 < KIND_N && 0 <= b < BINS && !(w2 == w && k2 == k) ==> #[trigger] new.bin_at(w2, k2, b)
                == old.bin_at(w2, k2, b),
        new.overflow_ns() == wadd(old.overflow_ns(), overflow_part(t0 as int, ns as int)),
        forall|w2: int| #[trigger] new.spans_at(w2) == old.spans_at(w2),
        forall|w2: int| #[trigger] new.dropped_at(w2) == old.dropped_at(w2),
        forall|w2: int| #[trigger] new.life_at(w2) == old.life_at(w2),
{
    lemma_counter_index(w, k);
    assert forall|w2: int, k2: int|
        0 <= w2 < WORKERS && 0 <= k2 < KIND_N && !(w2 == w && k2 == k) implies #[trigger] new.ns_at(w2, k2)
            == old.ns_at(w2, k2) && new.cnt_at(w2, k2) == old.cnt_at(w2, k2) by {
        lemma_other_counter(w, k, w2, k2);
    }
}

/// A span of worker `w`: appended while its list has room, else the
/// worker's dropped count grows by one; everything else stays.
pub proof fn lemma_spanned(new: BusyStallStore, old: BusyStallStore, w: int, rec: SpanRec)
    requires
        old.wf(),
        new.spanned(old, w, rec),
        0 <= w < WORKERS,
    ensures
        keeps_switch(new, old),
        forall|w2: int, k2: int| #[trigger] new.ns_at(w2, k2) == old.ns_at(w2, k2),
        forall|w2: int, k2: int| #[trigger] new.cnt_at(w2, k2) == old.cnt_at(w2, k2),
        forall|w2: int, k2: int, b: int| #[trigger] new.bin_at(w2, k2, b) == old.bin_at(w2, k2, b),
        new.overflow_ns() == old.overflow_ns(),
        forall|w2: int| #[trigger] new.life_at(w2) == old.life_at(w2),
        old.spans_at(w).len() < SPANS_PER_WORKER ==> new.spans_at(w) == old.spans_at(w).push(rec)
            && new.dropped_at(w) == old.dropped_at(w),
        old.spans_at(w).len() >= SPANS_PER_WORKER ==> new.spans_at(w) == old.spans_at(w)
            && new.dropped_at(w) == wadd(old.dropped_at(w), 1),
        forall|w2: int|
            0 <= w2 < WORKERS && w2 != w ==> #[trigger] new.spans_at(w2) == old.spans_at(w2)
                && new.dropped_at(w2) == old.dropped_at(w2),
{
}

/// Closing a worker changes only its lifetime.
pub proof fn lemma_same_but_life(new: BusyStallStore, old: BusyStallStore, w: int, life: u64)
    requires
        old.wf(),
        new.same_but_life(old, w, life),
        0 <= w < WORKERS,
    ensures
        keeps_switch(new, old),
        new.life_at(w) == life,
        forall|w2: int| 0 <= w2 < WORKERS && w2 != w ==> #[trigger] new.life_at(w2) == old.life_at(w2),
        forall|w2: int, k2: int| #[trigger] new.ns_at(w2, k2) == old.ns_at(w2, k2),
        forall|w2: int, k2: int| #[trigger] new.cnt_at(w2, k2) == old.cnt_at(w2, k2),
        forall|w2: int, k2: int, b: int| #[trigger] new.bin_at(w2, k2, b) == old.bin_at(w2, k2, b),
        new.overflow_ns() == old.overflow_ns(),
        forall|w2: int| #[trigger] new.spans_at(w2) == old.spans_at(w2),
        forall|w2: int| #[trigger] new.dropped_at(w2) == old.dropped_at(w2),
{
}

/// Sealing changes only the snapshot.
pub proof fn lemma_same_but_sealed(new: BusyStallStore, old: BusyStallStore)
    requires
        new.same_but_sealed(old),
    ensures
        new.is_enabled() == old.is_enabled(),
        new.origin_ns() == old.origin_ns(),
        same_observed(new, old),
{
}

/// The recorder's switch never changes: every operation either keeps the
/// store, bumps a counter, records a span, closes a worker or seals, and
/// each of those keeps the switch.
pub proof fn law_switch_never_changes(new: BusyStallStore, old: BusyStallStore, w: int, k: int, ns: u64, t0: u64, rec: SpanRec, life: u64)
    requires
        same_store(new, old) || new.bumped(old, w, k, ns, t0) || new.spanned(old, w, rec) || new.same_but_life(old, w, life)
            || new.same_but_sealed(old),
    ensures
        new.is_enabled() == old.is_enabled(),
{
}

/// Worker `w` recorded something: a lifetime or a non-zero total.
pub open spec fn worker_active(store: BusyStallStore, w: int) -> bool {
    store.life_at(w) != 0 || exists|k: int| 0 <= k < KIND_N && #[trigger] store.ns_at(w, k) != 0
}

/// Active workers among the first `n` slots, in slot order.
pub open spec fn active_upto(store: BusyStallStore, n: int) -> Seq<int>
    decreases n,
{
    if n <= 0 {
        Seq::empty()
    } else if worker_active(store, n - 1) {
        active_upto(store, n - 1).push(n - 1)
    } else {
        active_upto(store, n - 1)
    }
}

/// Spans of the active workers among the first `n` slots, in slot order.
pub open spec fn spans_upto(store: BusyStallStore, n: int) -> Seq<SpanRec>
    decreases n,
{
    if n <= 0 {
        Seq::empty()
    } else if worker_active(store, n - 1) {
        spans_upto(store, n - 1) + store.spans_at(n - 1)
    } else {
        spans_upto(store, n - 1)
    }
}

/// One past the last active worker among the first `n` slots; 0 if none.
pub open spec fn workers_extent(store: BusyStallStore, n: int) -> int
    decreases n,
{
    if n <= 0 {
        0
    } else if worker_active(store, n - 1) {
        n
    } else {
        workers_extent(store, n - 1)
    }
}

/// Flat indexes below `n` whose timeline entry is non-zero, ascending.
pub open spec fn nonzero_upto(store: BusyStallStore, n: int) -> Seq<int>
    decreases n,
{
    if n <= 0 {
        Seq::empty()
    } else if store.flat_bin(n - 1) != 0 {
        nonzero_upto(store, n - 1).push(n - 1)
    } else {
        nonzero_upto(store, n - 1)
    }
}

/// A sealed worker entry copies slot `w`.
pub open spec fn worker_entry_ok(out: BusyStallWorker, store: BusyStallStore, w: int) -> bool {
    &&& out.worker == w
    &&& out.life_ns == store.life_at(w)
    &&& out.ns@ == Seq::new(KIND_N as nat, |k: int| store.ns_at(w, k))
    &&& out.cnt@ == Seq::new(KIND_N as nat, |k: int| store.cnt_at(w, k))
    &&& out.dropped_spans == store.dropped_at(w)
}

/// A sealed span copies `rec`, names its kind and maps `PRED_NONE` to none.
pub open spec fn span_entry_ok(out: BusyStallSpan, rec: SpanRec) -> bool {
    &&& out.w == rec.w
    &&& out.k == rec.k
    &&& out.kind@ == kind_name_spec(rec.k)
    &&& out.inc == rec.inc
    &&& out.tx == rec.tx
    &&& out.pred == (if rec.pred == PRED_NONE {
        None
    } else {
        Some(rec.pred)
    })
    &&& out.t0_ns == rec.t0
    &&& out.dur_ns == rec.dur
    &&& out.gross_ns == rec.gross
}

/// A sealed bin names the worker, kind and bin of flat index `i`.
pub open spec fn bin_entry_ok(out: BusyStallBin, store: BusyStallStore, i: int) -> bool {
    &&& 0 <= out.k < KIND_N
    &&& 0 <= out.bin < BINS
    &&& bin_index(out.w as int, out.k as int, out.bin as int) == i
    &&& out.ns == store.flat_bin(i)
}

/// The snapshot that [`seal`] takes of an enabled recorder.
pub open spec fn sealed_from(s: BusyStallSnap, store: BusyStallStore) -> bool {
    let active = active_upto(store, WORKERS as int);
    let flat = spans_upto(store, WORKERS as int);
    let bins = nonzero_upto(store, workers_extent(store, WORKERS as int) * KIND_N * BINS);
    &&& snap_header_ok(s, true)
    &&& s.timeline_overflow_ns == store.overflow_ns()
    &&& s.workers@.len() == active.len()
    &&& forall|j: int|
        0 <= j < active.len() ==> worker_entry_ok(#[trigger] s.workers@[j], store, active[j])
    &&& s.spans@.len() == flat.len()
    &&& forall|j: int| 0 <= j < flat.len() ==> span_entry_ok(#[trigger] s.spans@[j], flat[j])
    &&& s.timeline@.len() == bins.len()
    &&& forall|j: int| 0 <= j < bins.len() ==> bin_entry_ok(#[trigger] s.timeline@[j], store, bins[j])
}

fn span_entry(rec: &SpanRec) -> (r: BusyStallSpan)
    ensures
        span_entry_ok(r, *rec),
{
    BusyStallSpan {
        w: rec.w,
        k: rec.k,
        kind: kind_name(rec.k).to_owned(),
        inc: rec.inc,
        tx: rec.tx,
        pred: if rec.pred == PRED_NONE {
            None
        } else {
            Some(rec.pred)
        },
        t0_ns: rec.t0,
        dur_ns: rec.dur,
        gross_ns: rec.gross,
    }
}

/// Seal the run: copy every active worker, its spans, the non-zero bins
/// of the workers up to the last active one, and the overflow. Call on the
/// host thread after the workers joined.
pub fn seal(store: &mut BusyStallStore)
    requires
        old(store).wf(),
    ensures
        final(store).wf(),
        final(store).is_enabled() == old(store).is_enabled(),
        final(store).same_but_sealed(*old(store)),
        !old(store).is_enabled() ==> disabled_snap(final(store).sealed_snap()),
        old(store).is_enabled() ==> sealed_from(final(store).sealed_snap(), *old(store)),
{
    if !store.enabled {
        store.sealed = BusyStallSnap::disabled();
        return;
    }
    let mut workers: Vec<BusyStallWorker> = Vec::new();
    let mut spans: Vec<BusyStallSpan> = Vec::new();
    let mut n_workers: usize = 0;
    let mut i: usize = 0;
    while i < WORKERS
        invariant
            store.wf(),
            store.enabled,
            i <= WORKERS,
            workers@.len() == active_upto(*store, i as int).len(),
            forall|j: int|
                0 <= j < workers@.len() ==> worker_entry_ok(
                    #[trigger] workers@[j],
                    *store,
                    active_upto(*store, i as int)[j],
                ),
            spans@.len() == spans_upto(*store, i as int).len(),
            forall|j: int|
                0 <= j < spans@.len() ==> span_entry_ok(
                    #[trigger] spans@[j],
                    spans_upto(*store, i as int)[j],
                ),
            n_workers == workers_extent(*store, i as int),
        decreases WORKERS - i,
    {
        let life = store.life[i];
        let mut all_zero = true;
        let mut k: usize = 0;
        while k < KIND_N
            invariant
                store.wf(),
                i < WORKERS,
                k <= KIND_N,
                all_zero == forall|k2: int| 0 <= k2 < k ==> #[trigger] store.ns_at(i as int, k2)
                    == 0,
            decreases KIND_N - k,
        {
            proof {
                lemma_counter_index(i as int, k as int);
            }
            let v = store.ns[i * KIND_N + k];
            proof {
                assert(store.ns_at(i as int, k as int) == v);
            }
            if v != 0 {
                all_zero = false;
            }
            k = k + 1;
        }
        let ghost prev_spans = spans_upto(*store, i as int);
        if life == 0 && all_zero {
            proof {
                assert(!worker_active(*store, i as int));
            }
        } else {
            proof {
                assert(worker_active(*store, i as int)) by {
                    if life == 0 {
                        let k2 = choose|k2: int| 0 <= k2 < KIND_N && #[trigger] store.ns_at(i as int, k2) != 0;
                        assert(store.ns_at(i as int, k2) != 0);
                    }
                }
            }
            n_workers = i + 1;
            let mut ns: Vec<u64> = Vec::new();
            let mut cnt: Vec<u64> = Vec::new();
            let mut k: usize = 0;
            while k < KIND_N
                invariant
                    store.wf(),
                    i < WORKERS,
                    k <= KIND_N,
                    ns@.len() == k,
                    cnt@.len() == k,
                    forall|k2: int| 0 <= k2 < k ==> #[trigger] ns@[k2] == store.ns_at(i as int, k2),
                    forall|k2: int| 0 <= k2 < k ==> #[trigger] cnt@[k2] == store.cnt_at(i as int, k2),
                decreases KIND_N - k,
            {
                proof {
                    lemma_counter_index(i as int, k as int);
                }
                ns.push(store.ns[i * KIND_N + k]);
                cnt.push(store.cnt[i * KIND_N + k]);
                k = k + 1;
            }
            let entry = BusyStallWorker {
                worker: i,
                life_ns: life,
                ns,
                cnt,
                dropped_spans: store.dropped[i],
            };
            proof {
                assert(entry.ns@ =~= Seq::new(KIND_N as nat, |k: int| store.ns_at(i as int, k)));
                assert(entry.cnt@ =~= Seq::new(KIND_N as nat, |k: int| store.cnt_at(i as int, k)));
            }
            workers.push(entry);
            let list = &store.spans[i];
            let ghost base = spans@.len();
            let mut j: usize = 0;
            while j < list.len()
                invariant
                    store.wf(),
                    i < WORKERS,
                    list@ == store.spans_at(i as int),
                    j <= list@.len(),
                    base == prev_spans.len(),
                    spans@.len() == base + j,
                    forall|t: int|
                        0 <= t < base ==> span_entry_ok(#[trigger] spans@[t], prev_spans[t]),
                    forall|t: int|
                        0 <= t < j ==> span_entry_ok(#[trigger] spans@[base + t], list@[t]),
                decreases list.len() - j,
            {
                let e = span_entry(&list[j]);
                spans.push(e);
                proof {
                    assert(spans@[base + j as int] == e);
                }
                j = j + 1;
            }
            proof {
                let now = prev_spans + store.spans_at(i as int);
                assert(spans_upto(*store, i as int + 1) == now);
                assert forall|t: int| 0 <= t < spans@.len() implies span_entry_ok(
                    #[trigger] spans@[t],
                    now[t],
                ) by {
                    if t >= base {
                        assert(spans@[base + (t - base)] == spans@[t]);
                    }
                }
            }
        }
        i = i + 1;
    }
    let mut timeline: Vec<BusyStallBin> = Vec::new();
    let ghost limit = workers_extent(*store, WORKERS as int) * KIND_N * BINS;
    proof {
        assert(n_workers <= WORKERS) by {
            lemma_extent_bound(*store, WORKERS as int);
        }
    }
    let mut flat: usize = 0;
    let mut w: usize = 0;
    while w < n_workers
        invariant
            store.wf(),
            n_workers <= WORKERS,
            n_workers == workers_extent(*store, WORKERS as int),
            w <= n_workers,
            flat == w * KIND_N * BINS,
            timeline@.len() == nonzero_upto(*store, flat as int).len(),
            forall|j: int|
                0 <= j < timeline@.len() ==> bin_entry_ok(
                    #[trigger] timeline@[j],
                    *store,
                    nonzero_upto(*store, flat as int)[j],
                ),
        decreases n_workers - w,
    {
        let mut k: usize = 0;
        while k < KIND_N
            invariant
                store.wf(),
                w < n_workers <= WORKERS,
                k <= KIND_N,
                flat == (w * KIND_N + k) * BINS,
                timeline@.len() == nonzero_upto(*store, flat as int).len(),
                forall|j: int|
                    0 <= j < timeline@.len() ==> bin_entry_ok(
                        #[trigger] timeline@[j],
                        *store,
                        nonzero_upto(*store, flat as int)[j],
                    ),
            decreases KIND_N - k,
        {
            let mut b: usize = 0;
            while b < BINS
                invariant
                    store.wf(),
                    w < WORKERS,
                    k < KIND_N,
                    b <= BINS,
                    flat == (w * KIND_N + k) * BINS + b,
                    timeline@.len() == nonzero_upto(*store, flat as int).len(),
                    forall|j: int|
                        0 <= j < timeline@.len() ==> bin_entry_ok(
                            #[trigger] timeline@[j],
                            *store,
                            nonzero_upto(*store, flat as int)[j],
                        ),
                decreases BINS - b,
            {
                proof {
                    assert(flat < WORKERS * KIND_N * BINS) by (nonlinear_arith)
                        requires
                            w < WORKERS,
                            k < KIND_N,
                            b < BINS,
                            flat == (w * KIND_N + k) * BINS + b,
                    ;
                }
                let ns = store.timeline[flat];
                let ghost before = nonzero_upto(*store, flat as int);
                if ns > 0 {
                    let e = BusyStallBin { w: w as u8, k: k as u8, bin: b as u16, ns };
                    timeline.push(e);
                    proof {
                        assert(bin_entry_ok(e, *store, flat as int));
                        assert(nonzero_upto(*store, flat as int + 1) == before.push(flat as int));
                    }
                }
                flat = flat + 1;
                b = b + 1;
            }
            k = k + 1;
        }
        w = w + 1;
    }
    let snap = BusyStallSnap {
        enabled: true,
        bin_ns: BIN_NS,
        bins: BINS,
        kinds: kind_names(),
        workers,
        timeline,
        timeline_overflow_ns: store.overflow,
        spans,
    };
    let ghost pre = *store;
    store.sealed = snap;
    proof {
        assert(active_upto(*store, WORKERS as int) == active_upto(pre, WORKERS as int)) by {
            lemma_same_but_sealed_upto(*store, pre, WORKERS as int);
        }
        lemma_same_but_sealed_upto(*store, pre, WORKERS as int);
        lemma_same_but_sealed_bins(*store, pre, limit);
    }
}

proof fn lemma_extent_bound(store: BusyStallStore, n: int)
    ensures
        workers_extent(store, n) <= if n > 0 {
            n
        } else {
            0
        },
    decreases n,
{
    if n > 0 {
        lemma_extent_bound(store, n - 1);
    }
}

proof fn lemma_same_but_sealed_upto(a: BusyStallStore, b: BusyStallStore, n: int)
    requires
        a.same_but_sealed(b),
    ensures
        active_upto(a, n) == active_upto(b, n),
        spans_upto(a, n) == spans_upto(b, n),
        workers_extent(a, n) == workers_extent(b, n),
    decreases n,
{
    if n > 0 {
        lemma_same_but_sealed_upto(a, b, n - 1);
        assert forall|k: int| 0 <= k < KIND_N implies #[trigger] a.ns_at(n - 1, k) == b.ns_at(
            n - 1,
            k,
        ) by {}
        assert(a.life_at(n - 1) == b.life_at(n - 1));
        if worker_active(a, n - 1) && a.life_at(n - 1) == 0 {
            let k = choose|k: int| 0 <= k < KIND_N && #[trigger] a.ns_at(n - 1, k) != 0;
            assert(b.ns_at(n - 1, k) != 0);
        }
        if worker_active(b, n - 1) && b.life_at(n - 1) == 0 {
            let k = choose|k: int| 0 <= k < KIND_N && #[trigger] b.ns_at(n - 1, k) != 0;
            assert(a.ns_at(n - 1, k) != 0);
        }
        assert(worker_active(a, n - 1) == worker_active(b, n - 1));
    }
}

proof fn lemma_same_but_sealed_bins(a: BusyStallStore, b: BusyStallStore, n: int)
    requires
        a.same_but_sealed(b),
    ensures
        nonzero_upto(a, n) == nonzero_upto(b, n),
    decreases n,
{
    if n > 0 {
        lemma_same_but_sealed_bins(a, b, n - 1);
    }
}


/// Nanoseconds of `[t0, t0 + dur)` that fall into the first `n` bins.
pub open spec fn bins_total(t0: int, dur: int, n: int) -> int
    decreases n,
{
    if n <= 0 {
        0
    } else {
        bins_total(t0, dur, n - 1) + overlap(t0, dur, n - 1)
    }
}

proof fn lemma_bins_total(t0: int, dur: int, n: int)
    requires
        t0 >= 0,
        dur >= 0,
        n >= 0,
    ensures
        bins_total(t0, dur, n) == {
            let c = n * BIN_NS;
            let hi = if t0 + dur < c {
                t0 + dur
            } else {
                c
            };
            let lo = if t0 < c {
                t0
            } else {
                c
            };
            hi - lo
        },
    decreases n,
{
    if n > 0 {
        lemma_bins_total(t0, dur, n - 1);
    }
}

/// Painting conserves time: the bins of one interval together with its
/// overflow part add up to exactly its duration.
pub proof fn law_paint_conserves_time(t0: u64, dur: u64)
    ensures
        bins_total(t0 as int, dur as int, BINS as int) + overflow_part(t0 as int, dur as int)
            == dur,
{
    lemma_bins_total(t0 as int, dur as int, BINS as int);
}

/// The switch is read once: a recorder made with the stall flag's value
/// `v` (its first read in the process) answers `enabled` with that value
/// after any run of its operations, each of which keeps the switch,
/// whatever the flag holds later.
pub proof fn law_enabled_is_the_first_read(v: Option<Seq<u8>>, run: Seq<BusyStallStore>)
    requires
        run.len() >= 1,
        run[0].is_enabled() == stall_flag_spec(v),
        forall|i: int| 0 <= i < run.len() - 1 ==> #[trigger] run[i + 1].is_enabled() == run[i].is_enabled(),
    ensures
        forall|i: int| 0 <= i < run.len() ==> #[trigger] run[i].is_enabled() == stall_flag_spec(v),
    decreases run.len(),
{
    if run.len() > 1 {
        let r2 = run.drop_last();
        assert forall|i: int| 0 <= i < r2.len() - 1 implies #[trigger] r2[i + 1].is_enabled() == r2[i].is_enabled() by {
            assert(run[i + 1].is_enabled() == run[i].is_enabled());
        }
        law_enabled_is_the_first_read(v, r2);
        assert forall|i: int| 0 <= i < run.len() implies #[trigger] run[i].is_enabled() == stall_flag_spec(v) by {
            if i < run.len() - 1 {
                assert(r2[i] == run[i]);
            } else {
                let j = i - 1;
                assert(r2[j] == run[j]);
                assert(run[j + 1].is_enabled() == run[j].is_enabled());
            }
        }
    }
}

} // verus!
