//! What the end of a validation does to the multi-version memory and the
//! scheduler.
//!
//! A failed region validation first tries to keep the incarnation: when the
//! invalid reads now see data whose value did not change, or when no write
//! of the failed suffix depends on them, the reads are re-bound in place
//! ("rebind only") and the validation passes. Otherwise the incarnation is
//! aborted and its writes are fenced: the failed suffix alone becomes
//! estimates after a partial retry, and a full restart keeps the data of the
//! force-bound prefix unless the retry escalated. The validation cursor is
//! rewound to the lowest transaction above that reads a fenced location.
//!
//! What the retry state answers (the failed read's checkpoint, whether a
//! write lies in the failed suffix, a value snapshot match, the repair it
//! planned, the force-bound locations) comes in as plain values.

use vstd::prelude::*;

use crate::mv_memory::{
    contains_u64, current_value_spec, estimates_at, higher_reader_of_any, last_mv_value, read_above, read_lookup,
    reads_touch, rebind_allowed, rebind_fold, value_stable, wrap_u64, MvMemory, MvView,
};
use crate::scheduler::{finish_validation_spec, Scheduler, Task};
use crate::types::{MemoryLocationHash, TxIdx, TxVersion};

verus! {

/// Which in-place re-binding a failed validation tries.
#[derive(Clone, Copy, Debug, PartialEq, Eq, Structural)]
pub enum RebindPath {
    /// Every invalid read sees unchanged data: multi-origin reads included.
    ValueStable,
    /// No write of the failed suffix depends on the invalid reads.
    Plain,
    /// Neither: the incarnation is aborted.
    Refused,
}

/// The re-binding chosen for a failed validation. `k_fail` is the failed
/// checkpoint (if the retry state knows one) and `suffix_write_at_fail`
/// whether a write lies at or after it; with no checkpoint, any write at all
/// counts as a failed-suffix write.
pub open spec fn rebind_path_spec(
    k_fail: Option<usize>,
    suffix_write_at_fail: bool,
    has_writes: bool,
    stable: bool,
) -> RebindPath {
    let true_suffix = match k_fail {
        Some(_) => suffix_write_at_fail,
        None => has_writes,
    };
    if stable {
        RebindPath::ValueStable
    } else if !true_suffix {
        RebindPath::Plain
    } else {
        RebindPath::Refused
    }
}

/// Picks the re-binding of a failed validation (see [`rebind_path_spec`]).
pub fn rebind_path(
    k_fail: Option<usize>,
    suffix_write_at_fail: bool,
    has_writes: bool,
    stable: bool,
) -> (r: RebindPath)
    ensures
        r == rebind_path_spec(k_fail, suffix_write_at_fail, has_writes, stable),
{
    let true_suffix = match k_fail {
        Some(_) => suffix_write_at_fail,
        None => has_writes,
    };
    if stable {
        RebindPath::ValueStable
    } else if !true_suffix {
        RebindPath::Plain
    } else {
        RebindPath::Refused
    }
}

/// What `tx` read at `loc` (its last origin's value) equals what it would
/// read now.
pub open spec fn prior_read_stable(v: MvView, tx: usize, loc: u64) -> bool {
    read_lookup(v.reads[tx as int], loc) matches Some(o)
        && last_mv_value(o) matches Some(prior)
        && current_value_spec(v, tx, loc) matches Some(cur)
        && value_stable(prior, cur)
}

/// The invalid reads of `tx` are value-stable: there is at least one, each
/// now sees live data, and that data matches the snapshot the retry state
/// took (`snap_match`) or the value read before.
pub open spec fn invalid_reads_stable(v: MvView, tx: usize, invalid: Seq<u64>, snap_match: Seq<bool>) -> bool {
    &&& invalid.len() > 0
    &&& forall|i: int|
        0 <= i < invalid.len() ==> {
            &&& current_value_spec(v, tx, #[trigger] invalid[i]) is Some
            &&& snap_match[i] || prior_read_stable(v, tx, invalid[i])
        }
}

/// Whether the invalid reads of `tx_idx` are value-stable (see
/// [`invalid_reads_stable`]); `snap_match[i]` is the retry state's snapshot
/// comparison for `invalid[i]`.
pub fn invalid_reads_value_stable(
    mv: &MvMemory,
    tx_idx: TxIdx,
    invalid: &Vec<MemoryLocationHash>,
    snap_match: &Vec<bool>,
) -> (r: bool)
    requires
        mv.wf(),
        tx_idx < mv@.block_size(),
        snap_match@.len() == invalid@.len(),
    ensures
        r == invalid_reads_stable(mv@, tx_idx, invalid@, snap_match@),
{
    if invalid.len() == 0 {
        return false;
    }
    let mut i: usize = 0;
    while i < invalid.len()
        invariant
            mv.wf(),
            tx_idx < mv@.block_size(),
            snap_match@.len() == invalid@.len(),
            i <= invalid@.len(),
            forall|j: int|
                0 <= j < i ==> {
                    &&& current_value_spec(mv@, tx_idx, #[trigger] invalid@[j]) is Some
                    &&& snap_match@[j] || prior_read_stable(mv@, tx_idx, invalid@[j])
                },
        decreases invalid.len() - i,
    {
        let loc = invalid[i];
        let cur = mv.current_data_value(tx_idx, loc);
        if cur.is_none() {
            return false;
        }
        if !snap_match[i] && !mv.prior_read_value_stable(tx_idx, loc) {
            return false;
        }
        i = i + 1;
    }
    true
}

/// What a rebind of `tx`'s invalid reads leaves: the read set re-bound when
/// every invalid read allows it, else the memory unchanged.
pub open spec fn rebind_outcome(o: MvView, tx: usize, invalid: Seq<u64>, allow_multi: bool) -> (MvView, bool) {
    let ok = forall|i: int| 0 <= i < invalid.len() ==> rebind_allowed(o, tx, #[trigger] invalid[i], allow_multi);
    if ok {
        (MvView { reads: o.reads.update(tx as int, rebind_fold(o, tx, o.reads[tx as int], invalid)), ..o }, true)
    } else {
        (o, false)
    }
}

/// What the rebind-only step leaves for the path chosen.
pub open spec fn rebind_only_spec(o: MvView, tx: usize, invalid: Seq<u64>, path: RebindPath) -> (MvView, bool) {
    match path {
        RebindPath::ValueStable => rebind_outcome(o, tx, invalid, true),
        RebindPath::Plain => rebind_outcome(o, tx, invalid, false),
        RebindPath::Refused => (o, false),
    }
}

/// A rebind-only repair changes nothing but the read set of the
/// transaction it repairs: every version, write set, reader, stamp,
/// residual write set and other read set stays.
pub proof fn law_rebind_only_touches_own_reads(o: MvView, tx: usize, invalid: Seq<u64>, path: RebindPath)
    requires
        tx < o.reads.len(),
    ensures
        ({
            let n = rebind_only_spec(o, tx, invalid, path).0;
            &&& n.data == o.data
            &&& n.writes == o.writes
            &&& n.readers == o.readers
            &&& n.aborted == o.aborted
            &&& n.residual == o.residual
            &&& n.reads.len() == o.reads.len()
            &&& forall|t: int| 0 <= t < o.reads.len() && t != tx ==> n.reads[t] == o.reads[t]
        }),
{
    let allow_multi = path == RebindPath::ValueStable;
    let ok = forall|i: int| 0 <= i < invalid.len() ==> rebind_allowed(o, tx, #[trigger] invalid[i], allow_multi);
    if path != RebindPath::Refused && ok {
        let n = rebind_only_spec(o, tx, invalid, path).0;
        assert(n.reads == o.reads.update(tx as int, rebind_fold(o, tx, o.reads[tx as int], invalid)));
        assert forall|t: int| 0 <= t < o.reads.len() && t != tx implies n.reads[t] == o.reads[t] by {}
    }
}

/// Rebind-only first: after a failed region validation of `tx_idx`, picks
/// the re-binding from the retry state's answers and the memory, and
/// re-binds the invalid reads in place when it can. `true` means the
/// validation now passes.
pub fn rebind_only_first(
    mv: &mut MvMemory,
    tx_idx: TxIdx,
    invalid: &Vec<MemoryLocationHash>,
    k_fail: Option<usize>,
    suffix_write_at_fail: bool,
    snap_match: &Vec<bool>,
) -> (r: bool)
    requires
        old(mv).wf(),
        tx_idx < old(mv)@.block_size(),
        snap_match@.len() == invalid@.len(),
    ensures
        final(mv).wf(),
        ({
            let o = old(mv)@;
            let path = rebind_path_spec(
                k_fail,
                suffix_write_at_fail,
                o.writes[tx_idx as int].len() > 0,
                invalid_reads_stable(o, tx_idx, invalid@, snap_match@),
            );
            (final(mv)@, r) == rebind_only_spec(o, tx_idx, invalid@, path)
        }),
{
    let writes = mv.write_locations(tx_idx);
    let stable = invalid_reads_value_stable(mv, tx_idx, invalid, snap_match);
    let path = rebind_path(k_fail, suffix_write_at_fail, writes.len() > 0, stable);
    match path {
        RebindPath::ValueStable => mv.try_rebind_invalid_reads_value_stable(tx_idx, invalid.as_slice()),
        RebindPath::Plain => mv.try_rebind_invalid_reads(tx_idx, invalid.as_slice()),
        RebindPath::Refused => false,
    }
}

/// How the retry state repairs an aborted incarnation.
#[derive(Debug)]
pub enum LeanRepair {
    /// Rewind to the last checkpoint before the failed read and re-run the
    /// suffix; `suffix_writes` are the writes made after it.
    SuffixRepair { suffix_writes: Vec<MemoryLocationHash> },
    /// Keep the certified prefix bound and re-run the failed suffix.
    ForceBind { suffix_writes: Vec<MemoryLocationHash> },
    /// Restart the incarnation from its first instruction.
    FullRestart,
}

/// A lean abort escalates to a plain full restart after a force-bound
/// incarnation aborts again, or once suffix repair went two levels deep.
pub open spec fn lean_escalates(was_force_bind: bool, repair_depth: u32) -> bool {
    was_force_bind || repair_depth >= 2
}

/// Whether a lean abort escalates (see [`lean_escalates`]).
pub fn lean_escalate(was_force_bind: bool, repair_depth: u32) -> (r: bool)
    ensures
        r == lean_escalates(was_force_bind, repair_depth),
{
    was_force_bind || repair_depth >= 2
}

/// `acc` followed by the members of `more` it lacks, in order, each once.
pub open spec fn union_in_order(acc: Seq<u64>, more: Seq<u64>) -> Seq<u64>
    decreases more.len(),
{
    if more.len() == 0 {
        acc
    } else {
        let p = union_in_order(acc, more.drop_last());
        if p.contains(more.last()) {
            p
        } else {
            p.push(more.last())
        }
    }
}

/// The locations a full restart keeps as data: none when escalating, else
/// the force-bound locations before the abort and those still armed.
pub open spec fn protected_spec(escalate: bool, prior: Seq<u64>, current: Seq<u64>) -> Seq<u64> {
    if escalate {
        Seq::empty()
    } else {
        union_in_order(prior, current)
    }
}

/// The locations a full restart keeps as data (see [`protected_spec`]).
pub fn protected_locations(escalate: bool, prior: &Vec<MemoryLocationHash>, current: &Vec<MemoryLocationHash>) -> (r: Vec<MemoryLocationHash>)
    ensures
        r@ == protected_spec(escalate, prior@, current@),
{
    if escalate {
        return Vec::new();
    }
    let mut protect = prior.clone();
    let mut i: usize = 0;
    while i < current.len()
        invariant
            i <= current@.len(),
            protect@ == union_in_order(prior@, current@.take(i as int)),
        decreases current.len() - i,
    {
        let loc = current[i];
        proof {
            assert(current@.take(i + 1).drop_last() =~= current@.take(i as int));
            assert(current@.take(i + 1).last() == loc);
        }
        if !contains_u64(&protect, loc) {
            protect.push(loc);
        }
        i = i + 1;
    }
    assert(current@.take(current@.len() as int) =~= current@);
    protect
}

/// The writes of `w` outside `protect`, in order.
pub open spec fn unprotected(w: Seq<u64>, protect: Seq<u64>) -> Seq<u64> {
    w.filter(|l: u64| !protect.contains(l))
}

fn unprotected_writes(w: &Vec<MemoryLocationHash>, protect: &Vec<MemoryLocationHash>) -> (r: Vec<MemoryLocationHash>)
    ensures
        r@ == unprotected(w@, protect@),
{
    let ghost f = |l: u64| !protect@.contains(l);
    let mut kept: Vec<MemoryLocationHash> = Vec::new();
    let mut i: usize = 0;
    while i < w.len()
        invariant
            i <= w@.len(),
            f == (|l: u64| !protect@.contains(l)),
            kept@ == w@.take(i as int).filter(f),
        decreases w.len() - i,
    {
        let l = w[i];
        if !contains_u64(protect, l) {
            kept.push(l);
        }
        proof {
            assert(w@.take(i + 1) =~= w@.take(i as int).push(w@[i as int]));
            w@.take(i as int).lemma_filter_push(w@[i as int], f);
        }
        i = i + 1;
    }
    assert(w@.take(w@.len() as int) =~= w@);
    kept
}

/// The locations that fence an aborted incarnation once `suffix` became
/// estimates: the suffix, or the whole write set when the suffix is empty.
pub open spec fn fence_from_suffix(suffix: Seq<u64>, writes: Seq<u64>) -> Seq<u64> {
    if suffix.len() == 0 {
        writes
    } else {
        suffix
    }
}

/// The memory after the writes `suffix` of `tx` became estimates.
pub open spec fn partial_suffix_effect(o: MvView, tx: usize, suffix: Seq<u64>) -> MvView {
    MvView {
        data: estimates_at(o.data, tx, suffix),
        residual: o.residual.insert(tx, o.writes[tx as int]),
        write_epoch: wrap_u64(wrap_u64(o.write_epoch)),
        ..o
    }
}

/// The memory after a selective invalidation of incarnation `inc` of `tx`.
pub open spec fn selective_effect(o: MvView, tx: usize, inc: usize) -> MvView {
    let w = o.writes[tx as int];
    MvView {
        data: estimates_at(o.data, tx, read_above(o, tx, w)),
        residual: o.residual.insert(tx, w),
        aborted: o.aborted.insert(tx, inc),
        write_epoch: wrap_u64(wrap_u64(o.write_epoch)),
        ..o
    }
}

/// What fencing an aborted incarnation leaves, and the fence locations.
pub open spec fn lean_fence_spec(
    o: MvView,
    tv: TxVersion,
    repair: LeanRepair,
    escalate: bool,
    prior: Seq<u64>,
    current: Seq<u64>,
) -> (MvView, Seq<u64>) {
    let tx = tv.tx_idx;
    let w = o.writes[tx as int];
    match repair {
        LeanRepair::SuffixRepair { suffix_writes } => (
            partial_suffix_effect(o, tx, suffix_writes@),
            fence_from_suffix(suffix_writes@, w),
        ),
        LeanRepair::ForceBind { suffix_writes } => (
            partial_suffix_effect(o, tx, suffix_writes@),
            fence_from_suffix(suffix_writes@, w),
        ),
        LeanRepair::FullRestart => {
            let protect = protected_spec(escalate, prior, current);
            if protect.len() > 0 {
                let s = unprotected(w, protect);
                (partial_suffix_effect(o, tx, s), fence_from_suffix(s, w))
            } else {
                (selective_effect(o, tx, tv.tx_incarnation), w)
            }
        },
    }
}

/// Fences the writes of an aborted incarnation for `repair` and returns the
/// fence locations (see [`lean_fence_spec`]). `prior_force_bind` are the
/// force-bound locations when the abort came, `current_force_bind` those
/// the retry state holds now.
pub fn lean_fence(
    mv: &mut MvMemory,
    tx_version: &TxVersion,
    repair: &LeanRepair,
    escalate: bool,
    prior_force_bind: &Vec<MemoryLocationHash>,
    current_force_bind: &Vec<MemoryLocationHash>,
) -> (r: Vec<MemoryLocationHash>)
    requires
        old(mv).wf(),
        tx_version.tx_idx < old(mv)@.block_size(),
    ensures
        final(mv).wf(),
        (final(mv)@, r@) == lean_fence_spec(
            old(mv)@,
            *tx_version,
            *repair,
            escalate,
            prior_force_bind@,
            current_force_bind@,
        ),
{
    let tx = tx_version.tx_idx;
    let w = mv.write_locations(tx);
    match repair {
        LeanRepair::SuffixRepair { suffix_writes } | LeanRepair::ForceBind { suffix_writes } => {
            let estimated = mv.invalidate_partial_suffix(tx, suffix_writes.as_slice());
            if estimated.len() == 0 {
                w
            } else {
                estimated
            }
        },
        LeanRepair::FullRestart => {
            let protect = protected_locations(escalate, prior_force_bind, current_force_bind);
            if protect.len() > 0 {
                let suffix = unprotected_writes(&w, &protect);
                let estimated = mv.invalidate_partial_suffix(tx, suffix.as_slice());
                if estimated.len() == 0 {
                    w
                } else {
                    estimated
                }
            } else {
                let _ = mv.invalidate_selective(tx, Some(tx_version.tx_incarnation));
                w
            }
        },
    }
}

/// `r` is where validation rewinds after `after` aborted with fence `ws`:
/// the lowest transaction above it that the reader index records on a
/// fence location, else the lowest one whose recorded reads touch the
/// fence, else nowhere.
pub open spec fn rewind_target(v: MvView, after: usize, ws: Seq<u64>, r: Option<usize>) -> bool {
    if ws.len() == 0 {
        r is None
    } else if exists|t: usize| higher_reader_of_any(v, after, ws, t) {
        r matches Some(m) && higher_reader_of_any(v, after, ws, m) && forall|t: usize|
            #[trigger] higher_reader_of_any(v, after, ws, t) ==> m <= t
    } else {
        match r {
            Some(m) => after < m < v.block_size() && reads_touch(v, m as int, ws) && forall|q: int|
                after < q < m ==> !#[trigger] reads_touch(v, q, ws),
            None => forall|q: int| after < q < v.block_size() ==> !#[trigger] reads_touch(v, q, ws),
        }
    }
}

/// A lean abort of `tx_version` (its validation already marked it
/// aborting): fences its writes for `repair` (see [`lean_fence`]), rewinds
/// validation to the lowest higher reader of the fence, makes the
/// transaction ready again and hands back its re-execution. Returns the
/// task and the rewind target.
pub fn finish_lean_abort(
    mv: &mut MvMemory,
    scheduler: &mut Scheduler,
    tx_version: &TxVersion,
    repair: &LeanRepair,
    escalate: bool,
    prior_force_bind: &Vec<MemoryLocationHash>,
    current_force_bind: &Vec<MemoryLocationHash>,
) -> (r: (Option<Task>, Option<TxIdx>))
    requires
        old(mv).wf(),
        tx_version.tx_idx < old(mv)@.block_size(),
        old(scheduler).wf(),
        tx_version.tx_idx < old(scheduler)@.block_size,
        old(scheduler)@.can_bump(tx_version.tx_idx as int),
    ensures
        final(mv).wf(),
        final(scheduler).wf(),
        ({
            let (m, fence) = lean_fence_spec(
                old(mv)@,
                *tx_version,
                *repair,
                escalate,
                prior_force_bind@,
                current_force_bind@,
            );
            &&& final(mv)@ == m
            &&& rewind_target(m, tx_version.tx_idx, fence, r.1)
            &&& (final(scheduler)@, r.0) == finish_validation_spec(old(scheduler)@, tx_version.tx_idx as int, true, r.1)
        }),
{
    let fence = lean_fence(mv, tx_version, repair, escalate, prior_force_bind, current_force_bind);
    rewind_and_finish(mv, scheduler, tx_version, &fence)
}

/// Rewinds validation to the lowest higher reader of `fence` and ends the
/// failed validation of `tx_version`.
fn rewind_and_finish(
    mv: &MvMemory,
    scheduler: &mut Scheduler,
    tx_version: &TxVersion,
    fence: &Vec<MemoryLocationHash>,
) -> (r: (Option<Task>, Option<TxIdx>))
    requires
        mv.wf(),
        tx_version.tx_idx < mv@.block_size(),
        old(scheduler).wf(),
        tx_version.tx_idx < old(scheduler)@.block_size,
        old(scheduler)@.can_bump(tx_version.tx_idx as int),
    ensures
        final(scheduler).wf(),
        rewind_target(mv@, tx_version.tx_idx, fence@, r.1),
        (final(scheduler)@, r.0) == finish_validation_spec(old(scheduler)@, tx_version.tx_idx as int, true, r.1),
{
    proof {
        mv.lemma_block_size_fits();
    }
    let rewind_to = mv.min_higher_reader_of(tx_version.tx_idx, fence.as_slice());
    let task = scheduler.finish_validation_fenced(tx_version, true, rewind_to);
    (task, rewind_to)
}

/// How the inspecting retry repairs an aborted incarnation.
#[derive(Debug)]
pub enum InspectRepair {
    /// Rewind to the last checkpoint; `suffix_writes` are the writes after it.
    RewindTo { suffix_writes: Vec<MemoryLocationHash> },
    /// Restart the incarnation from its first instruction.
    FullRestart,
}

/// What fencing an aborted incarnation leaves under the inspecting retry,
/// and the fence locations: the suffix after a rewind; after a restart the
/// writes a higher transaction reads, or the whole write set when none is.
pub open spec fn inspect_fence_spec(o: MvView, tv: TxVersion, repair: InspectRepair) -> (MvView, Seq<u64>) {
    let tx = tv.tx_idx;
    let w = o.writes[tx as int];
    match repair {
        InspectRepair::RewindTo { suffix_writes } => (partial_suffix_effect(o, tx, suffix_writes@), suffix_writes@),
        InspectRepair::FullRestart => {
            let est = read_above(o, tx, w);
            (selective_effect(o, tx, tv.tx_incarnation), if est.len() == 0 { w } else { est })
        },
    }
}

/// An abort under the inspecting retry: fences the writes for `repair`
/// (see [`inspect_fence_spec`]), rewinds validation to the lowest higher
/// reader of the fence and hands back the re-execution. Returns the task
/// and the rewind target.
pub fn finish_inspect_abort(
    mv: &mut MvMemory,
    scheduler: &mut Scheduler,
    tx_version: &TxVersion,
    repair: &InspectRepair,
) -> (r: (Option<Task>, Option<TxIdx>))
    requires
        old(mv).wf(),
        tx_version.tx_idx < old(mv)@.block_size(),
        old(scheduler).wf(),
        tx_version.tx_idx < old(scheduler)@.block_size,
        old(scheduler)@.can_bump(tx_version.tx_idx as int),
    ensures
        final(mv).wf(),
        final(scheduler).wf(),
        ({
            let (m, fence) = inspect_fence_spec(old(mv)@, *tx_version, *repair);
            &&& final(mv)@ == m
            &&& rewind_target(m, tx_version.tx_idx, fence, r.1)
            &&& (final(scheduler)@, r.0) == finish_validation_spec(old(scheduler)@, tx_version.tx_idx as int, true, r.1)
        }),
{
    let tx = tx_version.tx_idx;
    let fence = match repair {
        InspectRepair::RewindTo { suffix_writes } => mv.invalidate_partial_suffix(tx, suffix_writes.as_slice()),
        InspectRepair::FullRestart => {
            let w = mv.write_locations(tx);
            let (estimated, _) = mv.invalidate_selective(tx, Some(tx_version.tx_incarnation));
            if estimated.len() == 0 {
                w
            } else {
                estimated
            }
        },
    };
    rewind_and_finish(mv, scheduler, tx_version, &fence)
}

/// An abort outside the lean path: every write of `tx_version` becomes an
/// estimate and validation rewinds to the transaction right after it.
pub fn finish_full_abort(mv: &mut MvMemory, scheduler: &mut Scheduler, tx_version: &TxVersion) -> (r: Option<Task>)
    requires
        old(mv).wf(),
        tx_version.tx_idx < old(mv)@.block_size(),
        old(scheduler).wf(),
        tx_version.tx_idx < old(scheduler)@.block_size,
        old(scheduler)@.can_bump(tx_version.tx_idx as int),
    ensures
        final(mv).wf(),
        final(scheduler).wf(),
        final(mv)@ == partial_suffix_effect(old(mv)@, tx_version.tx_idx, old(mv)@.writes[tx_version.tx_idx as int]),
        (final(scheduler)@, r) == finish_validation_spec(
            old(scheduler)@,
            tx_version.tx_idx as int,
            true,
            Some((tx_version.tx_idx + 1) as usize),
        ),
{
    mv.convert_writes_to_estimates(tx_version.tx_idx);
    scheduler.finish_validation(tx_version, true)
}

} // verus!
