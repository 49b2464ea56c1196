//! Access spine: the three conflict primitives (read-after-write,
//! write-after-write, write-after-read) and their per-location records.
//! A detect on an access always replaces the sticky recipe of its
//! location; a cross-block prior only warms a radar and never fences.

use vstd::prelude::*;
use super::access_vis::{flag_done, flag_done_exec};
use crate::types::{MemoryLocationHash, TxIdx};
use dashmap::{DashMap, DashSet};
use super::tables::{tx_members, tx_set_contains, tx_set_insert, tx_set_new};

verus! {

/// Read or write at one interpreter host access.
#[derive(Debug, Clone, Copy, PartialEq, Eq, Structural)]
pub enum AccessMode {
    Read,
    Write,
}

/// Structural conflict class.
#[derive(Debug, Clone, Copy, PartialEq, Eq, Structural)]
pub enum EdgeClass {
    /// The read must observe the nearest lower writer's true tip.
    Raw,
    /// A later writer publishes only after the prior tip.
    Waw,
    /// A live reader keeps the tip it bound.
    War,
}

/// The three conflict recipes.
#[derive(Debug, Clone, Copy, PartialEq, Eq, Structural)]
pub enum Recipe {
    /// Wait for the true published tip, then consume it.
    WaitTrueVersion,
    /// Order the next writer on the true tip.
    OrderedTip,
    /// Pin the reader's tip until that reader is done.
    RetainHistory,
}

pub open spec fn recipe_of(class: EdgeClass) -> Recipe {
    match class {
        EdgeClass::Raw => Recipe::WaitTrueVersion,
        EdgeClass::Waw => Recipe::OrderedTip,
        EdgeClass::War => Recipe::RetainHistory,
    }
}

impl Recipe {
    /// The primitive of a detected class.
    pub fn for_class(class: EdgeClass) -> (r: Self)
        ensures
            r == recipe_of(class),
    {
        match class {
            EdgeClass::Raw => Recipe::WaitTrueVersion,
            EdgeClass::Waw => Recipe::OrderedTip,
            EdgeClass::War => Recipe::RetainHistory,
        }
    }
}

/// Block-morph hint carried by the radar.
#[derive(Debug, Clone, Copy, PartialEq, Eq, Structural)]
pub enum MorphClass {
    Unknown,
    /// Many readers on one writer set.
    RawFanOut,
    /// Read-after-write and write-after-write both material.
    MixedRawWaw,
    /// One ordered writer spine.
    WawSpine,
    /// Few edges.
    SparseConflict,
    /// Almost no structural edges.
    NearIndependent,
}

impl Default for MorphClass {
    fn default() -> (r: Self)
        ensures
            r == MorphClass::Unknown,
    {
        MorphClass::Unknown
    }
}

/// What a cross-block prior may do.
#[derive(Debug, Clone, Copy, PartialEq, Eq, Structural)]
pub enum PriorAction {
    /// Raise radar weights. Never fence, never lock.
    PreheatRadarOnly,
}

/// Morph of a block from its detect counts.
pub open spec fn morph_spec(raw: int, waw: int, war: int) -> MorphClass {
    let sum = raw + waw + war;
    let mx = if raw >= waw && raw >= war {
        raw
    } else if waw >= war {
        waw
    } else {
        war
    };
    if sum <= 5 {
        MorphClass::NearIndependent
    } else if sum < 40 && mx * 2 < sum {
        MorphClass::SparseConflict
    } else if raw > waw * 2 && raw > war * 2 {
        MorphClass::RawFanOut
    } else if waw > raw && waw >= war {
        MorphClass::WawSpine
    } else {
        MorphClass::MixedRawWaw
    }
}

/// Classify a block from its read-after-write, write-after-write and
/// write-after-read counts. The counts must not overflow when summed.
pub fn morph_of(raw: u32, waw: u32, war: u32) -> (r: MorphClass)
    requires
        raw + waw + war <= u32::MAX,
    ensures
        r == morph_spec(raw as int, waw as int, war as int),
{
    let sum = raw + waw + war;
    if sum <= 5 {
        return MorphClass::NearIndependent;
    }
    let mx = if raw >= waw && raw >= war {
        raw
    } else if waw >= war {
        waw
    } else {
        war
    };
    if sum < 40 && (mx as u64) * 2 < sum as u64 {
        return MorphClass::SparseConflict;
    }
    if (raw as u64) > (waw as u64) * 2 && (raw as u64) > (war as u64) * 2 {
        return MorphClass::RawFanOut;
    }
    if waw > raw && waw >= war {
        return MorphClass::WawSpine;
    }
    MorphClass::MixedRawWaw
}

/// How a database callback failed inside the interpreter.
#[derive(Debug, Clone, Copy, PartialEq, Eq, Structural)]
pub enum HandlerFault {
    /// In-frame wait: journal and frame stay.
    YieldWait,
    /// Fatal database error: discard.
    Fatal,
}

/// Only an in-frame wait keeps the frame.
pub fn handler_preserves_frame(fault: HandlerFault) -> (r: bool)
    ensures
        r == (fault == HandlerFault::YieldWait),
{
    match fault {
        HandlerFault::YieldWait => true,
        HandlerFault::Fatal => false,
    }
}

/// Most entries a per-location list keeps.
pub const LIST_CAP: usize = 96;

/// `s` with `x` appended, unless `x` is already there or `s` is full.
pub open spec fn push_unique_spec(s: Seq<TxIdx>, x: TxIdx) -> Seq<TxIdx> {
    if s.contains(x) || s.len() >= LIST_CAP {
        s
    } else {
        s.push(x)
    }
}

/// `s` with the pair `x` appended, unless it is already there or `s` is full.
pub open spec fn push_unique_pair_spec(s: Seq<(TxIdx, TxIdx)>, x: (TxIdx, TxIdx)) -> Seq<
    (TxIdx, TxIdx),
> {
    if s.contains(x) || s.len() >= LIST_CAP {
        s
    } else {
        s.push(x)
    }
}

/// Append `x` unless it is already present or the list is full.
pub fn push_unique(v: &mut Vec<TxIdx>, x: TxIdx)
    ensures
        final(v)@ == push_unique_spec(old(v)@, x),
{
    let mut found = false;
    let mut i: usize = 0;
    while i < v.len()
        invariant
            i <= v@.len(),
            v@ == old(v)@,
            found == (exists|j: int| 0 <= j < i && v@[j] == x),
        decreases v.len() - i,
    {
        if v[i] == x {
            found = true;
        }
        i = i + 1;
    }
    if !found && v.len() < LIST_CAP {
        v.push(x);
    }
}

/// Append the pair `x` unless it is already present or the list is full.
pub fn push_unique_pair(v: &mut Vec<(TxIdx, TxIdx)>, x: (TxIdx, TxIdx))
    ensures
        final(v)@ == push_unique_pair_spec(old(v)@, x),
{
    let mut found = false;
    let mut i: usize = 0;
    while i < v.len()
        invariant
            i <= v@.len(),
            v@ == old(v)@,
            found == (exists|j: int| 0 <= j < i && v@[j] == x),
        decreases v.len() - i,
    {
        if v[i].0 == x.0 && v[i].1 == x.1 {
            found = true;
        }
        i = i + 1;
    }
    if !found && v.len() < LIST_CAP {
        v.push(x);
    }
}

/// Counters copied out at the end of a block.
#[derive(Debug, Clone, Copy, PartialEq, Eq, Structural)]
pub struct SpineReport {
    pub access_events: usize,
    pub yield_waits_ok: usize,
    pub yield_deadlocks: usize,
    pub raw_n: usize,
    pub waw_n: usize,
    pub war_n: usize,
    pub armed_locs: usize,
    pub retained_pins: usize,
    pub prior_revoked: usize,
    pub prior_radar_only: usize,
    pub ordered_defer: usize,
    pub ordered_handoff: usize,
    pub retain_keeps: usize,
    pub tip_already: usize,
    pub chain_len: usize,
    pub spine_cores_max: usize,
    pub spine_cores_end: usize,
    pub handoff_claims: usize,
    pub claim_denied: usize,
    pub exact_wakes: usize,
    pub idle_parks: usize,
    pub help_releases: usize,
    pub steal_n: usize,
    pub seed_owner_local_pops: usize,
    pub steal_top_ns: u64,
    pub end_block_ns: u64,
    pub exact_wake_missed_nopark: usize,
    pub idle_spins: usize,
    pub admit_seed_ns: u64,
    pub join_wait_ns: u64,
    pub join_mark_origin_ns: u64,
    pub idle_ns: u64,
    pub heal_ns: u64,
    pub post_exec_validate_ns: u64,
    pub post_exec_in_span_ns: u64,
    pub span_head: usize,
    pub span_tail: usize,
}

/// The all-zero report.
pub open spec fn zero_report() -> SpineReport {
    SpineReport {
        access_events: 0,
        yield_waits_ok: 0,
        yield_deadlocks: 0,
        raw_n: 0,
        waw_n: 0,
        war_n: 0,
        armed_locs: 0,
        retained_pins: 0,
        prior_revoked: 0,
        prior_radar_only: 0,
        ordered_defer: 0,
        ordered_handoff: 0,
        retain_keeps: 0,
        tip_already: 0,
        chain_len: 0,
        spine_cores_max: 0,
        spine_cores_end: 0,
        handoff_claims: 0,
        claim_denied: 0,
        exact_wakes: 0,
        idle_parks: 0,
        help_releases: 0,
        steal_n: 0,
        seed_owner_local_pops: 0,
        steal_top_ns: 0,
        end_block_ns: 0,
        exact_wake_missed_nopark: 0,
        idle_spins: 0,
        admit_seed_ns: 0,
        join_wait_ns: 0,
        join_mark_origin_ns: 0,
        idle_ns: 0,
        heal_ns: 0,
        post_exec_validate_ns: 0,
        post_exec_in_span_ns: 0,
        span_head: 0,
        span_tail: 0,
    }
}

impl Default for SpineReport {
    fn default() -> (r: Self)
        ensures
            r == zero_report(),
    {
        SpineReport {
            access_events: 0,
            yield_waits_ok: 0,
            yield_deadlocks: 0,
            raw_n: 0,
            waw_n: 0,
            war_n: 0,
            armed_locs: 0,
            retained_pins: 0,
            prior_revoked: 0,
            prior_radar_only: 0,
            ordered_defer: 0,
            ordered_handoff: 0,
            retain_keeps: 0,
            tip_already: 0,
            chain_len: 0,
            spine_cores_max: 0,
            spine_cores_end: 0,
            handoff_claims: 0,
            claim_denied: 0,
            exact_wakes: 0,
            idle_parks: 0,
            help_releases: 0,
            steal_n: 0,
            seed_owner_local_pops: 0,
            steal_top_ns: 0,
            end_block_ns: 0,
            exact_wake_missed_nopark: 0,
            idle_spins: 0,
            admit_seed_ns: 0,
            join_wait_ns: 0,
            join_mark_origin_ns: 0,
            idle_ns: 0,
            heal_ns: 0,
            post_exec_validate_ns: 0,
            post_exec_in_span_ns: 0,
            span_head: 0,
            span_tail: 0,
        }
    }
}


/// Same-block record of one structural location. The recipe is the last
/// detect, not a lock.
pub struct IntraRecord {
    pub last_class: EdgeClass,
    /// Sticky default; a later detect of another class replaces it.
    pub recipe: Recipe,
    pub first_tx: TxIdx,
    pub first_k: u16,
    pub peer: Option<TxIdx>,
    pub writers: Vec<TxIdx>,
    pub readers: Vec<TxIdx>,
    /// Retained tips `(reader, writer)` that a later write must not drop.
    pub retained: Vec<(TxIdx, TxIdx)>,
    pub hard_armed: bool,
}

/// What a location record holds, with its lists as sequences.
pub struct IntraView {
    pub last_class: EdgeClass,
    pub recipe: Recipe,
    pub first_tx: TxIdx,
    pub first_k: u16,
    pub peer: Option<TxIdx>,
    pub writers: Seq<TxIdx>,
    pub readers: Seq<TxIdx>,
    pub retained: Seq<(TxIdx, TxIdx)>,
    pub hard_armed: bool,
}

impl View for IntraRecord {
    type V = IntraView;

    open spec fn view(&self) -> IntraView {
        IntraView {
            last_class: self.last_class,
            recipe: self.recipe,
            first_tx: self.first_tx,
            first_k: self.first_k,
            peer: self.peer,
            writers: self.writers@,
            readers: self.readers@,
            retained: self.retained@,
            hard_armed: self.hard_armed,
        }
    }
}

/// The record a first detect of `class` opens.
pub open spec fn intra_new_spec(class: EdgeClass, tx: TxIdx, k: u16, peer: Option<TxIdx>) -> IntraView {
    let peer_list = match peer {
        Some(p) => seq![p],
        None => Seq::<TxIdx>::empty(),
    };
    IntraView {
        last_class: class,
        recipe: recipe_of(class),
        first_tx: tx,
        first_k: k,
        peer,
        writers: if class == EdgeClass::Waw {
            peer_list.push(tx)
        } else {
            peer_list
        },
        readers: if class == EdgeClass::Waw {
            Seq::<TxIdx>::empty()
        } else {
            seq![tx]
        },
        retained: Seq::<(TxIdx, TxIdx)>::empty(),
        hard_armed: false,
    }
}

/// A detect of `class` by `tx` at ordinal `k` against `peer`: the class and
/// recipe are replaced, the earliest access is kept, and the lists grow.
pub open spec fn detect_spec(
    r: IntraView,
    class: EdgeClass,
    tx: TxIdx,
    k: u16,
    peer: Option<TxIdx>,
) -> IntraView {
    IntraView {
        last_class: class,
        recipe: recipe_of(class),
        first_tx: if k < r.first_k {
            tx
        } else {
            r.first_tx
        },
        first_k: if k < r.first_k {
            k
        } else {
            r.first_k
        },
        peer: if peer is Some {
            peer
        } else {
            r.peer
        },
        writers: match class {
            EdgeClass::Waw => match peer {
                Some(p) => push_unique_spec(push_unique_spec(r.writers, p), tx),
                None => push_unique_spec(r.writers, tx),
            },
            _ => r.writers,
        },
        readers: match class {
            EdgeClass::Waw => r.readers,
            _ => push_unique_spec(r.readers, tx),
        },
        retained: match (class, peer) {
            (EdgeClass::War, Some(p)) => push_unique_pair_spec(r.retained, (tx, p)),
            _ => r.retained,
        },
        hard_armed: r.hard_armed,
    }
}

/// A copy of a transaction list.
pub fn copy_txs(v: &Vec<TxIdx>) -> (r: Vec<TxIdx>)
    ensures
        r@ == v@,
{
    let mut r: Vec<TxIdx> = Vec::new();
    let mut i: usize = 0;
    while i < v.len()
        invariant
            i <= v@.len(),
            r@ == v@.take(i as int),
        decreases v.len() - i,
    {
        r.push(v[i]);
        i = i + 1;
        assert(r@ =~= v@.take(i as int));
    }
    assert(v@.take(v@.len() as int) =~= v@);
    r
}

/// A copy of a list of `(reader, writer)` pairs.
pub fn copy_pairs(v: &Vec<(TxIdx, TxIdx)>) -> (r: Vec<(TxIdx, TxIdx)>)
    ensures
        r@ == v@,
{
    let mut r: Vec<(TxIdx, TxIdx)> = Vec::new();
    let mut i: usize = 0;
    while i < v.len()
        invariant
            i <= v@.len(),
            r@ == v@.take(i as int),
        decreases v.len() - i,
    {
        r.push(v[i]);
        i = i + 1;
        assert(r@ =~= v@.take(i as int));
    }
    assert(v@.take(v@.len() as int) =~= v@);
    r
}

impl IntraRecord {
    /// Open the record of a location at its first detect.
    pub fn new(class: EdgeClass, tx: TxIdx, k: u16, peer: Option<TxIdx>) -> (r: Self)
        ensures
            r@ == intra_new_spec(class, tx, k, peer),
    {
        let mut writers: Vec<TxIdx> = Vec::new();
        let mut readers: Vec<TxIdx> = Vec::new();
        match class {
            EdgeClass::Waw => {
                if let Some(p) = peer {
                    writers.push(p);
                }
                writers.push(tx);
            },
            EdgeClass::Raw | EdgeClass::War => {
                readers.push(tx);
                if let Some(p) = peer {
                    writers.push(p);
                }
            },
        }
        let r = IntraRecord {
            last_class: class,
            recipe: Recipe::for_class(class),
            first_tx: tx,
            first_k: k,
            peer,
            writers,
            readers,
            retained: Vec::new(),
            hard_armed: false,
        };
        assert(r@.writers =~= intra_new_spec(class, tx, k, peer).writers);
        assert(r@.readers =~= intra_new_spec(class, tx, k, peer).readers);
        assert(r@.retained =~= intra_new_spec(class, tx, k, peer).retained);
        r
    }

    /// A field-for-field copy.
    pub fn duplicate(&self) -> (r: Self)
        ensures
            r@ == self@,
    {
        IntraRecord {
            last_class: self.last_class,
            recipe: self.recipe,
            first_tx: self.first_tx,
            first_k: self.first_k,
            peer: self.peer,
            writers: copy_txs(&self.writers),
            readers: copy_txs(&self.readers),
            retained: copy_pairs(&self.retained),
            hard_armed: self.hard_armed,
        }
    }

    /// A detect on this access replaces the sticky recipe when the class
    /// differs, and records the access in the lists of its class.
    pub fn apply_detect(&mut self, class: EdgeClass, tx: TxIdx, k: u16, peer: Option<TxIdx>) -> (r: Recipe)
        ensures
            final(self)@ == detect_spec(old(self)@, class, tx, k, peer),
            r == recipe_of(class),
    {
        self.last_class = class;
        self.recipe = Recipe::for_class(class);
        if k < self.first_k {
            self.first_k = k;
            self.first_tx = tx;
        }
        if peer.is_some() {
            self.peer = peer;
        }
        match class {
            EdgeClass::Raw => push_unique(&mut self.readers, tx),
            EdgeClass::Waw => {
                if let Some(p) = peer {
                    push_unique(&mut self.writers, p);
                }
                push_unique(&mut self.writers, tx);
            },
            EdgeClass::War => {
                push_unique(&mut self.readers, tx);
                if let Some(p) = peer {
                    push_unique_pair(&mut self.retained, (tx, p));
                }
            },
        }
        self.recipe
    }
}

/// A detect never leaves a location on a stale recipe: after a detect of
/// `class`, the record's class is `class` and its recipe is the primitive
/// of `class`, whatever the record held before.
pub proof fn law_detect_overrides_sticky_recipe(
    r: IntraView,
    class: EdgeClass,
    tx: TxIdx,
    k: u16,
    peer: Option<TxIdx>,
)
    ensures
        detect_spec(r, class, tx, k, peer).last_class == class,
        detect_spec(r, class, tx, k, peer).recipe == match class {
            EdgeClass::Raw => Recipe::WaitTrueVersion,
            EdgeClass::Waw => Recipe::OrderedTip,
            EdgeClass::War => Recipe::RetainHistory,
        },
{
}

/// The records a location map holds, by location.
pub uninterp spec fn intra_records(m: DashMap<u64, IntraRecord>) -> Map<u64, IntraRecord>;

/// The `(reader, origin)` bindings a binding map holds, by location.
pub uninterp spec fn bound_pairs(m: DashMap<u64, Vec<(usize, usize)>>) -> Map<u64, Seq<(usize, usize)>>;


/// `DashMap::new`: an empty location map.
#[verifier::external_body]
fn intra_new() -> (r: DashMap<u64, IntraRecord>)
    ensures
        intra_records(r).dom().len() == 0,
        intra_records(r).dom().finite(),
{
    DashMap::new()
}

/// `DashMap::get`, then a field-for-field copy of the record found.
#[verifier::external_body]
fn intra_get(m: &DashMap<u64, IntraRecord>, k: u64) -> (r: Option<IntraRecord>)
    ensures
        match r {
            Some(rec) => intra_records(*m).dom().contains(k) && rec@ == intra_records(*m)[k]@,
            None => !intra_records(*m).dom().contains(k),
        },
{
    m.get(&k).map(|e| e.duplicate())
}

/// `DashMap::remove`: the record leaves the map and is handed out.
#[verifier::external_body]
fn intra_take(m: &mut DashMap<u64, IntraRecord>, k: u64) -> (r: Option<IntraRecord>)
    ensures
        intra_records(*final(m)) == intra_records(*old(m)).remove(k),
        match r {
            Some(rec) => intra_records(*old(m)).dom().contains(k) && rec == intra_records(*old(m))[k],
            None => !intra_records(*old(m)).dom().contains(k),
        },
{
    m.remove(&k).map(|e| e.1)
}

/// `DashMap::insert`: the record of `k` becomes `v`.
#[verifier::external_body]
fn intra_put(m: &mut DashMap<u64, IntraRecord>, k: u64, v: IntraRecord)
    ensures
        intra_records(*final(m)) == intra_records(*old(m)).insert(k, v),
{
    m.insert(k, v);
}

/// `DashMap::iter`, keeping each entry's key: every location once, in an
/// order the map does not promise.
#[verifier::external_body]
fn intra_keys(m: &DashMap<u64, IntraRecord>) -> (r: Vec<u64>)
    ensures
        r@.no_duplicates(),
        r@.to_set() == intra_records(*m).dom(),
{
    m.iter().map(|e| *e.key()).collect()
}

/// `DashMap::new`: an empty binding map.
#[verifier::external_body]
fn bounds_new() -> (r: DashMap<u64, Vec<(usize, usize)>>)
    ensures
        bound_pairs(r).dom().len() == 0,
        bound_pairs(r).dom().finite(),
{
    DashMap::new()
}

/// `DashMap::get`, then a copy of the bindings found.
#[verifier::external_body]
fn bounds_get(m: &DashMap<u64, Vec<(usize, usize)>>, k: u64) -> (r: Option<Vec<(usize, usize)>>)
    ensures
        match r {
            Some(v) => bound_pairs(*m).dom().contains(k) && v@ == bound_pairs(*m)[k],
            None => !bound_pairs(*m).dom().contains(k),
        },
{
    m.get(&k).map(|e| copy_pairs(&e))
}

/// `DashMap::insert`: the bindings of `k` become `v`.
#[verifier::external_body]
fn bounds_put(m: &mut DashMap<u64, Vec<(usize, usize)>>, k: u64, v: Vec<(usize, usize)>)
    ensures
        bound_pairs(*final(m)) == bound_pairs(*old(m)).insert(k, v@),
{
    m.insert(k, v);
}

/// No transaction: the empty handoff slot and the free spine owner.
pub const NO_TX: usize = usize::MAX;

/// No carried chain location.
pub const NO_LOC: u64 = u64::MAX;

/// Locations a block may hard-arm.
pub const ARM_BUDGET: usize = 32;

/// Bindings one location keeps.
pub const BOUND_CAP: usize = 128;

/// One interpreter host access. `k` is the host-access ordinal; `depth`
/// is the live frame.
#[derive(Debug, Clone, Copy, PartialEq, Eq, Structural)]
pub struct AccessEvent {
    pub tx: TxIdx,
    pub loc: MemoryLocationHash,
    pub k: u16,
    pub depth: u8,
    pub mode: AccessMode,
}

/// Event counters of a block.
#[derive(Debug, Clone, Copy, PartialEq, Eq, Structural)]
pub struct SpineCounters {
    pub access_events: usize,
    pub yield_ok: usize,
    pub yield_deadlock: usize,
    pub raw_n: usize,
    pub waw_n: usize,
    pub war_n: usize,
    pub armed_n: usize,
    pub ordered_defer: usize,
    pub ordered_handoff: usize,
    pub retain_keeps: usize,
    pub tip_already: usize,
    pub spine_cores_max: usize,
    pub handoff_claims: usize,
    pub claim_denied: usize,
}

/// A counter one step on (counters wrap).
pub open spec fn inc(x: usize) -> usize {
    if x == usize::MAX {
        0
    } else {
        (x + 1) as usize
    }
}

fn inc_counter(x: usize) -> (r: usize)
    ensures
        r == inc(x),
{
    if x == usize::MAX {
        0
    } else {
        x + 1
    }
}

/// Ascending without repeats.
pub open spec fn strictly_ascending(s: Seq<TxIdx>) -> bool {
    forall|i: int, j: int| 0 <= i < j < s.len() ==> s[i] < s[j]
}

/// The abstract state of a block's spine.
pub struct SpineView {
    pub records: Map<u64, IntraView>,
    pub bounds: Map<u64, Seq<(TxIdx, TxIdx)>>,
    pub published: Set<TxIdx>,
    pub started: Set<TxIdx>,
    pub counters: SpineCounters,
    pub workers: usize,
    pub budget: usize,
    pub yield_waiters: usize,
    pub escape_taken: bool,
    pub escape_gen: u64,
    pub ordered_loc: u64,
    pub ordered_writers: Seq<TxIdx>,
    pub handoff: usize,
    pub spine_owner: usize,
}

/// Shared per-block spine. Its location table starts empty each block; a
/// carried chain only orders the writers it names.
pub struct AccessSpine {
    pub intra: DashMap<u64, IntraRecord>,
    pub bounds: DashMap<u64, Vec<(TxIdx, TxIdx)>>,
    pub published: DashSet<TxIdx>,
    pub started: DashSet<TxIdx>,
    pub counters: SpineCounters,
    pub workers: usize,
    /// Hard-arm budget. Extra locations stay admit plus detect.
    pub budget: usize,
    pub yield_waiters: usize,
    pub escape_taken: bool,
    /// Generation of the deadlock escape flag.
    pub escape_gen: u64,
    /// Location of the previous block's longest writer chain.
    pub ordered_loc: u64,
    /// That chain, ascending.
    pub ordered_writers: Vec<TxIdx>,
    /// Next chain writer to run; `NO_TX` when empty.
    pub handoff: usize,
    /// Chain hop that owns the spine core; `NO_TX` when free.
    pub spine_owner: usize,
}

/// The records of a location map, as views.
pub open spec fn records_view(m: DashMap<u64, IntraRecord>) -> Map<u64, IntraView> {
    Map::new(|k: u64| intra_records(m).dom().contains(k), |k: u64| intra_records(m)[k]@)
}

impl View for AccessSpine {
    type V = SpineView;

    open spec fn view(&self) -> SpineView {
        SpineView {
            records: records_view(self.intra),
            bounds: bound_pairs(self.bounds),
            published: tx_members(self.published),
            started: tx_members(self.started),
            counters: self.counters,
            workers: self.workers,
            budget: self.budget,
            yield_waiters: self.yield_waiters,
            escape_taken: self.escape_taken,
            escape_gen: self.escape_gen,
            ordered_loc: self.ordered_loc,
            ordered_writers: self.ordered_writers@,
            handoff: self.handoff,
            spine_owner: self.spine_owner,
        }
    }
}

/// The spine's standing invariant: at least one worker, and the carried
/// chain ascending.
pub open spec fn spine_wf(v: SpineView) -> bool {
    &&& v.workers >= 1
    &&& strictly_ascending(v.ordered_writers)
}

/// Position of `tx` on the carried chain, when it is there.
pub open spec fn chain_pos(v: SpineView, tx: TxIdx) -> int {
    choose|i: int| 0 <= i < v.ordered_writers.len() && v.ordered_writers[i] == tx
}

/// The chain writer just before `tx`, when `tx` is on the chain and not its head.
pub open spec fn chain_pred(v: SpineView, tx: TxIdx) -> Option<TxIdx> {
    if v.ordered_writers.contains(tx) && chain_pos(v, tx) > 0 {
        Some(v.ordered_writers[chain_pos(v, tx) - 1])
    } else {
        None
    }
}

/// The record after a detect of `class` by `tx` (at `k`, against `peer`)
/// on `loc`: opened if absent, detected, and hard-armed while the budget
/// lasts; the class counter and the armed count follow.
pub open spec fn note_class_spec(
    v: SpineView,
    loc: u64,
    tx: TxIdx,
    k: u16,
    class: EdgeClass,
    peer: Option<TxIdx>,
) -> SpineView {
    let base = if v.records.dom().contains(loc) {
        v.records[loc]
    } else {
        intra_new_spec(class, tx, k, peer)
    };
    let d = detect_spec(base, class, tx, k, peer);
    let arm = !d.hard_armed && v.counters.armed_n < v.budget;
    let rec = IntraView { hard_armed: d.hard_armed || arm, ..d };
    let c = v.counters;
    let c1 = match class {
        EdgeClass::Raw => SpineCounters { raw_n: inc(c.raw_n), ..c },
        EdgeClass::Waw => SpineCounters { waw_n: inc(c.waw_n), ..c },
        EdgeClass::War => SpineCounters { war_n: inc(c.war_n), ..c },
    };
    let c2 = if arm {
        SpineCounters { armed_n: (c1.armed_n + 1) as usize, ..c1 }
    } else {
        c1
    };
    SpineView { records: v.records.insert(loc, rec), counters: c2, ..v }
}

/// The last entry of `s` below `tx`, scanning from the end.
pub open spec fn last_below(s: Seq<TxIdx>, tx: TxIdx) -> Option<TxIdx>
    decreases s.len(),
{
    if s.len() == 0 {
        None
    } else if s.last() < tx {
        Some(s.last())
    } else {
        last_below(s.drop_last(), tx)
    }
}

/// The entries of `s` below `tx`, in order.
pub open spec fn below(s: Seq<TxIdx>, tx: TxIdx) -> Seq<TxIdx>
    decreases s.len(),
{
    if s.len() == 0 {
        s
    } else if s.last() < tx {
        below(s.drop_last(), tx).push(s.last())
    } else {
        below(s.drop_last(), tx)
    }
}

/// Pin `(reader, tx)` on `loc` for each reader in turn.
pub open spec fn war_fold(v: SpineView, loc: u64, tx: TxIdx, readers: Seq<TxIdx>) -> SpineView
    decreases readers.len(),
{
    if readers.len() == 0 {
        v
    } else {
        note_class_spec(
            war_fold(v, loc, tx, readers.drop_last()),
            loc,
            readers.last(),
            0,
            EdgeClass::War,
            Some(tx),
        )
    }
}

/// A write by the chain writer `tx` at the chain location publishes it and
/// hands the core to its successor.
pub open spec fn mark_published_spec(v: SpineView, loc: u64, tx: TxIdx) -> SpineView {
    if v.ordered_loc != loc || !v.ordered_writers.contains(tx) {
        v
    } else {
        let i = chain_pos(v, tx);
        let v1 = SpineView { published: v.published.insert(tx), ..v };
        if i + 1 < v.ordered_writers.len() {
            SpineView {
                handoff: v.ordered_writers[i + 1],
                counters: SpineCounters {
                    ordered_handoff: inc(v.counters.ordered_handoff),
                    ..v.counters
                },
                ..v1
            }
        } else {
            v1
        }
    }
}

/// One committed write of `tx` on `loc`: a WAW against the last earlier
/// writer (or the first record, or one more writer), then a WAR pin for
/// each earlier reader, then the chain publish.
pub open spec fn write_one_spec(v: SpineView, tx: TxIdx, loc: u64) -> SpineView {
    let present = v.records.dom().contains(loc);
    let peer = if present {
        last_below(v.records[loc].writers, tx)
    } else {
        None
    };
    let v1 = if peer is Some {
        note_class_spec(v, loc, tx, 0, EdgeClass::Waw, peer)
    } else if !present {
        SpineView { records: v.records.insert(loc, intra_new_spec(EdgeClass::Waw, tx, 0, None)), ..v }
    } else {
        SpineView {
            records: v.records.insert(
                loc,
                IntraView { writers: push_unique_spec(v.records[loc].writers, tx), ..v.records[loc] },
            ),
            ..v
        }
    };
    let v2 = war_fold(v1, loc, tx, below(v1.records[loc].readers, tx));
    mark_published_spec(v2, loc, tx)
}

/// The committed writes of `tx`, location by location.
pub open spec fn write_effects_fold(v: SpineView, tx: TxIdx, locs: Seq<u64>) -> SpineView
    decreases locs.len(),
{
    if locs.len() == 0 {
        v
    } else {
        write_one_spec(write_effects_fold(v, tx, locs.drop_last()), tx, locs.last())
    }
}

/// A counter one step back (counters wrap).
pub open spec fn dec(x: usize) -> usize {
    if x == 0 {
        usize::MAX
    } else {
        (x - 1) as usize
    }
}

/// The counters of a fresh block.
pub open spec fn zero_counters() -> SpineCounters {
    SpineCounters {
        access_events: 0,
        yield_ok: 0,
        yield_deadlock: 0,
        raw_n: 0,
        waw_n: 0,
        war_n: 0,
        armed_n: 0,
        ordered_defer: 0,
        ordered_handoff: 0,
        retain_keeps: 0,
        tip_already: 0,
        spine_cores_max: 0,
        handoff_claims: 0,
        claim_denied: 0,
    }
}

/// First position of `tx` in `v`.
fn index_of(v: &Vec<TxIdx>, tx: TxIdx) -> (r: Option<usize>)
    ensures
        match r {
            Some(i) => i < v@.len() && v@[i as int] == tx,
            None => !v@.contains(tx),
        },
{
    let mut i: usize = 0;
    while i < v.len()
        invariant
            i <= v@.len(),
            forall|j: int| 0 <= j < i ==> v@[j] != tx,
        decreases v.len() - i,
    {
        if v[i] == tx {
            return Some(i);
        }
        i = i + 1;
    }
    None
}

/// On an ascending chain, a position holding `tx` is the position of `tx`.
proof fn lemma_chain_pos(v: SpineView, tx: TxIdx, i: int)
    requires
        strictly_ascending(v.ordered_writers),
        0 <= i < v.ordered_writers.len(),
        v.ordered_writers[i] == tx,
    ensures
        v.ordered_writers.contains(tx),
        chain_pos(v, tx) == i,
{
    let j = chain_pos(v, tx);
    assert(0 <= j < v.ordered_writers.len() && v.ordered_writers[j] == tx);
    if j < i {
        assert(v.ordered_writers[j] < v.ordered_writers[i]);
    } else if j > i {
        assert(v.ordered_writers[i] < v.ordered_writers[j]);
    }
}

/// The chain writer `x` holds back `tx`: it comes before `tx`, has not
/// published, and is still open.
pub open spec fn blocks_at(v: SpineView, done_flags: Seq<bool>, tx: TxIdx, x: TxIdx) -> bool {
    x < tx && !v.published.contains(x) && !flag_done(done_flags, x)
}

impl AccessSpine {
    /// Open a block. The location table starts empty; the carried chain
    /// (`chains` at `chain_loc`, ascending) only orders its writers.
    pub fn begin(chain_loc: u64, chains: Vec<TxIdx>, workers: usize) -> (r: Self)
        requires
            strictly_ascending(chains@),
        ensures
            spine_wf(r@),
            r@.records.dom().len() == 0,
            r@.bounds.dom().len() == 0,
            r@.published.len() == 0,
            r@.started.len() == 0,
            r@.counters == zero_counters(),
            r@.workers == (if workers == 0 { 1 } else { workers }),
            r@.budget == ARM_BUDGET,
            r@.yield_waiters == 0,
            !r@.escape_taken,
            r@.escape_gen == 0,
            r@.ordered_loc == chain_loc,
            r@.ordered_writers == chains@,
            r@.handoff == NO_TX,
            r@.spine_owner == NO_TX,
    {
        let intra = intra_new();
        let r = AccessSpine {
            intra,
            bounds: bounds_new(),
            published: tx_set_new(),
            started: tx_set_new(),
            counters: SpineCounters {
                access_events: 0,
                yield_ok: 0,
                yield_deadlock: 0,
                raw_n: 0,
                waw_n: 0,
                war_n: 0,
                armed_n: 0,
                ordered_defer: 0,
                ordered_handoff: 0,
                retain_keeps: 0,
                tip_already: 0,
                spine_cores_max: 0,
                handoff_claims: 0,
                claim_denied: 0,
            },
            workers: if workers == 0 {
                1
            } else {
                workers
            },
            budget: ARM_BUDGET,
            yield_waiters: 0,
            escape_taken: false,
            escape_gen: 0,
            ordered_loc: chain_loc,
            ordered_writers: chains,
            handoff: NO_TX,
            spine_owner: NO_TX,
        };
        assert(r@.records.dom() =~= intra_records(r.intra).dom());
        r
    }

    /// A chain hop already occupies a core.
    pub fn spine_busy(&self) -> (r: bool)
        ensures
            r == (self@.spine_owner != NO_TX),
    {
        self.spine_owner != NO_TX
    }

    /// Claim the single spine owner. Fails when another hop holds it.
    pub fn try_acquire(&mut self, tx: TxIdx) -> (r: bool)
        ensures
            old(self)@.spine_owner == NO_TX ==> r && final(self)@ == (SpineView {
                spine_owner: tx,
                counters: SpineCounters {
                    spine_cores_max: if old(self)@.counters.spine_cores_max >= 1 {
                        old(self)@.counters.spine_cores_max
                    } else {
                        1
                    },
                    ..old(self)@.counters
                },
                ..old(self)@
            }),
            old(self)@.spine_owner != NO_TX && old(self)@.spine_owner == tx ==> r && final(self)@
                == old(self)@,
            old(self)@.spine_owner != NO_TX && old(self)@.spine_owner != tx ==> !r && final(self)@
                == (SpineView {
                counters: SpineCounters {
                    claim_denied: inc(old(self)@.counters.claim_denied),
                    ..old(self)@.counters
                },
                ..old(self)@
            }),
    {
        if self.spine_owner == NO_TX {
            self.spine_owner = tx;
            if self.counters.spine_cores_max < 1 {
                self.counters.spine_cores_max = 1;
            }
            true
        } else if self.spine_owner == tx {
            true
        } else {
            self.counters.claim_denied = inc_counter(self.counters.claim_denied);
            false
        }
    }

    /// Drop ownership when this hop finishes, blocks, or abandons its claim.
    pub fn release_owner_tx(&mut self, tx: TxIdx)
        ensures
            final(self)@ == (if old(self)@.spine_owner == tx {
                SpineView { spine_owner: NO_TX, ..old(self)@ }
            } else {
                old(self)@
            }),
    {
        if self.spine_owner == tx {
            self.spine_owner = NO_TX;
        }
    }

    pub fn note_handoff_claim(&mut self)
        ensures
            final(self)@ == (SpineView {
                counters: SpineCounters {
                    handoff_claims: inc(old(self)@.counters.handoff_claims),
                    ..old(self)@.counters
                },
                ..old(self)@
            }),
    {
        self.counters.handoff_claims = inc_counter(self.counters.handoff_claims);
    }

    /// Put `tx` in the handoff slot only when it is empty.
    pub fn restore_handoff(&mut self, tx: TxIdx)
        ensures
            final(self)@ == (if old(self)@.handoff == NO_TX {
                SpineView { handoff: tx, ..old(self)@ }
            } else {
                old(self)@
            }),
    {
        if self.handoff == NO_TX {
            self.handoff = tx;
        }
    }

    /// Offer `tx` to the handoff slot when it is empty (no publish is counted).
    pub fn offer_handoff_if_absent(&mut self, tx: TxIdx)
        ensures
            final(self)@ == (if old(self)@.handoff == NO_TX {
                SpineView { handoff: tx, ..old(self)@ }
            } else {
                old(self)@
            }),
    {
        self.restore_handoff(tx);
    }

    /// The slot holds no unclaimed spine hop.
    pub fn handoff_is_empty(&self) -> (r: bool)
        ensures
            r == (self@.handoff == NO_TX),
    {
        self.handoff == NO_TX
    }

    /// Take the successor queued to run next, emptying the slot.
    pub fn take_handoff(&mut self) -> (r: Option<TxIdx>)
        ensures
            r == (if old(self)@.handoff == NO_TX {
                None
            } else {
                Some(old(self)@.handoff)
            }),
            final(self)@ == (SpineView { handoff: NO_TX, ..old(self)@ }),
    {
        let tx = self.handoff;
        self.handoff = NO_TX;
        if tx == NO_TX {
            None
        } else {
            Some(tx)
        }
    }

    /// This transaction is on the carried writer chain.
    pub fn is_ordered_member(&self, tx: TxIdx) -> (r: bool)
        ensures
            r == self@.ordered_writers.contains(tx),
    {
        index_of(&self.ordered_writers, tx).is_some()
    }

    pub fn ordered_len(&self) -> (r: usize)
        ensures
            r == self@.ordered_writers.len(),
    {
        self.ordered_writers.len()
    }

    /// A chain successor may enter once its predecessor has published or
    /// finished (by the scheduler's done flags). The head always may; so may
    /// any transaction off the chain.
    pub fn successor_blocked(&self, tx: TxIdx, done_flags: &Vec<bool>) -> (r: bool)
        requires
            spine_wf(self@),
        ensures
            r == match chain_pred(self@, tx) {
                Some(p) => !self@.published.contains(p) && !flag_done(done_flags@, p),
                None => false,
            },
    {
        let i = match index_of(&self.ordered_writers, tx) {
            None => {
                return false;
            },
            Some(i) => i,
        };
        proof {
            lemma_chain_pos(self@, tx, i as int);
        }
        if i == 0 {
            return false;
        }
        let pred = self.ordered_writers[i - 1];
        if tx_set_contains(&self.published, pred) {
            return false;
        }
        !flag_done_exec(done_flags, pred)
    }

    pub fn note_ordered_defer(&mut self)
        ensures
            final(self)@ == (SpineView {
                counters: SpineCounters {
                    ordered_defer: inc(old(self)@.counters.ordered_defer),
                    ..old(self)@.counters
                },
                ..old(self)@
            }),
    {
        self.counters.ordered_defer = inc_counter(self.counters.ordered_defer);
    }

    /// A chain transaction entered the interpreter. Its successor is woken
    /// on publish, not here, so one chain writer occupies a core.
    pub fn note_chain_start(&mut self, tx: TxIdx)
        ensures
            final(self)@ == (if old(self)@.ordered_writers.contains(tx) {
                SpineView { started: old(self)@.started.insert(tx), ..old(self)@ }
            } else {
                old(self)@
            }),
    {
        if index_of(&self.ordered_writers, tx).is_some() {
            tx_set_insert(&mut self.started, tx);
        }
    }

    /// Greatest chain writer below `tx` that has not published and is
    /// still open, when `loc` is the chain location.
    pub fn ordered_blocker(
        &self,
        loc: MemoryLocationHash,
        tx: TxIdx,
        done_flags: &Vec<bool>,
    ) -> (r: Option<TxIdx>)
        requires
            spine_wf(self@),
        ensures
            match r {
                Some(b) => {
                    &&& self@.ordered_loc == loc
                    &&& self@.ordered_writers.contains(b)
                    &&& blocks_at(self@, done_flags@, tx, b)
                    &&& forall|j: int|
                        0 <= j < self@.ordered_writers.len() && blocks_at(
                            self@,
                            done_flags@,
                            tx,
                            #[trigger] self@.ordered_writers[j],
                        ) ==> self@.ordered_writers[j] <= b
                },
                None => self@.ordered_loc != loc || forall|j: int|
                    0 <= j < self@.ordered_writers.len() ==> !blocks_at(
                        self@,
                        done_flags@,
                        tx,
                        #[trigger] self@.ordered_writers[j],
                    ),
            },
    {
        if self.ordered_loc != loc || self.ordered_writers.len() == 0 {
            return None;
        }
        let ghost w = self@.ordered_writers;
        let mut i: usize = self.ordered_writers.len();
        while i > 0
            invariant
                i <= w.len(),
                w == self@.ordered_writers,
                self.ordered_loc == loc,
                strictly_ascending(w),
                    forall|j: int| i <= j < w.len() ==> !blocks_at(self@, done_flags@, tx, #[trigger] w[j]),
            decreases i,
        {
            i = i - 1;
            let x = self.ordered_writers[i];
            if x < tx && !tx_set_contains(&self.published, x) {
                let open = !flag_done_exec(done_flags, x);
                if open {
                    proof {
                        assert(blocks_at(self@, done_flags@, tx, x));
                        assert(w[i as int] == x);
                        assert forall|j: int|
                            0 <= j < w.len() && blocks_at(self@, done_flags@, tx, #[trigger] w[j])
                                implies w[j] <= x by {
                            if j > i {
                                assert(false);
                            } else if j < i {
                                assert(w[j] < w[i as int]);
                            }
                        }
                    }
                    return Some(x);
                }
            }
        }
        None
    }

    pub fn note_tip_already(&mut self)
        ensures
            final(self)@ == (SpineView {
                counters: SpineCounters {
                    tip_already: inc(old(self)@.counters.tip_already),
                    ..old(self)@.counters
                },
                ..old(self)@
            }),
    {
        self.counters.tip_already = inc_counter(self.counters.tip_already);
    }

    pub fn note_retain_keep(&mut self)
        ensures
            final(self)@ == (SpineView {
                counters: SpineCounters {
                    retain_keeps: inc(old(self)@.counters.retain_keeps),
                    ..old(self)@.counters
                },
                ..old(self)@
            }),
    {
        self.counters.retain_keeps = inc_counter(self.counters.retain_keeps);
    }

    /// An in-frame wait is entered. Refused (the worker must release its
    /// core) when every worker would then be waiting.
    pub fn enter_yield(&mut self) -> (r: bool)
        ensures
            r == (inc(old(self)@.yield_waiters) < old(self)@.workers),
            final(self)@ == (if r {
                SpineView { yield_waiters: inc(old(self)@.yield_waiters), ..old(self)@ }
            } else {
                SpineView {
                    counters: SpineCounters {
                        yield_deadlock: inc(old(self)@.counters.yield_deadlock),
                        ..old(self)@.counters
                    },
                    ..old(self)@
                }
            }),
    {
        let n = inc_counter(self.yield_waiters);
        if n >= self.workers {
            self.counters.yield_deadlock = inc_counter(self.counters.yield_deadlock);
            return false;
        }
        self.yield_waiters = n;
        true
    }

    /// Leave a wait that did not take the deadlock exit.
    pub fn leave_yield_ok(&mut self)
        ensures
            final(self)@ == (SpineView {
                yield_waiters: dec(old(self)@.yield_waiters),
                counters: SpineCounters {
                    yield_ok: inc(old(self)@.counters.yield_ok),
                    ..old(self)@.counters
                },
                ..old(self)@
            }),
    {
        self.yield_waiters = if self.yield_waiters == 0 {
            usize::MAX
        } else {
            self.yield_waiters - 1
        };
        self.counters.yield_ok = inc_counter(self.counters.yield_ok);
    }

    /// Leave without a successful consume (timeout or abort); the waiter
    /// count never goes below zero on this path.
    pub fn leave_yield_deadlock(&mut self)
        ensures
            final(self)@ == (SpineView {
                yield_waiters: if old(self)@.yield_waiters == 0 {
                    0
                } else {
                    (old(self)@.yield_waiters - 1) as usize
                },
                counters: SpineCounters {
                    yield_deadlock: inc(old(self)@.counters.yield_deadlock),
                    ..old(self)@.counters
                },
                ..old(self)@
            }),
    {
        if self.yield_waiters > 0 {
            self.yield_waiters = self.yield_waiters - 1;
        }
        self.counters.yield_deadlock = inc_counter(self.counters.yield_deadlock);
    }

    /// One worker may escape a stuck wait; the others keep their frame.
    pub fn try_escape(&mut self) -> (r: bool)
        ensures
            r == !old(self)@.escape_taken,
            final(self)@ == (SpineView { escape_taken: true, ..old(self)@ }),
    {
        if self.escape_taken {
            false
        } else {
            self.escape_taken = true;
            true
        }
    }

    /// Reset the escape flag so a later stall can free another core.
    pub fn clear_escape(&mut self)
        ensures
            final(self)@ == (SpineView {
                escape_taken: false,
                escape_gen: if old(self)@.escape_gen == u64::MAX {
                    0
                } else {
                    (old(self)@.escape_gen + 1) as u64
                },
                ..old(self)@
            }),
    {
        self.escape_taken = false;
        self.escape_gen = if self.escape_gen == u64::MAX {
            0
        } else {
            self.escape_gen + 1
        };
    }

    pub fn yield_waiters(&self) -> (r: usize)
        ensures
            r == self@.yield_waiters,
    {
        self.yield_waiters
    }

    pub fn workers(&self) -> (r: usize)
        ensures
            r == self@.workers,
    {
        self.workers
    }
}

/// `v` holds the pair `p`.
fn has_pair(v: &Vec<(TxIdx, TxIdx)>, p: (TxIdx, TxIdx)) -> (r: bool)
    ensures
        r == v@.contains(p),
{
    let mut i: usize = 0;
    while i < v.len()
        invariant
            i <= v@.len(),
            forall|j: int| 0 <= j < i ==> v@[j] != p,
        decreases v.len() - i,
    {
        if v[i].0 == p.0 && v[i].1 == p.1 {
            assert(v@[i as int] == p);
            return true;
        }
        i = i + 1;
    }
    false
}

/// Some pair of `v` has `x` second.
pub open spec fn has_second(s: Seq<(TxIdx, TxIdx)>, x: TxIdx) -> bool {
    exists|j: int| 0 <= j < s.len() && (#[trigger] s[j]).1 == x
}

fn any_second(v: &Vec<(TxIdx, TxIdx)>, x: TxIdx) -> (r: bool)
    ensures
        r == has_second(v@, x),
{
    let mut i: usize = 0;
    while i < v.len()
        invariant
            i <= v@.len(),
            forall|j: int| 0 <= j < i ==> (#[trigger] v@[j]).1 != x,
        decreases v.len() - i,
    {
        if v[i].1 == x {
            assert(v@[i as int].1 == x);
            return true;
        }
        i = i + 1;
    }
    false
}

/// The view of a location map after `k` was (re)placed by `rec`.
proof fn lemma_put_view(
    m1: DashMap<u64, IntraRecord>,
    m2: DashMap<u64, IntraRecord>,
    k: u64,
    rec: IntraRecord,
)
    requires
        intra_records(m2) == intra_records(m1).insert(k, rec) || intra_records(m2) == intra_records(
            m1,
        ).remove(k).insert(k, rec),
    ensures
        records_view(m2) == records_view(m1).insert(k, rec@),
{
    assert(records_view(m2) =~= records_view(m1).insert(k, rec@));
}

/// The record of `loc` holds a retained tip of `writer`.
pub open spec fn retains_writer(v: SpineView, loc: u64, writer: TxIdx) -> bool {
    v.records.dom().contains(loc) && has_second(v.records[loc].retained, writer)
}

/// The location has WAR pins.
pub open spec fn has_pins(v: SpineView, loc: u64) -> bool {
    v.records.dom().contains(loc) && v.records[loc].retained.len() > 0
}

/// The bindings of `loc` (empty when none).
pub open spec fn bound_at(v: SpineView, loc: u64) -> Seq<(TxIdx, TxIdx)> {
    if v.bounds.dom().contains(loc) {
        v.bounds[loc]
    } else {
        Seq::<(TxIdx, TxIdx)>::empty()
    }
}

/// A read of `loc` by the reader `tx`: counted, and, once some location is
/// armed, recorded as a reader of an existing record.
pub open spec fn on_access_spec(v: SpineView, ev: AccessEvent) -> SpineView {
    let v1 = SpineView {
        counters: SpineCounters { access_events: inc(v.counters.access_events), ..v.counters },
        ..v
    };
    if v.counters.armed_n == 0 || !v.records.dom().contains(ev.loc) || ev.mode != AccessMode::Read {
        v1
    } else {
        SpineView {
            records: v.records.insert(
                ev.loc,
                IntraView { readers: push_unique_spec(v.records[ev.loc].readers, ev.tx), ..v.records[ev.loc] },
            ),
            ..v1
        }
    }
}

impl AccessSpine {
    /// A WAR pin keeps this writer's data from being replaced by an estimate.
    pub fn must_retain(&self, loc: MemoryLocationHash, writer: TxIdx) -> (r: bool)
        ensures
            r == retains_writer(self@, loc, writer),
    {
        match intra_get(&self.intra, loc) {
            None => false,
            Some(rec) => any_second(&rec.retained, writer),
        }
    }

    /// The retained pins of a location, which a later write must keep.
    pub fn retained_for(&self, loc: MemoryLocationHash) -> (r: Vec<(TxIdx, TxIdx)>)
        ensures
            r@ == (if self@.records.dom().contains(loc) {
                self@.records[loc].retained
            } else {
                Seq::<(TxIdx, TxIdx)>::empty()
            }),
    {
        match intra_get(&self.intra, loc) {
            None => Vec::new(),
            Some(rec) => rec.retained,
        }
    }

    /// A host read bound `origin` as this reader's tip. Only an earlier
    /// origin is kept, once, and at most `BOUND_CAP` per location.
    pub fn note_reader_origin(&mut self, loc: MemoryLocationHash, reader: TxIdx, origin: TxIdx)
        ensures
            final(self)@ == (if origin >= reader {
                old(self)@
            } else {
                let s = bound_at(old(self)@, loc);
                let p = (reader, origin);
                SpineView {
                    bounds: old(self)@.bounds.insert(
                        loc,
                        if s.contains(p) || s.len() >= BOUND_CAP {
                            s
                        } else {
                            s.push(p)
                        },
                    ),
                    ..old(self)@
                }
            }),
    {
        if origin >= reader {
            return;
        }
        let mut slot = match bounds_get(&self.bounds, loc) {
            Some(v) => v,
            None => Vec::new(),
        };
        let p = (reader, origin);
        if has_pair(&slot, p) || slot.len() >= BOUND_CAP {
            bounds_put(&mut self.bounds, loc, slot);
            return;
        }
        slot.push(p);
        bounds_put(&mut self.bounds, loc, slot);
    }

    /// A WAR reader re-reads an origin that an estimate would otherwise drop.
    pub fn reader_needs_origin(&self, loc: MemoryLocationHash, reader: TxIdx, origin: TxIdx) -> (r: bool)
        ensures
            r == (bound_at(self@, loc).contains((reader, origin)) && has_pins(self@, loc)),
    {
        let bound = match bounds_get(&self.bounds, loc) {
            None => false,
            Some(v) => has_pair(&v, (reader, origin)),
        };
        if !bound {
            return false;
        }
        match intra_get(&self.intra, loc) {
            None => false,
            Some(rec) => rec.retained.len() > 0,
        }
    }

    /// Snapshot this origin before an estimate only when a WAR pin still
    /// needs it.
    pub fn should_pin_origin(&self, loc: MemoryLocationHash, origin: TxIdx) -> (r: bool)
        ensures
            r == (has_second(bound_at(self@, loc), origin) && has_pins(self@, loc)),
    {
        let bound = match bounds_get(&self.bounds, loc) {
            None => false,
            Some(v) => any_second(&v, origin),
        };
        if !bound {
            return false;
        }
        match intra_get(&self.intra, loc) {
            None => false,
            Some(rec) => rec.retained.len() > 0,
        }
    }

    /// Host access. Cheap until some location is armed.
    pub fn on_access(&mut self, ev: AccessEvent)
        ensures
            final(self)@ == on_access_spec(old(self)@, ev),
    {
        self.counters.access_events = inc_counter(self.counters.access_events);
        if self.counters.armed_n == 0 {
            return;
        }
        if ev.mode != AccessMode::Read {
            return;
        }
        let ghost m0 = self.intra;
        match intra_take(&mut self.intra, ev.loc) {
            None => {
                proof {
                    assert(intra_records(self.intra) =~= intra_records(m0));
                    assert(records_view(self.intra) =~= records_view(m0));
                }
            },
            Some(mut rec) => {
                push_unique(&mut rec.readers, ev.tx);
                let ghost r = rec;
                intra_put(&mut self.intra, ev.loc, rec);
                proof {
                    lemma_put_view(m0, self.intra, ev.loc, r);
                    assert(r@ == (IntraView {
                        readers: push_unique_spec(records_view(m0)[ev.loc].readers, ev.tx),
                        ..records_view(m0)[ev.loc]
                    }));
                }
            },
        }
    }

    /// Detect of `class` at `ev`: opens the record if needed, replaces its
    /// recipe, and hard-arms it while the budget lasts.
    fn note_class(&mut self, ev: AccessEvent, class: EdgeClass, peer: Option<TxIdx>) -> (r: Recipe)
        ensures
            final(self)@ == note_class_spec(old(self)@, ev.loc, ev.tx, ev.k, class, peer),
            r == recipe_of(class),
    {
        match class {
            EdgeClass::Raw => {
                self.counters.raw_n = inc_counter(self.counters.raw_n);
            },
            EdgeClass::Waw => {
                self.counters.waw_n = inc_counter(self.counters.waw_n);
            },
            EdgeClass::War => {
                self.counters.war_n = inc_counter(self.counters.war_n);
            },
        }
        let ghost m0 = self.intra;
        let mut rec = match intra_take(&mut self.intra, ev.loc) {
            Some(r) => r,
            None => IntraRecord::new(class, ev.tx, ev.k, peer),
        };
        let recipe = rec.apply_detect(class, ev.tx, ev.k, peer);
        if !rec.hard_armed && self.counters.armed_n < self.budget {
            rec.hard_armed = true;
            self.counters.armed_n = self.counters.armed_n + 1;
        }
        let ghost r = rec;
        intra_put(&mut self.intra, ev.loc, rec);
        proof {
            lemma_put_view(m0, self.intra, ev.loc, r);
        }
        recipe
    }

    /// RAW at a read: the detect overrides any sticky recipe.
    pub fn detect_raw(&mut self, ev: AccessEvent, peer: TxIdx) -> (r: Recipe)
        ensures
            final(self)@ == note_class_spec(old(self)@, ev.loc, ev.tx, ev.k, EdgeClass::Raw, Some(peer)),
            r == Recipe::WaitTrueVersion,
    {
        self.note_class(ev, EdgeClass::Raw, Some(peer))
    }

    /// WAW at a committed write.
    pub fn detect_waw(&mut self, ev: AccessEvent, peer: Option<TxIdx>) -> (r: Recipe)
        ensures
            final(self)@ == note_class_spec(old(self)@, ev.loc, ev.tx, ev.k, EdgeClass::Waw, peer),
            r == Recipe::OrderedTip,
    {
        self.note_class(ev, EdgeClass::Waw, peer)
    }

    /// WAR: pin `(reader, writer)` so the reader's tip stays in the record.
    pub fn detect_war(&mut self, ev: AccessEvent, reader: TxIdx, writer: TxIdx) -> (r: Recipe)
        ensures
            final(self)@ == note_class_spec(old(self)@, ev.loc, reader, ev.k, EdgeClass::War, Some(writer)),
            r == Recipe::RetainHistory,
    {
        self.note_class(AccessEvent { tx: reader, ..ev }, EdgeClass::War, Some(writer))
    }

    /// A write by the chain writer `tx` at the chain location publishes it
    /// and queues its successor.
    fn mark_ordered_published(&mut self, loc: MemoryLocationHash, tx: TxIdx)
        requires
            spine_wf(old(self)@),
        ensures
            final(self)@ == mark_published_spec(old(self)@, loc, tx),
    {
        if self.ordered_loc != loc {
            return;
        }
        let i = match index_of(&self.ordered_writers, tx) {
            None => {
                return;
            },
            Some(i) => i,
        };
        proof {
            lemma_chain_pos(self@, tx, i as int);
        }
        tx_set_insert(&mut self.published, tx);
        if i < self.ordered_writers.len() - 1 {
            self.handoff = self.ordered_writers[i + 1];
            self.counters.ordered_handoff = inc_counter(self.counters.ordered_handoff);
        }
    }
}

fn last_below_exec(v: &Vec<TxIdx>, tx: TxIdx) -> (r: Option<TxIdx>)
    ensures
        r == last_below(v@, tx),
{
    let mut i: usize = v.len();
    assert(v@.take(v@.len() as int) =~= v@);
    while i > 0
        invariant
            i <= v@.len(),
            last_below(v@, tx) == last_below(v@.take(i as int), tx),
        decreases i,
    {
        assert(v@.take(i as int).drop_last() =~= v@.take(i - 1));
        assert(v@.take(i as int).last() == v@[i - 1]);
        if v[i - 1] < tx {
            return Some(v[i - 1]);
        }
        i = i - 1;
    }
    assert(v@.take(0) =~= Seq::<TxIdx>::empty());
    None
}

fn below_exec(v: &Vec<TxIdx>, tx: TxIdx) -> (r: Vec<TxIdx>)
    ensures
        r@ == below(v@, tx),
{
    let mut r: Vec<TxIdx> = Vec::new();
    let mut i: usize = 0;
    assert(v@.take(0) =~= Seq::<TxIdx>::empty());
    while i < v.len()
        invariant
            i <= v@.len(),
            r@ == below(v@.take(i as int), tx),
        decreases v.len() - i,
    {
        assert(v@.take(i + 1).drop_last() =~= v@.take(i as int));
        assert(v@.take(i + 1).last() == v@[i as int]);
        if v[i] < tx {
            r.push(v[i]);
        }
        i = i + 1;
    }
    assert(v@.take(v@.len() as int) =~= v@);
    r
}

impl AccessSpine {
    /// One committed write of `tx` on `loc`.
    fn write_one(&mut self, tx: TxIdx, loc: MemoryLocationHash)
        requires
            spine_wf(old(self)@),
        ensures
            final(self)@ == write_one_spec(old(self)@, tx, loc),
            spine_wf(final(self)@),
    {
        let ghost v0 = self@;
        let existing = intra_get(&self.intra, loc);
        let peer = match &existing {
            Some(r) => last_below_exec(&r.writers, tx),
            None => None,
        };
        let ev = AccessEvent { tx, loc, k: 0, depth: 0, mode: AccessMode::Write };
        if peer.is_some() {
            self.detect_waw(ev, peer);
        } else if existing.is_none() {
            let ghost m0 = self.intra;
            let rec = IntraRecord::new(EdgeClass::Waw, tx, 0, None);
            let ghost r = rec;
            intra_put(&mut self.intra, loc, rec);
            proof {
                lemma_put_view(m0, self.intra, loc, r);
            }
        } else {
            let ghost m0 = self.intra;
            match intra_take(&mut self.intra, loc) {
                Some(mut rec) => {
                    push_unique(&mut rec.writers, tx);
                    let ghost r = rec;
                    intra_put(&mut self.intra, loc, rec);
                    proof {
                        lemma_put_view(m0, self.intra, loc, r);
                        assert(r@ == (IntraView {
                            writers: push_unique_spec(v0.records[loc].writers, tx),
                            ..v0.records[loc]
                        }));
                    }
                },
                None => {},
            }
        }
        let ghost v1 = self@;
        assert(v1.records.dom().contains(loc));
        let readers: Vec<TxIdx> = match intra_get(&self.intra, loc) {
            Some(r) => below_exec(&r.readers, tx),
            None => Vec::new(),
        };
        assert(readers@ == below(v1.records[loc].readers, tx));
        let mut i: usize = 0;
        assert(readers@.take(0) =~= Seq::<TxIdx>::empty());
        while i < readers.len()
            invariant
                i <= readers@.len(),
                self@ == war_fold(v1, loc, tx, readers@.take(i as int)),
                spine_wf(self@),
                self@.ordered_writers == v0.ordered_writers,
                self@.ordered_loc == v0.ordered_loc,
            decreases readers.len() - i,
        {
            let ev = AccessEvent { tx, loc, k: 0, depth: 0, mode: AccessMode::Write };
            self.detect_war(ev, readers[i], tx);
            assert(readers@.take(i + 1).drop_last() =~= readers@.take(i as int));
            i = i + 1;
        }
        assert(readers@.take(readers@.len() as int) =~= readers@);
        self.mark_ordered_published(loc, tx);
    }

    /// Committed writes of `tx`, in order: each is a WAW against the last
    /// earlier writer of its location and a WAR against its earlier readers,
    /// and publishes `tx` on the carried chain.
    pub fn on_write_effects(&mut self, tx: TxIdx, locs: &[MemoryLocationHash])
        requires
            spine_wf(old(self)@),
        ensures
            final(self)@ == write_effects_fold(old(self)@, tx, locs@),
            spine_wf(final(self)@),
    {
        let ghost v0 = self@;
        let mut i: usize = 0;
        assert(locs@.take(0) =~= Seq::<u64>::empty());
        while i < locs.len()
            invariant
                i <= locs@.len(),
                self@ == write_effects_fold(v0, tx, locs@.take(i as int)),
                spine_wf(self@),
            decreases locs.len() - i,
        {
            self.write_one(tx, locs[i]);
            assert(locs@.take(i + 1).drop_last() =~= locs@.take(i as int));
            i = i + 1;
        }
        assert(locs@.take(locs@.len() as int) =~= locs@);
    }
}

proof fn lemma_push_to_set(s: Seq<TxIdx>, x: TxIdx)
    ensures
        s.push(x).to_set() == s.to_set().insert(x),
{
    assert forall|y: TxIdx| s.push(x).contains(y) implies s.contains(y) || y == x by {
        let j = choose|j: int| 0 <= j < s.push(x).len() && s.push(x)[j] == y;
        if j < s.len() {
            assert(s[j] == y);
        }
    }
    assert forall|y: TxIdx| s.contains(y) implies s.push(x).contains(y) by {
        let j = choose|j: int| 0 <= j < s.len() && s[j] == y;
        assert(s.push(x)[j] == y);
    }
    assert(s.push(x)[s.len() as int] == x);
    assert(s.push(x).to_set() =~= s.to_set().insert(x));
}

/// The distinct entries of `v`, ascending.
pub fn sorted_distinct(v: &Vec<TxIdx>) -> (r: Vec<TxIdx>)
    ensures
        strictly_ascending(r@),
        r@.to_set() == v@.to_set(),
{
    let mut r: Vec<TxIdx> = Vec::new();
    let mut i: usize = 0;
    assert(r@.to_set() =~= v@.take(0).to_set());
    while i < v.len()
        invariant
            i <= v@.len(),
            strictly_ascending(r@),
            r@.to_set() == v@.take(i as int).to_set(),
        decreases v.len() - i,
    {
        let x = v[i];
        let mut p: usize = 0;
        while p < r.len() && r[p] < x
            invariant
                p <= r@.len(),
                forall|j: int| 0 <= j < p ==> r@[j] < x,
            decreases r.len() - p,
        {
            p = p + 1;
        }
        let ghost old_r = r@;
        if p < r.len() && r[p] == x {
            assert(r@.contains(x));
        } else {
            r.insert(p, x);
            assert(strictly_ascending(r@)) by {
                assert forall|a: int, b: int| 0 <= a < b < r@.len() implies r@[a] < r@[b] by {
                    if b < p {
                    } else if a < p && b == p {
                    } else if a < p && b > p {
                        assert(old_r[b - 1] == r@[b]);
                        if p < old_r.len() {
                            assert(old_r[p as int] >= x);
                            assert(old_r[p as int] != x);
                            if b - 1 > p {
                                assert(old_r[p as int] < old_r[b - 1]);
                            }
                        }
                    } else if a == p {
                        assert(old_r[b - 1] == r@[b]);
                        assert(p < old_r.len());
                        assert(old_r[p as int] >= x && old_r[p as int] != x);
                        if b - 1 > p {
                            assert(old_r[p as int] < old_r[b - 1]);
                        }
                    } else {
                        assert(old_r[a - 1] == r@[a]);
                        assert(old_r[b - 1] == r@[b]);
                    }
                }
            }
            assert(r@.to_set() =~= old_r.to_set().insert(x)) by {
                assert forall|y: TxIdx| r@.contains(y) implies old_r.contains(y) || y == x by {
                    let j = choose|j: int| 0 <= j < r@.len() && r@[j] == y;
                    if j < p {
                        assert(old_r[j] == y);
                    } else if j > p {
                        assert(old_r[j - 1] == y);
                    }
                }
                assert forall|y: TxIdx| old_r.contains(y) implies r@.contains(y) by {
                    let j = choose|j: int| 0 <= j < old_r.len() && old_r[j] == y;
                    if j < p {
                        assert(r@[j] == y);
                    } else {
                        assert(r@[j + 1] == y);
                    }
                }
                assert(r@[p as int] == x);
            }
        }
        assert(v@.take(i + 1) =~= v@.take(i as int).push(x));
        proof {
            lemma_push_to_set(v@.take(i as int), x);
        }
        i = i + 1;
    }
    assert(v@.take(v@.len() as int) =~= v@);
    r
}

/// Number of distinct writers of a record.
pub open spec fn distinct_writers(r: IntraView) -> nat {
    r.writers.to_set().len()
}

/// What the longest writer chain of a block may be, whatever order the
/// map hands its locations out in: `None` when no location has two writers;
/// else a location with two writers or more, its distinct writers
/// ascending, and no location with more distinct writers.
pub open spec fn is_longest_chain(v: SpineView, r: Option<(u64, Seq<TxIdx>)>) -> bool {
    match r {
        None => forall|k: u64| #[trigger] v.records.dom().contains(k) ==> v.records[k].writers.len() < 2,
        Some((k, w)) => {
            &&& v.records.dom().contains(k)
            &&& v.records[k].writers.len() >= 2
            &&& strictly_ascending(w)
            &&& w.to_set() == v.records[k].writers.to_set()
            &&& forall|k2: u64|
                #[trigger] v.records.dom().contains(k2) && v.records[k2].writers.len() >= 2
                    ==> distinct_writers(v.records[k2]) <= w.len()
        },
    }
}

proof fn lemma_ascending_len(s: Seq<TxIdx>)
    requires
        strictly_ascending(s),
    ensures
        s.to_set().len() == s.len(),
{
    assert(s.no_duplicates()) by {
        assert forall|i: int, j: int| 0 <= i < s.len() && 0 <= j < s.len() && i != j implies s[i] != s[j] by {
            if i < j {
                assert(s[i] < s[j]);
            } else {
                assert(s[j] < s[i]);
            }
        }
    }
    s.unique_seq_to_set();
}

/// Retained pins over the locations `ks`, saturating.
pub open spec fn pins_over(records: Map<u64, IntraView>, ks: Seq<u64>) -> usize
    decreases ks.len(),
{
    if ks.len() == 0 {
        0
    } else {
        let prev = pins_over(records, ks.drop_last());
        let n = records[ks.last()].retained.len();
        if prev + n > usize::MAX {
            usize::MAX
        } else {
            (prev + n) as usize
        }
    }
}

/// What a block leaves behind: its report, its edge counts, the morph they
/// give, and the longest writer chain observed.
pub struct SpineEnd {
    pub report: SpineReport,
    pub raw: u32,
    pub waw: u32,
    pub war: u32,
    pub morph: MorphClass,
    pub war_presence: bool,
    pub chain: Option<(u64, Vec<TxIdx>)>,
}

impl AccessSpine {
    /// Longest writer list of the block, ascending.
    fn longest_writer_chain(&self) -> (r: Option<(u64, Vec<TxIdx>)>)
        ensures
            is_longest_chain(
                self@,
                match r {
                    Some(p) => Some((p.0, p.1@)),
                    None => None,
                },
            ),
    {
        let keys = intra_keys(&self.intra);
        let ghost v = self@;
        let mut best: Option<(u64, Vec<TxIdx>)> = None;
        let mut i: usize = 0;
        while i < keys.len()
            invariant
                i <= keys@.len(),
                v == self@,
                keys@.to_set() == v.records.dom(),
                match best {
                    Some(p) => {
                        &&& v.records.dom().contains(p.0)
                        &&& v.records[p.0].writers.len() >= 2
                        &&& strictly_ascending(p.1@)
                        &&& p.1@.to_set() == v.records[p.0].writers.to_set()
                    },
                    None => true,
                },
                forall|j: int|
                    0 <= j < i && v.records[#[trigger] keys@[j]].writers.len() >= 2 ==> match best {
                        Some(p) => distinct_writers(v.records[keys@[j]]) <= p.1@.len(),
                        None => false,
                    },
            decreases keys.len() - i,
        {
            let k = keys[i];
            assert(keys@.to_set().contains(k));
            match intra_get(&self.intra, k) {
                Some(rec) => {
                    if rec.writers.len() >= 2 {
                        let w = sorted_distinct(&rec.writers);
                        proof {
                            lemma_ascending_len(w@);
                        }
                        let better = match &best {
                            None => true,
                            Some(p) => w.len() > p.1.len(),
                        };
                        if better {
                            best = Some((k, w));
                        }
                    }
                },
                None => {},
            }
            i = i + 1;
        }
        proof {
            assert forall|k2: u64|
                #[trigger] v.records.dom().contains(k2) && v.records[k2].writers.len() >= 2 implies match best {
                Some(p) => distinct_writers(v.records[k2]) <= p.1@.len(),
                None => false,
            } by {
                assert(keys@.to_set().contains(k2));
                let j = choose|j: int| 0 <= j < keys@.len() && keys@[j] == k2;
                assert(v.records[keys@[j]].writers.len() >= 2);
            }
        }
        best
    }

    /// Close the block: the report of its counters and pins, its edge
    /// counts and morph, and the longest writer chain it observed. The
    /// report's `prior_revoked` is left at 0 for the caller, whose revoke
    /// rests on rate statistics of its own.
    pub fn end_block(&self) -> (r: SpineEnd)
        requires
            (self@.counters.raw_n as u32) + (self@.counters.waw_n as u32) + (self@.counters.war_n as u32)
                <= u32::MAX,
        ensures
            r.raw == self@.counters.raw_n as u32,
            r.waw == self@.counters.waw_n as u32,
            r.war == self@.counters.war_n as u32,
            r.morph == morph_spec(r.raw as int, r.waw as int, r.war as int),
            r.war_presence == (r.war > 0),
            is_longest_chain(
                self@,
                match r.chain {
                    Some(p) => Some((p.0, p.1@)),
                    None => None,
                },
            ),
            exists|ks: Seq<u64>|
                ks.no_duplicates() && ks.to_set() == self@.records.dom() && r.report.retained_pins
                    == pins_over(self@.records, ks),
            r.report == (SpineReport {
                access_events: self@.counters.access_events,
                yield_waits_ok: self@.counters.yield_ok,
                yield_deadlocks: self@.counters.yield_deadlock,
                raw_n: r.raw as usize,
                waw_n: r.waw as usize,
                war_n: r.war as usize,
                armed_locs: self@.counters.armed_n,
                retained_pins: r.report.retained_pins,
                prior_revoked: 0,
                prior_radar_only: 1,
                ordered_defer: self@.counters.ordered_defer,
                ordered_handoff: self@.counters.ordered_handoff,
                retain_keeps: self@.counters.retain_keeps,
                tip_already: self@.counters.tip_already,
                chain_len: self@.ordered_writers.len() as usize,
                spine_cores_max: self@.counters.spine_cores_max,
                spine_cores_end: if self@.spine_owner != NO_TX { 1 } else { 0 },
                handoff_claims: self@.counters.handoff_claims,
                claim_denied: self@.counters.claim_denied,
                span_head: usize::MAX,
                span_tail: usize::MAX,
                ..zero_report()
            }),
    {
        let raw = self.counters.raw_n as u32;
        let waw = self.counters.waw_n as u32;
        let war = self.counters.war_n as u32;
        let morph = morph_of(raw, waw, war);
        let chain = self.longest_writer_chain();
        let keys = intra_keys(&self.intra);
        let ghost v = self@;
        let mut pins: usize = 0;
        let mut i: usize = 0;
        assert(keys@.take(0) =~= Seq::<u64>::empty());
        while i < keys.len()
            invariant
                i <= keys@.len(),
                v == self@,
                keys@.to_set() == v.records.dom(),
                pins == pins_over(v.records, keys@.take(i as int)),
            decreases keys.len() - i,
        {
            let k = keys[i];
            assert(keys@.to_set().contains(k));
            assert(keys@.take(i + 1).drop_last() =~= keys@.take(i as int));
            let n: usize = match intra_get(&self.intra, k) {
                Some(rec) => rec.retained.len(),
                None => 0,
            };
            pins = if n > usize::MAX - pins {
                usize::MAX
            } else {
                pins + n
            };
            i = i + 1;
        }
        assert(keys@.take(keys@.len() as int) =~= keys@);
        let report = SpineReport {
            access_events: self.counters.access_events,
            yield_waits_ok: self.counters.yield_ok,
            yield_deadlocks: self.counters.yield_deadlock,
            raw_n: raw as usize,
            waw_n: waw as usize,
            war_n: war as usize,
            armed_locs: self.counters.armed_n,
            retained_pins: pins,
            prior_revoked: 0,
            prior_radar_only: 1,
            ordered_defer: self.counters.ordered_defer,
            ordered_handoff: self.counters.ordered_handoff,
            retain_keeps: self.counters.retain_keeps,
            tip_already: self.counters.tip_already,
            chain_len: self.ordered_writers.len(),
            spine_cores_max: self.counters.spine_cores_max,
            spine_cores_end: if self.spine_owner != NO_TX {
                1
            } else {
                0
            },
            handoff_claims: self.counters.handoff_claims,
            claim_denied: self.counters.claim_denied,
            exact_wakes: 0,
            idle_parks: 0,
            help_releases: 0,
            steal_n: 0,
            seed_owner_local_pops: 0,
            steal_top_ns: 0,
            end_block_ns: 0,
            exact_wake_missed_nopark: 0,
            idle_spins: 0,
            admit_seed_ns: 0,
            join_wait_ns: 0,
            join_mark_origin_ns: 0,
            idle_ns: 0,
            heal_ns: 0,
            post_exec_validate_ns: 0,
            post_exec_in_span_ns: 0,
            span_head: usize::MAX,
            span_tail: usize::MAX,
        };
        SpineEnd { report, raw, waw, war, morph, war_presence: war > 0, chain }
    }
}

/// A WAR pin, once recorded on a location, survives every later detect
/// on it (of any class, by any transaction).
pub proof fn law_pins_survive_detect(
    r: IntraView,
    class: EdgeClass,
    tx: TxIdx,
    k: u16,
    peer: Option<TxIdx>,
    pin: (TxIdx, TxIdx),
)
    requires
        r.retained.contains(pin),
    ensures
        detect_spec(r, class, tx, k, peer).retained.contains(pin),
{
    match (class, peer) {
        (EdgeClass::War, Some(p)) => {
            let j = choose|j: int| 0 <= j < r.retained.len() && r.retained[j] == pin;
            if !(r.retained.contains((tx, p)) || r.retained.len() >= LIST_CAP) {
                assert(r.retained.push((tx, p))[j] == pin);
            }
        },
        _ => {},
    }
}

impl AccessSpine {
    /// A copy of the record of `loc`, if the block has one.
    pub fn record_at(&self, loc: MemoryLocationHash) -> (r: Option<IntraRecord>)
        ensures
            match r {
                Some(rec) => self@.records.dom().contains(loc) && rec@ == self@.records[loc],
                None => !self@.records.dom().contains(loc),
            },
    {
        intra_get(&self.intra, loc)
    }

    /// Number of hard-armed locations.
    pub fn armed_locs(&self) -> (r: usize)
        ensures
            r == self@.counters.armed_n,
    {
        self.counters.armed_n
    }
}


/// Most locations the radar carries.
pub const HOT_LOCS_MAX: usize = 16;

/// Heat of a location: its writers plus its readers.
pub open spec fn heat_of(r: IntraView) -> usize {
    if r.writers.len() + r.readers.len() > usize::MAX {
        usize::MAX
    } else {
        (r.writers.len() + r.readers.len()) as usize
    }
}

/// `p` is a recorded location with its heat, and the heat is not zero.
pub open spec fn is_hot_pair(v: SpineView, p: (u64, usize)) -> bool {
    &&& v.records.dom().contains(p.0)
    &&& p.1 == heat_of(v.records[p.0])
    &&& p.1 > 0
}

/// How many of `locs` have a record this block.
pub open spec fn count_recorded(v: SpineView, locs: Seq<u64>) -> nat
    decreases locs.len(),
{
    if locs.len() == 0 {
        0
    } else {
        count_recorded(v, locs.drop_last()) + if v.records.dom().contains(locs.last()) { 1nat } else { 0nat }
    }
}

proof fn lemma_count_recorded_le(v: SpineView, locs: Seq<u64>)
    ensures
        count_recorded(v, locs) <= locs.len(),
    decreases locs.len(),
{
    if locs.len() > 0 {
        lemma_count_recorded_le(v, locs.drop_last());
    }
}

/// Index of a largest heat.
fn max_heat_index(rest: &Vec<(u64, usize)>) -> (r: usize)
    requires
        rest@.len() > 0,
    ensures
        r < rest@.len(),
        forall|j: int| 0 <= j < rest@.len() ==> #[trigger] rest@[j].1 <= rest@[r as int].1,
{
    let mut best: usize = 0;
    let mut i: usize = 1;
    while i < rest.len()
        invariant
            1 <= i <= rest@.len(),
            best < i,
            forall|j: int| 0 <= j < i ==> #[trigger] rest@[j].1 <= rest@[best as int].1,
        decreases rest@.len() - i,
    {
        if rest[i].1 > rest[best].1 {
            best = i;
        }
        i = i + 1;
    }
    best
}

impl AccessSpine {
    /// The hottest locations of the block, at most sixteen, hottest first:
    /// each recorded, with its heat, none cold and none twice. A hot
    /// location left out is no hotter than the last one kept, and then
    /// sixteen were kept.
    pub fn hot_locs(&self) -> (r: Vec<(u64, usize)>)
        ensures
            r@.len() <= HOT_LOCS_MAX,
            forall|i: int| 0 <= i < r@.len() ==> is_hot_pair(self@, #[trigger] r@[i]),
            forall|i: int, j: int| 0 <= i < j < r@.len() ==> (#[trigger] r@[i]).0 != (#[trigger] r@[j]).0 && r@[i].1 >= r@[j].1,
            forall|k: u64|
                #[trigger] self@.records.dom().contains(k) && heat_of(self@.records[k]) > 0 && (forall|i: int| 0 <= i < r@.len() ==> r@[i].0 != k)
                    ==> r@.len() == HOT_LOCS_MAX && heat_of(self@.records[k]) <= r@[HOT_LOCS_MAX - 1].1,
    {
        let ghost v = self@;
        let keys = intra_keys(&self.intra);
        let mut rest: Vec<(u64, usize)> = Vec::new();
        let mut i: usize = 0;
        while i < keys.len()
            invariant
                i <= keys@.len(),
                v == self@,
                keys@.no_duplicates(),
                keys@.to_set() == v.records.dom(),
                forall|j: int| 0 <= j < rest@.len() ==> is_hot_pair(v, #[trigger] rest@[j]),
                forall|j: int| 0 <= j < rest@.len() ==> keys@.take(i as int).contains(#[trigger] rest@[j].0),
                forall|a: int, b: int| 0 <= a < b < rest@.len() ==> (#[trigger] rest@[a]).0 != (#[trigger] rest@[b]).0,
                forall|p: int| 0 <= p < i && heat_of(v.records[#[trigger] keys@[p]]) > 0 ==> exists|j: int| 0 <= j < rest@.len() && rest@[j].0 == keys@[p],
            decreases keys@.len() - i,
        {
            let k = keys[i];
            assert(keys@.to_set().contains(k));
            assert(!keys@.take(i as int).contains(k)) by {
                if keys@.take(i as int).contains(k) {
                    let q = choose|q: int| 0 <= q < i && keys@.take(i as int)[q] == k;
                    assert(keys@[q] == keys@[i as int]);
                }
            }
            let ghost before = rest@;
            match intra_get(&self.intra, k) {
                Some(rec) => {
                    let w = rec.writers.len();
                    let h: usize = if rec.readers.len() > usize::MAX - w { usize::MAX } else { w + rec.readers.len() };
                    if h > 0 {
                        rest.push((k, h));
                    }
                },
                None => {},
            }
            proof {
                assert forall|j: int| 0 <= j < rest@.len() implies keys@.take(i + 1).contains(#[trigger] rest@[j].0) by {
                    if j < before.len() {
                        let q = choose|q: int| 0 <= q < i && keys@.take(i as int)[q] == rest@[j].0;
                        assert(keys@.take(i + 1)[q] == rest@[j].0);
                    } else {
                        assert(keys@.take(i + 1)[i as int] == k);
                    }
                }
                assert forall|p: int| 0 <= p < i + 1 && heat_of(v.records[#[trigger] keys@[p]]) > 0 implies exists|j: int| 0 <= j < rest@.len() && rest@[j].0 == keys@[p] by {
                    if p < i {
                        let j = choose|j: int| 0 <= j < before.len() && before[j].0 == keys@[p];
                        assert(rest@[j].0 == keys@[p]);
                    } else {
                        assert(rest@[rest@.len() - 1].0 == keys@[p]);
                    }
                }
            }
            i = i + 1;
        }
        let mut out: Vec<(u64, usize)> = Vec::new();
        while out.len() < HOT_LOCS_MAX && rest.len() > 0
            invariant
                v == self@,
                out@.len() <= HOT_LOCS_MAX,
                forall|j: int| 0 <= j < out@.len() ==> is_hot_pair(v, #[trigger] out@[j]),
                forall|j: int| 0 <= j < rest@.len() ==> is_hot_pair(v, #[trigger] rest@[j]),
                forall|a: int, b: int| 0 <= a < b < out@.len() ==> (#[trigger] out@[a]).0 != (#[trigger] out@[b]).0 && out@[a].1 >= out@[b].1,
                forall|a: int, b: int| 0 <= a < b < rest@.len() ==> (#[trigger] rest@[a]).0 != (#[trigger] rest@[b]).0,
                forall|a: int, b: int| 0 <= a < out@.len() && 0 <= b < rest@.len() ==> (#[trigger] out@[a]).0 != (#[trigger] rest@[b]).0 && out@[a].1 >= rest@[b].1,
                forall|k: u64| #[trigger] v.records.dom().contains(k) && heat_of(v.records[k]) > 0 ==>
                    (exists|j: int| 0 <= j < out@.len() && out@[j].0 == k) || (exists|j: int| 0 <= j < rest@.len() && rest@[j].0 == k),
            decreases rest@.len(),
        {
            let m = max_heat_index(&rest);
            let ghost r0 = rest@;
            let ghost o0 = out@;
            let p = rest.remove(m);
            out.push(p);
            proof {
                assert forall|j: int| 0 <= j < rest@.len() implies #[trigger] rest@[j] == (if j < m { r0[j] } else { r0[j + 1] }) by {}
                assert forall|k: u64| #[trigger] v.records.dom().contains(k) && heat_of(v.records[k]) > 0 implies
                    (exists|j: int| 0 <= j < out@.len() && out@[j].0 == k) || (exists|j: int| 0 <= j < rest@.len() && rest@[j].0 == k) by {
                    if exists|j: int| 0 <= j < o0.len() && o0[j].0 == k {
                        let j = choose|j: int| 0 <= j < o0.len() && o0[j].0 == k;
                        assert(out@[j].0 == k);
                    } else {
                        let j = choose|j: int| 0 <= j < r0.len() && r0[j].0 == k;
                        if j == m {
                            assert(out@[o0.len() as int].0 == k);
                        } else if j < m {
                            assert(rest@[j].0 == k);
                        } else {
                            assert(rest@[j - 1].0 == k);
                        }
                    }
                }
                assert forall|a: int, b: int| 0 <= a < out@.len() && 0 <= b < rest@.len() implies (#[trigger] out@[a]).0 != (#[trigger] rest@[b]).0 && out@[a].1 >= rest@[b].1 by {
                    let bb = if b < m { b } else { b + 1 };
                    assert(rest@[b] == r0[bb]);
                    if a < o0.len() {
                        assert(out@[a] == o0[a]);
                    } else {
                        assert(out@[a] == r0[m as int]);
                        assert(r0[bb].1 <= r0[m as int].1);
                    }
                }
                assert forall|a: int, b: int| 0 <= a < b < rest@.len() implies (#[trigger] rest@[a]).0 != (#[trigger] rest@[b]).0 by {
                    let aa = if a < m { a } else { a + 1 };
                    let bb = if b < m { b } else { b + 1 };
                    assert(rest@[a] == r0[aa]);
                    assert(rest@[b] == r0[bb]);
                }
                assert forall|a: int, b: int| 0 <= a < b < out@.len() implies (#[trigger] out@[a]).0 != (#[trigger] out@[b]).0 && out@[a].1 >= out@[b].1 by {
                    if b == o0.len() {
                        assert(out@[a] == o0[a]);
                        assert(out@[b] == r0[m as int]);
                    }
                }
            }
        }
        proof {
            assert forall|k: u64|
                #[trigger] v.records.dom().contains(k) && heat_of(v.records[k]) > 0 && (forall|i: int| 0 <= i < out@.len() ==> out@[i].0 != k)
                    implies out@.len() == HOT_LOCS_MAX && heat_of(v.records[k]) <= out@[HOT_LOCS_MAX - 1].1 by {
                let j = choose|j: int| 0 <= j < rest@.len() && rest@[j].0 == k;
                assert(out@[HOT_LOCS_MAX - 1].1 >= rest@[j].1);
            }
        }
        out
    }

    /// How many of `locs` have a record this block.
    pub fn radar_hits(&self, locs: &Vec<u64>) -> (r: usize)
        ensures
            r == count_recorded(self@, locs@),
    {
        let mut n: usize = 0;
        let mut i: usize = 0;
        while i < locs.len()
            invariant
                i <= locs@.len(),
                n == count_recorded(self@, locs@.take(i as int)),
            decreases locs@.len() - i,
        {
            proof {
                assert(locs@.take(i + 1).drop_last() == locs@.take(i as int));
                lemma_count_recorded_le(self@, locs@.take(i as int));
            }
            if intra_get(&self.intra, locs[i]).is_some() {
                n = n + 1;
            }
            i = i + 1;
        }
        proof {
            assert(locs@.take(locs@.len() as int) == locs@);
        }
        n
    }
}

/// A storm-to-quiet swing between two blocks: at least 80 edges before and
/// at most 5 after. The edge sums must not overflow.
pub fn storm_of(raw_i: u32, waw_i: u32, war_i: u32, raw_j: u32, waw_j: u32, war_j: u32) -> (r: bool)
    requires
        raw_i + waw_i + war_i <= u32::MAX,
        raw_j + waw_j + war_j <= u32::MAX,
    ensures
        r == (raw_i + waw_i + war_i >= 80 && raw_j + waw_j + war_j <= 5),
{
    let sum_i = raw_i + waw_i + war_i;
    let sum_j = raw_j + waw_j + war_j;
    sum_i >= 80 && sum_j <= 5
}

} // verus!
