//! Per-access avoid arm of a location: optimistic (no entry), wait once,
//! or never wait.
//!
//! One wait per `(transaction, location, writer)` until that writer
//! publishes or is done; a second blocking of the same triple is refused.
//! Beneficiary and lazy locations never wait.

use vstd::prelude::*;
use dashmap::{DashMap, DashSet};
use crate::types::{MemoryLocationHash, TxIdx};

verus! {

/// Avoid arm of one location. `Opt` is the absence of an entry.
#[derive(Debug, Clone, Copy, PartialEq, Eq, Structural)]
pub enum AccessArm {
    Opt,
    WaitOnce,
    NeverWait,
}

impl AccessArm {
    /// Decode a stored tag: 2 never waits, 1 waits once, else optimistic.
    pub fn from_tag(tag: u8) -> (r: Self)
        ensures
            r == (if tag == 2 {
                AccessArm::NeverWait
            } else if tag == 1 {
                AccessArm::WaitOnce
            } else {
                AccessArm::Opt
            }),
    {
        match tag {
            2 => AccessArm::NeverWait,
            1 => AccessArm::WaitOnce,
            _ => AccessArm::Opt,
        }
    }

    pub fn tag(self) -> (r: u8)
        ensures
            r == tag_of(self),
    {
        match self {
            AccessArm::Opt => 0,
            AccessArm::WaitOnce => 1,
            AccessArm::NeverWait => 2,
        }
    }
}

pub open spec fn tag_of(a: AccessArm) -> u8 {
    match a {
        AccessArm::Opt => 0,
        AccessArm::WaitOnce => 1,
        AccessArm::NeverWait => 2,
    }
}

/// What a read does when the multi-version tip is an unfinished writer.
#[derive(Debug, Clone, Copy, PartialEq, Eq, Structural)]
pub enum LiveAct {
    /// Park once; publish or done releases the waiter.
    Block,
    /// Do not park; read the last published value or storage.
    Skip,
    /// The writer already published or finished: read again now.
    Retry,
}

/// A `(transaction, writer, location)` wait, with the indexes narrowed.
#[derive(Debug, Clone, Copy, PartialEq, Eq, Hash, Structural)]
pub struct WaitKey {
    pub tx: u32,
    pub writer: u32,
    pub loc: u64,
}

/// The arm of one location.
#[derive(Debug, Clone, Copy, PartialEq, Eq, Structural)]
pub struct ArmRec {
    pub arm: AccessArm,
    pub k: u32,
    /// Reinforcements this block (early WAW or an actual wait).
    pub hits: u32,
    /// Last observed unfinished predecessor on the location.
    pub peer: TxIdx,
}

/// The arms a map holds, by location.
pub uninterp spec fn arm_recs(m: DashMap<u64, ArmRec>) -> Map<u64, ArmRec>;

/// The waits a wait map holds.
pub uninterp spec fn waited_keys(m: DashMap<WaitKey, u8>) -> Set<WaitKey>;

/// The locations a location set holds.
pub uninterp spec fn loc_members(s: DashSet<u64>) -> Set<u64>;

/// `DashMap::new`.
#[verifier::external_body]
fn arms_new() -> (r: DashMap<u64, ArmRec>)
    ensures
        arm_recs(r).dom().len() == 0,
        arm_recs(r).dom().finite(),
{
    DashMap::new()
}

/// `DashMap::clear`.
#[verifier::external_body]
fn arms_clear(m: &mut DashMap<u64, ArmRec>)
    ensures
        arm_recs(*final(m)).dom().len() == 0,
        arm_recs(*final(m)).dom().finite(),
{
    m.clear();
}

/// `DashMap::get`, copying the arm found.
#[verifier::external_body]
fn arm_get(m: &DashMap<u64, ArmRec>, k: u64) -> (r: Option<ArmRec>)
    ensures
        r == (if arm_recs(*m).dom().contains(k) {
            Some(arm_recs(*m)[k])
        } else {
            None
        }),
{
    m.get(&k).map(|e| *e)
}

/// `DashMap::insert`.
#[verifier::external_body]
fn arm_put(m: &mut DashMap<u64, ArmRec>, k: u64, v: ArmRec)
    ensures
        arm_recs(*final(m)) == arm_recs(*old(m)).insert(k, v),
{
    m.insert(k, v);
}

/// `DashMap::iter`, keeping each key: every location once, in no promised
/// order.
#[verifier::external_body]
fn arm_keys(m: &DashMap<u64, ArmRec>) -> (r: Vec<u64>)
    ensures
        r@.no_duplicates(),
        r@.to_set() == arm_recs(*m).dom(),
{
    m.iter().map(|e| *e.key()).collect()
}

/// `DashMap::new`.
#[verifier::external_body]
fn waited_new() -> (r: DashMap<WaitKey, u8>)
    ensures
        waited_keys(r).len() == 0,
        waited_keys(r).finite(),
{
    DashMap::new()
}

/// `DashMap::clear`.
#[verifier::external_body]
fn waited_clear(m: &mut DashMap<WaitKey, u8>)
    ensures
        waited_keys(*final(m)).len() == 0,
        waited_keys(*final(m)).finite(),
{
    m.clear();
}

/// `DashMap::insert` of a wait; true when it was not there.
#[verifier::external_body]
fn waited_insert(m: &mut DashMap<WaitKey, u8>, key: WaitKey) -> (r: bool)
    ensures
        waited_keys(*final(m)) == waited_keys(*old(m)).insert(key),
        r == !waited_keys(*old(m)).contains(key),
{
    m.insert(key, 1).is_none()
}

/// `DashSet::new`.
#[verifier::external_body]
pub(crate) fn locs_new() -> (r: DashSet<u64>)
    ensures
        loc_members(r).len() == 0,
        loc_members(r).finite(),
{
    DashSet::new()
}

/// `DashSet::clear`.
#[verifier::external_body]
pub(crate) fn locs_clear(s: &mut DashSet<u64>)
    ensures
        loc_members(*final(s)).len() == 0,
        loc_members(*final(s)).finite(),
{
    s.clear();
}

/// `DashSet::insert`; true when the location was not there.
#[verifier::external_body]
pub(crate) fn locs_insert(s: &mut DashSet<u64>, x: u64) -> (r: bool)
    ensures
        loc_members(*final(s)) == loc_members(*old(s)).insert(x),
        r == !loc_members(*old(s)).contains(x),
{
    s.insert(x)
}

/// `DashSet::contains`.
#[verifier::external_body]
pub(crate) fn locs_contains(s: &DashSet<u64>, x: u64) -> (r: bool)
    ensures
        r == loc_members(*s).contains(x),
{
    s.contains(&x)
}

/// No chain location.
pub const NO_LOC: u64 = u64::MAX;

/// Counters of the arm table.
#[derive(Debug, Clone, Copy, PartialEq, Eq, Structural)]
pub struct ArmCounters {
    pub wait_once: usize,
    pub wait_suppressed: usize,
    pub never_wait: usize,
    pub prefix_resume: usize,
    pub prefix_keep_n: usize,
    pub protect_n: usize,
    pub protect_before_opt_n: usize,
    pub replay_after_protect_n: usize,
}

/// The abstract state of the arm table.
pub struct ArmView {
    pub arms: Map<u64, ArmRec>,
    pub waited: Set<WaitKey>,
    pub protected: Set<u64>,
    pub counters: ArmCounters,
    pub any_wait_once: bool,
    pub non_crit_wait: bool,
    pub protect_live: bool,
    pub crit_loc: u64,
    pub crit_writers: Seq<TxIdx>,
    pub prior_loc: u64,
    pub prior_writers: Seq<TxIdx>,
    pub wait_edges: Seq<(TxIdx, TxIdx, u64)>,
}

/// Shared waiter and per-location arms of a block.
pub struct AccessArmTable {
    pub arms: DashMap<u64, ArmRec>,
    pub waited: DashMap<WaitKey, u8>,
    pub protected: DashSet<u64>,
    pub counters: ArmCounters,
    /// Some wait-once arm was installed this block.
    pub any_wait_once: bool,
    /// A wait-once arm sits off the installed chain location.
    pub non_crit_wait: bool,
    pub protect_live: bool,
    /// Learned chain location; `NO_LOC` when none.
    pub crit_loc: u64,
    /// Its writers, ascending.
    pub crit_writers: Vec<TxIdx>,
    /// Previous block's touched location; `NO_LOC` when none.
    pub prior_loc: u64,
    pub prior_writers: Vec<TxIdx>,
    /// Wait edges `(consumer, producer, location)` for the next pick or block.
    pub wait_edges: Vec<(TxIdx, TxIdx, u64)>,
}

impl View for AccessArmTable {
    type V = ArmView;

    open spec fn view(&self) -> ArmView {
        ArmView {
            arms: arm_recs(self.arms),
            waited: waited_keys(self.waited),
            protected: loc_members(self.protected),
            counters: self.counters,
            any_wait_once: self.any_wait_once,
            non_crit_wait: self.non_crit_wait,
            protect_live: self.protect_live,
            crit_loc: self.crit_loc,
            crit_writers: self.crit_writers@,
            prior_loc: self.prior_loc,
            prior_writers: self.prior_writers@,
            wait_edges: self.wait_edges@,
        }
    }
}

pub open spec fn inc(x: usize) -> usize {
    if x == usize::MAX {
        0
    } else {
        (x + 1) as usize
    }
}

pub(crate) fn inc_counter(x: usize) -> (r: usize)
    ensures
        r == inc(x),
{
    if x == usize::MAX {
        0
    } else {
        x + 1
    }
}

pub open spec fn sat_inc_u32(x: u32) -> u32 {
    if x == u32::MAX {
        x
    } else {
        (x + 1) as u32
    }
}

/// Non-decreasing.
pub open spec fn sorted(s: Seq<TxIdx>) -> bool {
    forall|i: int, j: int| 0 <= i <= j < s.len() ==> s[i] <= s[j]
}

/// The table's standing invariant: the chain writers are sorted.
pub open spec fn arm_wf(v: ArmView) -> bool {
    sorted(v.crit_writers)
}

/// The arm is a wait-once arm.
pub open spec fn is_wait_once_rec(a: ArmRec) -> bool {
    a.arm == AccessArm::WaitOnce
}

/// A wait-once arm off the chain location.
pub open spec fn off_chain_wait(v: ArmView, loc: u64) -> bool {
    v.arms.dom().contains(loc) && is_wait_once_rec(v.arms[loc]) && (v.crit_loc == NO_LOC || loc
        != v.crit_loc)
}

/// The wait-once flag after arming `loc`.
pub open spec fn mark_non_crit_spec(v: ArmView, loc: u64) -> bool {
    if v.crit_loc == NO_LOC || v.crit_loc != loc {
        true
    } else {
        v.non_crit_wait
    }
}

/// An early write-after-write template on `loc` at ordinal class `k` with
/// producer `peer`: the location waits once (unless it never waits).
pub open spec fn early_waw_spec(v: ArmView, loc: u64, k: u32, peer: TxIdx) -> ArmView {
    if k == 0 {
        v
    } else {
        let rec = if v.arms.dom().contains(loc) {
            let e = v.arms[loc];
            if e.arm != AccessArm::NeverWait {
                ArmRec {
                    arm: AccessArm::WaitOnce,
                    k,
                    hits: sat_inc_u32(e.hits),
                    peer: if peer > 0 {
                        peer
                    } else {
                        e.peer
                    },
                }
            } else {
                e
            }
        } else {
            ArmRec { arm: AccessArm::WaitOnce, k, hits: 1, peer }
        };
        ArmView {
            arms: v.arms.insert(loc, rec),
            any_wait_once: true,
            non_crit_wait: mark_non_crit_spec(v, loc),
            ..v
        }
    }
}

/// Record a wait edge `consumer <- producer` on `loc` once; only a real
/// earlier producer counts.
pub open spec fn wait_edge_spec(v: ArmView, consumer: TxIdx, producer: TxIdx, loc: u64) -> ArmView {
    if producer == 0 || producer >= consumer || v.wait_edges.contains((consumer, producer, loc)) {
        v
    } else {
        ArmView { wait_edges: v.wait_edges.push((consumer, producer, loc)), ..v }
    }
}

/// The live decision of a read of `loc` by `tx` whose tip is `writer`.
pub open spec fn decide_spec(
    v: ArmView,
    tx: TxIdx,
    loc: u64,
    writer: TxIdx,
    never: bool,
    writer_finished: bool,
) -> (ArmView, LiveAct) {
    let is_never = v.arms.dom().contains(loc) && v.arms[loc].arm == AccessArm::NeverWait;
    if never || is_never {
        (
            ArmView {
                arms: v.arms.insert(loc, ArmRec { arm: AccessArm::NeverWait, k: 1, hits: 1, peer: 0 }),
                counters: ArmCounters { never_wait: inc(v.counters.never_wait), ..v.counters },
                ..v
            },
            LiveAct::Skip,
        )
    } else if writer_finished {
        (v, LiveAct::Retry)
    } else {
        let key = WaitKey { tx: tx as u32, writer: writer as u32, loc };
        if v.waited.contains(key) {
            (
                ArmView {
                    counters: ArmCounters {
                        wait_suppressed: inc(v.counters.wait_suppressed),
                        ..v.counters
                    },
                    ..v
                },
                LiveAct::Skip,
            )
        } else {
            let rec = if v.arms.dom().contains(loc) {
                let e = v.arms[loc];
                ArmRec {
                    arm: AccessArm::WaitOnce,
                    hits: sat_inc_u32(e.hits),
                    peer: if writer > 0 {
                        writer
                    } else {
                        e.peer
                    },
                    ..e
                }
            } else {
                ArmRec { arm: AccessArm::WaitOnce, k: 0, hits: 1, peer: writer }
            };
            (
                ArmView {
                    arms: v.arms.insert(loc, rec),
                    waited: v.waited.insert(key),
                    counters: ArmCounters { wait_once: inc(v.counters.wait_once), ..v.counters },
                    any_wait_once: true,
                    non_crit_wait: mark_non_crit_spec(v, loc),
                    ..v
                },
                LiveAct::Block,
            )
        }
    }
}

/// The chain predecessor of `tx` on `loc`: the last chain writer below it.
pub open spec fn count_below(s: Seq<TxIdx>, tx: TxIdx) -> int
    decreases s.len(),
{
    if s.len() == 0 || s[0] >= tx {
        0
    } else {
        1 + count_below(s.drop_first(), tx)
    }
}

pub open spec fn crit_pred_spec(v: ArmView, tx: TxIdx, loc: u64) -> Option<TxIdx> {
    if v.crit_loc != loc {
        None
    } else {
        let i = count_below(v.crit_writers, tx);
        if i == 0 {
            None
        } else {
            Some(v.crit_writers[i - 1])
        }
    }
}

/// Greatest producer `p` of a wait edge `tx <- p` on `loc` with `0 < p < tx`.
pub open spec fn nearest_edge_pred_spec(edges: Seq<(TxIdx, TxIdx, u64)>, tx: TxIdx, loc: u64) -> Option<TxIdx>
    decreases edges.len(),
{
    if edges.len() == 0 {
        None
    } else {
        let prev = nearest_edge_pred_spec(edges.drop_last(), tx, loc);
        let (c, p, l) = edges.last();
        if c == tx && l == loc && p > 0 && p < tx {
            match prev {
                Some(b) => Some(if b >= p {
                    b
                } else {
                    p
                }),
                None => Some(p),
            }
        } else {
            prev
        }
    }
}

/// The producer a wait-once read of `loc` by `tx` waits for: the chain
/// predecessor, else the arm's peer when it comes before `tx`, else the
/// nearest edge producer.
pub open spec fn wait_once_pred_spec(v: ArmView, tx: TxIdx, loc: u64) -> Option<TxIdx> {
    if crit_pred_spec(v, tx, loc) is Some {
        crit_pred_spec(v, tx, loc)
    } else if v.arms.dom().contains(loc) && v.arms[loc].peer > 0 && v.arms[loc].peer < tx {
        Some(v.arms[loc].peer)
    } else {
        nearest_edge_pred_spec(v.wait_edges, tx, loc)
    }
}

/// The arm a snapshot entry installs: none for an optimistic tag.
pub open spec fn arm_of_tag(tag: u8) -> AccessArm {
    if tag == 2 {
        AccessArm::NeverWait
    } else if tag == 1 {
        AccessArm::WaitOnce
    } else {
        AccessArm::Opt
    }
}

/// Install the first `n` snapshot arms.
pub open spec fn install_arms(v: ArmView, snap: Seq<(u64, u8, u32, TxIdx)>, n: int) -> ArmView
    decreases n,
{
    if n <= 0 {
        v
    } else {
        let prev = install_arms(v, snap, n - 1);
        let (loc, tag, k, peer) = snap[n - 1];
        let arm = arm_of_tag(tag);
        if arm == AccessArm::Opt {
            prev
        } else {
            ArmView {
                arms: prev.arms.insert(loc, ArmRec { arm, k, hits: 0, peer }),
                any_wait_once: prev.any_wait_once || arm == AccessArm::WaitOnce,
                ..prev
            }
        }
    }
}

/// Raise wait-once peers to the producers of the first `n` edges.
pub open spec fn refresh_peers(v: ArmView, edges: Seq<(TxIdx, TxIdx, u64)>, n: int) -> ArmView
    decreases n,
{
    if n <= 0 {
        v
    } else {
        let prev = refresh_peers(v, edges, n - 1);
        let (c, p, loc) = edges[n - 1];
        if p != 0 && prev.arms.dom().contains(loc) && prev.arms[loc].arm == AccessArm::WaitOnce && p
            > prev.arms[loc].peer {
            ArmView { arms: prev.arms.insert(loc, ArmRec { peer: p, ..prev.arms[loc] }), ..prev }
        } else {
            prev
        }
    }
}

/// The wait-once flag recomputed from the arms.
pub open spec fn refresh_non_crit_spec(v: ArmView) -> ArmView {
    ArmView { non_crit_wait: exists|loc: u64| #[trigger] off_chain_wait(v, loc), ..v }
}

/// The counters of a fresh block.
pub open spec fn zero_arm_counters() -> ArmCounters {
    ArmCounters {
        wait_once: 0,
        wait_suppressed: 0,
        never_wait: 0,
        prefix_resume: 0,
        prefix_keep_n: 0,
        protect_n: 0,
        protect_before_opt_n: 0,
        replay_after_protect_n: 0,
    }
}

/// A fresh table's view.
pub open spec fn fresh_view(v: ArmView) -> bool {
    &&& v.arms.dom().len() == 0
    &&& v.arms.dom().finite()
    &&& v.waited.len() == 0
    &&& v.waited.finite()
    &&& v.protected.len() == 0
    &&& v.protected.finite()
    &&& v.counters == zero_arm_counters()
    &&& !v.any_wait_once
    &&& !v.non_crit_wait
    &&& !v.protect_live
    &&& v.crit_loc == NO_LOC
    &&& v.crit_writers.len() == 0
    &&& v.prior_loc == NO_LOC
    &&& v.prior_writers.len() == 0
    &&& v.wait_edges.len() == 0
}

/// The arm a block leaves for the next one: a morph flip decays a wait-once
/// arm that this block never reinforced and that is no template (`k == 0`),
/// unless the block protected its location.
pub open spec fn packed_arm(v: ArmView, loc: u64, flipped: bool) -> AccessArm {
    let e = v.arms[loc];
    if v.protected.contains(loc) && e.arm == AccessArm::WaitOnce {
        e.arm
    } else if flipped && e.arm == AccessArm::WaitOnce && e.hits == 0 && e.k == 0 {
        AccessArm::Opt
    } else {
        e.arm
    }
}

/// The packed arms over the locations `ks`, in that order.
pub open spec fn pack_over(v: ArmView, ks: Seq<u64>, flipped: bool) -> Seq<(u64, u8, u32, TxIdx)>
    decreases ks.len(),
{
    if ks.len() == 0 {
        Seq::empty()
    } else {
        let prev = pack_over(v, ks.drop_last(), flipped);
        let loc = ks.last();
        let a = packed_arm(v, loc, flipped);
        if a == AccessArm::Opt {
            prev
        } else {
            prev.push((loc, tag_of(a), v.arms[loc].k, v.arms[loc].peer))
        }
    }
}

/// Chain the first `n` pairs of `writers` as wait edges on `loc`.
pub open spec fn chain_edges(v: ArmView, writers: Seq<TxIdx>, loc: u64, n: int) -> ArmView
    decreases n,
{
    if n <= 0 {
        v
    } else {
        wait_edge_spec(chain_edges(v, writers, loc, n - 1), writers[n], writers[n - 1], loc)
    }
}

/// The wait edges a protect of `loc` installs, from the chain or the
/// previous block's touchers of `loc`.
pub open spec fn protect_edges_spec(v: ArmView, loc: u64) -> ArmView {
    if v.crit_loc == loc {
        chain_edges(v, v.crit_writers, loc, v.crit_writers.len() - 1)
    } else if v.prior_loc == loc {
        chain_edges(v, v.prior_writers, loc, v.prior_writers.len() - 1)
    } else {
        v
    }
}

/// Wait-once `(location, peer)` pairs before `tx` over the locations `ks`,
/// after the chain pair `first`, each location once.
pub open spec fn peers_over(v: ArmView, tx: TxIdx, ks: Seq<u64>, first: Seq<(u64, TxIdx)>) -> Seq<(u64, TxIdx)>
    decreases ks.len(),
{
    if ks.len() == 0 {
        first
    } else {
        let prev = peers_over(v, tx, ks.drop_last(), first);
        let loc = ks.last();
        let e = v.arms[loc];
        if e.arm == AccessArm::WaitOnce && e.peer > 0 && e.peer < tx && !(exists|j: int|
            0 <= j < prev.len() && (#[trigger] prev[j]).0 == loc) {
            prev.push((loc, e.peer))
        } else {
            prev
        }
    }
}

fn copy_txs(v: &[TxIdx]) -> (r: Vec<TxIdx>)
    ensures
        r@ == v@,
{
    let mut r: Vec<TxIdx> = Vec::new();
    let mut i: usize = 0;
    while i < v.len()
        invariant
            i <= v@.len(),
            r@ == v@.take(i as int),
        decreases v.len() - i,
    {
        r.push(v[i]);
        i = i + 1;
        assert(r@ =~= v@.take(i as int));
    }
    assert(v@.take(v@.len() as int) =~= v@);
    r
}

fn contains_tx(v: &Vec<TxIdx>, x: TxIdx) -> (r: bool)
    ensures
        r == v@.contains(x),
{
    let mut i: usize = 0;
    while i < v.len()
        invariant
            i <= v@.len(),
            forall|j: int| 0 <= j < i ==> v@[j] != x,
        decreases v.len() - i,
    {
        if v[i] == x {
            assert(v@[i as int] == x);
            return true;
        }
        i = i + 1;
    }
    false
}

fn has_edge(v: &Vec<(TxIdx, TxIdx, u64)>, e: (TxIdx, TxIdx, u64)) -> (r: bool)
    ensures
        r == v@.contains(e),
{
    let mut i: usize = 0;
    while i < v.len()
        invariant
            i <= v@.len(),
            forall|j: int| 0 <= j < i ==> v@[j] != e,
        decreases v.len() - i,
    {
        if v[i].0 == e.0 && v[i].1 == e.1 && v[i].2 == e.2 {
            assert(v@[i as int] == e);
            return true;
        }
        i = i + 1;
    }
    false
}

impl AccessArmTable {
    /// An empty table: no arm, no chain.
    pub fn new() -> (r: Self)
        ensures
            fresh_view(r@),
            arm_wf(r@),
    {
        AccessArmTable {
            arms: arms_new(),
            waited: waited_new(),
            protected: locs_new(),
            counters: ArmCounters {
                wait_once: 0,
                wait_suppressed: 0,
                never_wait: 0,
                prefix_resume: 0,
                prefix_keep_n: 0,
                protect_n: 0,
                protect_before_opt_n: 0,
                replay_after_protect_n: 0,
            },
            any_wait_once: false,
            non_crit_wait: false,
            protect_live: false,
            crit_loc: NO_LOC,
            crit_writers: Vec::new(),
            prior_loc: NO_LOC,
            prior_writers: Vec::new(),
            wait_edges: Vec::new(),
        }
    }

    fn mark_non_crit_wait(&mut self, loc: MemoryLocationHash)
        ensures
            final(self)@ == (ArmView { non_crit_wait: mark_non_crit_spec(old(self)@, loc), ..old(self)@ }),
    {
        if self.crit_loc == NO_LOC || self.crit_loc != loc {
            self.non_crit_wait = true;
        }
    }

    /// Same as `note_early_waw` with an observed producer `peer`.
    pub fn note_early_waw_peer(&mut self, loc: MemoryLocationHash, k: u32, peer: TxIdx)
        ensures
            final(self)@ == early_waw_spec(old(self)@, loc, k, peer),
    {
        if k == 0 {
            return;
        }
        let rec = match arm_get(&self.arms, loc) {
            Some(e) => {
                if e.arm != AccessArm::NeverWait {
                    ArmRec {
                        arm: AccessArm::WaitOnce,
                        k,
                        hits: e.hits.saturating_add(1),
                        peer: if peer > 0 {
                            peer
                        } else {
                            e.peer
                        },
                    }
                } else {
                    e
                }
            },
            None => ArmRec { arm: AccessArm::WaitOnce, k, hits: 1, peer },
        };
        arm_put(&mut self.arms, loc, rec);
        self.any_wait_once = true;
        self.mark_non_crit_wait(loc);
    }

    /// A hot early write-after-write template on `loc`: its next read waits
    /// once for a live writer.
    pub fn note_early_waw(&mut self, loc: MemoryLocationHash, k: u32)
        ensures
            final(self)@ == early_waw_spec(old(self)@, loc, k, 0),
    {
        self.note_early_waw_peer(loc, k, 0);
    }

    /// Record a wait edge `consumer <- producer` on `loc`.
    pub fn note_wait_edge(&mut self, consumer: TxIdx, producer: TxIdx, loc: MemoryLocationHash)
        ensures
            final(self)@ == wait_edge_spec(old(self)@, consumer, producer, loc),
    {
        if producer == 0 || producer >= consumer {
            return;
        }
        if !has_edge(&self.wait_edges, (consumer, producer, loc)) {
            self.wait_edges.push((consumer, producer, loc));
        }
    }

    /// A wait-once template with its producer, and the consumer's edge.
    pub fn note_early_waw_edge(&mut self, consumer: TxIdx, loc: MemoryLocationHash, k: u32, peer: TxIdx)
        ensures
            final(self)@ == wait_edge_spec(early_waw_spec(old(self)@, loc, k, peer), consumer, peer, loc),
    {
        self.note_early_waw_peer(loc, k, peer);
        self.note_wait_edge(consumer, peer, loc);
    }

    /// Live read decision. Never-wait locations never park; a finished
    /// writer means read again; the same `(tx, location, writer)` parks at
    /// most once.
    pub fn decide(
        &mut self,
        tx: TxIdx,
        loc: MemoryLocationHash,
        writer: TxIdx,
        never: bool,
        writer_finished: bool,
    ) -> (r: LiveAct)
        ensures
            (final(self)@, r) == decide_spec(old(self)@, tx, loc, writer, never, writer_finished),
    {
        let existing = arm_get(&self.arms, loc);
        let is_never = match existing {
            Some(e) => e.arm == AccessArm::NeverWait,
            None => false,
        };
        if never || is_never {
            self.counters.never_wait = inc_counter(self.counters.never_wait);
            arm_put(&mut self.arms, loc, ArmRec { arm: AccessArm::NeverWait, k: 1, hits: 1, peer: 0 });
            return LiveAct::Skip;
        }
        if writer_finished {
            return LiveAct::Retry;
        }
        let key = WaitKey {
            tx: #[verifier::truncate] (tx as u32),
            writer: #[verifier::truncate] (writer as u32),
            loc,
        };
        if !waited_insert(&mut self.waited, key) {
            proof {
                assert(waited_keys(self.waited) =~= old(self)@.waited);
            }
            self.counters.wait_suppressed = inc_counter(self.counters.wait_suppressed);
            return LiveAct::Skip;
        }
        self.counters.wait_once = inc_counter(self.counters.wait_once);
        let rec = match existing {
            Some(e) => ArmRec {
                arm: AccessArm::WaitOnce,
                hits: e.hits.saturating_add(1),
                peer: if writer > 0 {
                    writer
                } else {
                    e.peer
                },
                k: e.k,
            },
            None => ArmRec { arm: AccessArm::WaitOnce, k: 0, hits: 1, peer: writer },
        };
        arm_put(&mut self.arms, loc, rec);
        self.any_wait_once = true;
        self.mark_non_crit_wait(loc);
        LiveAct::Block
    }

    pub fn is_never(&self, loc: MemoryLocationHash) -> (r: bool)
        ensures
            r == (self@.arms.dom().contains(loc) && self@.arms[loc].arm == AccessArm::NeverWait),
    {
        match arm_get(&self.arms, loc) {
            Some(e) => e.arm == AccessArm::NeverWait,
            None => false,
        }
    }

    pub fn is_wait_once(&self, loc: MemoryLocationHash) -> (r: bool)
        ensures
            r == (self@.arms.dom().contains(loc) && self@.arms[loc].arm == AccessArm::WaitOnce),
    {
        match arm_get(&self.arms, loc) {
            Some(e) => e.arm == AccessArm::WaitOnce,
            None => false,
        }
    }

    pub fn any_wait_once(&self) -> (r: bool)
        ensures
            r == self@.any_wait_once,
    {
        self.any_wait_once
    }

    pub fn non_crit_wait(&self) -> (r: bool)
        ensures
            r == self@.non_crit_wait,
    {
        self.non_crit_wait
    }

    /// Recompute whether some wait-once arm sits off the chain location.
    pub fn refresh_non_crit_wait(&mut self)
        ensures
            final(self)@ == refresh_non_crit_spec(old(self)@),
    {
        let keys = arm_keys(&self.arms);
        let ghost v = self@;
        let mut found = false;
        let mut i: usize = 0;
        while i < keys.len()
            invariant
                i <= keys@.len(),
                v == self@,
                keys@.to_set() == v.arms.dom(),
                found == exists|j: int| 0 <= j < i && off_chain_wait(v, #[trigger] keys@[j]),
            decreases keys.len() - i,
        {
            let loc = keys[i];
            assert(keys@.to_set().contains(loc));
            match arm_get(&self.arms, loc) {
                Some(e) => {
                    if e.arm == AccessArm::WaitOnce && (self.crit_loc == NO_LOC || loc != self.crit_loc) {
                        assert(off_chain_wait(v, keys@[i as int]));
                        found = true;
                    }
                },
                None => {},
            }
            i = i + 1;
        }
        proof {
            if found {
                let j = choose|j: int| 0 <= j < keys@.len() && off_chain_wait(v, #[trigger] keys@[j]);
                assert(off_chain_wait(v, keys@[j]));
            } else {
                assert forall|loc: u64| !off_chain_wait(v, loc) by {
                    if off_chain_wait(v, loc) {
                        assert(keys@.to_set().contains(loc));
                        let j = choose|j: int| 0 <= j < keys@.len() && keys@[j] == loc;
                        assert(off_chain_wait(v, keys@[j]));
                    }
                }
            }
        }
        self.non_crit_wait = found;
    }

    /// Remember who touched `loc` in the previous block.
    pub fn note_prior_touchers(&mut self, loc: MemoryLocationHash, writers: &[TxIdx])
        ensures
            final(self)@ == (ArmView { prior_loc: loc, prior_writers: writers@, ..old(self)@ }),
    {
        self.prior_loc = loc;
        self.prior_writers = copy_txs(writers);
    }

    fn install_edges(&mut self, writers: &Vec<TxIdx>, loc: MemoryLocationHash)
        ensures
            final(self)@ == chain_edges(old(self)@, writers@, loc, writers@.len() - 1),
    {
        if writers.len() < 2 {
            return;
        }
        let ghost v0 = self@;
        let mut i: usize = 1;
        while i < writers.len()
            invariant
                1 <= i <= writers@.len(),
                self@ == chain_edges(v0, writers@, loc, i - 1),
            decreases writers.len() - i,
        {
            self.note_wait_edge(writers[i], writers[i - 1], loc);
            i = i + 1;
        }
    }

    fn install_protect_edges(&mut self, loc: MemoryLocationHash)
        ensures
            final(self)@ == protect_edges_spec(old(self)@, loc),
    {
        if self.crit_loc == loc {
            let w = copy_txs(self.crit_writers.as_slice());
            self.install_edges(&w, loc);
        } else if self.prior_loc == loc {
            let w = copy_txs(self.prior_writers.as_slice());
            self.install_edges(&w, loc);
        }
    }

    /// Install the learned chain `writers` (ascending) on `loc`; its
    /// location waits once.
    pub fn install_crit_chain(&mut self, loc: MemoryLocationHash, writers: &[TxIdx])
        requires
            sorted(writers@),
        ensures
            final(self)@ == refresh_non_crit_spec(
                early_waw_spec(ArmView { crit_loc: loc, crit_writers: writers@, ..old(self)@ }, loc, 1, 0),
            ),
            arm_wf(final(self)@),
    {
        self.crit_loc = loc;
        self.crit_writers = copy_txs(writers);
        self.note_early_waw(loc, 1);
        self.refresh_non_crit_wait();
    }

    pub fn crit_loc_hash(&self) -> (r: MemoryLocationHash)
        ensures
            r == self@.crit_loc,
    {
        self.crit_loc
    }

    /// Length of the learned chain (0 when none).
    pub fn crit_chain_len(&self) -> (r: usize)
        ensures
            r == (if self@.crit_loc == NO_LOC {
                0
            } else {
                self@.crit_writers.len()
            }),
    {
        if self.crit_loc == NO_LOC {
            return 0;
        }
        self.crit_writers.len()
    }

    pub fn is_crit_loc(&self, loc: MemoryLocationHash) -> (r: bool)
        ensures
            r == (self@.crit_loc != NO_LOC && self@.crit_loc == loc),
    {
        self.crit_loc != NO_LOC && self.crit_loc == loc
    }

    /// Template ordinal class of `loc` (0 when none).
    pub fn wait_once_k(&self, loc: MemoryLocationHash) -> (r: u32)
        ensures
            r == (if self@.arms.dom().contains(loc) {
                self@.arms[loc].k
            } else {
                0
            }),
    {
        match arm_get(&self.arms, loc) {
            Some(e) => e.k,
            None => 0,
        }
    }

    /// A learned location `tx` is known to touch: the chain's, else the
    /// previous block's.
    pub fn known_toucher_loc(&self, tx: TxIdx) -> (r: Option<MemoryLocationHash>)
        ensures
            r == (if self@.crit_loc != NO_LOC && self@.crit_writers.contains(tx) {
                Some(self@.crit_loc)
            } else if self@.prior_loc != NO_LOC && self@.prior_writers.contains(tx) {
                Some(self@.prior_loc)
            } else {
                None
            }),
    {
        if self.crit_loc != NO_LOC && contains_tx(&self.crit_writers, tx) {
            return Some(self.crit_loc);
        }
        if self.prior_loc != NO_LOC && contains_tx(&self.prior_writers, tx) {
            return Some(self.prior_loc);
        }
        None
    }

    /// Known writers of `loc`: the chain's, else the previous block's.
    pub fn known_writer_indexes(&self, loc: MemoryLocationHash) -> (r: Option<Vec<TxIdx>>)
        ensures
            match r {
                Some(w) => (self@.crit_loc == loc && w@ == self@.crit_writers) || (self@.crit_loc
                    != loc && self@.prior_loc == loc && w@ == self@.prior_writers),
                None => self@.crit_loc != loc && self@.prior_loc != loc,
            },
    {
        if self.crit_loc == loc {
            return Some(copy_txs(self.crit_writers.as_slice()));
        }
        if self.prior_loc == loc {
            return Some(copy_txs(self.prior_writers.as_slice()));
        }
        None
    }

    /// The chain writer just before `tx`, when `loc` is the chain location.
    pub fn crit_pred(&self, tx: TxIdx, loc: MemoryLocationHash) -> (r: Option<TxIdx>)
        ensures
            r == crit_pred_spec(self@, tx, loc),
    {
        if self.crit_loc != loc {
            return None;
        }
        let w = &self.crit_writers;
        let mut i: usize = 0;
        assert(w@.skip(0) =~= w@);
        while i < w.len() && w[i] < tx
            invariant
                i <= w@.len(),
                count_below(w@, tx) == i + count_below(w@.skip(i as int), tx),
            decreases w.len() - i,
        {
            assert(w@.skip(i as int)[0] == w@[i as int]);
            assert(w@.skip(i as int).drop_first() =~= w@.skip(i + 1));
            i = i + 1;
        }
        proof {
            if i < w@.len() {
                assert(w@.skip(i as int)[0] == w@[i as int]);
            }
        }
        if i == 0 {
            None
        } else {
            Some(w[i - 1])
        }
    }

    fn nearest_edge_pred(&self, tx: TxIdx, loc: MemoryLocationHash) -> (r: Option<TxIdx>)
        ensures
            r == nearest_edge_pred_spec(self@.wait_edges, tx, loc),
    {
        let mut best: Option<TxIdx> = None;
        let mut i: usize = 0;
        let e = &self.wait_edges;
        assert(e@.take(0) =~= Seq::<(TxIdx, TxIdx, u64)>::empty());
        while i < e.len()
            invariant
                i <= e@.len(),
                best == nearest_edge_pred_spec(e@.take(i as int), tx, loc),
            decreases e.len() - i,
        {
            assert(e@.take(i + 1).drop_last() =~= e@.take(i as int));
            let (c, p, l) = e[i];
            if c == tx && l == loc && p > 0 && p < tx {
                best = match best {
                    Some(b) => Some(if b >= p {
                        b
                    } else {
                        p
                    }),
                    None => Some(p),
                };
            }
            i = i + 1;
        }
        assert(e@.take(e@.len() as int) =~= e@);
        best
    }

    /// The producer a wait-once read of `loc` by `tx` waits for.
    pub fn wait_once_pred(&self, tx: TxIdx, loc: MemoryLocationHash) -> (r: Option<TxIdx>)
        ensures
            r == wait_once_pred_spec(self@, tx, loc),
    {
        let c = self.crit_pred(tx, loc);
        if c.is_some() {
            return c;
        }
        match arm_get(&self.arms, loc) {
            Some(e) => {
                if e.peer > 0 && e.peer < tx {
                    return Some(e.peer);
                }
            },
            None => {},
        }
        self.nearest_edge_pred(tx, loc)
    }

    /// A first hot conflict protects `loc`: its later reads wait once, and
    /// its known writers gain wait edges. Only once per location, and never
    /// on a never-wait location.
    pub fn protect_hot(&mut self, loc: MemoryLocationHash) -> (r: bool)
        ensures
            ({
                let v = old(self)@;
                let never = v.arms.dom().contains(loc) && v.arms[loc].arm == AccessArm::NeverWait;
                &&& r == (!never && !v.protected.contains(loc))
                &&& final(self)@ == (if never {
                    v
                } else if v.protected.contains(loc) {
                    v
                } else {
                    let v1 = early_waw_spec(ArmView { protected: v.protected.insert(loc), ..v }, loc, 1, 0);
                    let v2 = protect_edges_spec(v1, loc);
                    ArmView {
                        counters: ArmCounters { protect_n: inc(v2.counters.protect_n), ..v2.counters },
                        protect_live: true,
                        ..v2
                    }
                })
            }),
    {
        if self.is_never(loc) {
            return false;
        }
        if !locs_insert(&mut self.protected, loc) {
            proof {
                assert(loc_members(self.protected) =~= old(self)@.protected);
            }
            return false;
        }
        self.note_early_waw(loc, 1);
        self.install_protect_edges(loc);
        self.counters.protect_n = inc_counter(self.counters.protect_n);
        self.protect_live = true;
        true
    }

    pub fn is_protected(&self, loc: MemoryLocationHash) -> (r: bool)
        ensures
            r == self@.protected.contains(loc),
    {
        locs_contains(&self.protected, loc)
    }

    pub fn protect_live(&self) -> (r: bool)
        ensures
            r == self@.protect_live,
    {
        self.protect_live
    }

    pub fn note_protect_before_opt(&mut self)
        ensures
            final(self)@ == (ArmView {
                counters: ArmCounters {
                    protect_before_opt_n: inc(old(self)@.counters.protect_before_opt_n),
                    ..old(self)@.counters
                },
                ..old(self)@
            }),
    {
        self.counters.protect_before_opt_n = inc_counter(self.counters.protect_before_opt_n);
    }

    pub fn note_replay_after_protect(&mut self)
        ensures
            final(self)@ == (ArmView {
                counters: ArmCounters {
                    replay_after_protect_n: inc(old(self)@.counters.replay_after_protect_n),
                    ..old(self)@.counters
                },
                ..old(self)@
            }),
    {
        self.counters.replay_after_protect_n = inc_counter(self.counters.replay_after_protect_n);
    }

    pub fn protect_n(&self) -> (r: usize)
        ensures
            r == self@.counters.protect_n,
    {
        self.counters.protect_n
    }

    pub fn protect_before_opt_n(&self) -> (r: usize)
        ensures
            r == self@.counters.protect_before_opt_n,
    {
        self.counters.protect_before_opt_n
    }

    pub fn replay_after_protect_n(&self) -> (r: usize)
        ensures
            r == self@.counters.replay_after_protect_n,
    {
        self.counters.replay_after_protect_n
    }

    /// A prefix resume kept `kept` accesses.
    pub fn note_prefix_resume(&mut self, kept: usize)
        ensures
            final(self)@ == (ArmView {
                counters: ArmCounters {
                    prefix_resume: inc(old(self)@.counters.prefix_resume),
                    prefix_keep_n: if old(self)@.counters.prefix_keep_n + kept > usize::MAX {
                        (old(self)@.counters.prefix_keep_n + kept - usize::MAX - 1) as usize
                    } else {
                        (old(self)@.counters.prefix_keep_n + kept) as usize
                    },
                    ..old(self)@.counters
                },
                ..old(self)@
            }),
    {
        self.counters.prefix_resume = inc_counter(self.counters.prefix_resume);
        let a = self.counters.prefix_keep_n;
        self.counters.prefix_keep_n = if kept > usize::MAX - a {
            kept - (usize::MAX - a) - 1
        } else {
            a + kept
        };
    }

    pub fn wait_once(&self) -> (r: usize)
        ensures
            r == self@.counters.wait_once,
    {
        self.counters.wait_once
    }

    pub fn wait_suppressed(&self) -> (r: usize)
        ensures
            r == self@.counters.wait_suppressed,
    {
        self.counters.wait_suppressed
    }

    pub fn never_wait(&self) -> (r: usize)
        ensures
            r == self@.counters.never_wait,
    {
        self.counters.never_wait
    }

    pub fn prefix_resume(&self) -> (r: usize)
        ensures
            r == self@.counters.prefix_resume,
    {
        self.counters.prefix_resume
    }
}

/// A wait-once arm on `loc` whose peer comes before `tx`.
pub open spec fn peer_before(v: ArmView, loc: u64, tx: TxIdx) -> bool {
    v.arms.dom().contains(loc) && v.arms[loc].arm == AccessArm::WaitOnce && v.arms[loc].peer > 0
        && v.arms[loc].peer < tx
}

/// A wait-once arm on `loc` whose peer is `tx`.
pub open spec fn peer_is(v: ArmView, loc: u64, tx: TxIdx) -> bool {
    v.arms.dom().contains(loc) && v.arms[loc].arm == AccessArm::WaitOnce && v.arms[loc].peer == tx
}

/// The table at a block start: fresh, with the packed arms and wait edges
/// of the previous block installed, wait-once peers raised to the edges'
/// producers, and the off-chain flag recomputed.
pub open spec fn begin_from_prior_spec(
    snap: Seq<(u64, u8, u32, TxIdx)>,
    edges: Seq<(TxIdx, TxIdx, u64)>,
) -> ArmView {
    let base = ArmView {
        arms: Map::empty(),
        waited: Set::empty(),
        protected: Set::empty(),
        counters: zero_arm_counters(),
        any_wait_once: false,
        non_crit_wait: false,
        protect_live: false,
        crit_loc: NO_LOC,
        crit_writers: Seq::empty(),
        prior_loc: NO_LOC,
        prior_writers: Seq::empty(),
        wait_edges: edges,
    };
    refresh_non_crit_spec(refresh_peers(install_arms(base, snap, snap.len() as int), edges, edges.len() as int))
}

fn has_loc(v: &Vec<(u64, TxIdx)>, loc: u64) -> (r: bool)
    ensures
        r == exists|j: int| 0 <= j < v@.len() && (#[trigger] v@[j]).0 == loc,
{
    let mut i: usize = 0;
    while i < v.len()
        invariant
            i <= v@.len(),
            forall|j: int| 0 <= j < i ==> (#[trigger] v@[j]).0 != loc,
        decreases v.len() - i,
    {
        if v[i].0 == loc {
            assert(v@[i as int].0 == loc);
            return true;
        }
        i = i + 1;
    }
    false
}

impl AccessArmTable {
    /// Open a block from the previous block's packed arms and wait edges.
    pub fn begin_from_prior(
        &mut self,
        arm_snapshot: &Vec<(u64, u8, u32, TxIdx)>,
        edges: Vec<(TxIdx, TxIdx, u64)>,
    )
        ensures
            final(self)@ == begin_from_prior_spec(arm_snapshot@, edges@),
            arm_wf(final(self)@),
    {
        arms_clear(&mut self.arms);
        waited_clear(&mut self.waited);
        locs_clear(&mut self.protected);
        self.counters = ArmCounters {
            wait_once: 0,
            wait_suppressed: 0,
            never_wait: 0,
            prefix_resume: 0,
            prefix_keep_n: 0,
            protect_n: 0,
            protect_before_opt_n: 0,
            replay_after_protect_n: 0,
        };
        self.any_wait_once = false;
        self.non_crit_wait = false;
        self.protect_live = false;
        self.crit_loc = NO_LOC;
        self.crit_writers = Vec::new();
        self.prior_loc = NO_LOC;
        self.prior_writers = Vec::new();
        self.wait_edges = edges;
        let ghost base = ArmView {
            arms: Map::empty(),
            waited: Set::empty(),
            protected: Set::empty(),
            counters: zero_arm_counters(),
            any_wait_once: false,
            non_crit_wait: false,
            protect_live: false,
            crit_loc: NO_LOC,
            crit_writers: Seq::empty(),
            prior_loc: NO_LOC,
            prior_writers: Seq::empty(),
            wait_edges: self.wait_edges@,
        };
        proof {
            assert(arm_recs(self.arms) =~= Map::<u64, ArmRec>::empty());
            assert(waited_keys(self.waited) =~= Set::<WaitKey>::empty());
            assert(loc_members(self.protected) =~= Set::<u64>::empty());
            assert(self@ =~= base);
        }
        let mut i: usize = 0;
        while i < arm_snapshot.len()
            invariant
                i <= arm_snapshot@.len(),
                self@ == install_arms(base, arm_snapshot@, i as int),
                self@.wait_edges == base.wait_edges,
                self@.crit_writers.len() == 0,
            decreases arm_snapshot.len() - i,
        {
            let (loc, tag, k, peer) = arm_snapshot[i];
            let arm = AccessArm::from_tag(tag);
            if arm != AccessArm::Opt {
                if arm == AccessArm::WaitOnce {
                    self.any_wait_once = true;
                }
                arm_put(&mut self.arms, loc, ArmRec { arm, k, hits: 0, peer });
            }
            i = i + 1;
        }
        let ghost v1 = self@;
        let mut j: usize = 0;
        while j < self.wait_edges.len()
            invariant
                j <= self@.wait_edges.len(),
                self@.wait_edges == v1.wait_edges,
                self@ == refresh_peers(v1, v1.wait_edges, j as int),
                self@.crit_writers.len() == 0,
            decreases self@.wait_edges.len() - j,
        {
            let (c, p, loc) = self.wait_edges[j];
            if p != 0 {
                match arm_get(&self.arms, loc) {
                    Some(e) => {
                        if e.arm == AccessArm::WaitOnce && p > e.peer {
                            arm_put(&mut self.arms, loc, ArmRec { peer: p, ..e });
                        }
                    },
                    None => {},
                }
            }
            j = j + 1;
        }
        self.refresh_non_crit_wait();
    }

    /// Pack the arms for the next block (in no promised order) and the wait
    /// edges.
    pub fn end_pack(&self, flipped: bool) -> (r: (Vec<(u64, u8, u32, TxIdx)>, Vec<(TxIdx, TxIdx, u64)>))
        ensures
            exists|ks: Seq<u64>|
                ks.no_duplicates() && ks.to_set() == self@.arms.dom() && r.0@ == pack_over(
                    self@,
                    ks,
                    flipped,
                ),
            r.1@ == self@.wait_edges,
    {
        let keys = arm_keys(&self.arms);
        let ghost v = self@;
        let mut out: Vec<(u64, u8, u32, TxIdx)> = Vec::new();
        let mut i: usize = 0;
        assert(keys@.take(0) =~= Seq::<u64>::empty());
        while i < keys.len()
            invariant
                i <= keys@.len(),
                v == self@,
                keys@.to_set() == v.arms.dom(),
                out@ == pack_over(v, keys@.take(i as int), flipped),
            decreases keys.len() - i,
        {
            let loc = keys[i];
            assert(keys@.to_set().contains(loc));
            assert(keys@.take(i + 1).drop_last() =~= keys@.take(i as int));
            match arm_get(&self.arms, loc) {
                Some(e) => {
                    let mut arm = e.arm;
                    if locs_contains(&self.protected, loc) && arm == AccessArm::WaitOnce {
                    } else if flipped && arm == AccessArm::WaitOnce && e.hits == 0 && e.k == 0 {
                        arm = AccessArm::Opt;
                    }
                    if arm != AccessArm::Opt {
                        out.push((loc, arm.tag(), e.k, e.peer));
                    }
                },
                None => {},
            }
            i = i + 1;
        }
        assert(keys@.take(keys@.len() as int) =~= keys@);
        let mut edges: Vec<(TxIdx, TxIdx, u64)> = Vec::new();
        let mut j: usize = 0;
        while j < self.wait_edges.len()
            invariant
                j <= self@.wait_edges.len(),
                edges@ == self@.wait_edges.take(j as int),
            decreases self@.wait_edges.len() - j,
        {
            edges.push(self.wait_edges[j]);
            j = j + 1;
            assert(edges@ =~= self@.wait_edges.take(j as int));
        }
        assert(self@.wait_edges.take(self@.wait_edges.len() as int) =~= self@.wait_edges);
        (out, edges)
    }

    /// The `(consumer, producer)` pairs of the recorded wait edges, in order,
    /// to plant as ungated waits.
    pub fn plant_wait_edges(&self) -> (r: Vec<(TxIdx, TxIdx)>)
        ensures
            r@ == self@.wait_edges.map_values(|e: (TxIdx, TxIdx, u64)| (e.0, e.1)),
    {
        let mut r: Vec<(TxIdx, TxIdx)> = Vec::new();
        let mut j: usize = 0;
        while j < self.wait_edges.len()
            invariant
                j <= self@.wait_edges.len(),
                r@ == self@.wait_edges.take(j as int).map_values(|e: (TxIdx, TxIdx, u64)| (e.0, e.1)),
            decreases self@.wait_edges.len() - j,
        {
            let (c, p, _) = self.wait_edges[j];
            r.push((c, p));
            j = j + 1;
            assert(r@ =~= self@.wait_edges.take(j as int).map_values(|e: (TxIdx, TxIdx, u64)| (e.0, e.1)));
        }
        assert(self@.wait_edges.take(self@.wait_edges.len() as int) =~= self@.wait_edges);
        r
    }

    /// All wait-once `(location, peer)` pairs with the peer before `tx`:
    /// the chain pair first, then the arms (in no promised order), one per
    /// location.
    pub fn wait_once_peers_before(&self, tx: TxIdx) -> (r: Vec<(MemoryLocationHash, TxIdx)>)
        ensures
            exists|ks: Seq<u64>|
                ks.no_duplicates() && ks.to_set() == self@.arms.dom() && r@ == peers_over(
                    self@,
                    tx,
                    ks,
                    if self@.crit_loc != NO_LOC && crit_pred_spec(self@, tx, self@.crit_loc) is Some {
                        seq![(self@.crit_loc, crit_pred_spec(self@, tx, self@.crit_loc)->0)]
                    } else {
                        Seq::empty()
                    },
                ),
    {
        let mut out: Vec<(MemoryLocationHash, TxIdx)> = Vec::new();
        let crit = self.crit_loc;
        if crit != NO_LOC {
            if let Some(p) = self.crit_pred(tx, crit) {
                out.push((crit, p));
            }
        }
        let ghost first = out@;
        assert(first == (if self@.crit_loc != NO_LOC && crit_pred_spec(self@, tx, self@.crit_loc) is Some {
            seq![(self@.crit_loc, crit_pred_spec(self@, tx, self@.crit_loc)->0)]
        } else {
            Seq::<(u64, TxIdx)>::empty()
        }));
        let keys = arm_keys(&self.arms);
        let ghost v = self@;
        let mut i: usize = 0;
        assert(keys@.take(0) =~= Seq::<u64>::empty());
        while i < keys.len()
            invariant
                i <= keys@.len(),
                v == self@,
                keys@.to_set() == v.arms.dom(),
                out@ == peers_over(v, tx, keys@.take(i as int), first),
            decreases keys.len() - i,
        {
            let loc = keys[i];
            assert(keys@.to_set().contains(loc));
            assert(keys@.take(i + 1).drop_last() =~= keys@.take(i as int));
            match arm_get(&self.arms, loc) {
                Some(e) => {
                    if e.arm == AccessArm::WaitOnce && e.peer > 0 && e.peer < tx && !has_loc(&out, loc) {
                        out.push((loc, e.peer));
                    }
                },
                None => {},
            }
            i = i + 1;
        }
        assert(keys@.take(keys@.len() as int) =~= keys@);
        out
    }

    fn any_arm_peer(&self, tx: TxIdx, before: bool) -> (r: bool)
        ensures
            r == (if before {
                exists|loc: u64| #[trigger] peer_before(self@, loc, tx)
            } else {
                exists|loc: u64| #[trigger] peer_is(self@, loc, tx)
            }),
    {
        let keys = arm_keys(&self.arms);
        let ghost v = self@;
        let mut i: usize = 0;
        while i < keys.len()
            invariant
                i <= keys@.len(),
                v == self@,
                keys@.to_set() == v.arms.dom(),
                before ==> forall|j: int| 0 <= j < i ==> !peer_before(v, #[trigger] keys@[j], tx),
                !before ==> forall|j: int| 0 <= j < i ==> !peer_is(v, #[trigger] keys@[j], tx),
            decreases keys.len() - i,
        {
            let loc = keys[i];
            assert(keys@.to_set().contains(loc));
            match arm_get(&self.arms, loc) {
                Some(e) => {
                    if before && e.arm == AccessArm::WaitOnce && e.peer > 0 && e.peer < tx {
                        assert(peer_before(v, keys@[i as int], tx));
                        return true;
                    }
                    if !before && e.arm == AccessArm::WaitOnce && e.peer == tx {
                        assert(peer_is(v, keys@[i as int], tx));
                        return true;
                    }
                },
                None => {},
            }
            i = i + 1;
        }
        proof {
            if before {
                assert forall|loc: u64| !peer_before(v, loc, tx) by {
                    if peer_before(v, loc, tx) {
                        assert(keys@.to_set().contains(loc));
                        let j = choose|j: int| 0 <= j < keys@.len() && keys@[j] == loc;
                        assert(!peer_before(v, keys@[j], tx));
                    }
                }
            } else {
                assert forall|loc: u64| !peer_is(v, loc, tx) by {
                    if peer_is(v, loc, tx) {
                        assert(keys@.to_set().contains(loc));
                        let j = choose|j: int| 0 <= j < keys@.len() && keys@[j] == loc;
                        assert(!peer_is(v, keys@[j], tx));
                    }
                }
            }
        }
        false
    }

    /// This transaction waits once for some earlier peer (the chain alone
    /// does not count).
    pub fn has_wait_once_peer_before(&self, tx: TxIdx) -> (r: bool)
        ensures
            r == (self@.any_wait_once && ((exists|loc: u64| #[trigger] peer_before(self@, loc, tx))
                || (exists|j: int|
                0 <= j < self@.wait_edges.len() && (#[trigger] self@.wait_edges[j]).0 == tx
                    && self@.wait_edges[j].1 > 0 && self@.wait_edges[j].1 < tx))),
    {
        if !self.any_wait_once {
            return false;
        }
        if self.any_arm_peer(tx, true) {
            return true;
        }
        let mut j: usize = 0;
        while j < self.wait_edges.len()
            invariant
                j <= self@.wait_edges.len(),
                self@.any_wait_once,
                !(exists|loc: u64| #[trigger] peer_before(self@, loc, tx)),
                forall|t: int|
                    0 <= t < j ==> !((#[trigger] self@.wait_edges[t]).0 == tx && self@.wait_edges[t].1
                        > 0 && self@.wait_edges[t].1 < tx),
            decreases self@.wait_edges.len() - j,
        {
            let (c, p, _) = self.wait_edges[j];
            if c == tx && p > 0 && p < tx {
                assert((self@.wait_edges[j as int]).0 == tx && self@.wait_edges[j as int].1 > 0
                    && self@.wait_edges[j as int].1 < tx);
                return true;
            }
            j = j + 1;
        }
        false
    }

    /// This transaction is a known wait-once or chain producer.
    pub fn is_wait_once_producer(&self, tx: TxIdx) -> (r: bool)
        ensures
            r == ((self@.crit_loc != NO_LOC && self@.crit_writers.contains(tx)) || (
            self@.any_wait_once && ((exists|loc: u64| #[trigger] peer_is(self@, loc, tx)) || (exists|j: int|
                0 <= j < self@.wait_edges.len() && (#[trigger] self@.wait_edges[j]).1 == tx)))),
    {
        if self.crit_loc != NO_LOC && contains_tx(&self.crit_writers, tx) {
            return true;
        }
        if !self.any_wait_once {
            return false;
        }
        if self.any_arm_peer(tx, false) {
            return true;
        }
        let mut j: usize = 0;
        while j < self.wait_edges.len()
            invariant
                j <= self@.wait_edges.len(),
                self@.any_wait_once,
                !(self@.crit_loc != NO_LOC && self@.crit_writers.contains(tx)),
                !(exists|loc: u64| #[trigger] peer_is(self@, loc, tx)),
                forall|t: int| 0 <= t < j ==> (#[trigger] self@.wait_edges[t]).1 != tx,
            decreases self@.wait_edges.len() - j,
        {
            if self.wait_edges[j].1 == tx {
                assert(0 <= j < self@.wait_edges.len() && (self@.wait_edges[j as int]).1 == tx);
                return true;
            }
            j = j + 1;
        }
        false
    }
}

/// The same `(transaction, location, writer)` parks at most once: after a
/// block, the same read is refused the park (until the writer finishes).
pub proof fn law_waits_once_per_triple(v: ArmView, tx: TxIdx, loc: u64, writer: TxIdx)
    requires
        decide_spec(v, tx, loc, writer, false, false).1 == LiveAct::Block,
    ensures
        decide_spec(decide_spec(v, tx, loc, writer, false, false).0, tx, loc, writer, false, false).1
            == LiveAct::Skip,
{
}

/// A never-wait location never parks a reader, whoever the writer is.
pub proof fn law_never_wait_is_sticky(
    v: ArmView,
    tx: TxIdx,
    loc: u64,
    writer: TxIdx,
    never: bool,
    finished: bool,
    tx2: TxIdx,
    writer2: TxIdx,
    finished2: bool,
)
    requires
        never || (v.arms.dom().contains(loc) && v.arms[loc].arm == AccessArm::NeverWait),
    ensures
        decide_spec(v, tx, loc, writer, never, finished).1 == LiveAct::Skip,
        decide_spec(decide_spec(v, tx, loc, writer, never, finished).0, tx2, loc, writer2, false, finished2).1
            == LiveAct::Skip,
{
}

} // verus!
