//! Per-location arm table that learns within a block and is packed into
//! the next block's prior.
//!
//! Thin blocks (at most `THIN_SHELL_N` transactions) never get a window
//! wider than two; an under-covered or lazy location never packs as a full
//! chain; reusing a sticky prior leaves it no explore budget.

use vstd::prelude::*;
use dashmap::{DashMap, DashSet};
use crate::specfence::access_arm::{inc, inc_counter, loc_members, locs_clear, locs_contains, locs_insert, locs_new};

verus! {

/// Largest block that counts as a thin shell.
pub const THIN_SHELL_N: usize = 176;

/// Arm of one location.
#[derive(Debug, Clone, Copy, PartialEq, Eq, Structural)]
pub enum ArmKind {
    Opt,
    Defer,
    Win { w: u8 },
    Seg { s: u8 },
    Full,
}

/// The window an arm orders over: its width, 255 for a full chain, else 0.
pub open spec fn window_of(a: ArmKind) -> u8 {
    match a {
        ArmKind::Win { w } => w,
        ArmKind::Seg { s } => s,
        ArmKind::Full => 255,
        _ => 0,
    }
}

impl ArmKind {
    pub fn window(self) -> (r: u8)
        ensures
            r == window_of(self),
    {
        match self {
            ArmKind::Win { w } => w,
            ArmKind::Seg { s } => s,
            ArmKind::Full => u8::MAX,
            _ => 0,
        }
    }

    pub fn is_full(self) -> (r: bool)
        ensures
            r == (self is Full),
    {
        matches!(self, ArmKind::Full)
    }
}

/// How a transaction's speculation was resolved.
#[derive(Debug, Clone, Copy, PartialEq, Eq, Structural)]
pub enum ResolvePlan {
    Commit,
    PartialAbortRebind,
    PartialAbortRewind,
    OrderedReplay,
    FullReplay,
}

/// One location's arm as carried to the next block.
#[derive(Debug, Clone, Copy, PartialEq, Eq, Structural)]
pub struct ArmSnap {
    pub location: u64,
    pub arm: ArmKind,
    pub sticky: bool,
    pub under_covered: bool,
}

/// One location's entry in the table.
#[derive(Debug, Clone, Copy, PartialEq, Eq, Structural)]
pub struct ArmEntry {
    pub arm: ArmKind,
    pub sticky: bool,
    pub n_pull: usize,
    pub n_reward: usize,
    /// Positive rewards.
    pub ema_wall_ns: u64,
    /// Negative rewards.
    pub ema_abort_cf_ns: u64,
    pub last_update_tick: u64,
    pub explore_budget: usize,
    pub under_covered: bool,
    pub lazy: bool,
}

/// A queued widening of one location's window.
#[derive(Debug, Clone, Copy, PartialEq, Eq, Structural)]
pub struct IntraPatch {
    pub location: u64,
    pub new_arm: ArmKind,
}

/// Event counters of the table.
#[derive(Debug, Clone, Copy, PartialEq, Eq, Structural)]
pub struct ArmTableCounters {
    pub explore_n: usize,
    pub mid_promote_n: usize,
    pub mid_promote_veto_n: usize,
    pub e1_n: usize,
    pub e2_n: usize,
    pub e3_n: usize,
    pub e4_n: usize,
    pub e5_n: usize,
    pub e6_n: usize,
    /// 1 when the block began from a non-empty prior.
    pub begin_from_prior: usize,
    pub prior_plant_n: usize,
}

/// The entries a map holds, by location.
pub uninterp spec fn arm_entries(m: DashMap<u64, ArmEntry>) -> Map<u64, ArmEntry>;

/// `DashMap::new`.
#[verifier::external_body]
fn entries_new() -> (r: DashMap<u64, ArmEntry>)
    ensures
        arm_entries(r).dom().len() == 0,
        arm_entries(r).dom().finite(),
{
    DashMap::new()
}

/// `DashMap::get`, copying the entry found.
#[verifier::external_body]
fn entry_get(m: &DashMap<u64, ArmEntry>, k: u64) -> (r: Option<ArmEntry>)
    ensures
        r == (if arm_entries(*m).dom().contains(k) {
            Some(arm_entries(*m)[k])
        } else {
            None
        }),
{
    m.get(&k).map(|e| *e)
}

/// `DashMap::insert`.
#[verifier::external_body]
fn entry_put(m: &mut DashMap<u64, ArmEntry>, k: u64, v: ArmEntry)
    ensures
        arm_entries(*final(m)) == arm_entries(*old(m)).insert(k, v),
{
    m.insert(k, v);
}

/// `DashMap::iter`, keeping each key: every location once, in no promised
/// order.
#[verifier::external_body]
fn entry_keys(m: &DashMap<u64, ArmEntry>) -> (r: Vec<u64>)
    ensures
        r@.no_duplicates(),
        r@.to_set() == arm_entries(*m).dom(),
{
    m.iter().map(|e| *e.key()).collect()
}

/// The abstract state of the table.
pub struct ArmTableView {
    pub entries: Map<u64, ArmEntry>,
    pub promoted: Set<u64>,
    pub pending: Seq<IntraPatch>,
    pub tick: u64,
    pub counters: ArmTableCounters,
}

/// Per-location arms, lasting across blocks.
pub struct ArmTable {
    entries: DashMap<u64, ArmEntry>,
    promoted_this_block: DashSet<u64>,
    pending: Vec<IntraPatch>,
    tick: u64,
    counters: ArmTableCounters,
}

impl View for ArmTable {
    type V = ArmTableView;

    closed spec fn view(&self) -> ArmTableView {
        ArmTableView {
            entries: arm_entries(self.entries),
            promoted: loc_members(self.promoted_this_block),
            pending: self.pending@,
            tick: self.tick,
            counters: self.counters,
        }
    }
}

/// The widest window a location may get: 1 on an empty block, 2 on a thin
/// block or a long chain, else 4.
pub open spec fn w_max_spec(block_n: usize, chain_len: usize) -> u8 {
    if block_n == 0 {
        1
    } else if block_n <= THIN_SHELL_N {
        2
    } else if chain_len >= 64 {
        2
    } else {
        4
    }
}

/// A counter after one wrapping increment.
pub open spec fn inc64(x: u64) -> u64 {
    if x == u64::MAX {
        0
    } else {
        (x + 1) as u64
    }
}

fn inc64_exec(x: u64) -> (r: u64)
    ensures
        r == inc64(x),
{
    if x == u64::MAX {
        0
    } else {
        x + 1
    }
}

/// A new entry with no rewards.
pub open spec fn fresh_entry(arm: ArmKind, sticky: bool, under_covered: bool, lazy: bool, explore: usize) -> ArmEntry {
    ArmEntry {
        arm,
        sticky,
        n_pull: 0,
        n_reward: 0,
        ema_wall_ns: 0,
        ema_abort_cf_ns: 0,
        last_update_tick: 0,
        explore_budget: explore,
        under_covered,
        lazy,
    }
}

/// One prior snapshot installed: its arm, stickiness and coverage replace
/// the entry's; it may explore once unless a sticky prior is reused.
pub open spec fn install_snap(m: Map<u64, ArmEntry>, s: ArmSnap, reuse: bool) -> Map<u64, ArmEntry> {
    let explore: usize = if reuse && s.sticky { 0 } else { 1 };
    if m.dom().contains(s.location) {
        m.insert(
            s.location,
            ArmEntry { arm: s.arm, sticky: s.sticky, under_covered: s.under_covered, explore_budget: explore, ..m[s.location] },
        )
    } else {
        m.insert(s.location, fresh_entry(s.arm, s.sticky, s.under_covered, false, explore))
    }
}

/// Snapshots installed in order.
pub open spec fn install_snaps(m: Map<u64, ArmEntry>, snaps: Seq<ArmSnap>, reuse: bool) -> Map<u64, ArmEntry>
    decreases snaps.len(),
{
    if snaps.len() == 0 {
        m
    } else {
        install_snap(install_snaps(m, snaps.drop_last(), reuse), snaps.last(), reuse)
    }
}

/// Every sticky entry left with no explore budget.
pub open spec fn zero_sticky_budgets(m: Map<u64, ArmEntry>) -> Map<u64, ArmEntry> {
    Map::new(
        |k: u64| m.dom().contains(k),
        |k: u64| if m[k].sticky { ArmEntry { explore_budget: 0, ..m[k] } } else { m[k] },
    )
}

/// The arm an entry packs as: thin blocks cap the window at two; an
/// under-covered full chain, and any lazy location, pack as optimistic.
pub open spec fn pack_arm(e: ArmEntry, block_n: usize) -> ArmKind {
    let a0 = if block_n <= THIN_SHELL_N && window_of(e.arm) > 2 { ArmKind::Win { w: 2 } } else { e.arm };
    let a1 = if e.under_covered && a0 is Full { ArmKind::Opt } else { a0 };
    if e.lazy { ArmKind::Opt } else { a1 }
}

/// The snapshot one entry packs into.
pub open spec fn pack_snap(loc: u64, e: ArmEntry, block_n: usize) -> ArmSnap {
    ArmSnap { location: loc, arm: pack_arm(e, block_n), sticky: e.sticky, under_covered: e.under_covered }
}

/// A reward recorded at `tick`; a location seen first is created optimistic.
pub open spec fn reward_spec(m: Map<u64, ArmEntry>, loc: u64, positive: bool, tick: u64) -> Map<u64, ArmEntry> {
    if m.dom().contains(loc) {
        let e = m[loc];
        m.insert(
            loc,
            ArmEntry {
                n_reward: inc(e.n_reward),
                last_update_tick: tick,
                ema_wall_ns: if positive { inc64(e.ema_wall_ns) } else { e.ema_wall_ns },
                ema_abort_cf_ns: if positive { e.ema_abort_cf_ns } else { inc64(e.ema_abort_cf_ns) },
                ..e
            },
        )
    } else {
        m.insert(
            loc,
            ArmEntry {
                arm: ArmKind::Opt,
                sticky: false,
                n_pull: 0,
                n_reward: 1,
                ema_wall_ns: if positive { 1 } else { 0 },
                ema_abort_cf_ns: if positive { 0 } else { 1 },
                last_update_tick: tick,
                explore_budget: 0,
                under_covered: false,
                lazy: false,
            },
        )
    }
}

/// The location pinned optimistic and sticky, with no explore budget.
pub open spec fn force_opt_spec(m: Map<u64, ArmEntry>, loc: u64, lazy: bool) -> Map<u64, ArmEntry> {
    if m.dom().contains(loc) {
        m.insert(loc, ArmEntry { arm: ArmKind::Opt, lazy, sticky: true, explore_budget: 0, ..m[loc] })
    } else {
        m.insert(loc, fresh_entry(ArmKind::Opt, true, false, lazy, 0))
    }
}

/// The location marked under-covered: optimistic, sticky, no explore budget.
pub open spec fn under_covered_spec(m: Map<u64, ArmEntry>, loc: u64) -> Map<u64, ArmEntry> {
    if m.dom().contains(loc) {
        m.insert(loc, ArmEntry { under_covered: true, arm: ArmKind::Opt, sticky: true, explore_budget: 0, ..m[loc] })
    } else {
        m.insert(loc, fresh_entry(ArmKind::Opt, true, true, false, 0))
    }
}

/// The next window: one wider than the current, capped, and at least one.
pub open spec fn next_window(cur: u8, cap: u8) -> u8 {
    let a: u8 = if cur == 255 { 255 } else { (cur + 1) as u8 };
    let b: u8 = if a < cap { a } else { cap };
    if b < 1 { 1 } else { b }
}

/// The patches after a failed replay asks to widen `loc`: none when it was
/// already promoted this block or is lazy or under-covered.
pub open spec fn queue_promote_spec(v: ArmTableView, loc: u64, block_n: usize, chain_len: usize) -> Seq<IntraPatch> {
    if v.promoted.contains(loc) {
        v.pending
    } else if v.entries.dom().contains(loc) && (v.entries[loc].lazy || v.entries[loc].under_covered) {
        v.pending
    } else {
        let cur: u8 = if v.entries.dom().contains(loc) { window_of(v.entries[loc].arm) } else { 0 };
        v.pending.push(IntraPatch { location: loc, new_arm: ArmKind::Win { w: next_window(cur, w_max_spec(block_n, chain_len)) } })
    }
}

/// What `observe` does at `tick` (the table's tick already advanced).
pub open spec fn observe_spec(
    v: ArmTableView,
    plan: ResolvePlan,
    location: Option<u64>,
    lazy: bool,
    unfenced_storm: bool,
    block_n: usize,
    chain_len: usize,
) -> ArmTableView {
    let t = inc64(v.tick);
    let c = v.counters;
    let w = ArmTableView { tick: t, ..v };
    match location {
        None => match plan {
            ResolvePlan::PartialAbortRebind | ResolvePlan::PartialAbortRewind =>
                ArmTableView { counters: ArmTableCounters { e3_n: inc(c.e3_n), ..c }, ..w },
            ResolvePlan::FullReplay => ArmTableView { counters: ArmTableCounters { e2_n: inc(c.e2_n), ..c }, ..w },
            _ => w,
        },
        Some(loc) => if lazy {
            ArmTableView {
                counters: ArmTableCounters { e6_n: inc(c.e6_n), ..c },
                entries: force_opt_spec(v.entries, loc, true),
                ..w
            }
        } else {
            match plan {
                ResolvePlan::Commit => ArmTableView {
                    counters: ArmTableCounters { e1_n: inc(c.e1_n), ..c },
                    entries: reward_spec(v.entries, loc, true, t),
                    ..w
                },
                ResolvePlan::PartialAbortRebind | ResolvePlan::PartialAbortRewind => ArmTableView {
                    counters: ArmTableCounters { e3_n: inc(c.e3_n), ..c },
                    entries: reward_spec(v.entries, loc, true, t),
                    ..w
                },
                ResolvePlan::OrderedReplay => ArmTableView { entries: reward_spec(v.entries, loc, true, t), ..w },
                ResolvePlan::FullReplay => {
                    let c2 = ArmTableCounters { e2_n: inc(c.e2_n), ..c };
                    let m2 = reward_spec(v.entries, loc, false, t);
                    if unfenced_storm {
                        ArmTableView {
                            counters: ArmTableCounters { e5_n: inc(c2.e5_n), ..c2 },
                            entries: under_covered_spec(m2, loc),
                            ..w
                        }
                    } else {
                        let w2 = ArmTableView { counters: c2, entries: m2, ..w };
                        ArmTableView { pending: queue_promote_spec(w2, loc, block_n, chain_len), ..w2 }
                    }
                },
            }
        },
    }
}


/// What happened to one queued widening at a pick boundary.
#[derive(Debug, Clone, Copy, PartialEq, Eq, Structural)]
pub enum PatchOutcome {
    /// Wider than any window the block allows.
    WindowVeto,
    /// The location was already widened this block.
    AlreadyPromoted,
    /// The cost policy forbids ordering the location, or the block runs
    /// optimistic by majority.
    PolicyVeto,
    /// Releasing the queued consumers would leave fewer runnable
    /// transactions than cores.
    DrainVeto,
    /// Applied: the caller releases the queued consumers.
    Applied,
}

/// The location's entry after a widening to `arm`: not sticky.
pub open spec fn promote_entry(m: Map<u64, ArmEntry>, loc: u64, arm: ArmKind) -> Map<u64, ArmEntry> {
    if m.dom().contains(loc) {
        m.insert(loc, ArmEntry { arm, sticky: false, ..m[loc] })
    } else {
        m.insert(loc, fresh_entry(arm, false, false, false, 0))
    }
}

/// One queued widening `p` at a pick boundary, given whether the policy
/// forbids it, how many not-yet-started consumers are queued on its
/// location, the runnable width and the core count.
pub open spec fn apply_patch_spec(
    v: ArmTableView,
    p: IntraPatch,
    policy_forbids: bool,
    consumers: usize,
    width: usize,
    cores: usize,
    block_n: usize,
) -> (ArmTableView, PatchOutcome) {
    let c = v.counters;
    let vetoed = ArmTableView { counters: ArmTableCounters { mid_promote_veto_n: inc(c.mid_promote_veto_n), ..c }, ..v };
    let left: int = if width >= consumers { width - consumers } else { 0 };
    if window_of(p.new_arm) > w_max_spec(block_n, 0) {
        (vetoed, PatchOutcome::WindowVeto)
    } else if v.promoted.contains(p.location) {
        (v, PatchOutcome::AlreadyPromoted)
    } else if policy_forbids {
        (vetoed, PatchOutcome::PolicyVeto)
    } else if consumers > 0 && left < cores {
        (vetoed, PatchOutcome::DrainVeto)
    } else {
        (
            ArmTableView {
                promoted: v.promoted.insert(p.location),
                entries: promote_entry(v.entries, p.location, p.new_arm),
                counters: ArmTableCounters { mid_promote_n: inc(c.mid_promote_n), ..c },
                ..v
            },
            PatchOutcome::Applied,
        )
    }
}

pub open spec fn zero_table_counters() -> ArmTableCounters {
    ArmTableCounters {
        explore_n: 0,
        mid_promote_n: 0,
        mid_promote_veto_n: 0,
        e1_n: 0,
        e2_n: 0,
        e3_n: 0,
        e4_n: 0,
        e5_n: 0,
        e6_n: 0,
        begin_from_prior: 0,
        prior_plant_n: 0,
    }
}

impl ArmTable {
    pub fn new() -> (r: Self)
        ensures
            r@.entries.dom().len() == 0,
            r@.entries.dom().finite(),
            r@.promoted.len() == 0,
            r@.pending.len() == 0,
            r@.tick == 0,
            r@.counters == zero_table_counters(),
    {
        ArmTable {
            entries: entries_new(),
            promoted_this_block: locs_new(),
            pending: Vec::new(),
            tick: 0,
            counters: ArmTableCounters {
                explore_n: 0,
                mid_promote_n: 0,
                mid_promote_veto_n: 0,
                e1_n: 0,
                e2_n: 0,
                e3_n: 0,
                e4_n: 0,
                e5_n: 0,
                e6_n: 0,
                begin_from_prior: 0,
                prior_plant_n: 0,
            },
        }
    }

    fn bump_tick(&mut self) -> (r: u64)
        ensures
            r == inc64(old(self)@.tick),
            final(self)@ == (ArmTableView { tick: r, ..old(self)@ }),
    {
        self.tick = inc64_exec(self.tick);
        self.tick
    }

    /// Begin a block from the prior's snapshots: the block's promotions,
    /// patches and counters are cleared, each snapshot is installed in turn,
    /// and on reuse every sticky entry loses its explore budget.
    pub fn begin_from_prior(&mut self, snaps: Vec<ArmSnap>, reuse: bool)
        ensures
            final(self)@.promoted.len() == 0,
            final(self)@.promoted.finite(),
            final(self)@.pending.len() == 0,
            final(self)@.tick == old(self)@.tick,
            final(self)@.counters == (ArmTableCounters {
                begin_from_prior: if snaps@.len() == 0 { 0 } else { 1 },
                mid_promote_n: 0,
                mid_promote_veto_n: 0,
                explore_n: 0,
                e1_n: 0,
                e2_n: 0,
                e3_n: 0,
                e4_n: 0,
                e5_n: 0,
                e6_n: 0,
                prior_plant_n: 0,
            }),
            final(self)@.entries == (if reuse {
                zero_sticky_budgets(install_snaps(old(self)@.entries, snaps@, reuse))
            } else {
                install_snaps(old(self)@.entries, snaps@, reuse)
            }),
    {
        locs_clear(&mut self.promoted_this_block);
        self.pending = Vec::new();
        self.counters = ArmTableCounters {
            explore_n: 0,
            mid_promote_n: 0,
            mid_promote_veto_n: 0,
            e1_n: 0,
            e2_n: 0,
            e3_n: 0,
            e4_n: 0,
            e5_n: 0,
            e6_n: 0,
            begin_from_prior: if snaps.len() == 0 { 0 } else { 1 },
            prior_plant_n: 0,
        };
        let ghost m0 = arm_entries(self.entries);
        let ghost pr0 = self.promoted_this_block;
        let ghost pd0 = self.pending@;
        let ghost c0 = self.counters;
        let mut i: usize = 0;
        while i < snaps.len()
            invariant
                i <= snaps@.len(),
                self.promoted_this_block == pr0,
                self.pending@ == pd0,
                self.counters == c0,
                self.tick == old(self).tick,
                arm_entries(self.entries) == install_snaps(m0, snaps@.take(i as int), reuse),
            decreases snaps@.len() - i,
        {
            let s = snaps[i];
            let explore: usize = if reuse && s.sticky { 0 } else { 1 };
            let e = match entry_get(&self.entries, s.location) {
                Some(old_e) => ArmEntry {
                    arm: s.arm,
                    sticky: s.sticky,
                    under_covered: s.under_covered,
                    explore_budget: explore,
                    ..old_e
                },
                None => ArmEntry {
                    arm: s.arm,
                    sticky: s.sticky,
                    n_pull: 0,
                    n_reward: 0,
                    ema_wall_ns: 0,
                    ema_abort_cf_ns: 0,
                    last_update_tick: 0,
                    explore_budget: explore,
                    under_covered: s.under_covered,
                    lazy: false,
                },
            };
            entry_put(&mut self.entries, s.location, e);
            proof {
                assert(snaps@.take(i + 1).drop_last() == snaps@.take(i as int));
            }
            i = i + 1;
        }
        proof {
            assert(snaps@.take(snaps@.len() as int) == snaps@);
        }
        if reuse {
            let ghost m1 = arm_entries(self.entries);
            let keys = entry_keys(&self.entries);
            let mut j: usize = 0;
            while j < keys.len()
                invariant
                    j <= keys@.len(),
                    self.promoted_this_block == pr0,
                    self.pending@ == pd0,
                    self.counters == c0,
                    self.tick == old(self).tick,
                    keys@.to_set() == m1.dom(),
                    arm_entries(self.entries).dom() == m1.dom(),
                    forall|k: u64| #[trigger] m1.dom().contains(k) ==> arm_entries(self.entries)[k] == m1[k]
                        || arm_entries(self.entries)[k] == zero_sticky_budgets(m1)[k],
                    forall|p: int| 0 <= p < j ==> #[trigger] arm_entries(self.entries)[keys@[p]] == zero_sticky_budgets(m1)[keys@[p]],
                decreases keys@.len() - j,
            {
                let k = keys[j];
                assert(keys@.to_set().contains(k));
                let cur = entry_get(&self.entries, k);
                if let Some(e) = cur {
                    if e.sticky {
                        entry_put(&mut self.entries, k, ArmEntry { explore_budget: 0, ..e });
                    }
                }
                j = j + 1;
            }
            proof {
                assert forall|k: u64| #[trigger] m1.dom().contains(k) implies arm_entries(self.entries)[k] == zero_sticky_budgets(m1)[k] by {
                    assert(keys@.to_set().contains(k));
                    let p = choose|p: int| 0 <= p < keys@.len() && #[trigger] keys@[p] == k;
                    assert(arm_entries(self.entries)[keys@[p]] == zero_sticky_budgets(m1)[keys@[p]]);
                }
                assert(arm_entries(self.entries) == zero_sticky_budgets(m1));
            }
        }
    }

    /// Pack the table into the next block's prior: every entry once, in no
    /// promised order, each as `pack_snap` gives it.
    pub fn end_pack(&self, block_n: usize) -> (r: Vec<ArmSnap>)
        ensures
            r@.len() == self@.entries.dom().len(),
            r@.map_values(|s: ArmSnap| s.location).no_duplicates(),
            r@.map_values(|s: ArmSnap| s.location).to_set() == self@.entries.dom(),
            forall|i: int| 0 <= i < r@.len() ==> #[trigger] r@[i] == pack_snap(r@[i].location, self@.entries[r@[i].location], block_n),
    {
        let keys = entry_keys(&self.entries);
        let ghost m = arm_entries(self.entries);
        let mut out: Vec<ArmSnap> = Vec::new();
        let mut i: usize = 0;
        while i < keys.len()
            invariant
                i <= keys@.len(),
                m == arm_entries(self.entries),
                keys@.to_set() == m.dom(),
                out@.len() == i,
                forall|p: int| 0 <= p < i ==> #[trigger] out@[p] == pack_snap(keys@[p], m[keys@[p]], block_n),
            decreases keys@.len() - i,
        {
            let k = keys[i];
            assert(keys@.to_set().contains(k));
            let e = entry_get(&self.entries, k).unwrap();
            let mut arm = e.arm;
            if block_n <= THIN_SHELL_N && arm.window() > 2 {
                arm = ArmKind::Win { w: 2 };
            }
            if e.under_covered && arm.is_full() {
                arm = ArmKind::Opt;
            }
            if e.lazy {
                arm = ArmKind::Opt;
            }
            out.push(ArmSnap { location: k, arm, sticky: e.sticky, under_covered: e.under_covered });
            i = i + 1;
        }
        proof {
            assert(out@.map_values(|s: ArmSnap| s.location) =~= keys@);
            keys@.unique_seq_to_set();
        }
        out
    }

    fn reward(&mut self, loc: u64, positive: bool, tick: u64)
        ensures
            final(self)@ == (ArmTableView { entries: reward_spec(old(self)@.entries, loc, positive, tick), ..old(self)@ }),
    {
        let e = match entry_get(&self.entries, loc) {
            Some(e) => ArmEntry {
                n_reward: inc_counter(e.n_reward),
                last_update_tick: tick,
                ema_wall_ns: if positive { inc64_exec(e.ema_wall_ns) } else { e.ema_wall_ns },
                ema_abort_cf_ns: if positive { e.ema_abort_cf_ns } else { inc64_exec(e.ema_abort_cf_ns) },
                ..e
            },
            None => ArmEntry {
                arm: ArmKind::Opt,
                sticky: false,
                n_pull: 0,
                n_reward: 1,
                ema_wall_ns: if positive { 1 } else { 0 },
                ema_abort_cf_ns: if positive { 0 } else { 1 },
                last_update_tick: tick,
                explore_budget: 0,
                under_covered: false,
                lazy: false,
            },
        };
        entry_put(&mut self.entries, loc, e);
    }

    fn force_opt(&mut self, loc: u64, lazy: bool)
        ensures
            final(self)@ == (ArmTableView { entries: force_opt_spec(old(self)@.entries, loc, lazy), ..old(self)@ }),
    {
        let e = match entry_get(&self.entries, loc) {
            Some(e) => ArmEntry { arm: ArmKind::Opt, lazy, sticky: true, explore_budget: 0, ..e },
            None => ArmEntry {
                arm: ArmKind::Opt,
                sticky: true,
                n_pull: 0,
                n_reward: 0,
                ema_wall_ns: 0,
                ema_abort_cf_ns: 0,
                last_update_tick: 0,
                explore_budget: 0,
                under_covered: false,
                lazy,
            },
        };
        entry_put(&mut self.entries, loc, e);
    }

    fn mark_under_covered(&mut self, loc: u64)
        ensures
            final(self)@ == (ArmTableView { entries: under_covered_spec(old(self)@.entries, loc), ..old(self)@ }),
    {
        let e = match entry_get(&self.entries, loc) {
            Some(e) => ArmEntry { under_covered: true, arm: ArmKind::Opt, sticky: true, explore_budget: 0, ..e },
            None => ArmEntry {
                arm: ArmKind::Opt,
                sticky: true,
                n_pull: 0,
                n_reward: 0,
                ema_wall_ns: 0,
                ema_abort_cf_ns: 0,
                last_update_tick: 0,
                explore_budget: 0,
                under_covered: true,
                lazy: false,
            },
        };
        entry_put(&mut self.entries, loc, e);
    }

    fn maybe_queue_promote(&mut self, loc: u64, block_n: usize, chain_len: usize)
        ensures
            final(self)@ == (ArmTableView { pending: queue_promote_spec(old(self)@, loc, block_n, chain_len), ..old(self)@ }),
    {
        if locs_contains(&self.promoted_this_block, loc) {
            return;
        }
        let cur_e = entry_get(&self.entries, loc);
        if let Some(e) = cur_e {
            if e.lazy || e.under_covered {
                return;
            }
        }
        let cap = w_max(block_n, chain_len, false);
        let cur: u8 = match cur_e {
            Some(e) => e.arm.window(),
            None => 0,
        };
        let a: u8 = if cur == u8::MAX { u8::MAX } else { cur + 1 };
        let b: u8 = if a < cap { a } else { cap };
        let next: u8 = if b < 1 { 1 } else { b };
        self.pending.push(IntraPatch { location: loc, new_arm: ArmKind::Win { w: next } });
    }

    /// Learn from how one transaction's speculation was resolved at
    /// `location`: a lazy location is pinned optimistic; commits and partial
    /// aborts reward; a full replay penalizes and, unless the block storms
    /// unfenced, queues a widening, else marks the location under-covered.
    pub fn observe(
        &mut self,
        plan: ResolvePlan,
        location: Option<u64>,
        lazy: bool,
        unfenced_storm: bool,
        block_n: usize,
        chain_len: usize,
    )
        ensures
            final(self)@ == observe_spec(old(self)@, plan, location, lazy, unfenced_storm, block_n, chain_len),
    {
        let tick = self.bump_tick();
        match location {
            None => {
                match plan {
                    ResolvePlan::PartialAbortRebind | ResolvePlan::PartialAbortRewind => {
                        self.counters.e3_n = inc_counter(self.counters.e3_n);
                    },
                    ResolvePlan::FullReplay => {
                        self.counters.e2_n = inc_counter(self.counters.e2_n);
                    },
                    _ => {},
                }
            },
            Some(loc) => {
                if lazy {
                    self.counters.e6_n = inc_counter(self.counters.e6_n);
                    self.force_opt(loc, true);
                    return;
                }
                match plan {
                    ResolvePlan::Commit => {
                        self.counters.e1_n = inc_counter(self.counters.e1_n);
                        self.reward(loc, true, tick);
                    },
                    ResolvePlan::PartialAbortRebind | ResolvePlan::PartialAbortRewind => {
                        self.counters.e3_n = inc_counter(self.counters.e3_n);
                        self.reward(loc, true, tick);
                    },
                    ResolvePlan::OrderedReplay => {
                        self.reward(loc, true, tick);
                    },
                    ResolvePlan::FullReplay => {
                        self.counters.e2_n = inc_counter(self.counters.e2_n);
                        self.reward(loc, false, tick);
                        if unfenced_storm {
                            self.counters.e5_n = inc_counter(self.counters.e5_n);
                            self.mark_under_covered(loc);
                        } else {
                            self.maybe_queue_promote(loc, block_n, chain_len);
                        }
                    },
                }
            },
        }
    }

    /// Hand over the queued widenings, leaving none.
    pub fn take_pending(&mut self) -> (r: Vec<IntraPatch>)
        ensures
            r@ == old(self)@.pending,
            final(self)@ == (ArmTableView { pending: Seq::empty(), ..old(self)@ }),
    {
        let mut out: Vec<IntraPatch> = Vec::new();
        std::mem::swap(&mut out, &mut self.pending);
        out
    }

    /// Apply one queued widening at a pick boundary (see
    /// [`apply_patch_spec`]). The policy's answer, the consumers queued on
    /// the location and the runnable width come from the caller, which
    /// releases those consumers when the outcome is `Applied`.
    pub fn apply_patch(
        &mut self,
        p: IntraPatch,
        policy_forbids: bool,
        consumers: usize,
        width: usize,
        cores: usize,
        block_n: usize,
    ) -> (r: PatchOutcome)
        ensures
            (final(self)@, r) == apply_patch_spec(old(self)@, p, policy_forbids, consumers, width, cores, block_n),
    {
        if p.new_arm.window() > w_max(block_n, 0, false) {
            self.counters.mid_promote_veto_n = inc_counter(self.counters.mid_promote_veto_n);
            return PatchOutcome::WindowVeto;
        }
        if locs_contains(&self.promoted_this_block, p.location) {
            return PatchOutcome::AlreadyPromoted;
        }
        if policy_forbids {
            self.counters.mid_promote_veto_n = inc_counter(self.counters.mid_promote_veto_n);
            return PatchOutcome::PolicyVeto;
        }
        let left: usize = if width >= consumers { width - consumers } else { 0 };
        if consumers > 0 && left < cores {
            self.counters.mid_promote_veto_n = inc_counter(self.counters.mid_promote_veto_n);
            return PatchOutcome::DrainVeto;
        }
        let _ = locs_insert(&mut self.promoted_this_block, p.location);
        let e = match entry_get(&self.entries, p.location) {
            Some(e) => ArmEntry { arm: p.new_arm, sticky: false, ..e },
            None => ArmEntry {
                arm: p.new_arm,
                sticky: false,
                n_pull: 0,
                n_reward: 0,
                ema_wall_ns: 0,
                ema_abort_cf_ns: 0,
                last_update_tick: 0,
                explore_budget: 0,
                under_covered: false,
                lazy: false,
            },
        };
        entry_put(&mut self.entries, p.location, e);
        self.counters.mid_promote_n = inc_counter(self.counters.mid_promote_n);
        PatchOutcome::Applied
    }

    pub fn note_explore(&mut self)
        ensures
            final(self)@ == (ArmTableView {
                counters: ArmTableCounters { explore_n: inc(old(self)@.counters.explore_n), ..old(self)@.counters },
                ..old(self)@
            }),
    {
        self.counters.explore_n = inc_counter(self.counters.explore_n);
    }

    /// A refused fill that ran an independent transaction at once.
    pub fn note_e4(&mut self)
        ensures
            final(self)@ == (ArmTableView {
                counters: ArmTableCounters { e4_n: inc(old(self)@.counters.e4_n), ..old(self)@.counters },
                ..old(self)@
            }),
    {
        self.counters.e4_n = inc_counter(self.counters.e4_n);
    }

    pub fn began_from_prior(&self) -> (r: bool)
        ensures
            r == (self@.counters.begin_from_prior != 0),
    {
        self.counters.begin_from_prior != 0
    }

    pub fn explore_n(&self) -> (r: usize)
        ensures
            r == self@.counters.explore_n,
    {
        self.counters.explore_n
    }

    pub fn mid_promote_n(&self) -> (r: usize)
        ensures
            r == self@.counters.mid_promote_n,
    {
        self.counters.mid_promote_n
    }

    pub fn mid_promote_veto_n(&self) -> (r: usize)
        ensures
            r == self@.counters.mid_promote_veto_n,
    {
        self.counters.mid_promote_veto_n
    }

    pub fn e1_n(&self) -> (r: usize)
        ensures
            r == self@.counters.e1_n,
    {
        self.counters.e1_n
    }

    pub fn e2_n(&self) -> (r: usize)
        ensures
            r == self@.counters.e2_n,
    {
        self.counters.e2_n
    }

    pub fn e3_n(&self) -> (r: usize)
        ensures
            r == self@.counters.e3_n,
    {
        self.counters.e3_n
    }

    pub fn e4_n(&self) -> (r: usize)
        ensures
            r == self@.counters.e4_n,
    {
        self.counters.e4_n
    }

    pub fn e5_n(&self) -> (r: usize)
        ensures
            r == self@.counters.e5_n,
    {
        self.counters.e5_n
    }

    pub fn e6_n(&self) -> (r: usize)
        ensures
            r == self@.counters.e6_n,
    {
        self.counters.e6_n
    }

    pub fn prior_plant_n(&self) -> (r: usize)
        ensures
            r == self@.counters.prior_plant_n,
    {
        self.counters.prior_plant_n
    }

    pub fn arm_of(&self, loc: u64) -> (r: Option<ArmKind>)
        ensures
            r == (if self@.entries.dom().contains(loc) { Some(self@.entries[loc].arm) } else { None }),
    {
        match entry_get(&self.entries, loc) {
            Some(e) => Some(e.arm),
            None => None,
        }
    }

    /// The whole entry of a location.
    pub fn entry(&self, loc: u64) -> (r: Option<ArmEntry>)
        ensures
            r == (if self@.entries.dom().contains(loc) { Some(self@.entries[loc]) } else { None }),
    {
        entry_get(&self.entries, loc)
    }
}

/// Widest window a location may get on a block of `block_n` transactions.
pub fn w_max(block_n: usize, chain_len: usize, _morph_waw: bool) -> (r: u8)
    ensures
        r == w_max_spec(block_n, chain_len),
{
    if block_n == 0 {
        return 1;
    }
    if block_n <= THIN_SHELL_N {
        return 2;
    }
    if chain_len >= 64 {
        return 2;
    }
    4
}

/// On a thin block no window is wider than two.
pub proof fn law_thin_block_window_at_most_two(block_n: usize, chain_len: usize)
    requires
        block_n <= THIN_SHELL_N,
    ensures
        w_max_spec(block_n, chain_len) <= 2,
{
}

/// Packing never yields a full chain for an under-covered or lazy location,
/// and on a thin block never a window wider than two.
pub proof fn law_pack_respects_coverage_and_thinness(e: ArmEntry, block_n: usize)
    ensures
        (e.under_covered || e.lazy) ==> !(pack_arm(e, block_n) is Full),
        block_n <= THIN_SHELL_N ==> window_of(pack_arm(e, block_n)) <= 2,
{
}

/// Reusing a prior leaves every sticky entry without an explore budget.
pub proof fn law_sticky_reuse_has_no_budget(m: Map<u64, ArmEntry>, snaps: Seq<ArmSnap>, k: u64)
    requires
        zero_sticky_budgets(install_snaps(m, snaps, true)).dom().contains(k),
        zero_sticky_budgets(install_snaps(m, snaps, true))[k].sticky,
    ensures
        zero_sticky_budgets(install_snaps(m, snaps, true))[k].explore_budget == 0,
{
}

/// A queued widening stays within the window cap and is at least one.
pub proof fn law_promote_within_cap(cur: u8, block_n: usize, chain_len: usize)
    ensures
        1 <= next_window(cur, w_max_spec(block_n, chain_len)) <= w_max_spec(block_n, chain_len),
{
}

} // verus!
