//! The fence graph: soft waits armed on locations (the source of truth for
//! fence scheduling), their revokes and wakes, and the wait-flag mirror.

use vstd::prelude::*;
use dashmap::{DashMap, DashSet};
use crate::types::{MemoryLocationHash, TxIdx};
use super::tables::{tx_members, tx_set_contains, tx_set_insert, tx_set_new, tx_set_remove};

verus! {

/// A soft wait: `waiter` does not progress past access `armed_at_k` until
/// the expected writer (any writer when `None`) publishes data.
#[derive(Debug, Clone, Copy, PartialEq, Eq, Structural)]
pub struct SoftWaitArm {
    pub waiter: TxIdx,
    pub armed_at_k: u64,
    pub expected_writer: Option<TxIdx>,
    /// Arm id, for revoke bookkeeping.
    pub arm_id: u64,
}

/// Mode of a location.
#[derive(Debug, Clone, Copy, PartialEq, Eq, Structural)]
pub enum RegionMode {
    Speculate,
    Wait,
}

/// The soft-wait arms a map holds, by location.
pub uninterp spec fn soft_arms(m: DashMap<u64, Vec<SoftWaitArm>>) -> Map<u64, Seq<SoftWaitArm>>;

/// The locations a wait-flag map holds.
pub uninterp spec fn wait_flags(m: DashMap<u64, ()>) -> Set<u64>;

/// A copy of a list of arms.
pub fn copy_arms(v: &Vec<SoftWaitArm>) -> (r: Vec<SoftWaitArm>)
    ensures
        r@ == v@,
{
    let mut r: Vec<SoftWaitArm> = Vec::new();
    let mut i: usize = 0;
    while i < v.len()
        invariant
            i <= v@.len(),
            r@ == v@.take(i as int),
        decreases v.len() - i,
    {
        r.push(v[i]);
        i = i + 1;
        assert(r@ =~= v@.take(i as int));
    }
    assert(v@.take(v@.len() as int) =~= v@);
    r
}

/// `DashMap::new`: no arms.
#[verifier::external_body]
fn arms_new() -> (r: DashMap<u64, Vec<SoftWaitArm>>)
    ensures
        soft_arms(r).dom().len() == 0,
        soft_arms(r).dom().finite(),
{
    DashMap::new()
}

/// `DashMap::get`, then a copy of the arms found.
#[verifier::external_body]
fn arms_get(m: &DashMap<u64, Vec<SoftWaitArm>>, k: u64) -> (r: Option<Vec<SoftWaitArm>>)
    ensures
        match r {
            Some(v) => soft_arms(*m).dom().contains(k) && v@ == soft_arms(*m)[k],
            None => !soft_arms(*m).dom().contains(k),
        },
{
    m.get(&k).map(|e| copy_arms(&e))
}

/// `DashMap::remove`: the arms of `k` leave the map and are handed out.
#[verifier::external_body]
fn arms_take(m: &mut DashMap<u64, Vec<SoftWaitArm>>, k: u64) -> (r: Option<Vec<SoftWaitArm>>)
    ensures
        soft_arms(*final(m)) == soft_arms(*old(m)).remove(k),
        match r {
            Some(v) => soft_arms(*old(m)).dom().contains(k) && v@ == soft_arms(*old(m))[k],
            None => !soft_arms(*old(m)).dom().contains(k),
        },
{
    m.remove(&k).map(|e| e.1)
}

/// `DashMap::insert`: the arms of `k` become `v`.
#[verifier::external_body]
fn arms_put(m: &mut DashMap<u64, Vec<SoftWaitArm>>, k: u64, v: Vec<SoftWaitArm>)
    ensures
        soft_arms(*final(m)) == soft_arms(*old(m)).insert(k, v@),
{
    m.insert(k, v);
}

/// `DashMap::iter`, keeping each key: every location once, in no promised
/// order.
#[verifier::external_body]
fn arms_keys(m: &DashMap<u64, Vec<SoftWaitArm>>) -> (r: Vec<u64>)
    ensures
        r@.no_duplicates(),
        r@.to_set() == soft_arms(*m).dom(),
{
    m.iter().map(|e| *e.key()).collect()
}

/// `DashMap::new`: no wait flag.
#[verifier::external_body]
fn flags_new() -> (r: DashMap<u64, ()>)
    ensures
        wait_flags(r).len() == 0,
        wait_flags(r).finite(),
{
    DashMap::new()
}

/// `DashMap::insert`: true when the flag was not set.
#[verifier::external_body]
fn flags_insert(m: &mut DashMap<u64, ()>, k: u64) -> (r: bool)
    ensures
        wait_flags(*final(m)) == wait_flags(*old(m)).insert(k),
        r == !wait_flags(*old(m)).contains(k),
{
    m.insert(k, ()).is_none()
}

/// `DashMap::remove`: true when the flag was set.
#[verifier::external_body]
fn flags_remove(m: &mut DashMap<u64, ()>, k: u64) -> (r: bool)
    ensures
        wait_flags(*final(m)) == wait_flags(*old(m)).remove(k),
        r == wait_flags(*old(m)).contains(k),
{
    m.remove(&k).is_some()
}

/// `DashMap::contains_key`.
#[verifier::external_body]
fn flags_contains(m: &DashMap<u64, ()>, k: u64) -> (r: bool)
    ensures
        r == wait_flags(*m).contains(k),
{
    m.contains_key(&k)
}

/// Counters of the fence graph.
#[derive(Debug, Clone, Copy, PartialEq, Eq, Structural)]
pub struct FenceCounters {
    pub edge_count: usize,
    pub arm_seq: u64,
    pub soft_arm_count: usize,
    pub soft_revoke_count: usize,
    pub wake_count: usize,
}

/// The abstract state of the fence graph.
pub struct FenceView {
    pub soft: Map<u64, Seq<SoftWaitArm>>,
    pub waits: Set<u64>,
    pub ready: Set<TxIdx>,
    pub counters: FenceCounters,
}

/// Explicit fence graph: soft-wait lifecycle plus wait-flag mirrors.
pub struct FenceGraph {
    pub soft_waits: DashMap<u64, Vec<SoftWaitArm>>,
    pub wait_locations: DashMap<u64, ()>,
    pub ready_hints: DashSet<TxIdx>,
    pub counters: FenceCounters,
}

impl View for FenceGraph {
    type V = FenceView;

    open spec fn view(&self) -> FenceView {
        FenceView {
            soft: soft_arms(self.soft_waits),
            waits: wait_flags(self.wait_locations),
            ready: tx_members(self.ready_hints),
            counters: self.counters,
        }
    }
}

/// `a + n` on a counter that wraps.
pub open spec fn add_wrap(a: usize, n: usize) -> usize {
    if a + n > usize::MAX {
        (a + n - usize::MAX - 1) as usize
    } else {
        (a + n) as usize
    }
}

fn add_counter(a: usize, n: usize) -> (r: usize)
    ensures
        r == add_wrap(a, n),
{
    if n > usize::MAX - a {
        n - (usize::MAX - a) - 1
    } else {
        a + n
    }
}

/// Position of the first arm of `waiter` in `s`, or `s.len()` when none.
pub open spec fn waiter_pos(s: Seq<SoftWaitArm>, waiter: TxIdx) -> int
    decreases s.len(),
{
    if s.len() == 0 {
        0
    } else if s[0].waiter == waiter {
        0
    } else {
        1 + waiter_pos(s.drop_first(), waiter)
    }
}

/// `s` with `arm` in place of the first arm of its waiter, or appended.
pub open spec fn arm_into(s: Seq<SoftWaitArm>, arm: SoftWaitArm) -> Seq<SoftWaitArm> {
    let p = waiter_pos(s, arm.waiter);
    if p < s.len() {
        s.update(p, arm)
    } else {
        s.push(arm)
    }
}

/// The arms of `s` whose waiter is not `waiter`.
pub open spec fn drop_waiter(s: Seq<SoftWaitArm>, waiter: TxIdx) -> Seq<SoftWaitArm>
    decreases s.len(),
{
    if s.len() == 0 {
        s
    } else if s.last().waiter == waiter {
        drop_waiter(s.drop_last(), waiter)
    } else {
        drop_waiter(s.drop_last(), waiter).push(s.last())
    }
}

/// The publish of `writer` releases `a`: its waiter comes later and it
/// expects this writer (or any).
pub open spec fn releases(a: SoftWaitArm, writer: TxIdx) -> bool {
    (match a.expected_writer {
        Some(w) => w == writer,
        None => true,
    }) && a.waiter > writer
}

/// Split `s` by a publish of `writer`: the waiters woken (each once, in
/// order) and the arms kept.
pub open spec fn wake_split(s: Seq<SoftWaitArm>, writer: TxIdx) -> (Seq<TxIdx>, Seq<SoftWaitArm>)
    decreases s.len(),
{
    if s.len() == 0 {
        (Seq::<TxIdx>::empty(), s)
    } else {
        let (woken, keep) = wake_split(s.drop_last(), writer);
        let a = s.last();
        if releases(a, writer) {
            (if woken.contains(a.waiter) {
                woken
            } else {
                woken.push(a.waiter)
            }, keep)
        } else {
            (woken, keep.push(a))
        }
    }
}

/// The graph after a publish of `writer` on `loc`, and the waiters woken.
pub open spec fn wake_spec(v: FenceView, loc: u64, writer: TxIdx) -> (FenceView, Seq<TxIdx>) {
    let present = v.soft.dom().contains(loc);
    let (woken, keep) = if present {
        wake_split(v.soft[loc], writer)
    } else {
        (Seq::<TxIdx>::empty(), Seq::<SoftWaitArm>::empty())
    };
    let soft1 = if present {
        v.soft.insert(loc, keep)
    } else {
        v.soft
    };
    let emptied = !present || keep.len() == 0;
    let v1 = FenceView {
        soft: if emptied {
            soft1.remove(loc)
        } else {
            soft1
        },
        waits: if emptied {
            v.waits.remove(loc)
        } else {
            v.waits
        },
        counters: FenceCounters {
            wake_count: if woken.len() > 0 {
                add_wrap(v.counters.wake_count, woken.len() as usize)
            } else {
                v.counters.wake_count
            },
            ..v.counters
        },
        ..v
    };
    (v1, woken)
}

/// Publishes of `writer` on each of `locs` in turn, with the pairs woken.
pub open spec fn wake_all(v: FenceView, writer: TxIdx, locs: Seq<u64>) -> (FenceView, Seq<(u64, TxIdx)>)
    decreases locs.len(),
{
    if locs.len() == 0 {
        (v, Seq::<(u64, TxIdx)>::empty())
    } else {
        let (v1, out1) = wake_all(v, writer, locs.drop_last());
        let loc = locs.last();
        let (v2, woken) = wake_spec(v1, loc, writer);
        (v2, out1 + woken.map_values(|w: TxIdx| (loc, w)))
    }
}

pub open spec fn inc(x: usize) -> usize {
    if x == usize::MAX {
        0
    } else {
        (x + 1) as usize
    }
}

fn inc_counter(x: usize) -> (r: usize)
    ensures
        r == inc(x),
{
    if x == usize::MAX {
        0
    } else {
        x + 1
    }
}

/// The graph after arming `waiter` on `location` at access `k`, and
/// whether the arm is new.
pub open spec fn arm_soft_spec(
    v: FenceView,
    location: u64,
    waiter: TxIdx,
    k: u64,
    expected_writer: Option<TxIdx>,
) -> (FenceView, bool) {
    let arm_id: u64 = if v.counters.arm_seq == u64::MAX {
        0
    } else {
        (v.counters.arm_seq + 1) as u64
    };
    let arm = SoftWaitArm { waiter, armed_at_k: k, expected_writer, arm_id };
    let s = if v.soft.dom().contains(location) {
        v.soft[location]
    } else {
        Seq::<SoftWaitArm>::empty()
    };
    let newly = waiter_pos(s, waiter) >= s.len();
    (
        FenceView {
            soft: v.soft.insert(location, arm_into(s, arm)),
            waits: v.waits.insert(location),
            counters: FenceCounters {
                arm_seq: arm_id,
                soft_arm_count: if newly {
                    inc(v.counters.soft_arm_count)
                } else {
                    v.counters.soft_arm_count
                },
                edge_count: if newly {
                    inc(v.counters.edge_count)
                } else {
                    v.counters.edge_count
                },
                ..v.counters
            },
            ..v
        },
        newly,
    )
}

fn first_waiter(v: &Vec<SoftWaitArm>, waiter: TxIdx) -> (r: usize)
    ensures
        r as int == waiter_pos(v@, waiter),
        r <= v@.len(),
{
    let mut i: usize = 0;
    assert(v@.skip(0) =~= v@);
    while i < v.len()
        invariant
            i <= v@.len(),
            waiter_pos(v@, waiter) == i + waiter_pos(v@.skip(i as int), waiter),
        decreases v.len() - i,
    {
        assert(v@.skip(i as int)[0] == v@[i as int]);
        assert(v@.skip(i as int).drop_first() =~= v@.skip(i + 1));
        if v[i].waiter == waiter {
            return i;
        }
        i = i + 1;
    }
    assert(v@.skip(i as int).len() == 0);
    i
}

proof fn lemma_waiter_pos_bound(s: Seq<SoftWaitArm>, waiter: TxIdx)
    ensures
        0 <= waiter_pos(s, waiter) <= s.len(),
    decreases s.len(),
{
    if s.len() > 0 && s[0].waiter != waiter {
        lemma_waiter_pos_bound(s.drop_first(), waiter);
    }
}

impl FenceGraph {
    /// An empty graph.
    pub fn new() -> (r: Self)
        ensures
            r@.soft.dom().len() == 0,
            r@.waits.len() == 0,
            r@.ready.len() == 0,
            r@.counters == (FenceCounters {
                edge_count: 0,
                arm_seq: 0,
                soft_arm_count: 0,
                soft_revoke_count: 0,
                wake_count: 0,
            }),
    {
        FenceGraph {
            soft_waits: arms_new(),
            wait_locations: flags_new(),
            ready_hints: tx_set_new(),
            counters: FenceCounters {
                edge_count: 0,
                arm_seq: 0,
                soft_arm_count: 0,
                soft_revoke_count: 0,
                wake_count: 0,
            },
        }
    }

    /// Arm a soft wait of `waiter` on `location` at access `k`. The waiter's
    /// earlier arm there is replaced; the result says whether it is new.
    pub fn arm_soft(
        &mut self,
        location: MemoryLocationHash,
        waiter: TxIdx,
        k: u64,
        expected_writer: Option<TxIdx>,
    ) -> (r: bool)
        ensures
            (final(self)@, r) == arm_soft_spec(old(self)@, location, waiter, k, expected_writer),
    {
        let arm_id: u64 = if self.counters.arm_seq == u64::MAX {
            0
        } else {
            self.counters.arm_seq + 1
        };
        self.counters.arm_seq = arm_id;
        let arm = SoftWaitArm { waiter, armed_at_k: k, expected_writer, arm_id };
        let mut v = match arms_take(&mut self.soft_waits, location) {
            Some(v) => v,
            None => Vec::new(),
        };
        let ghost s = v@;
        let p = first_waiter(&v, waiter);
        let newly = p >= v.len();
        if newly {
            v.push(arm);
        } else {
            v.set(p, arm);
        }
        assert(v@ == arm_into(s, arm));
        arms_put(&mut self.soft_waits, location, v);
        let _ = flags_insert(&mut self.wait_locations, location);
        if newly {
            self.counters.soft_arm_count = inc_counter(self.counters.soft_arm_count);
            self.counters.edge_count = inc_counter(self.counters.edge_count);
        }
        proof {
            assert(soft_arms(self.soft_waits) =~= old(self)@.soft.insert(location, arm_into(s, arm)));
        }
        newly
    }

    /// Revoke every soft wait on `location`; the number of arms cleared.
    pub fn clear(&mut self, location: MemoryLocationHash) -> (r: usize)
        ensures
            ({
                let v = old(self)@;
                let n = if v.soft.dom().contains(location) {
                    v.soft[location].len()
                } else {
                    0
                };
                let mirrored = v.waits.contains(location);
                &&& r == n
                &&& final(self)@ == (FenceView {
                    soft: v.soft.remove(location),
                    waits: v.waits.remove(location),
                    counters: FenceCounters {
                        soft_revoke_count: if n > 0 || mirrored {
                            add_wrap(v.counters.soft_revoke_count, if n > 0 { n as usize } else { 1 })
                        } else {
                            v.counters.soft_revoke_count
                        },
                        ..v.counters
                    },
                    ..v
                })
            }),
    {
        let n = match arms_take(&mut self.soft_waits, location) {
            Some(arms) => arms.len(),
            None => 0,
        };
        let mirrored = flags_remove(&mut self.wait_locations, location);
        if n > 0 || mirrored {
            let step: usize = if n > 0 {
                n
            } else {
                1
            };
            self.counters.soft_revoke_count = add_counter(self.counters.soft_revoke_count, step);
        }
        n
    }

    /// Revoke the soft wait of one waiter on `location`.
    pub fn clear_waiter(&mut self, location: MemoryLocationHash, waiter: TxIdx) -> (r: bool)
        ensures
            ({
                let v = old(self)@;
                let present = v.soft.dom().contains(location);
                let kept = if present {
                    drop_waiter(v.soft[location], waiter)
                } else {
                    Seq::<SoftWaitArm>::empty()
                };
                let emptied = present && kept.len() == 0;
                &&& r == (present && kept.len() < v.soft[location].len())
                &&& final(self)@ == (FenceView {
                    soft: if !present {
                        v.soft
                    } else if emptied {
                        v.soft.remove(location)
                    } else {
                        v.soft.insert(location, kept)
                    },
                    waits: if emptied {
                        v.waits.remove(location)
                    } else {
                        v.waits
                    },
                    counters: FenceCounters {
                        soft_revoke_count: if r {
                            inc(v.counters.soft_revoke_count)
                        } else {
                            v.counters.soft_revoke_count
                        },
                        ..v.counters
                    },
                    ..v
                })
            }),
    {
        let ghost v0 = self@;
        let arms = match arms_get(&self.soft_waits, location) {
            None => {
                return false;
            },
            Some(a) => a,
        };
        let mut kept: Vec<SoftWaitArm> = Vec::new();
        let mut i: usize = 0;
        while i < arms.len()
            invariant
                i <= arms@.len(),
                kept@ == drop_waiter(arms@.take(i as int), waiter),
            decreases arms.len() - i,
        {
            assert(arms@.take(i + 1).drop_last() =~= arms@.take(i as int));
            if arms[i].waiter != waiter {
                kept.push(arms[i]);
            }
            i = i + 1;
        }
        assert(arms@.take(arms@.len() as int) =~= arms@);
        let cleared = kept.len() < arms.len();
        let empty = kept.len() == 0;
        if empty {
            let _ = arms_take(&mut self.soft_waits, location);
            let _ = flags_remove(&mut self.wait_locations, location);
        } else {
            arms_put(&mut self.soft_waits, location, kept);
        }
        if cleared {
            self.counters.soft_revoke_count = inc_counter(self.counters.soft_revoke_count);
        }
        cleared
    }

    /// A publish of `writer` on `location` wakes the soft waiters after it
    /// that expect it (or any writer); the others stay armed. Returns the
    /// waiters to unpark, each once.
    pub fn wake_on_publish(&mut self, location: MemoryLocationHash, writer: TxIdx) -> (r: Vec<TxIdx>)
        ensures
            (final(self)@, r@) == wake_spec(old(self)@, location, writer),
    {
        let ghost v0 = self@;
        let mut woken: Vec<TxIdx> = Vec::new();
        let mut keep: Vec<SoftWaitArm> = Vec::new();
        let present = match arms_take(&mut self.soft_waits, location) {
            None => false,
            Some(arms) => {
                let mut i: usize = 0;
                assert(arms@.take(0) =~= Seq::<SoftWaitArm>::empty());
                while i < arms.len()
                    invariant
                        i <= arms@.len(),
                        (woken@, keep@) == wake_split(arms@.take(i as int), writer),
                    decreases arms.len() - i,
                {
                    assert(arms@.take(i + 1).drop_last() =~= arms@.take(i as int));
                    let a = arms[i];
                    let matches = match a.expected_writer {
                        Some(w) => w == writer,
                        None => true,
                    };
                    if matches && a.waiter > writer {
                        if !contains_tx(&woken, a.waiter) {
                            woken.push(a.waiter);
                        }
                    } else {
                        keep.push(a);
                    }
                    i = i + 1;
                }
                assert(arms@.take(arms@.len() as int) =~= arms@);
                true
            },
        };
        if present && keep.len() > 0 {
            arms_put(&mut self.soft_waits, location, keep);
            proof {
                assert(soft_arms(self.soft_waits) =~= v0.soft.insert(location, wake_split(v0.soft[location], writer).1));
            }
        } else {
            let _ = flags_remove(&mut self.wait_locations, location);
            proof {
                if present {
                    assert(soft_arms(self.soft_waits) =~= v0.soft.insert(location, wake_split(v0.soft[location], writer).1).remove(location));
                } else {
                    assert(soft_arms(self.soft_waits) =~= v0.soft.remove(location));
                }
            }
        }
        if woken.len() > 0 {
            self.counters.wake_count = add_counter(self.counters.wake_count, woken.len());
        }
        woken
    }

    /// Wake, on every armed location, the soft waiters that a publish of
    /// `writer` releases, whatever order the map hands the locations out in.
    pub fn clear_for_writer(&mut self, writer: TxIdx) -> (r: Vec<(MemoryLocationHash, TxIdx)>)
        ensures
            exists|ks: Seq<u64>|
                ks.no_duplicates() && ks.to_set() == old(self)@.soft.dom() && (final(self)@, r@)
                    == wake_all(old(self)@, writer, ks),
    {
        let keys = arms_keys(&self.soft_waits);
        let ghost v0 = self@;
        let mut cleared: Vec<(MemoryLocationHash, TxIdx)> = Vec::new();
        let mut i: usize = 0;
        assert(keys@.take(0) =~= Seq::<u64>::empty());
        while i < keys.len()
            invariant
                i <= keys@.len(),
                (self@, cleared@) == wake_all(v0, writer, keys@.take(i as int)),
            decreases keys.len() - i,
        {
            let loc = keys[i];
            assert(keys@.take(i + 1).drop_last() =~= keys@.take(i as int));
            let ghost before = cleared@;
            let woken = self.wake_on_publish(loc, writer);
            let mut j: usize = 0;
            while j < woken.len()
                invariant
                    j <= woken@.len(),
                    cleared@ == before + woken@.take(j as int).map_values(|w: TxIdx| (loc, w)),
                decreases woken.len() - j,
            {
                cleared.push((loc, woken[j]));
                j = j + 1;
                assert(cleared@ =~= before + woken@.take(j as int).map_values(|w: TxIdx| (loc, w)));
            }
            assert(woken@.take(woken@.len() as int) =~= woken@);
            i = i + 1;
        }
        assert(keys@.take(keys@.len() as int) =~= keys@);
        cleared
    }

    /// The soft waits armed on `location`.
    pub fn iter_waiters(&self, location: MemoryLocationHash) -> (r: Vec<SoftWaitArm>)
        ensures
            r@ == (if self@.soft.dom().contains(location) {
                self@.soft[location]
            } else {
                Seq::<SoftWaitArm>::empty()
            }),
    {
        match arms_get(&self.soft_waits, location) {
            Some(v) => v,
            None => Vec::new(),
        }
    }

    /// Some soft wait is armed on `location`.
    pub fn has_soft_wait(&self, location: MemoryLocationHash) -> (r: bool)
        ensures
            r == (self@.soft.dom().contains(location) && self@.soft[location].len() > 0),
    {
        match arms_get(&self.soft_waits, location) {
            Some(v) => v.len() > 0,
            None => false,
        }
    }

    pub fn soft_arm_count(&self) -> (r: usize)
        ensures
            r == self@.counters.soft_arm_count,
    {
        self.counters.soft_arm_count
    }

    pub fn soft_revoke_count(&self) -> (r: usize)
        ensures
            r == self@.counters.soft_revoke_count,
    {
        self.counters.soft_revoke_count
    }

    pub fn wake_count(&self) -> (r: usize)
        ensures
            r == self@.counters.wake_count,
    {
        self.counters.wake_count
    }

    /// Set the wait flag of `location`; true when it was not set.
    pub fn set_wait(&mut self, location: MemoryLocationHash) -> (r: bool)
        ensures
            r == !old(self)@.waits.contains(location),
            final(self)@ == (FenceView { waits: old(self)@.waits.insert(location), ..old(self)@ }),
    {
        flags_insert(&mut self.wait_locations, location)
    }

    /// Clear the soft waits and the flag of `location`; true when either
    /// was there.
    pub fn clear_wait(&mut self, location: MemoryLocationHash) -> (r: bool)
        ensures
            r == (old(self)@.soft.dom().contains(location) && old(self)@.soft[location].len() > 0),
            final(self)@.soft == old(self)@.soft.remove(location),
            final(self)@.waits == old(self)@.waits.remove(location),
    {
        let soft = self.clear(location);
        soft > 0 || flags_remove(&mut self.wait_locations, location)
    }

    /// A soft wait or the wait flag is on `location`.
    pub fn is_wait(&self, location: MemoryLocationHash) -> (r: bool)
        ensures
            r == ((self@.soft.dom().contains(location) && self@.soft[location].len() > 0)
                || self@.waits.contains(location)),
    {
        self.has_soft_wait(location) || flags_contains(&self.wait_locations, location)
    }

    pub fn mode(&self, location: MemoryLocationHash) -> (r: RegionMode)
        ensures
            r == (if (self@.soft.dom().contains(location) && self@.soft[location].len() > 0)
                || self@.waits.contains(location) {
                RegionMode::Wait
            } else {
                RegionMode::Speculate
            }),
    {
        if self.is_wait(location) {
            RegionMode::Wait
        } else {
            RegionMode::Speculate
        }
    }

    /// A soft wait at access 0 on any writer.
    pub fn note_soft_wait(&mut self, location: MemoryLocationHash, waiter: TxIdx)
        ensures
            final(self)@ == arm_soft_spec(old(self)@, location, waiter, 0, None).0,
    {
        let _ = self.arm_soft(location, waiter, 0, None);
    }

    pub fn note_hard_edge(&mut self)
        ensures
            final(self)@ == (FenceView {
                counters: FenceCounters {
                    edge_count: inc(old(self)@.counters.edge_count),
                    ..old(self)@.counters
                },
                ..old(self)@
            }),
    {
        self.counters.edge_count = inc_counter(self.counters.edge_count);
    }

    pub fn mark_ready(&mut self, tx_idx: TxIdx)
        ensures
            final(self)@ == (FenceView { ready: old(self)@.ready.insert(tx_idx), ..old(self)@ }),
    {
        tx_set_insert(&mut self.ready_hints, tx_idx);
    }

    pub fn clear_ready(&mut self, tx_idx: TxIdx)
        ensures
            final(self)@ == (FenceView { ready: old(self)@.ready.remove(tx_idx), ..old(self)@ }),
    {
        tx_set_remove(&mut self.ready_hints, tx_idx);
    }

    pub fn is_ready_hint(&self, tx_idx: TxIdx) -> (r: bool)
        ensures
            r == self@.ready.contains(tx_idx),
    {
        tx_set_contains(&self.ready_hints, tx_idx)
    }

    pub fn edge_count(&self) -> (r: usize)
        ensures
            r == self@.counters.edge_count,
    {
        self.counters.edge_count
    }

    /// The waiters armed on `location`, in arm order.
    pub fn soft_waiters(&self, location: MemoryLocationHash) -> (r: Vec<TxIdx>)
        ensures
            r@ == (if self@.soft.dom().contains(location) {
                self@.soft[location]
            } else {
                Seq::<SoftWaitArm>::empty()
            }).map_values(|a: SoftWaitArm| a.waiter),
    {
        let arms = self.iter_waiters(location);
        let mut r: Vec<TxIdx> = Vec::new();
        let mut i: usize = 0;
        while i < arms.len()
            invariant
                i <= arms@.len(),
                r@ == arms@.take(i as int).map_values(|a: SoftWaitArm| a.waiter),
            decreases arms.len() - i,
        {
            r.push(arms[i].waiter);
            i = i + 1;
            assert(r@ =~= arms@.take(i as int).map_values(|a: SoftWaitArm| a.waiter));
        }
        assert(arms@.take(arms@.len() as int) =~= arms@);
        r
    }
}

fn contains_tx(v: &Vec<TxIdx>, x: TxIdx) -> (r: bool)
    ensures
        r == v@.contains(x),
{
    let mut i: usize = 0;
    while i < v.len()
        invariant
            i <= v@.len(),
            forall|j: int| 0 <= j < i ==> v@[j] != x,
        decreases v.len() - i,
    {
        if v[i] == x {
            assert(v@[i as int] == x);
            return true;
        }
        i = i + 1;
    }
    false
}

/// Some arm of `s` released by `writer` belongs to `w`.
pub open spec fn released_waiter(s: Seq<SoftWaitArm>, writer: TxIdx, w: TxIdx) -> bool {
    exists|j: int| 0 <= j < s.len() && releases(#[trigger] s[j], writer) && s[j].waiter == w
}

/// A publish wakes only waiters that come after the writer and that an
/// arm on the location expects it for; an arm it does not release stays.
pub proof fn law_wake_releases_only_later_matching(s: Seq<SoftWaitArm>, writer: TxIdx)
    ensures
        forall|i: int|
            0 <= i < wake_split(s, writer).0.len() ==> released_waiter(
                s,
                writer,
                #[trigger] wake_split(s, writer).0[i],
            ),
        forall|i: int|
            0 <= i < wake_split(s, writer).1.len() ==> !releases(
                #[trigger] wake_split(s, writer).1[i],
                writer,
            ),
    decreases s.len(),
{
    if s.len() > 0 {
        let p = s.drop_last();
        law_wake_releases_only_later_matching(p, writer);
        let w0 = wake_split(p, writer).0;
        let k0 = wake_split(p, writer).1;
        let a = s.last();
        assert(s[s.len() - 1] == a);
        assert forall|i: int| 0 <= i < wake_split(s, writer).0.len() implies released_waiter(
            s,
            writer,
            #[trigger] wake_split(s, writer).0[i],
        ) by {
            if i < w0.len() {
                assert(wake_split(s, writer).0[i] == w0[i]);
                assert(released_waiter(p, writer, w0[i]));
                let j = choose|j: int| 0 <= j < p.len() && releases(#[trigger] p[j], writer) && p[j].waiter == w0[i];
                assert(s[j] == p[j]);
            } else {
                assert(releases(a, writer) && !w0.contains(a.waiter));
                assert(wake_split(s, writer).0 == w0.push(a.waiter));
                assert(wake_split(s, writer).0[i] == a.waiter);
            }
        }
        assert forall|i: int| 0 <= i < wake_split(s, writer).1.len() implies !releases(
            #[trigger] wake_split(s, writer).1[i],
            writer,
        ) by {
            if i < k0.len() {
                assert(wake_split(s, writer).1[i] == k0[i]);
            }
        }
    }
}

/// A second publish of the same writer on the same location wakes nobody.
pub proof fn law_wake_is_idempotent(s: Seq<SoftWaitArm>, writer: TxIdx)
    ensures
        wake_split(wake_split(s, writer).1, writer).0.len() == 0,
{
    law_wake_releases_only_later_matching(s, writer);
    lemma_split_of_unreleased(wake_split(s, writer).1, writer);
}

proof fn lemma_split_of_unreleased(s: Seq<SoftWaitArm>, writer: TxIdx)
    requires
        forall|i: int| 0 <= i < s.len() ==> !releases(#[trigger] s[i], writer),
    ensures
        wake_split(s, writer).0.len() == 0,
    decreases s.len(),
{
    if s.len() > 0 {
        assert(forall|i: int| 0 <= i < s.drop_last().len() ==> s.drop_last()[i] == s[i]);
        lemma_split_of_unreleased(s.drop_last(), writer);
        assert(!releases(s[s.len() - 1], writer));
    }
}

} // verus!
