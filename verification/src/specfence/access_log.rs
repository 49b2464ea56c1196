//! Per-block access ordinal log: for each transaction, the running access
//! ordinal of its current incarnation and the ordinal at which it first
//! touched each location.

use vstd::prelude::*;
use crate::types::{MemoryLocationHash, TxIdx};

verus! {

/// First-touch ordinals of one incarnation, by location.
#[verifier::external_body]
pub struct FirstTouches {
    inner: hashbrown::HashMap<u64, u32>,
}

/// The first-touch ordinals a table holds.
pub uninterp spec fn first_touch_map(t: FirstTouches) -> Map<u64, u32>;

/// No first touch.
pub open spec fn no_touches() -> Map<u64, u32> {
    Map::empty()
}

/// `hashbrown::HashMap::new`: an empty table.
#[verifier::external_body]
fn touches_new() -> (r: FirstTouches)
    ensures
        first_touch_map(r) == no_touches(),
{
    FirstTouches { inner: hashbrown::HashMap::new() }
}

/// `hashbrown::HashMap::clear`.
#[verifier::external_body]
fn touches_clear(t: &mut FirstTouches)
    ensures
        first_touch_map(*final(t)) == no_touches(),
{
    t.inner.clear();
}

/// `hashbrown::HashMap::entry(loc).or_insert(k)`: `k` is recorded only
/// when `loc` has no ordinal yet.
#[verifier::external_body]
fn touches_or_insert(t: &mut FirstTouches, loc: u64, k: u32)
    ensures
        first_touch_map(*final(t)) == (if first_touch_map(*old(t)).dom().contains(loc) {
            first_touch_map(*old(t))
        } else {
            first_touch_map(*old(t)).insert(loc, k)
        }),
{
    t.inner.entry(loc).or_insert(k);
}

/// `hashbrown::HashMap::get`.
#[verifier::external_body]
fn touches_get(t: &FirstTouches, loc: u64) -> (r: Option<u32>)
    ensures
        r == (if first_touch_map(*t).dom().contains(loc) {
            Some(first_touch_map(*t)[loc])
        } else {
            None
        }),
{
    t.inner.get(&loc).copied()
}

/// `hashbrown::HashMap::iter`: every entry once, in an order the map does
/// not promise.
#[verifier::external_body]
fn touches_entries(t: &FirstTouches) -> (r: Vec<(u64, u32)>)
    ensures
        r@.no_duplicates(),
        forall|i: int|
            0 <= i < r@.len() ==> first_touch_map(*t).dom().contains((#[trigger] r@[i]).0)
                && first_touch_map(*t)[r@[i].0] == r@[i].1,
        forall|loc: u64|
            #[trigger] first_touch_map(*t).dom().contains(loc) ==> r@.contains(
                (loc, first_touch_map(*t)[loc]),
            ),
{
    t.inner.iter().map(|(l, k)| (*l, *k)).collect()
}

/// One transaction's slot: its running ordinal and its first touches.
pub struct TxOrdinals {
    pub k: u32,
    pub first: FirstTouches,
}

/// Per-block access ordinal log.
pub struct AccessOrdinalLog {
    pub slots: Vec<TxOrdinals>,
}

/// The view of a slot: its ordinal and first touches.
pub open spec fn slot_view(s: TxOrdinals) -> (u32, Map<u64, u32>) {
    (s.k, first_touch_map(s.first))
}

impl AccessOrdinalLog {
    pub open spec fn slots_view(&self) -> Seq<(u32, Map<u64, u32>)> {
        self.slots@.map_values(|s: TxOrdinals| slot_view(s))
    }

    /// A log for `block_size` transactions, each with a fresh slot.
    pub fn new(block_size: usize) -> (r: Self)
        ensures
            r.slots_view().len() == block_size,
            forall|i: int|
                0 <= i < block_size ==> (#[trigger] r.slots_view()[i]) == (
                    0u32,
                    Map::<u64, u32>::empty(),
                ),
    {
        let mut slots: Vec<TxOrdinals> = Vec::new();
        let mut i: usize = 0;
        while i < block_size
            invariant
                i <= block_size,
                slots@.len() == i,
                forall|j: int|
                    0 <= j < i ==> slot_view(#[trigger] slots@[j]) == (0u32, Map::<u64, u32>::empty()),
            decreases block_size - i,
        {
            slots.push(TxOrdinals { k: 0, first: touches_new() });
            i = i + 1;
        }
        AccessOrdinalLog { slots }
    }

    /// A new incarnation of `tx`: its ordinal and first touches restart.
    pub fn begin_incarnation(&mut self, tx_idx: TxIdx)
        ensures
            final(self).slots_view() == (if tx_idx < old(self).slots_view().len() {
                old(self).slots_view().update(tx_idx as int, (0u32, Map::<u64, u32>::empty()))
            } else {
                old(self).slots_view()
            }),
    {
        if tx_idx < self.slots.len() {
            let mut fresh = TxOrdinals { k: 0, first: touches_new() };
            std::mem::swap(&mut fresh, &mut self.slots[tx_idx]);
            let mut first = fresh.first;
            touches_clear(&mut first);
            self.slots.set(tx_idx, TxOrdinals { k: 0, first });
            assert(self.slots_view() =~= old(self).slots_view().update(
                tx_idx as int,
                (0u32, Map::<u64, u32>::empty()),
            ));
        }
    }

    /// Record an access of `location` by `tx` and return its ordinal in
    /// the incarnation (0 for a transaction outside the block). The first
    /// ordinal of each location is kept.
    pub fn note(&mut self, tx_idx: TxIdx, location: MemoryLocationHash) -> (r: u32)
        ensures
            tx_idx >= old(self).slots_view().len() ==> r == 0 && final(self).slots_view() == old(
                self,
            ).slots_view(),
            tx_idx < old(self).slots_view().len() ==> ({
                let (k0, m0) = old(self).slots_view()[tx_idx as int];
                let k1: u32 = if k0 == u32::MAX {
                    k0
                } else {
                    (k0 + 1) as u32
                };
                &&& r == k1
                &&& final(self).slots_view() == old(self).slots_view().update(
                    tx_idx as int,
                    (
                        k1,
                        if m0.dom().contains(location) {
                            m0
                        } else {
                            m0.insert(location, k1)
                        },
                    ),
                )
            }),
    {
        if tx_idx >= self.slots.len() {
            return 0;
        }
        let mut st = TxOrdinals { k: 0, first: touches_new() };
        std::mem::swap(&mut st, &mut self.slots[tx_idx]);
        let k = st.k.saturating_add(1);
        let mut first = st.first;
        touches_or_insert(&mut first, location, k);
        self.slots.set(tx_idx, TxOrdinals { k, first });
        assert(self.slots_view() =~= old(self).slots_view().update(
            tx_idx as int,
            (
                k,
                if old(self).slots_view()[tx_idx as int].1.dom().contains(location) {
                    old(self).slots_view()[tx_idx as int].1
                } else {
                    old(self).slots_view()[tx_idx as int].1.insert(location, k)
                },
            ),
        ));
        k
    }

    /// The ordinal at which `tx`'s incarnation first touched `location`.
    pub fn first_k(&self, tx_idx: TxIdx, location: MemoryLocationHash) -> (r: Option<u32>)
        ensures
            r == (if tx_idx < self.slots_view().len() && self.slots_view()[tx_idx as int].1.dom().contains(
                location,
            ) {
                Some(self.slots_view()[tx_idx as int].1[location])
            } else {
                None
            }),
    {
        if tx_idx >= self.slots.len() {
            return None;
        }
        touches_get(&self.slots[tx_idx].first, location)
    }

    /// First touches of `tx` with an ordinal in `1..before_k`, in no
    /// promised order.
    pub fn prefix_before(&self, tx_idx: TxIdx, before_k: u32) -> (r: Vec<(MemoryLocationHash, u32)>)
        ensures
            r@.no_duplicates(),
            tx_idx >= self.slots_view().len() ==> r@.len() == 0,
            tx_idx < self.slots_view().len() ==> ({
                let m = self.slots_view()[tx_idx as int].1;
                &&& forall|i: int|
                    0 <= i < r@.len() ==> m.dom().contains((#[trigger] r@[i]).0) && m[r@[i].0]
                        == r@[i].1 && 0 < r@[i].1 < before_k
                &&& forall|loc: u64|
                    #[trigger] m.dom().contains(loc) && 0 < m[loc] < before_k ==> r@.contains(
                        (loc, m[loc]),
                    )
            }),
    {
        if tx_idx >= self.slots.len() {
            return Vec::new();
        }
        let all = touches_entries(&self.slots[tx_idx].first);
        let ghost m = self.slots_view()[tx_idx as int].1;
        assert(m == first_touch_map(self.slots@[tx_idx as int].first));
        let mut r: Vec<(MemoryLocationHash, u32)> = Vec::new();
        let mut i: usize = 0;
        while i < all.len()
            invariant
                i <= all@.len(),
                all@.no_duplicates(),
                forall|j: int|
                    0 <= j < all@.len() ==> m.dom().contains((#[trigger] all@[j]).0) && m[all@[j].0]
                        == all@[j].1,
                forall|loc: u64| #[trigger] m.dom().contains(loc) ==> all@.contains((loc, m[loc])),
                forall|j: int|
                    0 <= j < r@.len() ==> m.dom().contains((#[trigger] r@[j]).0) && m[r@[j].0]
                        == r@[j].1 && 0 < r@[j].1 < before_k,
                forall|j: int|
                    0 <= j < i && 0 < all@[j].1 < before_k ==> r@.contains(#[trigger] all@[j]),
                forall|j: int| 0 <= j < r@.len() ==> exists|a: int| 0 <= a < i && all@[a] == #[trigger] r@[j],
                r@.no_duplicates(),
            decreases all.len() - i,
        {
            let (loc, k) = all[i];
            if k > 0 && k < before_k {
                let ghost r0 = r@;
                proof {
                    assert forall|j: int| 0 <= j < r0.len() implies r0[j] != all@[i as int] by {
                        let a = choose|a: int| 0 <= a < i && all@[a] == r0[j];
                        assert(all@[a] != all@[i as int]);
                    }
                }
                r.push((loc, k));
                proof {
                    assert(r@ == r0.push(all@[i as int]));
                    assert forall|j: int| 0 <= j < r@.len() implies exists|a: int|
                        0 <= a < i + 1 && all@[a] == #[trigger] r@[j] by {
                        if j == r0.len() {
                            assert(all@[i as int] == r@[j]);
                        } else {
                            assert(r@[j] == r0[j]);
                            let a = choose|a: int| 0 <= a < i && all@[a] == r0[j];
                            assert(all@[a] == r@[j]);
                        }
                    }
                    assert forall|j: int|
                        0 <= j < i + 1 && 0 < all@[j].1 < before_k implies r@.contains(
                        #[trigger] all@[j],
                    ) by {
                        if j == i {
                            assert(r@[r0.len() as int] == all@[j]);
                        } else {
                            assert(r0.contains(all@[j]));
                            let t = choose|t: int| 0 <= t < r0.len() && r0[t] == all@[j];
                            assert(r@[t] == all@[j]);
                        }
                    }
                }
            }
            i = i + 1;
        }
        proof {
            assert forall|loc: u64| #[trigger] m.dom().contains(loc) && 0 < m[loc] < before_k implies r@.contains(
                (loc, m[loc]),
            ) by {
                assert(all@.contains((loc, m[loc])));
                let j = choose|j: int| 0 <= j < all@.len() && all@[j] == (loc, m[loc]);
                assert(0 < all@[j].1 < before_k);
            }
        }
        r
    }
}

} // verus!
