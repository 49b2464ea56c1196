//! The multi-version memory of a block: for every location, the versions
//! written by the transactions of the block (data, or an estimate left by an
//! aborted incarnation), plus each transaction's last read and write sets,
//! the readers of each location, and what aborts leave behind.
//!
//! A read by transaction `t` sees the version of the closest transaction
//! below `t`; validation re-reads each location of a read set and checks
//! that the same versions (and values) are still there.
//!
//! Every method takes `&mut self` or `&self`: a caller that shares the
//! memory between worker threads holds it behind one lock.

use vstd::prelude::*;
use std::collections::{BTreeMap, BTreeSet};
use dashmap::DashMap;

use crate::types::{
    wrap_inc, wrapping_inc, Addr, MemoryEntry, MemoryLocationHash, MemoryValue, ReadOrigin, TxIdx,
    TxIncarnation, TxVersion,
};

verus! {

/// The versions a data map holds, by location and writer.
pub uninterp spec fn mv_data(m: DashMap<u64, BTreeMap<usize, MemoryEntry>>) -> Map<u64, Map<usize, MemoryEntry>>;

/// The readers a reader map holds, by location.
pub uninterp spec fn reader_sets(m: DashMap<u64, BTreeSet<usize>>) -> Map<u64, Set<usize>>;

/// The aborted incarnation stamped on each transaction.
pub uninterp spec fn aborted_incs(m: DashMap<usize, usize>) -> Map<usize, usize>;

/// The residual write set kept for each aborted transaction.
pub uninterp spec fn residual_sets(m: DashMap<usize, Vec<u64>>) -> Map<usize, Seq<u64>>;

/// The values pinned for each location before an abort turned them into estimates.
pub uninterp spec fn pinned_values(m: DashMap<u64, Vec<(usize, usize, MemoryValue)>>) -> Map<
    u64,
    Seq<(usize, usize, MemoryValue)>,
>;

/// `v` lists, from the top down, the first `n` versions of `m` below `tx`
/// (all of them when there are fewer than `n`).
pub open spec fn desc_below_prefix(
    v: Seq<(usize, MemoryEntry)>,
    m: Map<usize, MemoryEntry>,
    tx: usize,
    n: nat,
) -> bool {
    &&& v.len() <= n
    &&& forall|i: int|
        0 <= i < v.len() ==> m.dom().contains(#[trigger] v[i].0) && m[v[i].0] == v[i].1 && v[i].0 < tx
    &&& forall|i: int, j: int| 0 <= i < j < v.len() ==> v[j].0 < v[i].0
    &&& forall|k: usize|
        m.dom().contains(k) && k < tx && (v.len() < n || (v.len() > 0 && k > v.last().0)) ==> exists|i: int|
            0 <= i < v.len() && #[trigger] v[i].0 == k
}

/// `v` lists every version of `m`, by increasing writer.
pub open spec fn ascending_versions(v: Seq<(usize, MemoryEntry)>, m: Map<usize, MemoryEntry>) -> bool {
    &&& forall|i: int| 0 <= i < v.len() ==> m.dom().contains(#[trigger] v[i].0) && m[v[i].0] == v[i].1
    &&& forall|i: int, j: int| 0 <= i < j < v.len() ==> v[i].0 < v[j].0
    &&& forall|k: usize| m.dom().contains(k) ==> exists|i: int| 0 <= i < v.len() && #[trigger] v[i].0 == k
}

/// `DashMap::new`: an empty data map.
#[verifier::external_body]
fn mv_new() -> (r: DashMap<u64, BTreeMap<usize, MemoryEntry>>)
    ensures
        mv_data(r).dom() == Set::<u64>::empty(),
{
    DashMap::new()
}

/// `DashMap::get`, cloning the versions of `loc` out of the map.
#[verifier::external_body]
fn mv_get(m: &DashMap<u64, BTreeMap<usize, MemoryEntry>>, loc: u64) -> (r: Option<BTreeMap<usize, MemoryEntry>>)
    ensures
        match r {
            None => !mv_data(*m).dom().contains(loc),
            Some(w) => mv_data(*m).dom().contains(loc) && w@ == mv_data(*m)[loc],
        },
{
    m.get(&loc).map(|w| w.clone())
}

/// `DashMap::insert`: `loc` now holds the versions `w`.
#[verifier::external_body]
fn mv_put(m: &mut DashMap<u64, BTreeMap<usize, MemoryEntry>>, loc: u64, w: BTreeMap<usize, MemoryEntry>)
    ensures
        mv_data(*final(m)) == mv_data(*old(m)).insert(loc, w@),
{
    m.insert(loc, w);
}

/// The location holds no version.
fn mv_reset(m: &mut DashMap<u64, BTreeMap<usize, MemoryEntry>>, loc: u64)
    ensures
        mv_data(*final(m)) == mv_data(*old(m)).insert(loc, Map::empty()),
{
    mv_put(m, loc, BTreeMap::new());
}

/// The version of `tx` at `loc` becomes `e` (the location is created when
/// missing).
fn mv_write(m: &mut DashMap<u64, BTreeMap<usize, MemoryEntry>>, loc: u64, tx: usize, e: MemoryEntry)
    ensures
        mv_data(*final(m)) == mv_data(*old(m)).insert(
            loc,
            (if mv_data(*old(m)).dom().contains(loc) {
                mv_data(*old(m))[loc]
            } else {
                Map::empty()
            }).insert(tx, e),
        ),
{
    broadcast use vstd::std_specs::btree::group_btree_axioms;
    let mut w = match mv_get(m, loc) {
        Some(w) => w,
        None => BTreeMap::new(),
    };
    w.insert(tx, e);
    mv_put(m, loc, w);
}

/// The version of `tx` at an existing `loc` becomes `e`; a missing location
/// stays missing.
fn mv_overwrite(m: &mut DashMap<u64, BTreeMap<usize, MemoryEntry>>, loc: u64, tx: usize, e: MemoryEntry)
    ensures
        mv_data(*final(m)) == (if mv_data(*old(m)).dom().contains(loc) {
            mv_data(*old(m)).insert(loc, mv_data(*old(m))[loc].insert(tx, e))
        } else {
            mv_data(*old(m))
        }),
{
    broadcast use vstd::std_specs::btree::group_btree_axioms;
    if let Some(mut w) = mv_get(m, loc) {
        w.insert(tx, e);
        mv_put(m, loc, w);
    }
}

/// `tx` no longer has a version at `loc` (the location itself stays).
fn mv_unwrite(m: &mut DashMap<u64, BTreeMap<usize, MemoryEntry>>, loc: u64, tx: usize)
    ensures
        mv_data(*final(m)) == (if mv_data(*old(m)).dom().contains(loc) {
            mv_data(*old(m)).insert(loc, mv_data(*old(m))[loc].remove(tx))
        } else {
            mv_data(*old(m))
        }),
{
    broadcast use vstd::std_specs::btree::group_btree_axioms;
    if let Some(mut w) = mv_get(m, loc) {
        w.remove(&tx);
        mv_put(m, loc, w);
    }
}

/// The version of `tx` at `loc`.
fn mv_entry(m: &DashMap<u64, BTreeMap<usize, MemoryEntry>>, loc: u64, tx: usize) -> (r: Option<MemoryEntry>)
    ensures
        r == (if mv_data(*m).dom().contains(loc) && mv_data(*m)[loc].dom().contains(tx) {
            Some(mv_data(*m)[loc][tx])
        } else {
            None
        }),
{
    broadcast use vstd::std_specs::btree::group_btree_axioms;
    match mv_get(m, loc) {
        Some(w) => match w.get(&tx) {
            Some(e) => Some(*e),
            None => None,
        },
        None => None,
    }
}

/// The first `n` versions of `loc` below `tx`, from the top (`None` when
/// the location is missing).
fn mv_below(m: &DashMap<u64, BTreeMap<usize, MemoryEntry>>, loc: u64, tx: usize, n: usize) -> (r: Option<Vec<(usize, MemoryEntry)>>)
    ensures
        match r {
            None => !mv_data(*m).dom().contains(loc),
            Some(v) => mv_data(*m).dom().contains(loc) && desc_below_prefix(v@, mv_data(*m)[loc], tx, n as nat),
        },
{
    match mv_versions(m, loc) {
        None => None,
        Some(all) => Some(top_below(&all, Ghost(mv_data(*m)[loc]), tx, n)),
    }
}

/// From all versions by increasing writer, the first `n` below `tx`, from
/// the top.
fn top_below(all: &Vec<(usize, MemoryEntry)>, Ghost(m): Ghost<Map<usize, MemoryEntry>>, tx: usize, n: usize) -> (r: Vec<(usize, MemoryEntry)>)
    requires
        ascending_versions(all@, m),
    ensures
        desc_below_prefix(r@, m, tx, n as nat),
{
    // Index just past the last version below `tx`.
    let mut hi: usize = 0;
    while hi < all.len() && all[hi].0 < tx
        invariant
            hi <= all@.len(),
            forall|i: int| 0 <= i < hi ==> (#[trigger] all@[i]).0 < tx,
        decreases all@.len() - hi,
    {
        hi = hi + 1;
    }
    let mut out: Vec<(usize, MemoryEntry)> = Vec::new();
    let mut j: usize = hi;
    while j > 0 && out.len() < n
        invariant
            j <= hi <= all@.len(),
            ascending_versions(all@, m),
            forall|i: int| 0 <= i < hi ==> (#[trigger] all@[i]).0 < tx,
            hi < all@.len() ==> all@[hi as int].0 >= tx,
            out@.len() <= n,
            out@.len() == hi - j,
            forall|p: int| 0 <= p < out@.len() ==> #[trigger] out@[p] == all@[hi - 1 - p],
        decreases j,
    {
        j = j - 1;
        out.push(all[j]);
    }
    proof {
        let v = out@;
        assert forall|i: int| 0 <= i < v.len() implies m.dom().contains(#[trigger] v[i].0) && m[v[i].0] == v[i].1 && v[i].0 < tx by {
            assert(v[i] == all@[hi - 1 - i]);
        }
        assert forall|i: int, k: int| 0 <= i < k < v.len() implies v[k].0 < v[i].0 by {
            assert(v[i] == all@[hi - 1 - i]);
            assert(v[k] == all@[hi - 1 - k]);
        }
        assert forall|k: usize|
            m.dom().contains(k) && k < tx && (v.len() < n || (v.len() > 0 && k > v.last().0)) implies exists|i: int|
                0 <= i < v.len() && #[trigger] v[i].0 == k by {
            let q = choose|q: int| 0 <= q < all@.len() && #[trigger] all@[q].0 == k;
            if q >= hi {
                if q > hi {
                    assert(all@[hi as int].0 < all@[q].0);
                }
            }
            assert(q < hi);
            if v.len() < n {
                assert(j == 0);
            } else {
                assert(v.last() == all@[j as int]);
                if q < j {
                    assert(all@[q].0 < all@[j as int].0);
                }
            }
            assert(v[hi - 1 - q] == all@[q]);
        }
    }
    out
}

/// `DashMap::get`, then `BTreeMap::iter`: every version of `loc` by
/// increasing writer (`None` when the location is missing).
#[verifier::external_body]
fn mv_versions(m: &DashMap<u64, BTreeMap<usize, MemoryEntry>>, loc: u64) -> (r: Option<Vec<(usize, MemoryEntry)>>)
    ensures
        match r {
            None => !mv_data(*m).dom().contains(loc),
            Some(v) => mv_data(*m).dom().contains(loc) && ascending_versions(v@, mv_data(*m)[loc]),
        },
{
    m.get(&loc).map(|w| w.iter().map(|(k, e)| (*k, *e)).collect())
}

/// `DashMap::new`: an empty reader map.
#[verifier::external_body]
fn rd_new() -> (r: DashMap<u64, BTreeSet<usize>>)
    ensures
        reader_sets(r).dom() == Set::<u64>::empty(),
{
    DashMap::new()
}

/// `DashMap::get`, cloning the readers of `loc` out of the map.
#[verifier::external_body]
fn rd_get(m: &DashMap<u64, BTreeSet<usize>>, loc: u64) -> (r: Option<BTreeSet<usize>>)
    ensures
        match r {
            None => !reader_sets(*m).dom().contains(loc),
            Some(s) => reader_sets(*m).dom().contains(loc) && s@ == reader_sets(*m)[loc],
        },
{
    m.get(&loc).map(|s| s.clone())
}

/// `DashMap::insert`: `loc` now has the readers `s`.
#[verifier::external_body]
fn rd_put(m: &mut DashMap<u64, BTreeSet<usize>>, loc: u64, s: BTreeSet<usize>)
    ensures
        reader_sets(*final(m)) == reader_sets(*old(m)).insert(loc, s@),
{
    m.insert(loc, s);
}

/// `tx` becomes a reader of `loc` (the location is created when missing).
fn rd_add(m: &mut DashMap<u64, BTreeSet<usize>>, loc: u64, tx: usize)
    ensures
        reader_sets(*final(m)) == reader_sets(*old(m)).insert(
            loc,
            (if reader_sets(*old(m)).dom().contains(loc) {
                reader_sets(*old(m))[loc]
            } else {
                Set::empty()
            }).insert(tx),
        ),
{
    broadcast use vstd::std_specs::btree::group_btree_axioms;
    let mut s = match rd_get(m, loc) {
        Some(s) => s,
        None => BTreeSet::new(),
    };
    s.insert(tx);
    rd_put(m, loc, s);
}

/// `tx` stops reading an existing `loc`; whether its readers are now none
/// (`None` when the location is missing).
fn rd_remove(m: &mut DashMap<u64, BTreeSet<usize>>, loc: u64, tx: usize) -> (r: Option<bool>)
    ensures
        match r {
            None => !reader_sets(*old(m)).dom().contains(loc) && reader_sets(*final(m)) == reader_sets(*old(m)),
            Some(empty) => {
                &&& reader_sets(*old(m)).dom().contains(loc)
                &&& reader_sets(*final(m)) == reader_sets(*old(m)).insert(loc, reader_sets(*old(m))[loc].remove(tx))
                &&& empty == (reader_sets(*old(m))[loc].remove(tx) == Set::<usize>::empty())
            },
        },
{
    broadcast use vstd::std_specs::btree::group_btree_axioms;
    match rd_get(m, loc) {
        None => None,
        Some(mut s) => {
            s.remove(&tx);
            let empty = s.is_empty();
            rd_put(m, loc, s);
            Some(empty)
        },
    }
}

/// `DashMap::remove`: the location leaves the reader map.
#[verifier::external_body]
fn rd_drop(m: &mut DashMap<u64, BTreeSet<usize>>, loc: u64)
    ensures
        reader_sets(*final(m)) == reader_sets(*old(m)).remove(loc),
{
    m.remove(&loc);
}

/// `DashMap::get`, then `BTreeSet::iter`: the readers of `loc` in
/// increasing order (none when the location is missing).
#[verifier::external_body]
fn rd_members(m: &DashMap<u64, BTreeSet<usize>>, loc: u64) -> (r: Vec<usize>)
    ensures
        forall|i: int, j: int| 0 <= i < j < r@.len() ==> r@[i] < r@[j],
        r@.to_set() == (if reader_sets(*m).dom().contains(loc) {
            reader_sets(*m)[loc]
        } else {
            Set::empty()
        }),
{
    m.get(&loc).map(|s| s.iter().copied().collect()).unwrap_or_default()
}

/// `DashMap::new`: an empty aborted-incarnation map.
#[verifier::external_body]
fn ab_new() -> (r: DashMap<usize, usize>)
    ensures
        aborted_incs(r).dom() == Set::<usize>::empty(),
{
    DashMap::new()
}

/// `DashMap::get`, copying the incarnation.
#[verifier::external_body]
fn ab_get(m: &DashMap<usize, usize>, tx: usize) -> (r: Option<usize>)
    ensures
        r == (if aborted_incs(*m).dom().contains(tx) {
            Some(aborted_incs(*m)[tx])
        } else {
            None
        }),
{
    m.get(&tx).map(|a| *a)
}

/// `DashMap::insert`.
#[verifier::external_body]
fn ab_insert(m: &mut DashMap<usize, usize>, tx: usize, inc: usize)
    ensures
        aborted_incs(*final(m)) == aborted_incs(*old(m)).insert(tx, inc),
{
    m.insert(tx, inc);
}

/// `DashMap::remove`.
#[verifier::external_body]
fn ab_remove(m: &mut DashMap<usize, usize>, tx: usize)
    ensures
        aborted_incs(*final(m)) == aborted_incs(*old(m)).remove(tx),
{
    m.remove(&tx);
}

/// `DashMap::new`: an empty residual map.
#[verifier::external_body]
fn rs_new() -> (r: DashMap<usize, Vec<u64>>)
    ensures
        residual_sets(r).dom() == Set::<usize>::empty(),
{
    DashMap::new()
}

/// `DashMap::insert`.
#[verifier::external_body]
fn rs_insert(m: &mut DashMap<usize, Vec<u64>>, tx: usize, v: Vec<u64>)
    ensures
        residual_sets(*final(m)) == residual_sets(*old(m)).insert(tx, v@),
{
    m.insert(tx, v);
}

/// `DashMap::get`, cloning the write set.
#[verifier::external_body]
fn rs_get(m: &DashMap<usize, Vec<u64>>, tx: usize) -> (r: Option<Vec<u64>>)
    ensures
        match r {
            None => !residual_sets(*m).dom().contains(tx),
            Some(v) => residual_sets(*m).dom().contains(tx) && v@ == residual_sets(*m)[tx],
        },
{
    m.get(&tx).map(|v| v.clone())
}

/// `DashMap::iter`: every entry once, in an order the map does not promise.
#[verifier::external_body]
fn rs_entries(m: &DashMap<usize, Vec<u64>>) -> (r: Vec<(usize, Vec<u64>)>)
    ensures
        forall|i: int| 0 <= i < r@.len() ==> residual_sets(*m).dom().contains(#[trigger] r@[i].0) && r@[i].1@ == residual_sets(*m)[r@[i].0],
        forall|t: usize| residual_sets(*m).dom().contains(t) ==> exists|i: int| 0 <= i < r@.len() && #[trigger] r@[i].0 == t,
{
    m.iter().map(|e| (*e.key(), e.value().clone())).collect()
}

/// `DashMap::new`: an empty pinned-value map.
#[verifier::external_body]
fn hs_new() -> (r: DashMap<u64, Vec<(usize, usize, MemoryValue)>>)
    ensures
        pinned_values(r).dom() == Set::<u64>::empty(),
{
    DashMap::new()
}

/// `DashMap::get`, cloning the pinned values.
#[verifier::external_body]
fn hs_get(m: &DashMap<u64, Vec<(usize, usize, MemoryValue)>>, loc: u64) -> (r: Option<Vec<(usize, usize, MemoryValue)>>)
    ensures
        match r {
            None => !pinned_values(*m).dom().contains(loc),
            Some(v) => pinned_values(*m).dom().contains(loc) && v@ == pinned_values(*m)[loc],
        },
{
    m.get(&loc).map(|v| v.clone())
}

/// `DashMap::insert`.
#[verifier::external_body]
fn hs_put(m: &mut DashMap<u64, Vec<(usize, usize, MemoryValue)>>, loc: u64, v: Vec<(usize, usize, MemoryValue)>)
    ensures
        pinned_values(*final(m)) == pinned_values(*old(m)).insert(loc, v@),
{
    m.insert(loc, v);
}


/// A read set: each location read, with the origins of its read (more than
/// one for a lazily evaluated account); each location once.
pub type ReadSet = Vec<(MemoryLocationHash, Vec<ReadOrigin>)>;

/// A write set: the locations written, with their new values.
pub type WriteSet = Vec<(MemoryLocationHash, MemoryValue)>;

/// The last recorded reads and writes of one transaction.
pub struct LastLocations {
    pub read: ReadSet,
    pub write: Vec<MemoryLocationHash>,
}

pub open spec fn read_view(r: ReadSet) -> Seq<(u64, Seq<ReadOrigin>)> {
    r@.map_values(|p: (u64, Vec<ReadOrigin>)| (p.0, p.1@))
}

/// Each location of a read set appears once.
pub open spec fn distinct_keys(r: Seq<(u64, Seq<ReadOrigin>)>) -> bool {
    forall|i: int, j: int| 0 <= i < j < r.len() ==> r[i].0 != r[j].0
}

/// The versions a table of estimates starts with: each listed writer holds
/// an estimate.
pub open spec fn estimate_map(txs: Seq<usize>) -> Map<usize, MemoryEntry> {
    Map::new(|t: usize| txs.contains(t), |t: usize| MemoryEntry::Estimate)
}

/// The data a memory starts with: the estimates of each listed location (a
/// later listing of the same location replaces an earlier one).
pub open spec fn estimate_fold(pairs: Seq<(u64, Seq<usize>)>) -> Map<u64, Map<usize, MemoryEntry>>
    decreases pairs.len(),
{
    if pairs.len() == 0 {
        Map::empty()
    } else {
        estimate_fold(pairs.drop_last()).insert(pairs.last().0, estimate_map(pairs.last().1))
    }
}

/// The multi-version memory as a mathematical value.
pub struct MvView {
    pub data: Map<u64, Map<usize, MemoryEntry>>,
    pub reads: Seq<Seq<(u64, Seq<ReadOrigin>)>>,
    pub writes: Seq<Seq<u64>>,
    pub lazy: Seq<Addr>,
    pub readers: Map<u64, Set<usize>>,
    pub aborted: Map<usize, usize>,
    pub residual: Map<usize, Seq<u64>>,
    pub pinned: Map<u64, Seq<(usize, usize, MemoryValue)>>,
    pub write_epoch: nat,
}

impl MvView {
    /// Number of transactions of the block.
    pub open spec fn block_size(self) -> nat {
        self.writes.len()
    }

    /// Incarnation `inc` of `tx` was aborted: its data must not be trusted.
    pub open spec fn is_aborted(self, tx: usize, inc: usize) -> bool {
        self.aborted.dom().contains(tx) && self.aborted[tx] == inc
    }
}

/// The multi-version memory of one block.
pub struct MvMemory {
    data: DashMap<u64, BTreeMap<usize, MemoryEntry>>,
    last_locations: Vec<LastLocations>,
    lazy_addresses: Vec<Addr>,
    readers: DashMap<u64, BTreeSet<usize>>,
    aborted_incarnations: DashMap<usize, usize>,
    residual_write_sets: DashMap<usize, Vec<u64>>,
    retained_history: DashMap<u64, Vec<(usize, usize, MemoryValue)>>,
    write_epoch: u64,
}

impl View for MvMemory {
    type V = MvView;

    closed spec fn view(&self) -> MvView {
        MvView {
            data: mv_data(self.data),
            reads: self.last_locations@.map_values(|l: LastLocations| read_view(l.read)),
            writes: self.last_locations@.map_values(|l: LastLocations| l.write@),
            lazy: self.lazy_addresses@,
            readers: reader_sets(self.readers),
            aborted: aborted_incs(self.aborted_incarnations),
            residual: residual_sets(self.residual_write_sets),
            pinned: pinned_values(self.retained_history),
            write_epoch: self.write_epoch as nat,
        }
    }
}

/// The memory's own invariant over its view.
pub open spec fn mv_wf(v: MvView) -> bool {
    &&& v.reads.len() == v.writes.len()
    &&& forall|t: int| 0 <= t < v.reads.len() ==> distinct_keys(#[trigger] v.reads[t])
    &&& forall|t: int| 0 <= t < v.writes.len() ==> (#[trigger] v.writes[t]).no_duplicates()
    &&& v.lazy.no_duplicates()
    &&& readers_ok(v.readers)
}

/// No location is kept with an empty reader set.
pub open spec fn readers_ok(r: Map<u64, Set<usize>>) -> bool {
    forall|l: u64| #[trigger] r.dom().contains(l) ==> r[l] != Set::<usize>::empty()
}

impl MvMemory {
    pub closed spec fn wf(&self) -> bool {
        mv_wf(self@)
    }

    proof fn lemma_lens(&self)
        requires
            self.wf(),
        ensures
            self.last_locations@.len() == self@.writes.len(),
            self@.reads.len() == self@.writes.len(),
    {
    }

    /// The block of a well-formed memory fits in memory: its size is a `usize`.
    pub proof fn lemma_block_size_fits(&self)
        requires
            self.wf(),
        ensures
            self@.block_size() <= usize::MAX,
    {
        assert(self.last_locations@.len() == self.last_locations.len());
    }

    /// A memory for `block_size` transactions that starts with estimates at
    /// the predicted locations of their writers, and knows the addresses that
    /// will be lazily evaluated at the end of the block.
    pub fn new(
        block_size: usize,
        estimated_locations: Vec<(MemoryLocationHash, Vec<TxIdx>)>,
        lazy_addresses: Vec<Addr>,
    ) -> (r: Self)
        ensures
            r.wf(),
            r@.data == estimate_fold(estimated_locations@.map_values(|p: (u64, Vec<usize>)| (p.0, p.1@))),
            r@.reads == Seq::new(block_size as nat, |t: int| Seq::<(u64, Seq<ReadOrigin>)>::empty()),
            r@.writes == Seq::new(block_size as nat, |t: int| Seq::<u64>::empty()),
            r@.lazy.to_set() == lazy_addresses@.to_set(),
            r@.readers.dom() == Set::<u64>::empty(),
            r@.aborted.dom() == Set::<usize>::empty(),
            r@.residual.dom() == Set::<usize>::empty(),
            r@.pinned.dom() == Set::<u64>::empty(),
            r@.write_epoch == 0,
    {
        let mut data = mv_new();
        let ghost pairs = estimated_locations@.map_values(|p: (u64, Vec<usize>)| (p.0, p.1@));
        let mut i: usize = 0;
        while i < estimated_locations.len()
            invariant
                i <= estimated_locations@.len(),
                pairs == estimated_locations@.map_values(|p: (u64, Vec<usize>)| (p.0, p.1@)),
                mv_data(data) == estimate_fold(pairs.take(i as int)),
            decreases estimated_locations.len() - i,
        {
            let loc = estimated_locations[i].0;
            let txs = &estimated_locations[i].1;
            let ghost base = mv_data(data);
            mv_reset(&mut data, loc);
            assert(estimate_map(txs@.take(0)) =~= Map::empty());
            let mut j: usize = 0;
            while j < txs.len()
                invariant
                    j <= txs@.len(),
                    mv_data(data) == base.insert(loc, estimate_map(txs@.take(j as int))),
                decreases txs.len() - j,
            {
                let t = txs[j];
                mv_write(&mut data, loc, t, MemoryEntry::Estimate);
                proof {
                    assert(txs@.take(j + 1) =~= txs@.take(j as int).push(t));
                    assert forall|u: usize| txs@.take(j + 1).contains(u) <==> (txs@.take(j as int).contains(u) || u == t) by {
                        if txs@.take(j + 1).contains(u) {
                            let k = choose|k: int| 0 <= k < j + 1 && #[trigger] txs@.take(j + 1)[k] == u;
                            if k < j {
                                assert(txs@.take(j as int)[k] == u);
                            }
                        }
                        if txs@.take(j as int).contains(u) {
                            let k = choose|k: int| 0 <= k < j && #[trigger] txs@.take(j as int)[k] == u;
                            assert(txs@.take(j + 1)[k] == u);
                        }
                        if u == t {
                            assert(txs@.take(j + 1)[j as int] == u);
                        }
                    }
                    let m1 = estimate_map(txs@.take(j + 1));
                    let m0 = estimate_map(txs@.take(j as int)).insert(t, MemoryEntry::Estimate);
                    assert forall|u: usize| m1.dom().contains(u) <==> m0.dom().contains(u) by {
                        assert(m1.dom().contains(u) == txs@.take(j + 1).contains(u));
                        assert(estimate_map(txs@.take(j as int)).dom().contains(u) == txs@.take(j as int).contains(u));
                    }
                    assert(m1.dom() =~= m0.dom());
                    assert(m1 =~= m0);
                }
                j = j + 1;
            }
            proof {
                assert(txs@.take(txs@.len() as int) =~= txs@);
                assert(pairs.take(i + 1).drop_last() =~= pairs.take(i as int));
                assert(pairs.take(i + 1).last() == pairs[i as int]);
            }
            i = i + 1;
        }
        proof {
            assert(pairs.take(pairs.len() as int) =~= pairs);
        }
        let mut last_locations: Vec<LastLocations> = Vec::new();
        let mut t: usize = 0;
        while t < block_size
            invariant
                t <= block_size,
                last_locations@.len() == t,
                forall|q: int| 0 <= q < t ==> (#[trigger] last_locations@[q]).read@.len() == 0 && last_locations@[q].write@.len() == 0,
            decreases block_size - t,
        {
            last_locations.push(LastLocations { read: Vec::new(), write: Vec::new() });
            t = t + 1;
        }
        let mut lazy: Vec<Addr> = Vec::new();
        add_unique_addrs(&mut lazy, &lazy_addresses);
        assert(lazy_addresses@.to_set() =~= Set::<Addr>::empty().union(lazy_addresses@.to_set()));
        let r = MvMemory {
            data,
            last_locations,
            lazy_addresses: lazy,
            readers: rd_new(),
            aborted_incarnations: ab_new(),
            residual_write_sets: rs_new(),
            retained_history: hs_new(),
            write_epoch: 0,
        };
        assert(r@.reads =~= Seq::new(block_size as nat, |t: int| Seq::<(u64, Seq<ReadOrigin>)>::empty())) by {
            assert forall|q: int| 0 <= q < block_size implies #[trigger] r@.reads[q] =~= Seq::<(u64, Seq<ReadOrigin>)>::empty() by {
                assert(r.last_locations@[q].read@.len() == 0);
            }
        }
        assert(r@.writes =~~= Seq::new(block_size as nat, |t: int| Seq::<u64>::empty())) by {
            assert forall|q: int| 0 <= q < block_size implies #[trigger] r@.writes[q] =~= Seq::<u64>::empty() by {
                assert(r.last_locations@[q].write@.len() == 0);
            }
        }
        r
    }

    /// The publish epoch: odd while a publish is in progress.
    pub fn write_epoch(&self) -> (r: u64)
        ensures
            r == self@.write_epoch,
    {
        self.write_epoch
    }

    fn bump_epoch(&mut self)
        requires
            old(self).wf(),
        ensures
            final(self).wf(),
            final(self)@ == (MvView { write_epoch: wrap_u64(old(self)@.write_epoch), ..old(self)@ }),
    {
        self.write_epoch = if self.write_epoch == u64::MAX {
            0
        } else {
            self.write_epoch + 1
        };
    }

    /// True if incarnation `incarnation` of `tx_idx` was aborted.
    pub fn is_aborted_incarnation(&self, tx_idx: TxIdx, incarnation: TxIncarnation) -> (r: bool)
        ensures
            r == self@.is_aborted(tx_idx, incarnation),
    {
        match ab_get(&self.aborted_incarnations, tx_idx) {
            Some(a) => a == incarnation,
            None => false,
        }
    }

    /// Stamp an incarnation as aborted so that late readers notice.
    pub fn mark_incarnation_aborted(&mut self, tx_idx: TxIdx, incarnation: TxIncarnation)
        requires
            old(self).wf(),
        ensures
            final(self).wf(),
            final(self)@ == (MvView { aborted: old(self)@.aborted.insert(tx_idx, incarnation), ..old(self)@ }),
    {
        ab_insert(&mut self.aborted_incarnations, tx_idx, incarnation);
    }

    /// Clear the aborted stamp of a transaction (a newer incarnation published).
    pub fn clear_aborted_incarnation(&mut self, tx_idx: TxIdx)
        requires
            old(self).wf(),
        ensures
            final(self).wf(),
            final(self)@ == (MvView { aborted: old(self)@.aborted.remove(tx_idx), ..old(self)@ }),
    {
        ab_remove(&mut self.aborted_incarnations, tx_idx);
    }

    /// The addresses to evaluate lazily grow by `new_lazy_addresses`.
    pub fn add_lazy_addresses(&mut self, new_lazy_addresses: Vec<Addr>)
        requires
            old(self).wf(),
        ensures
            final(self).wf(),
            final(self)@.lazy.to_set() == old(self)@.lazy.to_set().union(new_lazy_addresses@.to_set()),
            final(self)@ == (MvView { lazy: final(self)@.lazy, ..old(self)@ }),
    {
        add_unique_addrs(&mut self.lazy_addresses, &new_lazy_addresses);
    }

    /// Hand out the addresses to evaluate lazily, each once, and forget them.
    pub fn consume_lazy_addresses(&mut self) -> (r: Vec<Addr>)
        requires
            old(self).wf(),
        ensures
            final(self).wf(),
            r@.no_duplicates(),
            r@.to_set() == old(self)@.lazy.to_set(),
            final(self)@ == (MvView { lazy: Seq::empty(), ..old(self)@ }),
    {
        let mut out: Vec<Addr> = Vec::new();
        std::mem::swap(&mut out, &mut self.lazy_addresses);
        out
    }
}

pub open spec fn wrap_u64(n: nat) -> nat {
    if n >= u64::MAX {
        0
    } else {
        n + 1
    }
}

fn contains_addr(v: &Vec<Addr>, a: Addr) -> (r: bool)
    ensures
        r == v@.contains(a),
{
    let mut i: usize = 0;
    while i < v.len()
        invariant
            i <= v@.len(),
            forall|k: int| 0 <= k < i ==> v@[k] != a,
        decreases v.len() - i,
    {
        if v[i] == a {
            assert(v@[i as int] == a);
            return true;
        }
        i = i + 1;
    }
    false
}

/// Add the addresses of `add` that `v` lacks.
fn add_unique_addrs(v: &mut Vec<Addr>, add: &Vec<Addr>)
    requires
        old(v)@.no_duplicates(),
    ensures
        final(v)@.no_duplicates(),
        final(v)@.to_set() == old(v)@.to_set().union(add@.to_set()),
{
    let mut i: usize = 0;
    while i < add.len()
        invariant
            i <= add@.len(),
            v@.no_duplicates(),
            v@.to_set() == old(v)@.to_set().union(add@.take(i as int).to_set()),
        decreases add.len() - i,
    {
        let a = add[i];
        let ghost before = v@;
        if !contains_addr(v, a) {
            v.push(a);
            proof {
                assert forall|p: int, q: int| 0 <= p < q < v@.len() implies v@[p] != v@[q] by {
                    if q == v@.len() - 1 {
                        assert(before[p] == v@[p]);
                        assert(!before.contains(a));
                    }
                }
            }
        }
        proof {
            assert(add@.take(i + 1) =~= add@.take(i as int).push(a));
            assert(v@.to_set() =~= old(v)@.to_set().union(add@.take(i + 1).to_set())) by {
                assert forall|x: Addr| v@.to_set().contains(x) <==> old(v)@.to_set().union(add@.take(i + 1).to_set()).contains(x) by {
                    if x == a {
                        assert(add@.take(i + 1)[i as int] == a);
                        if v@ != before {
                            assert(v@[v@.len() - 1] == a);
                        }
                    } else {
                        if v@.to_set().contains(x) {
                            let k = choose|k: int| 0 <= k < v@.len() && v@[k] == x;
                            if k < before.len() {
                                assert(before[k] == x);
                                assert(before.to_set().contains(x));
                            }
                        }
                        if before.to_set().contains(x) {
                            let k = choose|k: int| 0 <= k < before.len() && before[k] == x;
                            assert(v@[k] == x);
                        }
                        if add@.take(i + 1).to_set().contains(x) {
                            let k = choose|k: int| 0 <= k < i + 1 && #[trigger] add@.take(i + 1)[k] == x;
                            assert(add@.take(i as int)[k] == x);
                        }
                    }
                }
            }
        }
        i = i + 1;
    }
    assert(add@.take(add@.len() as int) =~= add@);
}


/// The readers after `tx` stops reading `l` (an emptied location leaves).
pub open spec fn readers_minus(r: Map<u64, Set<usize>>, tx: usize, l: u64) -> Map<u64, Set<usize>> {
    if r.dom().contains(l) {
        if r[l].remove(tx) == Set::<usize>::empty() {
            r.remove(l)
        } else {
            r.insert(l, r[l].remove(tx))
        }
    } else {
        r
    }
}

/// The readers after `tx` reads `l`.
pub open spec fn readers_plus(r: Map<u64, Set<usize>>, tx: usize, l: u64) -> Map<u64, Set<usize>> {
    r.insert(l, (if r.dom().contains(l) { r[l] } else { Set::empty() }).insert(tx))
}

pub open spec fn readers_minus_fold(r: Map<u64, Set<usize>>, tx: usize, ls: Seq<u64>) -> Map<u64, Set<usize>>
    decreases ls.len(),
{
    if ls.len() == 0 {
        r
    } else {
        readers_minus(readers_minus_fold(r, tx, ls.drop_last()), tx, ls.last())
    }
}

pub open spec fn readers_plus_fold(r: Map<u64, Set<usize>>, tx: usize, ls: Seq<u64>) -> Map<u64, Set<usize>>
    decreases ls.len(),
{
    if ls.len() == 0 {
        r
    } else {
        readers_plus(readers_plus_fold(r, tx, ls.drop_last()), tx, ls.last())
    }
}

/// The data after `tx` stops writing the locations of `gone`.
pub open spec fn unwritten(d: Map<u64, Map<usize, MemoryEntry>>, tx: usize, gone: Set<u64>) -> Map<u64, Map<usize, MemoryEntry>> {
    Map::new(
        |l: u64| d.dom().contains(l),
        |l: u64|
            if gone.contains(l) {
                d[l].remove(tx)
            } else {
                d[l]
            },
    )
}

/// The data after `tx` publishes `ws` at incarnation `inc`, in order.
pub open spec fn publish_fold(
    d: Map<u64, Map<usize, MemoryEntry>>,
    tx: usize,
    inc: usize,
    ws: Seq<(u64, MemoryValue)>,
) -> Map<u64, Map<usize, MemoryEntry>>
    decreases ws.len(),
{
    if ws.len() == 0 {
        d
    } else {
        let d1 = publish_fold(d, tx, inc, ws.drop_last());
        let (l, v) = ws.last();
        d1.insert(l, (if d1.dom().contains(l) { d1[l] } else { Map::empty() }).insert(tx, MemoryEntry::Data(inc, v)))
    }
}

/// Some transaction other than `tx` holds a version at `l`.
pub open spec fn has_other_writer(d: Map<u64, Map<usize, MemoryEntry>>, l: u64, tx: usize) -> bool {
    d.dom().contains(l) && exists|k: usize| #[trigger] d[l].dom().contains(k) && k != tx
}

pub open spec fn write_locs(ws: Seq<(u64, MemoryValue)>) -> Seq<u64> {
    ws.map_values(|p: (u64, MemoryValue)| p.0)
}

pub open spec fn read_keys(rs: Seq<(u64, Seq<ReadOrigin>)>) -> Seq<u64> {
    rs.map_values(|p: (u64, Seq<ReadOrigin>)| p.0)
}

/// The locations of `ws` already written by another transaction, in order.
pub open spec fn contended_of(d: Map<u64, Map<usize, MemoryEntry>>, tx: usize, ws: Seq<(u64, MemoryValue)>) -> Seq<u64>
    decreases ws.len(),
{
    if ws.len() == 0 {
        Seq::empty()
    } else {
        let c = contended_of(d, tx, ws.drop_last());
        if has_other_writer(d, ws.last().0, tx) {
            c.push(ws.last().0)
        } else {
            c
        }
    }
}

/// The write list compacted from `idx` on: an entry `wl` holds stays, and
/// a dropped entry is replaced by the list's last (a swap-remove).
pub open spec fn swap_keep(s: Seq<u64>, idx: nat, wl: Seq<u64>) -> Seq<u64>
    decreases s.len() - idx,
{
    if idx >= s.len() {
        s
    } else if wl.contains(s[idx as int]) {
        swap_keep(s, idx + 1, wl)
    } else {
        swap_keep(s.update(idx as int, s.last()).drop_last(), idx, wl)
    }
}

/// `acc` followed by the entries of `ls` it lacks, in order, each once.
pub open spec fn append_new(acc: Seq<u64>, ls: Seq<u64>) -> Seq<u64>
    decreases ls.len(),
{
    if ls.len() == 0 {
        acc
    } else {
        let a = append_new(acc, ls.drop_last());
        if a.contains(ls.last()) {
            a
        } else {
            a.push(ls.last())
        }
    }
}

/// The write list `record` keeps: the previous list compacted to the
/// locations still written, then each newly written location in the order
/// of the write set.
pub open spec fn recorded_writes(prev: Seq<u64>, wl: Seq<u64>) -> Seq<u64> {
    append_new(swap_keep(prev, 0, wl), wl)
}

/// What `record` makes of the memory.
pub open spec fn record_spec(o: MvView, tv: TxVersion, rs: Seq<(u64, Seq<ReadOrigin>)>, ws: Seq<(u64, MemoryValue)>, new_writes: Seq<u64>) -> MvView {
    let t = tv.tx_idx as int;
    let gone = o.writes[t].to_set().difference(write_locs(ws).to_set());
    MvView {
        data: publish_fold(unwritten(o.data, tv.tx_idx, gone), tv.tx_idx, tv.tx_incarnation, ws),
        reads: o.reads.update(t, rs),
        writes: o.writes.update(t, new_writes),
        readers: readers_plus_fold(readers_minus_fold(o.readers, tv.tx_idx, read_keys(o.reads[t])), tv.tx_idx, read_keys(rs)),
        aborted: o.aborted.remove(tv.tx_idx),
        write_epoch: wrap_u64(wrap_u64(o.write_epoch)),
        ..o
    }
}

fn ws_has(ws: &WriteSet, l: u64) -> (r: bool)
    ensures
        r == write_locs(ws@).contains(l),
{
    let mut i: usize = 0;
    while i < ws.len()
        invariant
            i <= ws@.len(),
            forall|k: int| 0 <= k < i ==> ws@[k].0 != l,
        decreases ws.len() - i,
    {
        if ws[i].0 == l {
            assert(write_locs(ws@)[i as int] == l);
            return true;
        }
        i = i + 1;
    }
    proof {
        if write_locs(ws@).contains(l) {
            let k = choose|k: int| 0 <= k < write_locs(ws@).len() && #[trigger] write_locs(ws@)[k] == l;
            assert(ws@[k].0 == l);
        }
    }
    false
}

pub(crate) fn contains_u64(v: &Vec<u64>, x: u64) -> (r: bool)
    ensures
        r == v@.contains(x),
{
    let mut i: usize = 0;
    while i < v.len()
        invariant
            i <= v@.len(),
            forall|k: int| 0 <= k < i ==> v@[k] != x,
        decreases v.len() - i,
    {
        if v[i] == x {
            assert(v@[i as int] == x);
            return true;
        }
        i = i + 1;
    }
    false
}

impl MvMemory {
    fn register_reader(&mut self, tx_idx: TxIdx, location: MemoryLocationHash)
        requires
            readers_ok(old(self)@.readers),
        ensures
            readers_ok(final(self)@.readers),
            final(self)@ == (MvView { readers: readers_plus(old(self)@.readers, tx_idx, location), ..old(self)@ }),
            final(self).last_locations@ == old(self).last_locations@,
    {
        rd_add(&mut self.readers, location, tx_idx);
        proof {
            let r = self@.readers;
            assert forall|l: u64| #[trigger] r.dom().contains(l) implies r[l] != Set::<usize>::empty() by {
                if l == location {
                    assert(r[l].contains(tx_idx));
                }
            }
        }
    }

    fn unregister_reader(&mut self, tx_idx: TxIdx, location: MemoryLocationHash)
        requires
            readers_ok(old(self)@.readers),
        ensures
            readers_ok(final(self)@.readers),
            final(self)@ == (MvView { readers: readers_minus(old(self)@.readers, tx_idx, location), ..old(self)@ }),
            final(self).last_locations@ == old(self).last_locations@,
    {
        match rd_remove(&mut self.readers, location, tx_idx) {
            Some(true) => {
                rd_drop(&mut self.readers, location);
                assert(self@.readers =~= readers_minus(old(self)@.readers, tx_idx, location));
            },
            _ => {},
        }
    }

    /// Apply the read and write sets of an incarnation. The transaction's
    /// versions at locations it no longer writes are removed, every write
    /// becomes data of this incarnation, its read set and readership are
    /// replaced, and its aborted stamp is cleared. Returns whether it wrote a
    /// location its previous incarnation did not, and the written locations
    /// that another transaction also writes.
    pub fn record(&mut self, tx_version: &TxVersion, read_set: ReadSet, write_set: WriteSet) -> (r: (bool, Vec<MemoryLocationHash>))
        requires
            old(self).wf(),
            tx_version.tx_idx < old(self)@.block_size(),
            distinct_keys(read_view(read_set)),
        ensures
            final(self).wf(),
            ({
                let o = old(self)@;
                let t = tx_version.tx_idx as int;
                let wl = write_locs(write_set@);
                &&& final(self)@.writes[t].no_duplicates()
                &&& final(self)@.writes[t].to_set() == wl.to_set()
                &&& final(self)@.writes[t] == recorded_writes(o.writes[t], wl)
                &&& final(self)@ == record_spec(o, *tx_version, read_view(read_set), write_set@, final(self)@.writes[t])
                &&& r.0 == exists|l: u64| #[trigger] wl.contains(l) && !o.writes[t].contains(l)
                &&& r.1@ == contended_of(o.data, tx_version.tx_idx, write_set@)
            }),
    {
        let ghost o = self@;
        let t = tx_version.tx_idx;
        let ghost rs = read_view(read_set);
        let ghost ws = write_set@;
        let ghost wl = write_locs(ws);
        proof {
            self.lemma_lens();
        }
        let mut last = LastLocations { read: Vec::new(), write: Vec::new() };
        std::mem::swap(&mut last, &mut self.last_locations[t]);
        assert(read_view(last.read) == o.reads[t as int]);
        assert(last.write@ == o.writes[t as int]);
        assert(mv_wf(o));
        let ghost ll0 = self.last_locations@;
        assert(forall|q: int| 0 <= q < ll0.len() && q != t ==> ll0[q] == old(self).last_locations@[q]);
        assert(self@.readers == o.readers);
        assert(readers_ok(self@.readers));
        // Readership: drop the previous read set, register the new one.
        let ghost r0 = self@.readers;
        let mut i: usize = 0;
        while i < last.read.len()
            invariant
                i <= last.read@.len(),
                readers_ok(self@.readers),
                self@.readers == readers_minus_fold(r0, t, read_keys(read_view(last.read)).take(i as int)),
                self@.data == o.data,
                self@.aborted == o.aborted,
                self@.write_epoch == o.write_epoch,
                self@.lazy == o.lazy,
                self@.residual == o.residual,
                self@.pinned == o.pinned,
                self.last_locations@.len() == o.writes.len(),
                self.last_locations@ == ll0,
            decreases last.read.len() - i,
        {
            let l = last.read[i].0;
            proof {
                let ks = read_keys(read_view(last.read));
                assert(ks.take(i + 1).drop_last() =~= ks.take(i as int));
                assert(ks[i as int] == l);
            }
            self.unregister_reader(t, l);
            proof {
                let ks = read_keys(read_view(last.read));
                assert(self@.readers =~= readers_minus_fold(r0, t, ks.take(i + 1)));
            }
            i = i + 1;
        }
        proof {
            let ks = read_keys(read_view(last.read));
            assert(ks.take(ks.len() as int) =~= ks);
        }
        let ghost r1 = self@.readers;
        let mut i: usize = 0;
        while i < read_set.len()
            invariant
                i <= read_set@.len(),
                readers_ok(self@.readers),
                self@.readers == readers_plus_fold(r1, t, read_keys(rs).take(i as int)),
                rs == read_view(read_set),
                self@.data == o.data,
                self@.aborted == o.aborted,
                self@.write_epoch == o.write_epoch,
                self@.lazy == o.lazy,
                self@.residual == o.residual,
                self@.pinned == o.pinned,
                self.last_locations@.len() == o.writes.len(),
                self.last_locations@ == ll0,
            decreases read_set.len() - i,
        {
            let l = read_set[i].0;
            proof {
                let ks = read_keys(rs);
                assert(ks.take(i + 1).drop_last() =~= ks.take(i as int));
                assert(ks[i as int] == l);
            }
            self.register_reader(t, l);
            i = i + 1;
        }
        proof {
            let ks = read_keys(rs);
            assert(ks.take(ks.len() as int) =~= ks);
        }
        last.read = read_set;
        ab_remove(&mut self.aborted_incarnations, t);
        let ghost r2 = self@.readers;
        assert(r2 == readers_plus_fold(readers_minus_fold(o.readers, t, read_keys(o.reads[t as int])), t, read_keys(rs)));
        // Drop the versions at locations this incarnation no longer writes.
        let ghost d0 = self@.data;
        let ghost p = o.writes[t as int];
        let ghost mut gone: Set<u64> = Set::empty();
        let mut idx: usize = 0;
        while idx < last.write.len()
            invariant
                p.no_duplicates(),
                last.write@.no_duplicates(),
                idx <= last.write@.len(),
                last.write@.to_set().union(gone) == p.to_set(),
                last.write@.to_set().intersect(gone) == Set::<u64>::empty(),
                forall|q: int| 0 <= q < idx ==> wl.contains(#[trigger] last.write@[q]),
                forall|l: u64| #[trigger] gone.contains(l) ==> !wl.contains(l),
                gone.finite(),
                self@.data == unwritten(d0, t, gone),
                wl == write_locs(write_set@),
                swap_keep(last.write@, idx as nat, wl) == swap_keep(p, 0, wl),
                forall|l: u64| has_other_writer(self@.data, l, t) == #[trigger] has_other_writer(o.data, l, t),
                d0 == o.data,
                readers_ok(self@.readers),
                self@.readers == r2,
                self.last_locations@ == ll0,
                read_view(last.read) == rs,
                self@.aborted == o.aborted.remove(t),
                self@.write_epoch == o.write_epoch,
                self@.lazy == o.lazy,
                self@.residual == o.residual,
                self@.pinned == o.pinned,
            decreases last.write.len() - idx,
        {
            let prev = last.write[idx];
            if !ws_has(&write_set, prev) {
                proof {
                    assert(last.write@.to_set().contains(prev));
                    if gone.contains(prev) {
                        assert(last.write@.to_set().intersect(gone).contains(prev));
                    }
                    assert(!gone.contains(prev));
                }
                mv_unwrite(&mut self.data, prev, t);
                let ghost before = last.write@;
                last.write.swap_remove(idx);
                proof {
                    assert(!wl.contains(before[idx as int]));
                    assert(swap_keep(before, idx as nat, wl) == swap_keep(last.write@, idx as nat, wl));
                    let old_gone = gone;
                    gone = gone.insert(prev);
                    assert(self@.data =~= unwritten(d0, t, gone));
                    assert forall|a: int, b: int| 0 <= a < b < last.write@.len() implies last.write@[a] != last.write@[b] by {
                        let ia = if a == idx { before.len() - 1 } else { a };
                        let ib = if b == idx { before.len() - 1 } else { b };
                        assert(last.write@[a] == before[ia]);
                        assert(last.write@[b] == before[ib]);
                    }
                    assert forall|x: u64| last.write@.to_set().union(gone).contains(x) <==> p.to_set().contains(x) by {
                        if before.to_set().contains(x) {
                            let k = choose|k: int| 0 <= k < before.len() && before[k] == x;
                            if k == idx {
                                assert(gone.contains(x));
                            } else if k == before.len() - 1 {
                                assert(last.write@[idx as int] == x);
                            } else {
                                assert(last.write@[k] == x);
                            }
                        }
                        if last.write@.to_set().contains(x) {
                            let k = choose|k: int| 0 <= k < last.write@.len() && last.write@[k] == x;
                            if k == idx {
                                assert(before[before.len() - 1] == x);
                            } else {
                                assert(before[k] == x);
                            }
                            assert(before.to_set().contains(x));
                        }
                    }
                    assert(last.write@.to_set().union(gone) =~= p.to_set());
                    assert forall|x: u64| !(last.write@.to_set().contains(x) && gone.contains(x)) by {
                        if last.write@.to_set().contains(x) && gone.contains(x) {
                            let k = choose|k: int| 0 <= k < last.write@.len() && last.write@[k] == x;
                            let kb = if k == idx { before.len() - 1 } else { k };
                            assert(before[kb] == x);
                            assert(kb != idx);
                            if x == prev {
                                assert(before[idx as int] == prev);
                                assert(before.no_duplicates());
                                assert(false);
                            } else {
                                assert(old_gone.contains(x));
                                assert(before.to_set().contains(x));
                                assert(before.to_set().intersect(old_gone).contains(x));
                                assert(false);
                            }
                        }
                    }
                    assert(last.write@.to_set().intersect(gone) =~= Set::<u64>::empty());
                    assert forall|q: int| 0 <= q < idx implies wl.contains(#[trigger] last.write@[q]) by {
                        assert(last.write@[q] == before[q]);
                    }
                    assert forall|l: u64| has_other_writer(self@.data, l, t) == #[trigger] has_other_writer(o.data, l, t) by {
                        if has_other_writer(o.data, l, t) {
                            let k = choose|k: usize| #[trigger] o.data[l].dom().contains(k) && k != t;
                            assert(self@.data[l].dom().contains(k));
                        }
                        if has_other_writer(self@.data, l, t) {
                            let k = choose|k: usize| #[trigger] self@.data[l].dom().contains(k) && k != t;
                            assert(o.data[l].dom().contains(k));
                        }
                    }
                }
            } else {
                proof {
                    assert(wl.contains(last.write@[idx as int]));
                    assert(swap_keep(last.write@, idx as nat, wl) == swap_keep(last.write@, (idx + 1) as nat, wl));
                }
                idx = idx + 1;
            }
        }
        let ghost kept = last.write@;
        assert(kept == swap_keep(p, 0, wl));
        assert(kept.to_set() =~= p.to_set().intersect(wl.to_set())) by {
            assert forall|x: u64| kept.to_set().contains(x) implies wl.contains(x) by {
                let k = choose|k: int| 0 <= k < kept.len() && kept[k] == x;
                assert(wl.contains(kept[k]));
            }
            assert forall|x: u64| p.to_set().contains(x) && wl.to_set().contains(x) implies kept.to_set().contains(x) by {
                if !kept.to_set().contains(x) {
                    assert(last.write@.to_set().union(gone).contains(x));
                    assert(gone.contains(x));
                }
            }
        }
        assert(gone =~= p.to_set().difference(wl.to_set())) by {
            assert forall|x: u64| gone.contains(x) <==> p.to_set().difference(wl.to_set()).contains(x) by {
                if gone.contains(x) {
                    assert(last.write@.to_set().union(gone).contains(x));
                }
                if p.to_set().contains(x) && !wl.to_set().contains(x) {
                    assert(last.write@.to_set().union(gone).contains(x));
                    if kept.to_set().contains(x) {
                        let k = choose|k: int| 0 <= k < kept.len() && kept[k] == x;
                        assert(wl.contains(kept[k]));
                    }
                }
            }
        }
        // Publish every write as data of this incarnation.
        let ghost d1 = self@.data;
        let mut wrote_new_location = false;
        let mut contended: Vec<MemoryLocationHash> = Vec::new();
        self.write_epoch = if self.write_epoch == u64::MAX { 0 } else { self.write_epoch + 1 };
        let mut j: usize = 0;
        while j < write_set.len()
            invariant
                j <= write_set@.len(),
                ws == write_set@,
                wl == write_locs(ws),
                self@.data == publish_fold(d1, t, tx_version.tx_incarnation, ws.take(j as int)),
                forall|l: u64| has_other_writer(self@.data, l, t) == #[trigger] has_other_writer(o.data, l, t),
                contended@ == contended_of(o.data, t, ws.take(j as int)),
                last.write@.no_duplicates(),
                last.write@ == append_new(kept, write_locs(ws.take(j as int))),
                kept == swap_keep(p, 0, wl),
                last.write@.to_set() == kept.to_set().union(write_locs(ws.take(j as int)).to_set()),
                kept.to_set() == p.to_set().intersect(wl.to_set()),
                wrote_new_location == exists|q: int| 0 <= q < j && !p.contains(#[trigger] ws[q].0),
                readers_ok(self@.readers),
                self@.readers == r2,
                self.last_locations@ == ll0,
                read_view(last.read) == rs,
                self@.aborted == o.aborted.remove(t),
                self@.write_epoch == wrap_u64(o.write_epoch),
                self@.lazy == o.lazy,
                self@.residual == o.residual,
                self@.pinned == o.pinned,
            decreases write_set.len() - j,
        {
            let location = write_set[j].0;
            let value = write_set[j].1;
            proof {
                assert(ws.take(j + 1).drop_last() =~= ws.take(j as int));
                assert(ws.take(j + 1).last() == ws[j as int]);
            }
            let other = match mv_versions(&self.data, location) {
                None => false,
                Some(v) => {
                    let mut found = false;
                    let mut q: usize = 0;
                    while q < v.len()
                        invariant
                            q <= v@.len(),
                            found == exists|a: int| 0 <= a < q && #[trigger] v@[a].0 != t,
                        decreases v.len() - q,
                    {
                        if v[q].0 != t {
                            found = true;
                        }
                        q = q + 1;
                    }
                    proof {
                        let m = self@.data[location];
                        if found {
                            let a = choose|a: int| 0 <= a < v@.len() && #[trigger] v@[a].0 != t;
                            assert(m.dom().contains(v@[a].0));
                        } else {
                            assert forall|k: usize| #[trigger] m.dom().contains(k) implies k == t by {
                                let a = choose|a: int| 0 <= a < v@.len() && #[trigger] v@[a].0 == k;
                            }
                        }
                    }
                    found
                },
            };
            assert(other == has_other_writer(o.data, location, t));
            if other {
                contended.push(location);
            }
            mv_write(&mut self.data, location, t, MemoryEntry::Data(tx_version.tx_incarnation, value));
            proof {
                let prevd = publish_fold(d1, t, tx_version.tx_incarnation, ws.take(j as int));
                let base = if prevd.dom().contains(location) { prevd[location] } else { Map::<usize, MemoryEntry>::empty() };
                assert(self@.data == prevd.insert(location, base.insert(t, MemoryEntry::Data(tx_version.tx_incarnation, value))));
                assert forall|l: u64| has_other_writer(self@.data, l, t) == #[trigger] has_other_writer(o.data, l, t) by {
                    assert(has_other_writer(prevd, l, t) == has_other_writer(o.data, l, t));
                    if l == location {
                        if has_other_writer(prevd, l, t) {
                            let k = choose|k: usize| #[trigger] prevd[l].dom().contains(k) && k != t;
                            assert(self@.data[l].dom().contains(k));
                        }
                        if has_other_writer(self@.data, l, t) {
                            let k = choose|k: usize| #[trigger] self@.data[l].dom().contains(k) && k != t;
                            assert(base.dom().contains(k));
                            assert(prevd.dom().contains(l));
                            assert(prevd[l].dom().contains(k));
                        }
                    } else {
                        assert(self@.data.dom().contains(l) == prevd.dom().contains(l));
                        assert(self@.data[l] == prevd[l]);
                    }
                }
            }
            let ghost lw_before = last.write@;
            if !contains_u64(&last.write, location) {
                last.write.push(location);
                wrote_new_location = true;
                proof {
                    assert forall|a: int, b: int| 0 <= a < b < last.write@.len() implies last.write@[a] != last.write@[b] by {
                        if b == last.write@.len() - 1 {
                            assert(lw_before[a] == last.write@[a]);
                        }
                    }
                    if p.contains(location) {
                        assert(wl.contains(location)) by {
                            assert(wl[j as int] == location);
                        }
                        assert(kept.to_set().contains(location));
                        assert(lw_before.to_set().contains(location));
                    }
                }
            }
            proof {
                let wj1 = write_locs(ws.take(j + 1));
                let wj = write_locs(ws.take(j as int));
                assert(wj1 =~= wj.push(location));
                assert(wj1.drop_last() =~= wj);
                assert(wj1.last() == location);
                assert(lw_before == append_new(kept, wj));
                assert(last.write@ == append_new(kept, wj1));
                assert forall|x: u64| last.write@.to_set().contains(x) <==> kept.to_set().union(wj1.to_set()).contains(x) by {
                    if x == location {
                        assert(wj1[j as int] == location);
                        if last.write@ == lw_before {
                            assert(lw_before.contains(location));
                        } else {
                            assert(last.write@[last.write@.len() - 1] == location);
                        }
                    } else {
                        if last.write@.to_set().contains(x) {
                            let k = choose|k: int| 0 <= k < last.write@.len() && last.write@[k] == x;
                            if last.write@ != lw_before {
                                assert(k < lw_before.len());
                            }
                            assert(lw_before[k] == x);
                            assert(lw_before.to_set().contains(x));
                        }
                        if lw_before.to_set().contains(x) {
                            let k = choose|k: int| 0 <= k < lw_before.len() && lw_before[k] == x;
                            assert(last.write@[k] == x);
                        }
                        if wj1.to_set().contains(x) {
                            let k = choose|k: int| 0 <= k < wj1.len() && wj1[k] == x;
                            assert(wj[k] == x);
                        }
                        if wj.to_set().contains(x) {
                            let k = choose|k: int| 0 <= k < wj.len() && wj[k] == x;
                            assert(wj1[k] == x);
                        }
                    }
                }
                assert(last.write@.to_set() =~= kept.to_set().union(wj1.to_set()));
                if last.write@ != lw_before {
                    assert(!lw_before.to_set().contains(location));
                    assert(!kept.to_set().contains(location));
                    assert(wl.contains(location)) by {
                        assert(wl[j as int] == location);
                    }
                    assert(!p.contains(ws[j as int].0));
                } else {
                    assert(lw_before.to_set().contains(location));
                    if !p.contains(location) {
                        assert(!kept.to_set().contains(location));
                        assert(wj.to_set().contains(location));
                        let k = choose|k: int| 0 <= k < wj.len() && wj[k] == location;
                        assert(ws[k].0 == location);
                        assert(!p.contains(ws[k].0));
                    }
                }
            }
            j = j + 1;
        }
        self.write_epoch = if self.write_epoch == u64::MAX { 0 } else { self.write_epoch + 1 };
        proof {
            assert(ws.take(ws.len() as int) =~= ws);
        }
        self.last_locations.set(t, last);
        proof {
            let f = self@;
            assert(self.last_locations@ == ll0.update(t as int, last));
            assert(f.reads =~= o.reads.update(t as int, rs));
            assert(f.writes =~= o.writes.update(t as int, last.write@));
            assert(last.write@ == recorded_writes(o.writes[t as int], wl));
            assert(kept.to_set().union(wl.to_set()) =~= wl.to_set());
            assert(f.writes[t as int].to_set() == wl.to_set());
            let spec = record_spec(o, *tx_version, rs, ws, f.writes[t as int]);
            assert(f.data == spec.data);
            assert(f.readers == spec.readers);
            assert(f.aborted == spec.aborted);
            assert(f.write_epoch == spec.write_epoch);
            assert(f == spec);
            assert(contended@ == contended_of(o.data, t, ws));
            if wrote_new_location {
                let q = choose|q: int| 0 <= q < ws.len() && !p.contains(#[trigger] ws[q].0);
                assert(wl[q] == ws[q].0);
                assert(wl.contains(ws[q].0));
            } else {
                assert forall|l: u64| #[trigger] wl.contains(l) implies o.writes[t as int].contains(l) by {
                    let q = choose|q: int| 0 <= q < wl.len() && wl[q] == l;
                    assert(ws[q].0 == l);
                }
            }
        }
        (wrote_new_location, contended)
    }
}


/// `k` is the closest writer below `tx` in `m`.
pub open spec fn closest_below(m: Map<usize, MemoryEntry>, tx: usize, k: usize) -> bool {
    &&& m.dom().contains(k)
    &&& k < tx
    &&& forall|k2: usize| #[trigger] m.dom().contains(k2) && k2 < tx ==> k2 <= k
}

/// The version that a read of `loc` by `tx` sees: the closest writer below
/// `tx`, with its entry; `None` when the location is unknown or no writer
/// lies below `tx`.
pub open spec fn seen_version(d: Map<u64, Map<usize, MemoryEntry>>, loc: u64, tx: usize) -> Option<(usize, MemoryEntry)> {
    if d.dom().contains(loc) && exists|k: usize| closest_below(d[loc], tx, k) {
        let k = choose|k: usize| closest_below(d[loc], tx, k);
        Some((k, d[loc][k]))
    } else {
        None
    }
}

/// The value a read of `loc` by `tx` gets from the memory: data of a live
/// incarnation; `None` for an estimate, an aborted incarnation or no writer.
pub open spec fn current_value_spec(v: MvView, tx: usize, loc: u64) -> Option<MemoryValue> {
    match seen_version(v.data, loc, tx) {
        Some((k, MemoryEntry::Data(inc, val))) => if v.is_aborted(k, inc) {
            None
        } else {
            Some(val)
        },
        _ => None,
    }
}

/// The origins a fresh read of `loc` by `tx` would record: the version it
/// sees, or the base storage when no writer lies below; `None` when the
/// version seen is an estimate or an aborted incarnation.
pub open spec fn current_origins_spec(v: MvView, tx: usize, loc: u64) -> Option<Seq<ReadOrigin>> {
    match seen_version(v.data, loc, tx) {
        Some((k, MemoryEntry::Data(inc, val))) => if v.is_aborted(k, inc) {
            None
        } else {
            Some(seq![ReadOrigin::MvMemory(TxVersion { tx_idx: k, tx_incarnation: inc }, val)])
        },
        Some((_, MemoryEntry::Estimate)) => None,
        None => Some(seq![ReadOrigin::Storage]),
    }
}

/// `k` holds live data (not an estimate, not an aborted incarnation) at `loc`.
pub open spec fn live_data_at(v: MvView, loc: u64, k: usize) -> bool {
    &&& v.data.dom().contains(loc)
    &&& v.data[loc].dom().contains(k)
    &&& v.data[loc][k] matches MemoryEntry::Data(inc, _) && !v.is_aborted(k, inc)
}

proof fn lemma_closest_unique(m: Map<usize, MemoryEntry>, tx: usize, a: usize, b: usize)
    requires
        closest_below(m, tx, a),
        closest_below(m, tx, b),
    ensures
        a == b,
{
}

/// What one step of the walk below `tx` tells about the version seen.
proof fn lemma_seen_from_prefix(d: Map<u64, Map<usize, MemoryEntry>>, loc: u64, tx: usize, b: Seq<(usize, MemoryEntry)>, n: nat)
    requires
        d.dom().contains(loc),
        n >= 1,
        desc_below_prefix(b, d[loc], tx, n),
    ensures
        b.len() == 0 ==> seen_version(d, loc, tx) is None,
        b.len() > 0 ==> seen_version(d, loc, tx) == Some(b[0]),
{
    let m = d[loc];
    if b.len() == 0 {
        if exists|k: usize| closest_below(m, tx, k) {
            let k = choose|k: usize| closest_below(m, tx, k);
            assert(m.dom().contains(k) && k < tx);
            let i = choose|i: int| 0 <= i < b.len() && #[trigger] b[i].0 == k;
        }
    } else {
        assert(closest_below(m, tx, b[0].0)) by {
            assert forall|k2: usize| #[trigger] m.dom().contains(k2) && k2 < tx implies k2 <= b[0].0 by {
                if k2 > b[0].0 {
                    if b.len() < n || k2 > b.last().0 {
                        let i = choose|i: int| 0 <= i < b.len() && #[trigger] b[i].0 == k2;
                        if i > 0 {
                            assert(b[i].0 < b[0].0);
                        }
                    } else {
                        assert(b.last().0 <= b[0].0) by {
                            if b.len() > 1 {
                                assert(b[b.len() - 1].0 < b[0].0);
                            }
                        }
                    }
                }
            }
        }
        let k = choose|k: usize| closest_below(m, tx, k);
        lemma_closest_unique(m, tx, k, b[0].0);
    }
}

impl MvMemory {
    /// The version a read of `location` by `tx_idx` sees (`None` when the
    /// location is unknown or no writer lies below).
    fn seen(&self, tx_idx: TxIdx, location: MemoryLocationHash) -> (r: Option<(usize, MemoryEntry)>)
        ensures
            r == seen_version(self@.data, location, tx_idx),
    {
        match mv_below(&self.data, location, tx_idx, 1) {
            None => None,
            Some(b) => {
                proof {
                    lemma_seen_from_prefix(self@.data, location, tx_idx, b@, 1);
                }
                if b.len() == 0 {
                    None
                } else {
                    Some(b[0])
                }
            },
        }
    }

    /// Last writer strictly below `tx_idx` at `location`, if any.
    pub fn last_writer_before(&self, location: MemoryLocationHash, tx_idx: TxIdx) -> (r: Option<TxIdx>)
        ensures
            r == match seen_version(self@.data, location, tx_idx) {
                Some((k, _)) => Some(k),
                None => None,
            },
    {
        match self.seen(tx_idx, location) {
            Some((k, _)) => Some(k),
            None => None,
        }
    }

    /// The value a read of `location` by `tx_idx` gets: data of the closest
    /// writer below, unless that is an estimate or an aborted incarnation.
    pub fn current_data_value(&self, tx_idx: TxIdx, location: MemoryLocationHash) -> (r: Option<MemoryValue>)
        ensures
            r == current_value_spec(self@, tx_idx, location),
    {
        match self.seen(tx_idx, location) {
            Some((k, MemoryEntry::Data(inc, val))) => {
                if self.is_aborted_incarnation(k, inc) {
                    None
                } else {
                    Some(val)
                }
            },
            _ => None,
        }
    }

    /// The origins a fresh read of `location` by `tx_idx` would record.
    pub fn current_read_origins(&self, tx_idx: TxIdx, location: MemoryLocationHash) -> (r: Option<Vec<ReadOrigin>>)
        ensures
            match r {
                Some(v) => current_origins_spec(self@, tx_idx, location) == Some(v@),
                None => current_origins_spec(self@, tx_idx, location) is None,
            },
    {
        let mut origins: Vec<ReadOrigin> = Vec::new();
        match self.seen(tx_idx, location) {
            Some((k, MemoryEntry::Data(inc, val))) => {
                if self.is_aborted_incarnation(k, inc) {
                    return None;
                }
                origins.push(ReadOrigin::mv(k, inc, val));
            },
            Some((_, MemoryEntry::Estimate)) => {
                return None;
            },
            None => {
                origins.push(ReadOrigin::Storage);
            },
        }
        assert(origins@ =~= current_origins_spec(self@, tx_idx, location)->0);
        Some(origins)
    }

    /// The data `tx_idx` still publishes at `location`, if any.
    pub fn published_data_value(&self, tx_idx: TxIdx, location: MemoryLocationHash) -> (r: Option<MemoryValue>)
        ensures
            r == (if self@.data.dom().contains(location) && self@.data[location].dom().contains(tx_idx) {
                match self@.data[location][tx_idx] {
                    MemoryEntry::Data(_, v) => Some(v),
                    MemoryEntry::Estimate => None,
                }
            } else {
                None
            }),
    {
        match mv_entry(&self.data, location, tx_idx) {
            Some(MemoryEntry::Data(_, v)) => Some(v),
            _ => None,
        }
    }

    /// The kind of entry a writer holds at a location, for research traces.
    pub fn entry_kind_at(&self, location: MemoryLocationHash, tx_idx: TxIdx) -> (r: &'static str)
        ensures
            r@ == (if !self@.data.dom().contains(location) || !self@.data[location].dom().contains(tx_idx) {
                "absent"@
            } else {
                match self@.data[location][tx_idx] {
                    MemoryEntry::Data(_, _) => "data"@,
                    MemoryEntry::Estimate => "estimate"@,
                }
            }),
    {
        match mv_entry(&self.data, location, tx_idx) {
            Some(MemoryEntry::Data(_, _)) => "data",
            Some(MemoryEntry::Estimate) => "estimate",
            None => "absent",
        }
    }

    /// The closest live data below `tx_idx` at `location`, skipping
    /// estimates and aborted incarnations: its writer and incarnation.
    pub fn last_data_before(&self, location: MemoryLocationHash, tx_idx: TxIdx) -> (r: Option<(TxIdx, TxIncarnation)>)
        ensures
            match r {
                Some((k, inc)) => {
                    &&& k < tx_idx
                    &&& live_data_at(self@, location, k)
                    &&& self@.data[location][k] matches MemoryEntry::Data(i, _) && i == inc
                    &&& forall|k2: usize| k < k2 < tx_idx ==> !#[trigger] live_data_at(self@, location, k2)
                },
                None => forall|k2: usize| k2 < tx_idx ==> !#[trigger] live_data_at(self@, location, k2),
            },
    {
        let v = match mv_versions(&self.data, location) {
            None => {
                return None;
            },
            Some(v) => v,
        };
        let ghost m = self@.data[location];
        let mut i: usize = v.len();
        while i > 0
            invariant
                i <= v@.len(),
                self@.data.dom().contains(location),
                m == self@.data[location],
                ascending_versions(v@, m),
                forall|k2: usize| #[trigger] live_data_at(self@, location, k2) && k2 < tx_idx ==> exists|a: int| 0 <= a < i && v@[a].0 == k2,
            decreases i,
        {
            let (k, e) = v[i - 1];
            if k < tx_idx {
                if let MemoryEntry::Data(inc, _) = e {
                    if !self.is_aborted_incarnation(k, inc) {
                        proof {
                            assert forall|k2: usize| k < k2 < tx_idx implies !#[trigger] live_data_at(self@, location, k2) by {
                                if live_data_at(self@, location, k2) {
                                    let a = choose|a: int| 0 <= a < i && v@[a].0 == k2;
                                    if a < i - 1 {
                                        assert(v@[a].0 < v@[i - 1].0);
                                    }
                                }
                            }
                        }
                        return Some((k, inc));
                    }
                }
            }
            proof {
                assert forall|k2: usize| #[trigger] live_data_at(self@, location, k2) && k2 < tx_idx implies exists|a: int| 0 <= a < i - 1 && v@[a].0 == k2 by {
                    let a = choose|a: int| 0 <= a < i && v@[a].0 == k2;
                    if a == i - 1 {
                        assert(m[k] == e);
                    }
                }
            }
            i = i - 1;
        }
        None
    }
}


/// Walking the versions below the reader from the top down (`b`), the
/// recorded origins still match: a memory origin names the next version,
/// which is live data of the same incarnation and value; a storage origin
/// finds no version left.
pub open spec fn origins_match(b: Seq<(usize, MemoryEntry)>, origins: Seq<ReadOrigin>, aborted: Map<usize, usize>) -> bool
    decreases origins.len(),
{
    if origins.len() == 0 {
        true
    } else {
        match origins[0] {
            ReadOrigin::MvMemory(pv, pval) => {
                &&& b.len() > 0
                &&& b[0].1 matches MemoryEntry::Data(inc, val) && !(aborted.dom().contains(b[0].0) && aborted[b[0].0] == inc)
                    && b[0].0 == pv.tx_idx && pv.tx_incarnation == inc && val == pval
                &&& origins_match(b.drop_first(), origins.drop_first(), aborted)
            },
            ReadOrigin::Storage => b.len() == 0 && origins_match(b, origins.drop_first(), aborted),
        }
    }
}

/// A read of `loc` by `tx` with these origins would still read the same:
/// the location is unknown and the read came from storage alone, or the
/// versions below `tx` match the origins.
pub open spec fn origin_valid_spec(v: MvView, tx: usize, loc: u64, origins: Seq<ReadOrigin>) -> bool {
    if !v.data.dom().contains(loc) {
        origins.len() == 1 && origins.last() == ReadOrigin::Storage
    } else {
        forall|b: Seq<(usize, MemoryEntry)>| #[trigger] desc_below_prefix(b, v.data[loc], tx, origins.len()) ==> origins_match(b, origins, v.aborted)
    }
}

/// Every read of the last recorded read set of `tx` is still valid.
pub open spec fn reads_valid_spec(v: MvView, tx: usize) -> bool {
    forall|i: int| 0 <= i < v.reads[tx as int].len() ==> origin_valid_spec(v, tx, #[trigger] v.reads[tx as int][i].0, v.reads[tx as int][i].1)
}

/// The locations of `rs` whose origins no longer match, in order.
pub open spec fn invalid_locs(v: MvView, tx: usize, rs: Seq<(u64, Seq<ReadOrigin>)>) -> Seq<u64>
    decreases rs.len(),
{
    if rs.len() == 0 {
        Seq::empty()
    } else {
        let s = invalid_locs(v, tx, rs.drop_last());
        if origin_valid_spec(v, tx, rs.last().0, rs.last().1) {
            s
        } else {
            s.push(rs.last().0)
        }
    }
}

/// Two prefixes of the versions below `tx` agree where both reach.
proof fn lemma_prefix_unique(b: Seq<(usize, MemoryEntry)>, c: Seq<(usize, MemoryEntry)>, m: Map<usize, MemoryEntry>, tx: usize, n: nat)
    requires
        desc_below_prefix(b, m, tx, n),
        desc_below_prefix(c, m, tx, n),
    ensures
        b == c,
    decreases n,
{
    assert forall|i: int| 0 <= i < b.len() && 0 <= i < c.len() implies b[i] == c[i] by {
        lemma_prefix_index(b, c, m, tx, n, i);
    }
    if b.len() < c.len() {
        let k = c[b.len() as int].0;
        assert(m.dom().contains(k) && k < tx);
        if b.len() > 0 {
            lemma_prefix_index(b, c, m, tx, n, b.len() - 1);
            assert(k < c[b.len() - 1].0);
        }
        let i = choose|i: int| 0 <= i < b.len() && #[trigger] b[i].0 == k;
        lemma_prefix_index(b, c, m, tx, n, i);
        assert(c[i].0 == k);
    } else if c.len() < b.len() {
        let k = b[c.len() as int].0;
        assert(m.dom().contains(k) && k < tx);
        if c.len() > 0 {
            lemma_prefix_index(b, c, m, tx, n, c.len() - 1);
            assert(k < b[c.len() - 1].0);
        }
        let i = choose|i: int| 0 <= i < c.len() && #[trigger] c[i].0 == k;
        lemma_prefix_index(b, c, m, tx, n, i);
        assert(b[i].0 == k);
    }
    assert(b =~= c);
}

proof fn lemma_prefix_index(b: Seq<(usize, MemoryEntry)>, c: Seq<(usize, MemoryEntry)>, m: Map<usize, MemoryEntry>, tx: usize, n: nat, i: int)
    requires
        desc_below_prefix(b, m, tx, n),
        desc_below_prefix(c, m, tx, n),
        0 <= i < b.len(),
        0 <= i < c.len(),
    ensures
        b[i] == c[i],
    decreases i,
{
    if i > 0 {
        lemma_prefix_index(b, c, m, tx, n, i - 1);
    }
    if b[i].0 < c[i].0 {
        // c[i] lies below tx and above b[i], so b must list it before i.
        let k = c[i].0;
        assert(b.len() <= n);
        assert(k > b.last().0 || b.len() < n) by {
            if b.len() == n {
                assert(b.last().0 <= b[i].0) by {
                    if i < b.len() - 1 {
                        assert(b[b.len() - 1].0 < b[i].0);
                    }
                }
            }
        }
        let a = choose|a: int| 0 <= a < b.len() && #[trigger] b[a].0 == k;
        if a < i {
            lemma_prefix_index(b, c, m, tx, n, a);
            assert(c[a].0 == k);
            assert(c[a].0 > c[i].0);
        } else if a > i {
            assert(b[a].0 < b[i].0);
        }
    } else if c[i].0 < b[i].0 {
        let k = b[i].0;
        assert(k > c.last().0 || c.len() < n) by {
            if c.len() == n {
                assert(c.last().0 <= c[i].0) by {
                    if i < c.len() - 1 {
                        assert(c[c.len() - 1].0 < c[i].0);
                    }
                }
            }
        }
        let a = choose|a: int| 0 <= a < c.len() && #[trigger] c[a].0 == k;
        if a < i {
            lemma_prefix_index(b, c, m, tx, n, a);
            assert(b[a].0 == k);
            assert(b[a].0 > b[i].0);
        } else if a > i {
            assert(c[a].0 < c[i].0);
        }
    }
}

impl MvMemory {
    fn origin_still_valid(&self, tx_idx: TxIdx, location: MemoryLocationHash, prior_origins: &Vec<ReadOrigin>) -> (r: bool)
        ensures
            r == origin_valid_spec(self@, tx_idx, location, prior_origins@),
    {
        let below = match mv_below(&self.data, location, tx_idx, prior_origins.len()) {
            None => {
                return prior_origins.len() == 1 && prior_origins[prior_origins.len() - 1] == ReadOrigin::Storage;
            },
            Some(b) => b,
        };
        let ghost b = below@;
        let ghost os = prior_origins@;
        let ghost ab = self@.aborted;
        assert(b.skip(0) =~= b);
        assert(os.skip(0) =~= os);
        let mut pos: usize = 0;
        let mut i: usize = 0;
        while i < prior_origins.len()
            invariant
                i <= os.len(),
                pos <= below@.len(),
                b == below@,
                os == prior_origins@,
                ab == self@.aborted,
                self@.data.dom().contains(location),
                desc_below_prefix(b, self@.data[location], tx_idx, os.len()),
                origins_match(b, os, ab) == origins_match(b.skip(pos as int), os.skip(i as int), ab),
            decreases prior_origins.len() - i,
        {
            proof {
                assert(os.skip(i as int)[0] == os[i as int]);
                assert(os.skip(i as int).drop_first() =~= os.skip(i + 1));
                if pos < b.len() {
                    assert(b.skip(pos as int)[0] == b[pos as int]);
                    assert(b.skip(pos as int).drop_first() =~= b.skip(pos + 1));
                }
            }
            match prior_origins[i] {
                ReadOrigin::MvMemory(pv, pval) => {
                    if pos >= below.len() {
                        proof {
                            assert(b.skip(pos as int).len() == 0);
                            assert(!origins_match(b.skip(pos as int), os.skip(i as int), ab));
                            assert(!origins_match(b, os, ab));
                            assert(desc_below_prefix(b, self@.data[location], tx_idx, os.len()));
                        }
                        return false;
                    }
                    match below[pos] {
                        (k, MemoryEntry::Data(inc, val)) => {
                            if self.is_aborted_incarnation(k, inc) {
                                proof {
                                    assert(!origins_match(b.skip(pos as int), os.skip(i as int), ab));
                                    assert(!origins_match(b, os, ab));
                                    assert(desc_below_prefix(b, self@.data[location], tx_idx, os.len()));
                                }
                                return false;
                            }
                            if k != pv.tx_idx || pv.tx_incarnation != inc || val != pval {
                                proof {
                                    assert(!origins_match(b.skip(pos as int), os.skip(i as int), ab));
                                    assert(!origins_match(b, os, ab));
                                    assert(desc_below_prefix(b, self@.data[location], tx_idx, os.len()));
                                }
                                return false;
                            }
                        },
                        (_, MemoryEntry::Estimate) => {
                            proof {
                                assert(!origins_match(b.skip(pos as int), os.skip(i as int), ab));
                                assert(!origins_match(b, os, ab));
                                assert(desc_below_prefix(b, self@.data[location], tx_idx, os.len()));
                            }
                            return false;
                        },
                    }
                    pos = pos + 1;
                },
                ReadOrigin::Storage => {
                    if pos < below.len() {
                        proof {
                            assert(b.skip(pos as int).len() > 0);
                            assert(!origins_match(b.skip(pos as int), os.skip(i as int), ab));
                            assert(!origins_match(b, os, ab));
                            assert(desc_below_prefix(b, self@.data[location], tx_idx, os.len()));
                        }
                        return false;
                    }
                    proof {
                        assert(b.skip(pos as int).len() == 0);
                    }
                },
            }
            i = i + 1;
        }
        proof {
            assert(os.skip(os.len() as int).len() == 0);
            assert forall|c: Seq<(usize, MemoryEntry)>| #[trigger] desc_below_prefix(c, self@.data[location], tx_idx, os.len()) implies c == b by {
                lemma_prefix_unique(c, b, self@.data[location], tx_idx, os.len());
            }
        }
        true
    }

    /// The origins of a read of `location` by `tx_idx` still hold.
    pub fn origins_still_valid(&self, tx_idx: TxIdx, location: MemoryLocationHash, prior_origins: &Vec<ReadOrigin>) -> (r: bool)
        ensures
            r == origin_valid_spec(self@, tx_idx, location, prior_origins@),
    {
        self.origin_still_valid(tx_idx, location, prior_origins)
    }

    /// Re-read every location of the last recorded read set of `tx_idx`:
    /// every origin still holds.
    pub fn validate_read_locations(&self, tx_idx: TxIdx) -> (r: bool)
        requires
            self.wf(),
            tx_idx < self@.block_size(),
        ensures
            r == reads_valid_spec(self@, tx_idx),
    {
        proof {
            self.lemma_lens();
        }
        let reads = &self.last_locations[tx_idx].read;
        let ghost rv = self@.reads[tx_idx as int];
        assert(read_view(*reads) == rv);
        let mut i: usize = 0;
        while i < reads.len()
            invariant
                i <= reads@.len(),
                read_view(*reads) == rv,
                rv == self@.reads[tx_idx as int],
                forall|q: int| 0 <= q < i ==> origin_valid_spec(self@, tx_idx, #[trigger] rv[q].0, rv[q].1),
            decreases reads.len() - i,
        {
            if !self.origin_still_valid(tx_idx, reads[i].0, &reads[i].1) {
                assert(!origin_valid_spec(self@, tx_idx, rv[i as int].0, rv[i as int].1));
                return false;
            }
            i = i + 1;
        }
        true
    }

    /// Whether the recorded read of `location` by `tx_idx` (if any) still holds.
    pub fn validate_location(&self, tx_idx: TxIdx, location: MemoryLocationHash) -> (r: bool)
        requires
            self.wf(),
            tx_idx < self@.block_size(),
        ensures
            r == forall|i: int| 0 <= i < self@.reads[tx_idx as int].len() && #[trigger] self@.reads[tx_idx as int][i].0 == location
                ==> origin_valid_spec(self@, tx_idx, location, self@.reads[tx_idx as int][i].1),
    {
        proof {
            self.lemma_lens();
        }
        let reads = &self.last_locations[tx_idx].read;
        let ghost rv = self@.reads[tx_idx as int];
        assert(read_view(*reads) == rv);
        let mut i: usize = 0;
        while i < reads.len()
            invariant
                i <= reads@.len(),
                read_view(*reads) == rv,
                rv == self@.reads[tx_idx as int],
                distinct_keys(rv),
                forall|q: int| 0 <= q < i ==> rv[q].0 != location,
            decreases reads.len() - i,
        {
            if reads[i].0 == location {
                let ok = self.origin_still_valid(tx_idx, location, &reads[i].1);
                proof {
                    assert(rv[i as int].0 == location);
                    assert forall|q: int| 0 <= q < rv.len() && #[trigger] rv[q].0 == location implies q == i by {
                        if q < i {
                            assert(rv[q].0 != rv[i as int].0);
                        } else if q > i {
                            assert(rv[i as int].0 != rv[q].0);
                        }
                    }
                }
                return ok;
            }
            i = i + 1;
        }
        true
    }

    /// The locations of the last recorded read set of `tx_idx` whose origins
    /// no longer hold, in read-set order.
    pub fn collect_invalid_reads(&self, tx_idx: TxIdx) -> (r: Vec<MemoryLocationHash>)
        requires
            self.wf(),
            tx_idx < self@.block_size(),
        ensures
            r@ == invalid_locs(self@, tx_idx, self@.reads[tx_idx as int]),
    {
        proof {
            self.lemma_lens();
        }
        let reads = &self.last_locations[tx_idx].read;
        let ghost rv = self@.reads[tx_idx as int];
        assert(read_view(*reads) == rv);
        let mut invalid: Vec<MemoryLocationHash> = Vec::new();
        let mut i: usize = 0;
        while i < reads.len()
            invariant
                i <= reads@.len(),
                read_view(*reads) == rv,
                invalid@ == invalid_locs(self@, tx_idx, rv.take(i as int)),
            decreases reads.len() - i,
        {
            proof {
                assert(rv.take(i + 1).drop_last() =~= rv.take(i as int));
                assert(rv.take(i + 1).last() == rv[i as int]);
            }
            if !self.origin_still_valid(tx_idx, reads[i].0, &reads[i].1) {
                invalid.push(reads[i].0);
            }
            i = i + 1;
        }
        assert(rv.take(rv.len() as int) =~= rv);
        invalid
    }
}


/// The data after `tx`'s versions at `locs` (where the location is known)
/// become estimates, in order.
pub open spec fn estimates_at(d: Map<u64, Map<usize, MemoryEntry>>, tx: usize, locs: Seq<u64>) -> Map<u64, Map<usize, MemoryEntry>>
    decreases locs.len(),
{
    if locs.len() == 0 {
        d
    } else {
        let d1 = estimates_at(d, tx, locs.drop_last());
        let l = locs.last();
        if d1.dom().contains(l) {
            d1.insert(l, d1[l].insert(tx, MemoryEntry::Estimate))
        } else {
            d1
        }
    }
}

/// The pinned values of `loc` after pinning one more (at most 64 are kept).
pub open spec fn pin_spec(p: Map<u64, Seq<(usize, usize, MemoryValue)>>, loc: u64, e: (usize, usize, MemoryValue)) -> Map<u64, Seq<(usize, usize, MemoryValue)>> {
    let slot = if p.dom().contains(loc) { p[loc] } else { Seq::empty() };
    p.insert(loc, if slot.len() < 64 { slot.push(e) } else { slot })
}

/// Some transaction above `after` reads `loc`.
pub open spec fn has_higher_reader_spec(v: MvView, after: usize, loc: u64) -> bool {
    v.readers.dom().contains(loc) && exists|t: usize| #[trigger] v.readers[loc].contains(t) && t > after
}

/// The locations of `ws` that higher readers read, in order.
pub open spec fn read_above(v: MvView, after: usize, ws: Seq<u64>) -> Seq<u64>
    decreases ws.len(),
{
    if ws.len() == 0 {
        Seq::empty()
    } else {
        let s = read_above(v, after, ws.drop_last());
        if has_higher_reader_spec(v, after, ws.last()) {
            s.push(ws.last())
        } else {
            s
        }
    }
}

impl MvMemory {
    /// The locations the last recorded incarnation of `tx_idx` wrote.
    pub fn write_locations(&self, tx_idx: TxIdx) -> (r: Vec<MemoryLocationHash>)
        requires
            self.wf(),
            tx_idx < self@.block_size(),
        ensures
            r@ == self@.writes[tx_idx as int],
    {
        proof {
            self.lemma_lens();
        }
        self.last_locations[tx_idx].write.clone()
    }

    /// The locations the last recorded incarnation of `tx_idx` read.
    pub fn read_locations(&self, tx_idx: TxIdx) -> (r: Vec<MemoryLocationHash>)
        requires
            self.wf(),
            tx_idx < self@.block_size(),
        ensures
            r@ == read_keys(self@.reads[tx_idx as int]),
    {
        proof {
            self.lemma_lens();
        }
        let reads = &self.last_locations[tx_idx].read;
        let ghost rv = self@.reads[tx_idx as int];
        let mut out: Vec<MemoryLocationHash> = Vec::new();
        let mut i: usize = 0;
        while i < reads.len()
            invariant
                i <= reads@.len(),
                read_view(*reads) == rv,
                out@ == read_keys(rv).take(i as int),
            decreases reads.len() - i,
        {
            out.push(reads[i].0);
            proof {
                assert(read_keys(rv).take(i + 1) =~= read_keys(rv).take(i as int).push(reads@[i as int].0));
            }
            i = i + 1;
        }
        assert(read_keys(rv).take(rv.len() as int) =~= read_keys(rv));
        out
    }

    /// The residual write set kept for `tx_idx` (empty when none).
    pub fn residual_writes(&self, tx_idx: TxIdx) -> (r: Vec<MemoryLocationHash>)
        ensures
            r@ == (if self@.residual.dom().contains(tx_idx) {
                self@.residual[tx_idx]
            } else {
                Seq::empty()
            }),
    {
        match rs_get(&self.residual_write_sets, tx_idx) {
            Some(v) => v,
            None => Vec::new(),
        }
    }

    /// Keep the current write set of `tx_idx` as its residual write set.
    pub fn publish_ws_prior(&mut self, tx_idx: TxIdx)
        requires
            old(self).wf(),
            tx_idx < old(self)@.block_size(),
        ensures
            final(self).wf(),
            final(self)@ == (MvView {
                residual: old(self)@.residual.insert(tx_idx, old(self)@.writes[tx_idx as int]),
                ..old(self)@
            }),
    {
        let writes = self.write_locations(tx_idx);
        rs_insert(&mut self.residual_write_sets, tx_idx, writes);
    }

    /// The highest transaction below `me` whose residual write set holds
    /// `location`.
    pub fn residual_writer_before(&self, location: MemoryLocationHash, me: TxIdx) -> (r: Option<TxIdx>)
        ensures
            match r {
                Some(tw) => {
                    &&& tw < me
                    &&& self@.residual.dom().contains(tw)
                    &&& self@.residual[tw].contains(location)
                    &&& forall|t: usize| #[trigger] self@.residual.dom().contains(t) && t < me && self@.residual[t].contains(location) ==> t <= tw
                },
                None => forall|t: usize| #[trigger] self@.residual.dom().contains(t) && t < me ==> !self@.residual[t].contains(location),
            },
    {
        let entries = rs_entries(&self.residual_write_sets);
        let mut best: Option<TxIdx> = None;
        let mut i: usize = 0;
        while i < entries.len()
            invariant
                i <= entries@.len(),
                forall|q: int| 0 <= q < entries@.len() ==> self@.residual.dom().contains(#[trigger] entries@[q].0) && entries@[q].1@ == self@.residual[entries@[q].0],
                forall|t: usize| self@.residual.dom().contains(t) ==> exists|q: int| 0 <= q < entries@.len() && #[trigger] entries@[q].0 == t,
                match best {
                    Some(tw) => tw < me && self@.residual.dom().contains(tw) && self@.residual[tw].contains(location)
                        && forall|q: int| 0 <= q < i && (#[trigger] entries@[q]).0 < me && self@.residual[entries@[q].0].contains(location) ==> entries@[q].0 <= tw,
                    None => forall|q: int| 0 <= q < i && (#[trigger] entries@[q]).0 < me ==> !self@.residual[entries@[q].0].contains(location),
                },
            decreases entries.len() - i,
        {
            let tw = entries[i].0;
            if tw < me && contains_u64(&entries[i].1, location) {
                best = Some(match best {
                    Some(prev) => if prev > tw { prev } else { tw },
                    None => tw,
                });
            }
            i = i + 1;
        }
        proof {
            match best {
                Some(tw) => {
                    assert forall|t: usize| #[trigger] self@.residual.dom().contains(t) && t < me && self@.residual[t].contains(location) implies t <= tw by {
                        let q = choose|q: int| 0 <= q < entries@.len() && #[trigger] entries@[q].0 == t;
                    }
                },
                None => {
                    assert forall|t: usize| #[trigger] self@.residual.dom().contains(t) && t < me implies !self@.residual[t].contains(location) by {
                        let q = choose|q: int| 0 <= q < entries@.len() && #[trigger] entries@[q].0 == t;
                    }
                },
            }
        }
        best
    }

    /// Pin one aborted data value of a location, so that a reader that
    /// bound it can still re-read it (at most 64 per location).
    pub fn pin_aborted_value(&mut self, location: MemoryLocationHash, tx_idx: TxIdx, inc: TxIncarnation, value: MemoryValue)
        requires
            old(self).wf(),
        ensures
            final(self).wf(),
            final(self)@ == (MvView { pinned: pin_spec(old(self)@.pinned, location, (tx_idx, inc, value)), ..old(self)@ }),
    {
        let mut slot = match hs_get(&self.retained_history, location) {
            Some(v) => v,
            None => Vec::new(),
        };
        if slot.len() < 64 {
            slot.push((tx_idx, inc, value));
        }
        hs_put(&mut self.retained_history, location, slot);
    }

    /// The most recently pinned value of `tx_idx` at `location`, as data.
    pub fn pinned_entry(&self, location: MemoryLocationHash, tx_idx: TxIdx) -> (r: Option<MemoryEntry>)
        ensures
            match r {
                Some(e) => self@.pinned.dom().contains(location) && exists|i: int|
                    0 <= i < self@.pinned[location].len() && #[trigger] self@.pinned[location][i].0 == tx_idx
                    && e == MemoryEntry::Data(self@.pinned[location][i].1, self@.pinned[location][i].2)
                    && forall|j: int| i < j < self@.pinned[location].len() ==> self@.pinned[location][j].0 != tx_idx,
                None => !self@.pinned.dom().contains(location) || forall|i: int| 0 <= i < self@.pinned[location].len() ==> #[trigger] self@.pinned[location][i].0 != tx_idx,
            },
    {
        let slot = match hs_get(&self.retained_history, location) {
            Some(v) => v,
            None => {
                return None;
            },
        };
        let mut i: usize = slot.len();
        while i > 0
            invariant
                i <= slot@.len(),
                self@.pinned.dom().contains(location),
                slot@ == self@.pinned[location],
                forall|j: int| i <= j < slot@.len() ==> slot@[j].0 != tx_idx,
            decreases i,
        {
            let (t, inc, value) = slot[i - 1];
            if t == tx_idx {
                proof {
                    assert(self@.pinned[location][i - 1].0 == tx_idx);
                }
                return Some(MemoryEntry::Data(inc, value));
            }
            i = i - 1;
        }
        None
    }

    fn estimate_locations(&mut self, tx_idx: TxIdx, locs: &Vec<MemoryLocationHash>)
        requires
            old(self).wf(),
        ensures
            final(self).wf(),
            final(self)@ == (MvView { data: estimates_at(old(self)@.data, tx_idx, locs@), ..old(self)@ }),
    {
        let mut i: usize = 0;
        while i < locs.len()
            invariant
                i <= locs@.len(),
                mv_wf(self@),
                self@ == (MvView { data: estimates_at(old(self)@.data, tx_idx, locs@.take(i as int)), ..old(self)@ }),
            decreases locs.len() - i,
        {
            proof {
                assert(locs@.take(i + 1).drop_last() =~= locs@.take(i as int));
                assert(locs@.take(i + 1).last() == locs@[i as int]);
            }
            mv_overwrite(&mut self.data, locs[i], tx_idx, MemoryEntry::Estimate);
            i = i + 1;
        }
        assert(locs@.take(locs@.len() as int) =~= locs@);
    }

    /// Replace the write set of an aborted incarnation with estimates, so
    /// that higher readers of it fail validation at once; the write set is
    /// kept as the transaction's residual write set.
    pub fn convert_writes_to_estimates(&mut self, tx_idx: TxIdx)
        requires
            old(self).wf(),
            tx_idx < old(self)@.block_size(),
        ensures
            final(self).wf(),
            final(self)@ == (MvView {
                data: estimates_at(old(self)@.data, tx_idx, old(self)@.writes[tx_idx as int]),
                residual: old(self)@.residual.insert(tx_idx, old(self)@.writes[tx_idx as int]),
                write_epoch: wrap_u64(wrap_u64(old(self)@.write_epoch)),
                ..old(self)@
            }),
    {
        let writes = self.write_locations(tx_idx);
        rs_insert(&mut self.residual_write_sets, tx_idx, writes.clone());
        self.bump_epoch();
        self.estimate_locations(tx_idx, &writes);
        self.bump_epoch();
    }

    /// Some transaction above `aborted_idx` reads `location`.
    pub fn has_higher_reader(&self, aborted_idx: TxIdx, location: MemoryLocationHash) -> (r: bool)
        ensures
            r == has_higher_reader_spec(self@, aborted_idx, location),
    {
        let rd = rd_members(&self.readers, location);
        let mut i: usize = 0;
        while i < rd.len()
            invariant
                i <= rd@.len(),
                rd@.to_set() == (if reader_sets(self.readers).dom().contains(location) {
                    reader_sets(self.readers)[location]
                } else {
                    Set::empty()
                }),
                forall|q: int| 0 <= q < i ==> rd@[q] <= aborted_idx,
            decreases rd.len() - i,
        {
            if rd[i] > aborted_idx {
                proof {
                    assert(rd@.to_set().contains(rd@[i as int]));
                }
                return true;
            }
            i = i + 1;
        }
        proof {
            if has_higher_reader_spec(self@, aborted_idx, location) {
                let t = choose|t: usize| #[trigger] self@.readers[location].contains(t) && t > aborted_idx;
                assert(rd@.to_set().contains(t));
            }
        }
        false
    }

    /// The readers of `location` above `after`, in increasing order.
    pub fn higher_readers_of(&self, location: MemoryLocationHash, after: TxIdx) -> (r: Vec<TxIdx>)
        ensures
            forall|i: int, j: int| 0 <= i < j < r@.len() ==> r@[i] < r@[j],
            r@.to_set() == (if self@.readers.dom().contains(location) {
                self@.readers[location].filter(|t: usize| t > after)
            } else {
                Set::empty()
            }),
    {
        let rd = rd_members(&self.readers, location);
        let ghost want = if self@.readers.dom().contains(location) {
            self@.readers[location]
        } else {
            Set::<usize>::empty()
        };
        let mut out: Vec<TxIdx> = Vec::new();
        let mut i: usize = 0;
        while i < rd.len()
            invariant
                i <= rd@.len(),
                forall|a: int, b: int| 0 <= a < b < rd@.len() ==> rd@[a] < rd@[b],
                forall|a: int, b: int| 0 <= a < b < out@.len() ==> out@[a] < out@[b],
                forall|a: int| 0 <= a < out@.len() ==> out@[a] > after && rd@.take(i as int).contains(#[trigger] out@[a]),
                forall|a: int| 0 <= a < i && #[trigger] rd@[a] > after ==> out@.contains(rd@[a]),
                out@.len() > 0 ==> exists|a: int| 0 <= a < i && rd@[a] == out@.last(),
            decreases rd.len() - i,
        {
            let t = rd[i];
            if t > after {
                let ghost before = out@;
                out.push(t);
                proof {
                    assert forall|a: int, b: int| 0 <= a < b < out@.len() implies out@[a] < out@[b] by {
                        if b == out@.len() - 1 && a < before.len() {
                            let ia = choose|ia: int| 0 <= ia < i && #[trigger] rd@.take(i as int)[ia] == before[a];
                            assert(rd@[ia] == before[a]);
                        }
                    }
                    assert(out@[out@.len() - 1] == t);
                    assert(rd@.take(i + 1)[i as int] == t);
                    assert forall|a: int| 0 <= a < out@.len() implies out@[a] > after && rd@.take(i + 1).contains(#[trigger] out@[a]) by {
                        if a < before.len() {
                            let ia = choose|ia: int| 0 <= ia < i && #[trigger] rd@.take(i as int)[ia] == before[a];
                            assert(rd@.take(i + 1)[ia] == before[a]);
                        }
                    }
                    assert forall|a: int| 0 <= a < i + 1 && #[trigger] rd@[a] > after implies out@.contains(rd@[a]) by {
                        if a < i {
                            let k = choose|k: int| 0 <= k < before.len() && before[k] == rd@[a];
                            assert(out@[k] == rd@[a]);
                        } else {
                            assert(out@[out@.len() - 1] == rd@[a]);
                        }
                    }
                }
            } else {
                proof {
                    assert forall|a: int| 0 <= a < out@.len() implies out@[a] > after && rd@.take(i + 1).contains(#[trigger] out@[a]) by {
                        let ia = choose|ia: int| 0 <= ia < i && #[trigger] rd@.take(i as int)[ia] == out@[a];
                        assert(rd@.take(i + 1)[ia] == out@[a]);
                    }
                }
            }
            i = i + 1;
        }
        proof {
            assert(rd@.take(rd@.len() as int) =~= rd@);
            assert forall|t: usize| out@.to_set().contains(t) <==> want.filter(|t: usize| t > after).contains(t) by {
                if out@.to_set().contains(t) {
                    let a = choose|a: int| 0 <= a < out@.len() && out@[a] == t;
                    assert(rd@.contains(out@[a]));
                    assert(rd@.to_set().contains(t));
                }
                if want.filter(|t: usize| t > after).contains(t) {
                    assert(rd@.to_set().contains(t));
                    let a = choose|a: int| 0 <= a < rd@.len() && rd@[a] == t;
                    assert(out@.contains(rd@[a]));
                }
            }
            assert(out@.to_set() =~= want.filter(|t: usize| t > after));
        }
        out
    }
}


/// The origins a read set holds for `l`, if it read `l`.
pub open spec fn read_lookup(rs: Seq<(u64, Seq<ReadOrigin>)>, l: u64) -> Option<Seq<ReadOrigin>> {
    if exists|i: int| 0 <= i < rs.len() && #[trigger] rs[i].0 == l {
        let i = choose|i: int| 0 <= i < rs.len() && #[trigger] rs[i].0 == l;
        Some(rs[i].1)
    } else {
        None
    }
}

/// The read set with the origins of `l` replaced (or added at the end).
pub open spec fn read_insert(rs: Seq<(u64, Seq<ReadOrigin>)>, l: u64, o: Seq<ReadOrigin>) -> Seq<(u64, Seq<ReadOrigin>)> {
    if exists|i: int| 0 <= i < rs.len() && #[trigger] rs[i].0 == l {
        let i = choose|i: int| 0 <= i < rs.len() && #[trigger] rs[i].0 == l;
        rs.update(i, (l, o))
    } else {
        rs.push((l, o))
    }
}

/// Re-binding the invalid location `l` is allowed: a multi-origin (lazy)
/// read only when `allow_multi`, and the fresh origins must exist and hold.
pub open spec fn rebind_allowed(v: MvView, tx: usize, l: u64, allow_multi: bool) -> bool {
    &&& allow_multi || !(read_lookup(v.reads[tx as int], l) matches Some(o) && o.len() > 1)
    &&& current_origins_spec(v, tx, l) is Some
    &&& origin_valid_spec(v, tx, l, current_origins_spec(v, tx, l)->0)
}

/// The read set after re-binding each location of `ls` to its fresh origins.
pub open spec fn rebind_fold(v: MvView, tx: usize, rs: Seq<(u64, Seq<ReadOrigin>)>, ls: Seq<u64>) -> Seq<(u64, Seq<ReadOrigin>)>
    decreases ls.len(),
{
    if ls.len() == 0 {
        rs
    } else {
        let l = ls.last();
        read_insert(rebind_fold(v, tx, rs, ls.drop_last()), l, current_origins_spec(v, tx, l)->0)
    }
}

/// Value-stable: both values are storage words and equal, or both are
/// account data with the same balance and nonce.
pub open spec fn value_stable(a: MemoryValue, b: MemoryValue) -> bool {
    match (a, b) {
        (MemoryValue::Storage(x), MemoryValue::Storage(y)) => x == y,
        (MemoryValue::Basic(x), MemoryValue::Basic(y)) => x.balance == y.balance && x.nonce == y.nonce,
        _ => false,
    }
}

/// The value of the last memory origin of `o`, if any.
pub open spec fn last_mv_value(o: Seq<ReadOrigin>) -> Option<MemoryValue>
    decreases o.len(),
{
    if o.len() == 0 {
        None
    } else {
        match o.last() {
            ReadOrigin::MvMemory(_, val) => Some(val),
            ReadOrigin::Storage => last_mv_value(o.drop_last()),
        }
    }
}

/// The read set of `idx` touches a location of `ws`.
pub open spec fn reads_touch(v: MvView, idx: int, ws: Seq<u64>) -> bool {
    exists|i: int| 0 <= i < v.reads[idx].len() && #[trigger] ws.contains(v.reads[idx][i].0)
}

/// `t` reads one of the first `i` locations of `ws`, above `after`.
pub open spec fn reader_among(v: MvView, after: usize, ws: Seq<u64>, i: int, t: usize) -> bool {
    t > after && exists|a: int| 0 <= a < i && v.readers.dom().contains(ws[a]) && #[trigger] v.readers[ws[a]].contains(t)
}

/// `t` reads a location of `ws`, above `after`.
pub open spec fn higher_reader_of_any(v: MvView, after: usize, ws: Seq<u64>, t: usize) -> bool {
    t > after && exists|i: int| 0 <= i < ws.len() && v.readers.dom().contains(ws[i]) && #[trigger] v.readers[ws[i]].contains(t)
}

fn find_read(reads: &ReadSet, l: u64) -> (r: Option<usize>)
    ensures
        match r {
            Some(i) => i < reads@.len() && reads@[i as int].0 == l && forall|j: int| 0 <= j < i ==> reads@[j].0 != l,
            None => forall|j: int| 0 <= j < reads@.len() ==> reads@[j].0 != l,
        },
{
    let mut i: usize = 0;
    while i < reads.len()
        invariant
            i <= reads@.len(),
            forall|j: int| 0 <= j < i ==> reads@[j].0 != l,
        decreases reads.len() - i,
    {
        if reads[i].0 == l {
            return Some(i);
        }
        i = i + 1;
    }
    None
}

proof fn lemma_lookup_at(rs: Seq<(u64, Seq<ReadOrigin>)>, l: u64, i: int)
    requires
        distinct_keys(rs),
        0 <= i < rs.len(),
        rs[i].0 == l,
    ensures
        read_lookup(rs, l) == Some(rs[i].1),
        read_insert(rs, l, rs[i].1) == rs || true,
        forall|o: Seq<ReadOrigin>| read_insert(rs, l, o) == rs.update(i, (l, o)),
{
    let j = choose|j: int| 0 <= j < rs.len() && #[trigger] rs[j].0 == l;
    if j != i {
        if j < i {
            assert(rs[j].0 != rs[i].0);
        } else {
            assert(rs[i].0 != rs[j].0);
        }
    }
}

impl MvMemory {
    /// Selective invalidation of an aborted incarnation. Without its
    /// incarnation number every write becomes an estimate. With it, the
    /// incarnation is stamped aborted and only the writes that a higher
    /// transaction reads become estimates; the rest keep their data and the
    /// stamp catches late readers. Returns the locations turned into
    /// estimates and whether the full fallback ran; the write set is kept as
    /// the residual write set either way.
    pub fn invalidate_selective(&mut self, tx_idx: TxIdx, incarnation: Option<TxIncarnation>) -> (r: (Vec<MemoryLocationHash>, bool))
        requires
            old(self).wf(),
            tx_idx < old(self)@.block_size(),
        ensures
            final(self).wf(),
            ({
                let o = old(self)@;
                let w = o.writes[tx_idx as int];
                match incarnation {
                    None => {
                        &&& r.0@ == w
                        &&& r.1
                        &&& final(self)@ == (MvView {
                            data: estimates_at(o.data, tx_idx, w),
                            residual: o.residual.insert(tx_idx, w),
                            write_epoch: wrap_u64(wrap_u64(o.write_epoch)),
                            ..o
                        })
                    },
                    Some(inc) => {
                        &&& r.0@ == read_above(o, tx_idx, w)
                        &&& !r.1
                        &&& final(self)@ == (MvView {
                            data: estimates_at(o.data, tx_idx, read_above(o, tx_idx, w)),
                            residual: o.residual.insert(tx_idx, w),
                            aborted: o.aborted.insert(tx_idx, inc),
                            write_epoch: wrap_u64(wrap_u64(o.write_epoch)),
                            ..o
                        })
                    },
                }
            }),
    {
        let writes = self.write_locations(tx_idx);
        rs_insert(&mut self.residual_write_sets, tx_idx, writes.clone());
        let inc = match incarnation {
            None => {
                self.bump_epoch();
                self.estimate_locations(tx_idx, &writes);
                self.bump_epoch();
                return (writes, true);
            },
            Some(inc) => inc,
        };
        self.mark_incarnation_aborted(tx_idx, inc);
        let ghost mid = self@;
        let mut estimated: Vec<MemoryLocationHash> = Vec::new();
        self.bump_epoch();
        let mut i: usize = 0;
        while i < writes.len()
            invariant
                i <= writes@.len(),
                mv_wf(self@),
                mv_wf(mid),
                estimated@ == read_above(mid, tx_idx, writes@.take(i as int)),
                self@ == (MvView { data: estimates_at(mid.data, tx_idx, estimated@), write_epoch: wrap_u64(mid.write_epoch), ..mid }),
            decreases writes.len() - i,
        {
            let location = writes[i];
            proof {
                assert(writes@.take(i + 1).drop_last() =~= writes@.take(i as int));
                assert(writes@.take(i + 1).last() == location);
                assert(has_higher_reader_spec(self@, tx_idx, location) == has_higher_reader_spec(mid, tx_idx, location));
            }
            if self.has_higher_reader(tx_idx, location) {
                mv_overwrite(&mut self.data, location, tx_idx, MemoryEntry::Estimate);
                let ghost before = estimated@;
                estimated.push(location);
                proof {
                    assert(estimated@.drop_last() =~= before);
                }
            }
            i = i + 1;
        }
        self.bump_epoch();
        proof {
            assert(writes@.take(writes@.len() as int) =~= writes@);
            let o = old(self)@;
            assert(read_above(mid, tx_idx, writes@) == read_above(o, tx_idx, writes@)) by {
                assert(mid.readers == o.readers);
                lemma_read_above_readers(mid, o, tx_idx, writes@);
            }
        }
        (estimated, false)
    }

    /// Partial retry: only the `suffix` writes become estimates; the
    /// certified prefix keeps its data and no aborted stamp is set. Returns
    /// the locations turned into estimates (the whole suffix).
    pub fn invalidate_partial_suffix(&mut self, tx_idx: TxIdx, suffix: &[MemoryLocationHash]) -> (r: Vec<MemoryLocationHash>)
        requires
            old(self).wf(),
            tx_idx < old(self)@.block_size(),
        ensures
            final(self).wf(),
            r@ == suffix@,
            final(self)@ == (MvView {
                data: estimates_at(old(self)@.data, tx_idx, suffix@),
                residual: old(self)@.residual.insert(tx_idx, old(self)@.writes[tx_idx as int]),
                write_epoch: wrap_u64(wrap_u64(old(self)@.write_epoch)),
                ..old(self)@
            }),
    {
        let writes = self.write_locations(tx_idx);
        rs_insert(&mut self.residual_write_sets, tx_idx, writes);
        let mut estimated: Vec<MemoryLocationHash> = Vec::new();
        let mut i: usize = 0;
        while i < suffix.len()
            invariant
                i <= suffix@.len(),
                estimated@ == suffix@.take(i as int),
            decreases suffix.len() - i,
        {
            estimated.push(suffix[i]);
            proof {
                assert(suffix@.take(i + 1) =~= suffix@.take(i as int).push(suffix@[i as int]));
            }
            i = i + 1;
        }
        assert(suffix@.take(suffix@.len() as int) =~= suffix@);
        self.bump_epoch();
        self.estimate_locations(tx_idx, &estimated);
        self.bump_epoch();
        estimated
    }

    /// The lowest transaction above `aborted_idx` that reads a location of
    /// `write_locations`: from the reader index, or else from the recorded
    /// read sets (the index may lag readers that have not recorded yet).
    pub fn min_higher_reader_of(&self, aborted_idx: TxIdx, write_locations: &[MemoryLocationHash]) -> (r: Option<TxIdx>)
        requires
            self.wf(),
            aborted_idx < usize::MAX || write_locations@.len() == 0,
        ensures
            ({
                let v = self@;
                let ws = write_locations@;
                if ws.len() == 0 {
                    r is None
                } else if exists|t: usize| higher_reader_of_any(v, aborted_idx, ws, t) {
                    r matches Some(m) && higher_reader_of_any(v, aborted_idx, ws, m) && forall|t: usize| #[trigger] higher_reader_of_any(v, aborted_idx, ws, t) ==> m <= t
                } else {
                    match r {
                        Some(m) => aborted_idx < m < v.block_size() && reads_touch(v, m as int, ws) && forall|q: int| aborted_idx < q < m ==> !#[trigger] reads_touch(v, q, ws),
                        None => forall|q: int| aborted_idx < q < v.block_size() ==> !#[trigger] reads_touch(v, q, ws),
                    }
                }
            }),
    {
        if write_locations.len() == 0 {
            return None;
        }
        let ghost v = self@;
        let ghost ws = write_locations@;
        let mut min_reader: Option<TxIdx> = None;
        let mut i: usize = 0;
        while i < write_locations.len()
            invariant
                i <= ws.len(),
                ws == write_locations@,
                v == self@,
                match min_reader {
                    Some(m) => higher_reader_of_any(v, aborted_idx, ws, m) && forall|t: usize| #[trigger] reader_among(v, aborted_idx, ws, i as int, t) ==> m <= t,
                    None => forall|t: usize| !#[trigger] reader_among(v, aborted_idx, ws, i as int, t),
                },
            decreases write_locations.len() - i,
        {
            let loc = write_locations[i];
            let rs = self.higher_readers_of(loc, aborted_idx);
            let ghost prev = min_reader;
            let mut j: usize = 0;
            while j < rs.len()
                invariant
                    j <= rs@.len(),
                    i < ws.len(),
                    loc == ws[i as int],
                    ws == write_locations@,
                    v == self@,
                    rs@.to_set() == (if v.readers.dom().contains(loc) { v.readers[loc].filter(|t: usize| t > aborted_idx) } else { Set::empty() }),
                    match min_reader {
                        Some(m) => higher_reader_of_any(v, aborted_idx, ws, m)
                            && (forall|t: usize| #[trigger] reader_among(v, aborted_idx, ws, i as int, t) ==> m <= t)
                            && (forall|q: int| 0 <= q < j ==> m <= #[trigger] rs@[q]),
                        None => (forall|t: usize| !#[trigger] reader_among(v, aborted_idx, ws, i as int, t)) && j == 0,
                    },
                decreases rs.len() - j,
            {
                let r = rs[j];
                proof {
                    assert(rs@.to_set().contains(r));
                    assert(higher_reader_of_any(v, aborted_idx, ws, r));
                }
                min_reader = Some(match min_reader {
                    Some(m) => if m < r { m } else { r },
                    None => r,
                });
                j = j + 1;
            }
            proof {
                assert forall|t: usize| #[trigger] reader_among(v, aborted_idx, ws, i + 1, t) implies (match min_reader { Some(m) => m <= t, None => false }) by {
                    let a = choose|a: int| 0 <= a < i + 1 && v.readers.dom().contains(ws[a]) && #[trigger] v.readers[ws[a]].contains(t);
                    if a == i {
                        assert(rs@.to_set().contains(t));
                        let q = choose|q: int| 0 <= q < rs@.len() && rs@[q] == t;
                    } else {
                        assert(reader_among(v, aborted_idx, ws, i as int, t));
                    }
                }
                if min_reader is None {
                    assert forall|t: usize| !#[trigger] reader_among(v, aborted_idx, ws, i + 1, t) by {}
                }
            }
            i = i + 1;
        }
        if min_reader.is_some() {
            proof {
                let m = min_reader->0;
                assert forall|t: usize| #[trigger] higher_reader_of_any(v, aborted_idx, ws, t) implies m <= t by {
                    assert(reader_among(v, aborted_idx, ws, ws.len() as int, t));
                }
            }
            return min_reader;
        }
        proof {
            assert forall|t: usize| !#[trigger] higher_reader_of_any(v, aborted_idx, ws, t) by {
                if higher_reader_of_any(v, aborted_idx, ws, t) {
                    assert(reader_among(v, aborted_idx, ws, ws.len() as int, t));
                }
            }
            self.lemma_lens();
        }
        let mut idx: usize = aborted_idx + 1;
        while idx < self.last_locations.len()
            invariant
                aborted_idx < idx,
                v == self@,
                ws.len() > 0,
                forall|t: usize| !#[trigger] higher_reader_of_any(v, aborted_idx, ws, t),
                ws == write_locations@,
                self.last_locations@.len() == v.block_size(),
                v.reads.len() == v.block_size(),
                forall|q: int| aborted_idx < q < idx ==> !#[trigger] reads_touch(v, q, ws),
            decreases self.last_locations.len() - idx,
        {
            let reads = &self.last_locations[idx].read;
            let ghost rv = v.reads[idx as int];
            assert(read_view(*reads) == rv);
            let mut k: usize = 0;
            while k < reads.len()
                invariant
                    k <= reads@.len(),
                    read_view(*reads) == rv,
                    ws == write_locations@,
                    ws.len() > 0,
                    v == self@,
                    aborted_idx < idx < v.block_size(),
                    rv == v.reads[idx as int],
                    forall|t: usize| !#[trigger] higher_reader_of_any(v, aborted_idx, ws, t),
                    forall|q: int| aborted_idx < q < idx ==> !#[trigger] reads_touch(v, q, ws),
                    forall|a: int| 0 <= a < k ==> !ws.contains(#[trigger] rv[a].0),
                decreases reads.len() - k,
            {
                let loc = reads[k].0;
                assert(rv[k as int].0 == loc);
                let mut q: usize = 0;
                while q < write_locations.len()
                    invariant
                        q <= ws.len(),
                        ws == write_locations@,
                        ws.len() > 0,
                        v == self@,
                        aborted_idx < idx < v.block_size(),
                        k < rv.len(),
                        rv == v.reads[idx as int],
                        rv[k as int].0 == loc,
                        forall|t: usize| !#[trigger] higher_reader_of_any(v, aborted_idx, ws, t),
                        forall|q2: int| aborted_idx < q2 < idx ==> !#[trigger] reads_touch(v, q2, ws),
                        forall|b: int| 0 <= b < q ==> ws[b] != loc,
                    decreases write_locations.len() - q,
                {
                    if write_locations[q] == loc {
                        proof {
                            assert(ws.contains(rv[k as int].0)) by {
                                assert(ws[q as int] == loc);
                            }
                        }
                        return Some(idx);
                    }
                    q = q + 1;
                }
                proof {
                    assert(!ws.contains(rv[k as int].0)) by {
                        if ws.contains(loc) {
                            let b = choose|b: int| 0 <= b < ws.len() && ws[b] == loc;
                        }
                    }
                }
                k = k + 1;
            }
            proof {
                assert(!reads_touch(v, idx as int, ws)) by {
                    if reads_touch(v, idx as int, ws) {
                        let a = choose|a: int| 0 <= a < v.reads[idx as int].len() && #[trigger] ws.contains(v.reads[idx as int][a].0);
                    }
                }
            }
            idx = idx + 1;
        }
        None
    }

    /// Re-bind the invalid reads of `tx_idx` to the versions they would read
    /// now, without aborting; multi-origin (lazy) reads only when
    /// `allow_multi_origin`. All or nothing: `true` exactly when every
    /// location may be re-bound, and then each is.
    fn try_rebind_invalid_reads_inner(&mut self, tx_idx: TxIdx, invalid: &[MemoryLocationHash], allow_multi_origin: bool) -> (r: bool)
        requires
            old(self).wf(),
            tx_idx < old(self)@.block_size(),
        ensures
            final(self).wf(),
            r == forall|i: int| 0 <= i < invalid@.len() ==> rebind_allowed(old(self)@, tx_idx, #[trigger] invalid@[i], allow_multi_origin),
            final(self)@ == (if r {
                MvView {
                    reads: old(self)@.reads.update(tx_idx as int, rebind_fold(old(self)@, tx_idx, old(self)@.reads[tx_idx as int], invalid@)),
                    ..old(self)@
                }
            } else {
                old(self)@
            }),
    {
        proof {
            self.lemma_lens();
        }
        if invalid.len() == 0 {
            proof {
                assert(self@.reads.update(tx_idx as int, self@.reads[tx_idx as int]) =~= self@.reads);
            }
            return true;
        }
        let ghost o = self@;
        let mut planned: Vec<Vec<ReadOrigin>> = Vec::new();
        let mut i: usize = 0;
        while i < invalid.len()
            invariant
                i <= invalid@.len(),
                o == self@,
                mv_wf(o),
                tx_idx < o.block_size(),
                self.last_locations@.len() == o.block_size(),
                planned@.len() == i,
                forall|q: int| 0 <= q < i ==> rebind_allowed(o, tx_idx, #[trigger] invalid@[q], allow_multi_origin),
                forall|q: int| 0 <= q < i ==> current_origins_spec(o, tx_idx, invalid@[q]) == Some((#[trigger] planned@[q])@),
            decreases invalid.len() - i,
        {
            let location = invalid[i];
            let reads = &self.last_locations[tx_idx].read;
            assert(read_view(*reads) == o.reads[tx_idx as int]);
            match find_read(reads, location) {
                Some(k) => {
                    proof {
                        lemma_lookup_at(o.reads[tx_idx as int], location, k as int);
                    }
                    if !allow_multi_origin && reads[k].1.len() > 1 {
                        return false;
                    }
                },
                None => {},
            }
            let new_origins = match self.current_read_origins(tx_idx, location) {
                None => {
                    return false;
                },
                Some(n) => n,
            };
            if !self.origin_still_valid(tx_idx, location, &new_origins) {
                return false;
            }
            planned.push(new_origins);
            i = i + 1;
        }
        let mut last = LastLocations { read: Vec::new(), write: Vec::new() };
        std::mem::swap(&mut last, &mut self.last_locations[tx_idx]);
        let ghost ll0 = self.last_locations@;
        assert(forall|q: int| 0 <= q < ll0.len() && q != tx_idx ==> ll0[q] == old(self).last_locations@[q]);
        assert(read_view(last.read) == o.reads[tx_idx as int]);
        assert(invalid@.take(0) =~= Seq::<u64>::empty());
        let mut j: usize = 0;
        while j < planned.len()
            invariant
                j <= planned@.len(),
                planned@.len() == invalid@.len(),
                forall|q: int| 0 <= q < planned@.len() ==> current_origins_spec(o, tx_idx, invalid@[q]) == Some((#[trigger] planned@[q])@),
                read_view(last.read) == rebind_fold(o, tx_idx, o.reads[tx_idx as int], invalid@.take(j as int)),
                distinct_keys(read_view(last.read)),
                last.write@ == o.writes[tx_idx as int],
                self.last_locations@ == ll0,
            decreases planned.len() - j,
        {
            let location = invalid[j];
            let origins = planned[j].clone();
            assert(origins@ == planned@[j as int]@);
            let ghost before = read_view(last.read);
            proof {
                assert(invalid@.take(j + 1).drop_last() =~= invalid@.take(j as int));
                assert(invalid@.take(j + 1).last() == location);
                assert(current_origins_spec(o, tx_idx, location) == Some(origins@));
            }
            match find_read(&last.read, location) {
                Some(k) => {
                    proof {
                        lemma_lookup_at(before, location, k as int);
                    }
                    last.read.set(k, (location, origins));
                    proof {
                        assert(read_view(last.read) =~= before.update(k as int, (location, origins@)));
                        assert forall|a: int, b: int| 0 <= a < b < read_view(last.read).len() implies read_view(last.read)[a].0 != read_view(last.read)[b].0 by {
                            assert(read_view(last.read)[a].0 == before[a].0);
                            assert(read_view(last.read)[b].0 == before[b].0);
                        }
                    }
                },
                None => {
                    last.read.push((location, origins));
                    proof {
                        assert(forall|a: int| 0 <= a < before.len() ==> before[a].0 != location);
                        assert(!(exists|a: int| 0 <= a < before.len() && #[trigger] before[a].0 == location));
                        assert(read_view(last.read) =~= before.push((location, origins@)));
                        assert forall|a: int, b: int| 0 <= a < b < read_view(last.read).len() implies read_view(last.read)[a].0 != read_view(last.read)[b].0 by {
                            if b == before.len() {
                                assert(before[a].0 != location);
                            }
                        }
                    }
                },
            }
            j = j + 1;
        }
        self.last_locations.set(tx_idx, last);
        assert(invalid@.take(invalid@.len() as int) =~= invalid@);
        proof {
            assert(self.last_locations@ == ll0.update(tx_idx as int, last));
            assert(self@.reads =~= o.reads.update(tx_idx as int, rebind_fold(o, tx_idx, o.reads[tx_idx as int], invalid@)));
            assert(self@.writes =~= o.writes);
        }
        true
    }

    /// Re-bind single-origin invalid reads (see `try_rebind_invalid_reads_inner`).
    pub fn try_rebind_invalid_reads(&mut self, tx_idx: TxIdx, invalid: &[MemoryLocationHash]) -> (r: bool)
        requires
            old(self).wf(),
            tx_idx < old(self)@.block_size(),
        ensures
            final(self).wf(),
            r == forall|i: int| 0 <= i < invalid@.len() ==> rebind_allowed(old(self)@, tx_idx, #[trigger] invalid@[i], false),
            final(self)@ == (if r {
                MvView {
                    reads: old(self)@.reads.update(tx_idx as int, rebind_fold(old(self)@, tx_idx, old(self)@.reads[tx_idx as int], invalid@)),
                    ..old(self)@
                }
            } else {
                old(self)@
            }),
    {
        self.try_rebind_invalid_reads_inner(tx_idx, invalid, false)
    }

    /// Re-bind invalid reads, multi-origin (lazy) ones included, when the
    /// caller proved that the republished output is the same.
    pub fn try_rebind_invalid_reads_value_stable(&mut self, tx_idx: TxIdx, invalid: &[MemoryLocationHash]) -> (r: bool)
        requires
            old(self).wf(),
            tx_idx < old(self)@.block_size(),
        ensures
            final(self).wf(),
            r == forall|i: int| 0 <= i < invalid@.len() ==> rebind_allowed(old(self)@, tx_idx, #[trigger] invalid@[i], true),
            final(self)@ == (if r {
                MvView {
                    reads: old(self)@.reads.update(tx_idx as int, rebind_fold(old(self)@, tx_idx, old(self)@.reads[tx_idx as int], invalid@)),
                    ..old(self)@
                }
            } else {
                old(self)@
            }),
    {
        self.try_rebind_invalid_reads_inner(tx_idx, invalid, true)
    }

    /// The value that `tx_idx` read at `location` (its last memory origin)
    /// equals what it would read now: the same storage word, or the same
    /// balance and nonce.
    pub fn prior_read_value_stable(&self, tx_idx: TxIdx, location: MemoryLocationHash) -> (r: bool)
        requires
            self.wf(),
            tx_idx < self@.block_size(),
        ensures
            r == (read_lookup(self@.reads[tx_idx as int], location) matches Some(o)
                && last_mv_value(o) matches Some(prior)
                && current_value_spec(self@, tx_idx, location) matches Some(cur)
                && value_stable(prior, cur)),
    {
        proof {
            self.lemma_lens();
        }
        let reads = &self.last_locations[tx_idx].read;
        assert(read_view(*reads) == self@.reads[tx_idx as int]);
        let k = match find_read(reads, location) {
            None => {
                return false;
            },
            Some(k) => k,
        };
        proof {
            lemma_lookup_at(self@.reads[tx_idx as int], location, k as int);
        }
        let origins = &reads[k].1;
        let ghost os = origins@;
        let mut i: usize = origins.len();
        let mut prior: Option<MemoryValue> = None;
        assert(os.take(os.len() as int) =~= os);
        while i > 0 && prior.is_none()
            invariant
                i <= os.len(),
                os == origins@,
                prior is None ==> last_mv_value(os) == last_mv_value(os.take(i as int)),
                prior matches Some(p) ==> last_mv_value(os) == Some(p),
            decreases i,
        {
            proof {
                assert(os.take(i as int).drop_last() =~= os.take(i - 1));
                assert(os.take(i as int).last() == os[i - 1]);
            }
            if let ReadOrigin::MvMemory(_, val) = origins[i - 1] {
                prior = Some(val);
            }
            i = i - 1;
        }
        proof {
            if prior is None {
                assert(os.take(0).len() == 0);
            }
        }
        let prior = match prior {
            None => {
                return false;
            },
            Some(p) => p,
        };
        let cur = match self.current_data_value(tx_idx, location) {
            None => {
                return false;
            },
            Some(c) => c,
        };
        match (prior, cur) {
            (MemoryValue::Storage(a), MemoryValue::Storage(b)) => a == b,
            (MemoryValue::Basic(a), MemoryValue::Basic(b)) => a.balance == b.balance && a.nonce == b.nonce,
            _ => false,
        }
    }
}

proof fn lemma_read_above_readers(a: MvView, b: MvView, after: usize, ws: Seq<u64>)
    requires
        a.readers == b.readers,
    ensures
        read_above(a, after, ws) == read_above(b, after, ws),
    decreases ws.len(),
{
    if ws.len() > 0 {
        lemma_read_above_readers(a, b, after, ws.drop_last());
    }
}


/// A fresh read of `l` by `tx` exists and would itself validate.
pub open spec fn fresh_read_ok(v: MvView, tx: usize, l: u64) -> bool {
    &&& current_origins_spec(v, tx, l) is Some
    &&& origin_valid_spec(v, tx, l, current_origins_spec(v, tx, l)->0)
}

impl MvMemory {
    /// Accept a failed validation of `tx_idx` without aborting when every
    /// invalid read is at a location the caller deems commutative
    /// (`commute_loc`) and a fresh read of it would validate: then every
    /// invalid read is re-bound to its fresh origins (`true`). With no
    /// invalid read, or when a location is refused, nothing changes (`false`).
    pub fn try_commute_rebind_invalid(&mut self, tx_idx: TxIdx, commute_loc: impl Fn(MemoryLocationHash) -> bool) -> (r: bool)
        requires
            old(self).wf(),
            tx_idx < old(self)@.block_size(),
            forall|l: MemoryLocationHash| commute_loc.requires((l,)),
        ensures
            final(self).wf(),
            ({
                let o = old(self)@;
                let inv = invalid_locs(o, tx_idx, o.reads[tx_idx as int]);
                if r {
                    &&& inv.len() > 0
                    &&& forall|i: int| 0 <= i < inv.len() ==> commute_loc.ensures((#[trigger] inv[i],), true) && fresh_read_ok(o, tx_idx, inv[i])
                    &&& final(self)@ == (MvView { reads: o.reads.update(tx_idx as int, rebind_fold(o, tx_idx, o.reads[tx_idx as int], inv)), ..o })
                } else {
                    &&& final(self)@ == o
                    &&& (inv.len() == 0 || exists|i: int| 0 <= i < inv.len() && (commute_loc.ensures((#[trigger] inv[i],), false) || !fresh_read_ok(o, tx_idx, inv[i])))
                }
            }),
    {
        proof {
            self.lemma_lens();
        }
        let ghost o = self@;
        let ghost rv = o.reads[tx_idx as int];
        let mut planned_locs: Vec<MemoryLocationHash> = Vec::new();
        let mut planned: Vec<Vec<ReadOrigin>> = Vec::new();
        let reads = &self.last_locations[tx_idx].read;
        assert(read_view(*reads) == rv);
        let mut i: usize = 0;
        while i < reads.len()
            invariant
                i <= reads@.len(),
                read_view(*reads) == rv,
                o == self@,
                o == old(self)@,
                mv_wf(o),
                tx_idx < o.block_size(),
                rv == o.reads[tx_idx as int],
                forall|l: MemoryLocationHash| commute_loc.requires((l,)),
                planned_locs@ == invalid_locs(o, tx_idx, rv.take(i as int)),
                planned@.len() == planned_locs@.len(),
                forall|q: int| 0 <= q < planned_locs@.len() ==> commute_loc.ensures((#[trigger] planned_locs@[q],), true) && fresh_read_ok(o, tx_idx, planned_locs@[q]),
                forall|q: int| 0 <= q < planned@.len() ==> current_origins_spec(o, tx_idx, planned_locs@[q]) == Some((#[trigger] planned@[q])@),
            decreases reads.len() - i,
        {
            let location = reads[i].0;
            proof {
                assert(rv.take(i + 1).drop_last() =~= rv.take(i as int));
                assert(rv.take(i + 1).last() == rv[i as int]);
                assert(rv[i as int].0 == location);
            }
            if !self.origin_still_valid(tx_idx, location, &reads[i].1) {
                let ok = commute_loc(location);
                if !ok {
                    proof {
                        lemma_invalid_locs_prefix(o, tx_idx, rv, i as int);
                        let inv = invalid_locs(o, tx_idx, rv);
                        assert(inv[planned_locs@.len() as int] == location);
                    }
                    return false;
                }
                let new_origins = match self.current_read_origins(tx_idx, location) {
                    None => {
                        proof {
                            lemma_invalid_locs_prefix(o, tx_idx, rv, i as int);
                            let inv = invalid_locs(o, tx_idx, rv);
                            assert(inv[planned_locs@.len() as int] == location);
                        }
                        return false;
                    },
                    Some(n) => n,
                };
                if !self.origin_still_valid(tx_idx, location, &new_origins) {
                    proof {
                        lemma_invalid_locs_prefix(o, tx_idx, rv, i as int);
                        let inv = invalid_locs(o, tx_idx, rv);
                        assert(inv[planned_locs@.len() as int] == location);
                    }
                    return false;
                }
                planned_locs.push(location);
                planned.push(new_origins);
            }
            i = i + 1;
        }
        assert(rv.take(rv.len() as int) =~= rv);
        if planned_locs.len() == 0 {
            return false;
        }
        let ghost inv = planned_locs@;
        let mut last = LastLocations { read: Vec::new(), write: Vec::new() };
        std::mem::swap(&mut last, &mut self.last_locations[tx_idx]);
        let ghost ll0 = self.last_locations@;
        assert(forall|q: int| 0 <= q < ll0.len() && q != tx_idx ==> ll0[q] == old(self).last_locations@[q]);
        assert(read_view(last.read) == o.reads[tx_idx as int]);
        assert(inv.take(0) =~= Seq::<u64>::empty());
        let mut j: usize = 0;
        while j < planned.len()
            invariant
                j <= planned@.len(),
                planned@.len() == inv.len(),
                inv == planned_locs@,
                forall|q: int| 0 <= q < planned@.len() ==> current_origins_spec(o, tx_idx, inv[q]) == Some((#[trigger] planned@[q])@),
                read_view(last.read) == rebind_fold(o, tx_idx, o.reads[tx_idx as int], inv.take(j as int)),
                distinct_keys(read_view(last.read)),
                last.write@ == o.writes[tx_idx as int],
                self.last_locations@ == ll0,
            decreases planned.len() - j,
        {
            let location = planned_locs[j];
            let origins = planned[j].clone();
            assert(origins@ == planned@[j as int]@);
            let ghost before = read_view(last.read);
            proof {
                assert(inv.take(j + 1).drop_last() =~= inv.take(j as int));
                assert(inv.take(j + 1).last() == location);
            }
            match find_read(&last.read, location) {
                Some(k) => {
                    proof {
                        lemma_lookup_at(before, location, k as int);
                    }
                    last.read.set(k, (location, origins));
                    proof {
                        assert(read_view(last.read) =~= before.update(k as int, (location, origins@)));
                        assert forall|a: int, b: int| 0 <= a < b < read_view(last.read).len() implies read_view(last.read)[a].0 != read_view(last.read)[b].0 by {
                            assert(read_view(last.read)[a].0 == before[a].0);
                            assert(read_view(last.read)[b].0 == before[b].0);
                        }
                    }
                },
                None => {
                    last.read.push((location, origins));
                    proof {
                        assert(!(exists|a: int| 0 <= a < before.len() && #[trigger] before[a].0 == location));
                        assert(read_view(last.read) =~= before.push((location, origins@)));
                        assert forall|a: int, b: int| 0 <= a < b < read_view(last.read).len() implies read_view(last.read)[a].0 != read_view(last.read)[b].0 by {
                            if b == before.len() {
                                assert(before[a].0 != location);
                            }
                        }
                    }
                },
            }
            j = j + 1;
        }
        self.last_locations.set(tx_idx, last);
        assert(inv.take(inv.len() as int) =~= inv);
        proof {
            assert(self.last_locations@ == ll0.update(tx_idx as int, last));
            assert(self@.reads =~= o.reads.update(tx_idx as int, rebind_fold(o, tx_idx, o.reads[tx_idx as int], inv)));
            assert(self@.writes =~= o.writes);
        }
        true
    }
}

/// The invalid locations of a prefix are a prefix of the invalid locations.
proof fn lemma_invalid_locs_prefix(v: MvView, tx: usize, rs: Seq<(u64, Seq<ReadOrigin>)>, i: int)
    requires
        0 <= i < rs.len(),
        !origin_valid_spec(v, tx, rs[i].0, rs[i].1),
    ensures
        invalid_locs(v, tx, rs).len() > invalid_locs(v, tx, rs.take(i)).len(),
        invalid_locs(v, tx, rs)[invalid_locs(v, tx, rs.take(i)).len() as int] == rs[i].0,
    decreases rs.len(),
{
    if i == rs.len() - 1 {
        assert(rs.drop_last() =~= rs.take(i));
    } else {
        assert(rs.drop_last().take(i) =~= rs.take(i));
        assert(rs.drop_last()[i] == rs[i]);
        lemma_invalid_locs_prefix(v, tx, rs.drop_last(), i);
    }
}


/// The value the last write to `l` in `ws` writes.
pub open spec fn last_write_value(ws: Seq<(u64, MemoryValue)>, l: u64) -> MemoryValue
    decreases ws.len(),
{
    if ws.len() == 0 {
        MemoryValue::SelfDestructed
    } else if ws.last().0 == l {
        ws.last().1
    } else {
        last_write_value(ws.drop_last(), l)
    }
}

proof fn lemma_closest_exists(m: Map<usize, MemoryEntry>, tx: usize, k0: usize)
    requires
        m.dom().contains(k0),
        k0 < tx,
    ensures
        exists|k: usize| closest_below(m, tx, k) && k0 <= k,
    decreases tx - k0,
{
    if forall|k2: usize| #[trigger] m.dom().contains(k2) && k2 < tx ==> k2 <= k0 {
        assert(closest_below(m, tx, k0));
    } else {
        let k2 = choose|k2: usize| #[trigger] m.dom().contains(k2) && k2 < tx && !(k2 <= k0);
        lemma_closest_exists(m, tx, k2);
        let k = choose|k: usize| closest_below(m, tx, k) && k2 <= k;
        assert(closest_below(m, tx, k) && k0 <= k);
    }
}

proof fn lemma_one_below(m: Map<usize, MemoryEntry>, tx: usize, k: usize)
    requires
        closest_below(m, tx, k),
    ensures
        desc_below_prefix(seq![(k, m[k])], m, tx, 1),
{
    let b = seq![(k, m[k])];
    assert forall|k2: usize| m.dom().contains(k2) && k2 < tx && (b.len() < 1 || (b.len() > 0 && k2 > b.last().0)) implies exists|i: int| 0 <= i < b.len() && #[trigger] b[i].0 == k2 by {
        assert(k2 <= k);
    }
}

proof fn lemma_publish_at(d: Map<u64, Map<usize, MemoryEntry>>, t: usize, inc: usize, ws: Seq<(u64, MemoryValue)>, l: u64)
    ensures
        write_locs(ws).contains(l) ==> publish_fold(d, t, inc, ws).dom().contains(l)
            && publish_fold(d, t, inc, ws)[l] == (if d.dom().contains(l) { d[l] } else { Map::empty() }).insert(t, MemoryEntry::Data(inc, last_write_value(ws, l))),
        !write_locs(ws).contains(l) ==> publish_fold(d, t, inc, ws).dom().contains(l) == d.dom().contains(l)
            && (d.dom().contains(l) ==> publish_fold(d, t, inc, ws)[l] == d[l]),
    decreases ws.len(),
{
    if ws.len() == 0 {
        assert(publish_fold(d, t, inc, ws) == d);
        assert(!write_locs(ws).contains(l));
    } else {
        let w0 = ws.drop_last();
        lemma_publish_at(d, t, inc, w0, l);
        assert(write_locs(ws) =~= write_locs(w0).push(ws.last().0));
        let d1 = publish_fold(d, t, inc, w0);
        let base = if d1.dom().contains(ws.last().0) { d1[ws.last().0] } else { Map::<usize, MemoryEntry>::empty() };
        assert(publish_fold(d, t, inc, ws) == d1.insert(ws.last().0, base.insert(t, MemoryEntry::Data(inc, ws.last().1))));
        if ws.last().0 == l {
            assert(write_locs(ws)[ws.len() - 1] == l);
            assert(write_locs(ws).contains(l));
            if write_locs(w0).contains(l) {
                assert(d1[l].insert(t, MemoryEntry::Data(inc, ws.last().1)) =~= (if d.dom().contains(l) { d[l] } else { Map::empty() }).insert(t, MemoryEntry::Data(inc, ws.last().1)));
            }
        } else {
            assert(write_locs(ws).contains(l) == write_locs(w0).contains(l)) by {
                if write_locs(ws).contains(l) {
                    let i = choose|i: int| 0 <= i < write_locs(ws).len() && write_locs(ws)[i] == l;
                    assert(i < w0.len());
                    assert(write_locs(w0)[i] == l);
                }
                if write_locs(w0).contains(l) {
                    let i = choose|i: int| 0 <= i < write_locs(w0).len() && write_locs(w0)[i] == l;
                    assert(write_locs(ws)[i] == l);
                }
            }
        }
    }
}

proof fn lemma_estimates_at(d: Map<u64, Map<usize, MemoryEntry>>, t: usize, locs: Seq<u64>, l: u64)
    ensures
        estimates_at(d, t, locs).dom() == d.dom(),
        d.dom().contains(l) && locs.contains(l) ==> estimates_at(d, t, locs)[l] == d[l].insert(t, MemoryEntry::Estimate),
        d.dom().contains(l) && !locs.contains(l) ==> estimates_at(d, t, locs)[l] == d[l],
    decreases locs.len(),
{
    if locs.len() > 0 {
        let l0 = locs.drop_last();
        lemma_estimates_at(d, t, l0, l);
        if locs.last() == l {
            if l0.contains(l) {
                assert(d[l].insert(t, MemoryEntry::Estimate).insert(t, MemoryEntry::Estimate) =~= d[l].insert(t, MemoryEntry::Estimate));
            }
        } else {
            assert(locs.contains(l) == l0.contains(l)) by {
                if locs.contains(l) {
                    let i = choose|i: int| 0 <= i < locs.len() && locs[i] == l;
                    assert(l0[i] == l);
                }
            }
        }
    }
}

/// A read sees the latest lower write: once an incarnation of `tv` has
/// recorded a write of `l`, a higher transaction with no writer of `l`
/// between them reads exactly the value written.
pub proof fn law_read_sees_latest_lower_write(
    o: MvView,
    tv: TxVersion,
    rs: Seq<(u64, Seq<ReadOrigin>)>,
    ws: Seq<(u64, MemoryValue)>,
    new_writes: Seq<u64>,
    tx: usize,
    l: u64,
)
    requires
        mv_wf(o),
        tv.tx_idx < o.block_size(),
        tv.tx_idx < tx,
        write_locs(ws).contains(l),
        forall|k: usize| o.data.dom().contains(l) && #[trigger] o.data[l].dom().contains(k) ==> !(tv.tx_idx < k < tx),
    ensures
        current_value_spec(record_spec(o, tv, rs, ws, new_writes), tx, l) == Some(last_write_value(ws, l)),
{
    let t = tv.tx_idx;
    let gone = o.writes[t as int].to_set().difference(write_locs(ws).to_set());
    let d0 = unwritten(o.data, t, gone);
    lemma_publish_at(d0, t, tv.tx_incarnation, ws, l);
    let n = record_spec(o, tv, rs, ws, new_writes);
    let m = n.data[l];
    assert(m.dom().contains(t));
    assert(closest_below(m, tx, t)) by {
        assert forall|k2: usize| #[trigger] m.dom().contains(k2) && k2 < tx implies k2 <= t by {
            if k2 != t {
                assert(d0.dom().contains(l) && d0[l].dom().contains(k2));
                assert(!gone.contains(l)) by {
                    assert(write_locs(ws).to_set().contains(l));
                }
                assert(o.data[l].dom().contains(k2));
            }
        }
    }
    let k = choose|k: usize| closest_below(m, tx, k);
    lemma_closest_unique(m, tx, k, t);
    assert(!n.is_aborted(t, tv.tx_incarnation));
}

/// Re-publishing a different value at `l` under the writer's incarnation
/// fails every higher reader that bound the old value of that version.
pub proof fn law_rewrite_invalidates_reader(
    o: MvView,
    tv: TxVersion,
    rs: Seq<(u64, Seq<ReadOrigin>)>,
    ws: Seq<(u64, MemoryValue)>,
    new_writes: Seq<u64>,
    tx: usize,
    l: u64,
    val: MemoryValue,
)
    requires
        mv_wf(o),
        tv.tx_idx < o.block_size(),
        tv.tx_idx < tx,
        write_locs(ws).contains(l),
        last_write_value(ws, l) != val,
    ensures
        !origin_valid_spec(record_spec(o, tv, rs, ws, new_writes), tx, l, seq![ReadOrigin::MvMemory(tv, val)]),
{
    let t = tv.tx_idx;
    let gone = o.writes[t as int].to_set().difference(write_locs(ws).to_set());
    let d0 = unwritten(o.data, t, gone);
    lemma_publish_at(d0, t, tv.tx_incarnation, ws, l);
    let n = record_spec(o, tv, rs, ws, new_writes);
    let m = n.data[l];
    assert(m.dom().contains(t));
    lemma_closest_exists(m, tx, t);
    let k = choose|k: usize| closest_below(m, tx, k) && t <= k;
    lemma_one_below(m, tx, k);
    let b = seq![(k, m[k])];
    let os = seq![ReadOrigin::MvMemory(tv, val)];
    assert(!origins_match(b, os, n.aborted));
}

/// An estimate fails the readers of the version it replaces: after the
/// writes of `t` at `suffix` become estimates, a higher reader that bound
/// `t`'s version of a location of `suffix` no longer validates.
pub proof fn law_estimate_invalidates_reader(
    o: MvView,
    t: usize,
    suffix: Seq<u64>,
    tx: usize,
    l: u64,
    inc: usize,
    val: MemoryValue,
)
    requires
        t < tx,
        suffix.contains(l),
        o.data.dom().contains(l),
        o.data[l].dom().contains(t),
    ensures
        !origin_valid_spec(
            MvView {
                data: estimates_at(o.data, t, suffix),
                residual: o.residual.insert(t, o.writes[t as int]),
                write_epoch: wrap_u64(wrap_u64(o.write_epoch)),
                ..o
            },
            tx,
            l,
            seq![ReadOrigin::MvMemory(TxVersion { tx_idx: t, tx_incarnation: inc }, val)],
        ),
{
    lemma_estimates_at(o.data, t, suffix, l);
    let n = MvView {
        data: estimates_at(o.data, t, suffix),
        residual: o.residual.insert(t, o.writes[t as int]),
        write_epoch: wrap_u64(wrap_u64(o.write_epoch)),
        ..o
    };
    let m = n.data[l];
    assert(m.dom().contains(t));
    lemma_closest_exists(m, tx, t);
    let k = choose|k: usize| closest_below(m, tx, k) && t <= k;
    lemma_one_below(m, tx, k);
    let b = seq![(k, m[k])];
    let os = seq![ReadOrigin::MvMemory(TxVersion { tx_idx: t, tx_incarnation: inc }, val)];
    assert(!origins_match(b, os, n.aborted));
}

/// A read is value-stable only against the very same value: a storage word
/// against an equal word, an account against one with the same balance and
/// the same nonce; any other pair (a changed nonce or balance, lazy or code
/// values) is not, and an equal storage word or account always is.
pub proof fn law_value_stable_is_equality(a: MemoryValue, b: MemoryValue)
    ensures
        value_stable(a, b) ==> a == b,
        value_stable(a, b) ==> (a is Storage || a is Basic),
        (a is Storage || a is Basic) ==> (value_stable(a, a)),
        (a matches MemoryValue::Basic(x) && b matches MemoryValue::Basic(y) && x.nonce != y.nonce) ==> !value_stable(a, b),
{
}

} // verus!
