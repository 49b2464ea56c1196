//! Access-prefix certificate strips: per transaction, the locations on which
//! a fence verb succeeded, plus a repair-armed prefix flag. A partial abort
//! is legal only where the strip covers every failed location.

use vstd::prelude::*;
use crate::types::{MemoryLocationHash, TxIdx};

verus! {

/// The certified locations of one transaction.
#[verifier::external_body]
pub struct LocSet {
    inner: hashbrown::HashSet<u64>,
}

/// The locations a strip holds.
pub uninterp spec fn strip_locs(s: LocSet) -> Set<u64>;

/// No location.
pub open spec fn no_locs() -> Set<u64> {
    Set::empty()
}

/// `hashbrown::HashSet::new`.
#[verifier::external_body]
fn locs_new() -> (r: LocSet)
    ensures
        strip_locs(r) == no_locs(),
{
    LocSet { inner: hashbrown::HashSet::new() }
}

/// `hashbrown::HashSet::clear`.
#[verifier::external_body]
fn locs_clear(s: &mut LocSet)
    ensures
        strip_locs(*final(s)) == no_locs(),
{
    s.inner.clear();
}

/// `hashbrown::HashSet::insert`.
#[verifier::external_body]
fn locs_insert(s: &mut LocSet, loc: u64)
    ensures
        strip_locs(*final(s)) == strip_locs(*old(s)).insert(loc),
{
    s.inner.insert(loc);
}

/// `hashbrown::HashSet::contains`.
#[verifier::external_body]
fn locs_contains(s: &LocSet, loc: u64) -> (r: bool)
    ensures
        r == strip_locs(*s).contains(loc),
{
    s.inner.contains(&loc)
}

/// `hashbrown::HashSet::is_empty`.
#[verifier::external_body]
fn locs_is_empty(s: &LocSet) -> (r: bool)
    ensures
        r == (strip_locs(*s) == no_locs()),
{
    s.inner.is_empty()
}

/// One transaction's strip.
pub struct TxStrip {
    pub locs: LocSet,
    pub repair: bool,
}

/// Per-transaction certificate strips of one block.
pub struct CertificateTable {
    pub slots: Vec<TxStrip>,
}

/// A strip's view: its locations and its repair flag.
pub open spec fn strip_view(s: TxStrip) -> (Set<u64>, bool) {
    (strip_locs(s.locs), s.repair)
}

/// The strip of `tx` has something: a repair prefix or a location.
pub open spec fn has_any_spec(v: Seq<(Set<u64>, bool)>, tx: TxIdx) -> bool {
    tx < v.len() && (v[tx as int].1 || v[tx as int].0 != no_locs())
}

impl CertificateTable {
    pub open spec fn view_strips(&self) -> Seq<(Set<u64>, bool)> {
        self.slots@.map_values(|s: TxStrip| strip_view(s))
    }

    /// A table for `block_size` transactions, all strips empty.
    pub fn new(block_size: usize) -> (r: Self)
        ensures
            r.view_strips().len() == block_size,
            forall|i: int| 0 <= i < block_size ==> (#[trigger] r.view_strips()[i]) == (no_locs(), false),
    {
        let mut slots: Vec<TxStrip> = Vec::new();
        let mut i: usize = 0;
        while i < block_size
            invariant
                i <= block_size,
                slots@.len() == i,
                forall|j: int| 0 <= j < i ==> strip_view(#[trigger] slots@[j]) == (no_locs(), false),
            decreases block_size - i,
        {
            slots.push(TxStrip { locs: locs_new(), repair: false });
            i = i + 1;
        }
        CertificateTable { slots }
    }

    /// A new execution of `tx`: the repair flag follows `repair_armed`;
    /// location strips survive (only a block start wipes them).
    pub fn begin_execute(&mut self, tx_idx: TxIdx, repair_armed: bool, incarnation: usize)
        ensures
            final(self).view_strips() == (if tx_idx < old(self).view_strips().len() {
                old(self).view_strips().update(
                    tx_idx as int,
                    (old(self).view_strips()[tx_idx as int].0, repair_armed),
                )
            } else {
                old(self).view_strips()
            }),
    {
        if tx_idx < self.slots.len() {
            self.slots[tx_idx].repair = repair_armed;
            assert(self.view_strips() =~= old(self).view_strips().update(
                tx_idx as int,
                (old(self).view_strips()[tx_idx as int].0, repair_armed),
            ));
        }
    }

    /// Block start: the only wipe of the strips.
    pub fn begin_block(&mut self)
        ensures
            final(self).view_strips().len() == old(self).view_strips().len(),
            forall|i: int|
                0 <= i < final(self).view_strips().len() ==> (#[trigger] final(self).view_strips()[i])
                    == (no_locs(), false),
    {
        let n = self.slots.len();
        let mut i: usize = 0;
        while i < n
            invariant
                n == self.slots@.len(),
                n == old(self).slots@.len(),
                i <= n,
                forall|j: int| 0 <= j < i ==> strip_view(#[trigger] self.slots@[j]) == (no_locs(), false),
            decreases n - i,
        {
            locs_clear(&mut self.slots[i].locs);
            self.slots[i].repair = false;
            i = i + 1;
        }
    }

    /// Some strip or a repair prefix is held for `tx`.
    pub fn has_any(&self, tx_idx: TxIdx) -> (r: bool)
        ensures
            r == has_any_spec(self.view_strips(), tx_idx),
    {
        if tx_idx >= self.slots.len() {
            return false;
        }
        self.slots[tx_idx].repair || !locs_is_empty(&self.slots[tx_idx].locs)
    }

    /// A rollback journal or partial abort is legal for `tx`.
    pub fn rem_legal(&self, tx_idx: TxIdx) -> (r: bool)
        ensures
            r == has_any_spec(self.view_strips(), tx_idx),
    {
        self.has_any(tx_idx)
    }

    /// The failure of `tx` may be resolved from its certificate.
    pub fn may_resolve(&self, tx_idx: TxIdx) -> (r: bool)
        ensures
            r == has_any_spec(self.view_strips(), tx_idx),
    {
        self.has_any(tx_idx)
    }

    pub fn repair_armed(&self, tx_idx: TxIdx) -> (r: bool)
        ensures
            r == (tx_idx < self.view_strips().len() && self.view_strips()[tx_idx as int].1),
    {
        if tx_idx >= self.slots.len() {
            return false;
        }
        self.slots[tx_idx].repair
    }

    /// A fence verb succeeded on `location` for `tx`.
    pub fn note_success(&mut self, tx_idx: TxIdx, location: MemoryLocationHash)
        ensures
            final(self).view_strips() == (if tx_idx < old(self).view_strips().len() {
                old(self).view_strips().update(
                    tx_idx as int,
                    (
                        old(self).view_strips()[tx_idx as int].0.insert(location),
                        old(self).view_strips()[tx_idx as int].1,
                    ),
                )
            } else {
                old(self).view_strips()
            }),
    {
        if tx_idx < self.slots.len() {
            locs_insert(&mut self.slots[tx_idx].locs, location);
            assert(self.view_strips() =~= old(self).view_strips().update(
                tx_idx as int,
                (
                    old(self).view_strips()[tx_idx as int].0.insert(location),
                    old(self).view_strips()[tx_idx as int].1,
                ),
            ));
        }
    }

    /// A partial abort is legal: nothing failed, or the repair prefix
    /// covers it, or the strip holds every failed location.
    pub fn covers_all(&self, tx_idx: TxIdx, invalid: &[MemoryLocationHash]) -> (r: bool)
        ensures
            r == (invalid@.len() == 0 || (tx_idx < self.view_strips().len() && (
            self.view_strips()[tx_idx as int].1 || forall|i: int|
                0 <= i < invalid@.len() ==> self.view_strips()[tx_idx as int].0.contains(
                    #[trigger] invalid@[i],
                )))),
    {
        if invalid.len() == 0 {
            return true;
        }
        if tx_idx >= self.slots.len() {
            return false;
        }
        if self.slots[tx_idx].repair {
            return true;
        }
        self.strips_hold_all(tx_idx, invalid)
    }

    fn strips_hold_all(&self, tx_idx: TxIdx, invalid: &[MemoryLocationHash]) -> (r: bool)
        requires
            tx_idx < self.view_strips().len(),
        ensures
            r == forall|i: int|
                0 <= i < invalid@.len() ==> self.view_strips()[tx_idx as int].0.contains(
                    #[trigger] invalid@[i],
                ),
    {
        let mut i: usize = 0;
        while i < invalid.len()
            invariant
                tx_idx < self.view_strips().len(),
                i <= invalid@.len(),
                forall|j: int|
                    0 <= j < i ==> self.view_strips()[tx_idx as int].0.contains(#[trigger] invalid@[j]),
            decreases invalid.len() - i,
        {
            if !locs_contains(&self.slots[tx_idx].locs, invalid[i]) {
                return false;
            }
            i = i + 1;
        }
        true
    }

    /// Strip membership only (not the repair prefix): a non-empty strip
    /// holding every failed location.
    pub fn covers_strips_all(&self, tx_idx: TxIdx, invalid: &[MemoryLocationHash]) -> (r: bool)
        ensures
            r == (invalid@.len() == 0 || (tx_idx < self.view_strips().len()
                && self.view_strips()[tx_idx as int].0 != no_locs() && forall|i: int|
                0 <= i < invalid@.len() ==> self.view_strips()[tx_idx as int].0.contains(
                    #[trigger] invalid@[i],
                ))),
    {
        if invalid.len() == 0 {
            return true;
        }
        if tx_idx >= self.slots.len() {
            return false;
        }
        if locs_is_empty(&self.slots[tx_idx].locs) {
            return false;
        }
        self.strips_hold_all(tx_idx, invalid)
    }

    /// One location is covered, by the repair prefix or the strip.
    pub fn covers(&self, tx_idx: TxIdx, location: MemoryLocationHash) -> (r: bool)
        ensures
            r == (tx_idx < self.view_strips().len() && (self.view_strips()[tx_idx as int].1
                || self.view_strips()[tx_idx as int].0.contains(location))),
    {
        if tx_idx >= self.slots.len() {
            return false;
        }
        self.slots[tx_idx].repair || locs_contains(&self.slots[tx_idx].locs, location)
    }
}

/// A strip certifies only the locations a fence verb succeeded on: without
/// a repair prefix, a failed location outside the strip is never covered.
pub proof fn law_strip_covers_only_certified(
    v: Seq<(Set<u64>, bool)>,
    tx: TxIdx,
    invalid: Seq<u64>,
    j: int,
)
    requires
        tx < v.len(),
        !v[tx as int].1,
        0 <= j < invalid.len(),
        !v[tx as int].0.contains(invalid[j]),
    ensures
        !(invalid.len() == 0 || (tx < v.len() && (v[tx as int].1 || forall|i: int|
            0 <= i < invalid.len() ==> v[tx as int].0.contains(#[trigger] invalid[i])))),
{
}

} // verus!
