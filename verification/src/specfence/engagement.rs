//! Per-block engagement controller: whether executions take the lean path,
//! and whether the block runs in quiet or storm mode. Aborts are counted
//! and never change the mode.

use vstd::prelude::*;
use crate::types::TxIdx;

verus! {

/// `c + 1` on a counter that wraps.
pub open spec fn inc_wrap(c: usize) -> usize {
    if c == usize::MAX {
        0
    } else {
        (c + 1) as usize
    }
}

/// Block engagement mode.
#[derive(Debug, Clone, Copy, PartialEq, Eq, Structural)]
pub enum BlockEngagementMode {
    /// Narrow waiting; optimistic discovery.
    Quiet,
    /// Wait for ready writers on hot locations.
    Storm,
}

impl BlockEngagementMode {
    /// Decode a stored tag: 1 is storm, anything else quiet.
    pub fn from_u8(v: u8) -> (r: Self)
        ensures
            r == (if v == 1 {
                BlockEngagementMode::Storm
            } else {
                BlockEngagementMode::Quiet
            }),
    {
        if v == 1 {
            BlockEngagementMode::Storm
        } else {
            BlockEngagementMode::Quiet
        }
    }
}

/// Execution starts lean unless research inspection is on.
pub fn should_start_lean(research_inspect: bool) -> (r: bool)
    ensures
        r == !research_inspect,
{
    !research_inspect
}

/// Per-block engagement controller.
pub struct AdaptiveEngagement {
    lean: bool,
    lean_txs: usize,
    full_txs: usize,
    switches: usize,
    aborts: usize,
    mode: BlockEngagementMode,
    tx_was_lean: Vec<bool>,
}

impl AdaptiveEngagement {
    pub closed spec fn lean_spec(self) -> bool {
        self.lean
    }

    pub closed spec fn lean_count(self) -> usize {
        self.lean_txs
    }

    pub closed spec fn full_count(self) -> usize {
        self.full_txs
    }

    pub closed spec fn switch_count(self) -> usize {
        self.switches
    }

    pub closed spec fn abort_count(self) -> usize {
        self.aborts
    }

    pub closed spec fn mode_spec(self) -> BlockEngagementMode {
        self.mode
    }

    /// Whether the last execution of each transaction was lean.
    pub closed spec fn lean_by_tx(self) -> Seq<bool> {
        self.tx_was_lean@
    }

    /// A controller for `block_size` transactions, quiet, no counts.
    pub fn new(block_size: usize, start_lean: bool) -> (r: Self)
        ensures
            r.lean_spec() == start_lean,
            r.lean_count() == 0,
            r.full_count() == 0,
            r.switch_count() == 0,
            r.abort_count() == 0,
            r.mode_spec() == BlockEngagementMode::Quiet,
            r.lean_by_tx() == Seq::new(block_size as nat, |i: int| false),
    {
        let mut tx_was_lean: Vec<bool> = Vec::new();
        while tx_was_lean.len() < block_size
            invariant
                tx_was_lean@.len() <= block_size,
                forall|i: int| 0 <= i < tx_was_lean@.len() ==> !#[trigger] tx_was_lean@[i],
            decreases block_size - tx_was_lean.len(),
        {
            tx_was_lean.push(false);
        }
        assert(tx_was_lean@ =~= Seq::new(block_size as nat, |i: int| false));
        AdaptiveEngagement {
            lean: start_lean,
            lean_txs: 0,
            full_txs: 0,
            switches: 0,
            aborts: 0,
            mode: BlockEngagementMode::Quiet,
            tx_was_lean,
        }
    }

    /// A controller for executors without engagement: starts full.
    pub fn disabled(block_size: usize) -> (r: Self)
        ensures
            !r.lean_spec(),
            r.lean_count() == 0,
            r.full_count() == 0,
            r.switch_count() == 0,
            r.abort_count() == 0,
            r.mode_spec() == BlockEngagementMode::Quiet,
            r.lean_by_tx() == Seq::new(block_size as nat, |i: int| false),
    {
        Self::new(block_size, false)
    }

    pub fn is_lean(&self) -> (r: bool)
        ensures
            r == self.lean_spec(),
    {
        self.lean
    }

    /// Start an execution of `tx_idx`: lean unless research inspection is on.
    /// Counts the execution, and remembers its path when `tx_idx` is in the block.
    pub fn begin_tx(&mut self, tx_idx: TxIdx, research_inspect: bool) -> (r: bool)
        ensures
            r == !research_inspect,
            final(self).lean_spec() == r,
            r ==> final(self).lean_count() == inc_wrap(old(self).lean_count())
                && final(self).full_count() == old(self).full_count(),
            !r ==> final(self).full_count() == inc_wrap(old(self).full_count())
                && final(self).lean_count() == old(self).lean_count(),
            final(self).lean_by_tx() == (if tx_idx < old(self).lean_by_tx().len() {
                old(self).lean_by_tx().update(tx_idx as int, r)
            } else {
                old(self).lean_by_tx()
            }),
            final(self).switch_count() == old(self).switch_count(),
            final(self).abort_count() == old(self).abort_count(),
            final(self).mode_spec() == old(self).mode_spec(),
    {
        let lean = !research_inspect;
        self.lean = lean;
        if lean {
            self.lean_txs = self.lean_txs.wrapping_add(1);
        } else {
            self.full_txs = self.full_txs.wrapping_add(1);
        }
        if tx_idx < self.tx_was_lean.len() {
            self.tx_was_lean.set(tx_idx, lean);
        }
        lean
    }

    /// Whether the last execution of `tx_idx` was lean (`false` outside the block).
    pub fn tx_was_lean(&self, tx_idx: TxIdx) -> (r: bool)
        ensures
            r == (tx_idx < self.lean_by_tx().len() && self.lean_by_tx()[tx_idx as int]),
    {
        tx_idx < self.tx_was_lean.len() && self.tx_was_lean[tx_idx]
    }

    /// Count a validation abort. Never escalates: always `false`, and the
    /// mode, the lean flag and the switch count stay as they are.
    pub fn note_abort(&mut self) -> (r: bool)
        ensures
            !r,
            final(self).abort_count() == inc_wrap(old(self).abort_count()),
            final(self).lean_spec() == old(self).lean_spec(),
            final(self).mode_spec() == old(self).mode_spec(),
            final(self).switch_count() == old(self).switch_count(),
            final(self).lean_count() == old(self).lean_count(),
            final(self).full_count() == old(self).full_count(),
            final(self).lean_by_tx() == old(self).lean_by_tx(),
    {
        self.aborts = self.aborts.wrapping_add(1);
        false
    }

    pub fn lean_mode_txs(&self) -> (r: usize)
        ensures
            r == self.lean_count(),
    {
        self.lean_txs
    }

    pub fn full_mode_txs(&self) -> (r: usize)
        ensures
            r == self.full_count(),
    {
        self.full_txs
    }

    pub fn engagement_switches(&self) -> (r: usize)
        ensures
            r == self.switch_count(),
    {
        self.switches
    }

    /// Set the block mode (from the inter-block morph prior).
    pub fn set_mode(&mut self, m: BlockEngagementMode)
        ensures
            final(self).mode_spec() == m,
            final(self).switch_count() == old(self).switch_count(),
            final(self).lean_spec() == old(self).lean_spec(),
            final(self).lean_count() == old(self).lean_count(),
            final(self).full_count() == old(self).full_count(),
            final(self).abort_count() == old(self).abort_count(),
            final(self).lean_by_tx() == old(self).lean_by_tx(),
    {
        self.mode = m;
    }

    pub fn mode(&self) -> (r: BlockEngagementMode)
        ensures
            r == self.mode_spec(),
    {
        self.mode
    }

    pub fn is_storm(&self) -> (r: bool)
        ensures
            r == (self.mode_spec() == BlockEngagementMode::Storm),
    {
        match self.mode {
            BlockEngagementMode::Storm => true,
            BlockEngagementMode::Quiet => false,
        }
    }

    /// Move to mode `next` (from live morph evidence). Returns whether the
    /// mode changed; each change is counted as one switch.
    pub fn maybe_flip_mode(&mut self, next: BlockEngagementMode) -> (r: bool)
        ensures
            r == (next != old(self).mode_spec()),
            final(self).mode_spec() == next,
            final(self).switch_count() == (if r {
                inc_wrap(old(self).switch_count())
            } else {
                old(self).switch_count()
            }),
            final(self).lean_spec() == old(self).lean_spec(),
            final(self).lean_count() == old(self).lean_count(),
            final(self).full_count() == old(self).full_count(),
            final(self).abort_count() == old(self).abort_count(),
            final(self).lean_by_tx() == old(self).lean_by_tx(),
    {
        let changed = match (next, self.mode) {
            (BlockEngagementMode::Quiet, BlockEngagementMode::Quiet) => false,
            (BlockEngagementMode::Storm, BlockEngagementMode::Storm) => false,
            _ => true,
        };
        if changed {
            self.mode = next;
            self.switches = self.switches.wrapping_add(1);
        }
        changed
    }
}

} // verus!
