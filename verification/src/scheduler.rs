//! The collaborative scheduler of a block: the status of every transaction's
//! latest incarnation, who waits on whom, and the two cursors (execution and
//! validation) from which workers take their next task.
//!
//! This is the sequential core of the scheduler: every method takes `&mut
//! self`, so a caller that shares one scheduler between worker threads holds
//! it behind one lock. Where the concurrent form would spin and yield until
//! another worker made progress, [`Scheduler::next_task`] answers
//! [`Pick::Idle`] and leaves the waiting to the caller.

use vstd::prelude::*;

use crate::specfence::dag::{wake_all, FenceGraph};
use crate::types::{wrap_dec, wrap_inc, wrapping_dec, wrapping_inc, TxIdx, TxVersion};

verus! {

/// Where the latest incarnation of a transaction stands.
#[derive(Debug, Clone, Copy, PartialEq, Eq, Structural)]
pub enum IncarnationStatus {
    ReadyToExecute,
    Executing,
    Executed,
    Validated,
    Aborting,
}

/// The latest incarnation number of a transaction and its status.
#[derive(Debug, Clone, Copy, PartialEq, Eq, Structural)]
pub struct TxStatus {
    pub incarnation: usize,
    pub status: IncarnationStatus,
}

/// A unit of work handed to a worker.
#[derive(Debug, Clone, Copy, PartialEq, Eq, Structural)]
pub enum Task {
    Execution(TxVersion),
    Validation(TxVersion),
}

/// What a finished execution reports about its writes.
#[derive(Debug, Clone, Copy, PartialEq, Eq, Structural)]
pub struct FinishExecFlags {
    /// The incarnation read something that must be validated.
    pub need_validation: bool,
    /// The incarnation wrote a location that its previous one did not.
    pub wrote_new_location: bool,
}

impl FinishExecFlags {
    /// No flag set.
    pub fn empty() -> (r: Self)
        ensures
            !r.need_validation && !r.wrote_new_location,
    {
        FinishExecFlags { need_validation: false, wrote_new_location: false }
    }
}

/// The answer of [`Scheduler::next_task`].
#[derive(Debug, Clone, Copy, PartialEq, Eq, Structural)]
pub enum Pick {
    /// Run the given unit of work.
    Run(Task),
    /// Nothing can be handed out now, but the block is not finished: yield
    /// and ask again.
    Idle,
    /// The block is finished (or the scheduler was aborted).
    Finished,
}

/// Result of the scan for the lowest runnable transaction.
#[derive(Debug, Clone, Copy, PartialEq, Eq, Structural)]
pub enum MinRun {
    Hit(TxIdx),
    Empty,
}

/// `Executed` or `Validated`: the incarnation's writes can be read.
pub open spec fn is_done_status(s: IncarnationStatus) -> bool {
    s == IncarnationStatus::Executed || s == IncarnationStatus::Validated
}

/// The scheduler as a mathematical value.
pub struct SchedulerView {
    pub block_size: nat,
    pub statuses: Seq<TxStatus>,
    pub dependents: Seq<Seq<TxIdx>>,
    pub blocked_on: Seq<usize>,
    pub waiters: Seq<Seq<TxIdx>>,
    pub execution_idx: nat,
    pub validation_idx: nat,
    pub min_validation_idx: nat,
    pub num_validated: nat,
    pub aborted: bool,
    pub ready_hint: nat,
}

impl SchedulerView {
    pub open spec fn status_of(self, i: int) -> IncarnationStatus {
        self.statuses[i].status
    }

    /// `is_done` as the scheduler answers it: out-of-block indices count as done.
    pub open spec fn done(self, i: int) -> bool {
        i >= self.block_size || is_done_status(self.status_of(i))
    }

    /// `is_validated`: out-of-block indices count as validated.
    pub open spec fn validated(self, i: int) -> bool {
        i >= self.block_size || self.status_of(i) == IncarnationStatus::Validated
    }

    /// Some transaction of the block is neither executed nor validated.
    pub open spec fn has_undone(self) -> bool {
        exists|i: int| 0 <= i < self.block_size && !is_done_status(#[trigger] self.status_of(i))
    }

    /// Some transaction of the block is ready to execute.
    pub open spec fn has_ready(self) -> bool {
        exists|i: int|
            0 <= i < self.block_size && #[trigger] self.status_of(i)
                == IncarnationStatus::ReadyToExecute
    }

    /// Every incarnation number can still be increased.
    pub open spec fn incarnations_below_max(self) -> bool {
        forall|i: int| 0 <= i < self.statuses.len() ==> #[trigger] self.statuses[i].incarnation < usize::MAX
    }

    pub open spec fn with_status(self, i: int, st: TxStatus) -> SchedulerView {
        SchedulerView { statuses: self.statuses.update(i, st), ..self }
    }

    /// A parked transaction: `Aborting` at the same incarnation, parked behind `writer`.
    pub open spec fn parked(self, tx: int, writer: TxIdx) -> SchedulerView {
        SchedulerView {
            statuses: self.statuses.update(
                tx,
                TxStatus { incarnation: self.statuses[tx].incarnation, status: IncarnationStatus::Aborting },
            ),
            blocked_on: self.blocked_on.update(tx, writer),
            dependents: self.dependents.update(writer as int, self.dependents[writer as int].push(tx as TxIdx)),
            ..self
        }
    }

    pub open spec fn with_dependent(self, key: int, tx: TxIdx) -> SchedulerView {
        SchedulerView { dependents: self.dependents.update(key, self.dependents[key].push(tx)), ..self }
    }

    pub open spec fn with_waiter(self, key: int, tx: TxIdx) -> SchedulerView {
        SchedulerView { waiters: self.waiters.update(key, self.waiters[key].push(tx)), ..self }
    }

    /// The `Aborting` transaction `tx` is ready again at the next incarnation
    /// and no longer parked; any other status stays.
    pub open spec fn readied(self, tx: int) -> SchedulerView {
        if self.status_of(tx) == IncarnationStatus::Aborting {
            SchedulerView {
                statuses: self.statuses.update(
                    tx,
                    TxStatus {
                        incarnation: (self.statuses[tx].incarnation + 1) as usize,
                        status: IncarnationStatus::ReadyToExecute,
                    },
                ),
                blocked_on: self.blocked_on.update(tx, usize::MAX),
                ..self
            }
        } else {
            self
        }
    }

    /// Pull the validation cursor back to `to`, kept within `[tx + 1, block_size]`.
    pub open spec fn rewound(self, tx: int, rewind_to: Option<TxIdx>) -> SchedulerView {
        match rewind_to {
            Some(to) => SchedulerView {
                validation_idx: min_nat(
                    self.validation_idx,
                    clamp_nat(to as nat, (tx + 1) as nat, self.block_size),
                ),
                ..self
            },
            None => self,
        }
    }

    /// `tx` may take the next incarnation without overflow where it would.
    pub open spec fn can_bump(self, tx: int) -> bool {
        tx >= self.block_size || self.status_of(tx) != IncarnationStatus::Aborting
            || self.statuses[tx].incarnation < usize::MAX
    }

    /// One entry per transaction in every per-transaction list.
    pub open spec fn shaped(self) -> bool {
        &&& self.statuses.len() == self.block_size
        &&& self.blocked_on.len() == self.block_size
        &&& links_ok(self.dependents, self.block_size)
        &&& links_ok(self.waiters, self.block_size)
    }

    /// Everything but the statuses is as in `other`.
    pub open spec fn same_links(self, other: SchedulerView) -> bool {
        &&& self.block_size == other.block_size
        &&& self.dependents == other.dependents
        &&& self.blocked_on == other.blocked_on
        &&& self.waiters == other.waiters
    }

    /// Cursors and counters are as in `other`.
    pub open spec fn same_cursors(self, other: SchedulerView) -> bool {
        &&& self.execution_idx == other.execution_idx
        &&& self.validation_idx == other.validation_idx
        &&& self.min_validation_idx == other.min_validation_idx
        &&& self.num_validated == other.num_validated
        &&& self.aborted == other.aborted
        &&& self.ready_hint == other.ready_hint
    }
}

/// The collaborative scheduler of one block.
pub struct Scheduler {
    block_size: usize,
    transactions_status: Vec<TxStatus>,
    /// Mirror: the status is `Executed` or `Validated`.
    done_flags: Vec<bool>,
    /// Mirror: the status is `Validated`.
    validated_flags: Vec<bool>,
    /// Transactions to resume when the key transaction finishes executing.
    transactions_dependents: Vec<Vec<TxIdx>>,
    /// The writer an `Aborting` transaction was parked behind (`usize::MAX`: none).
    blocked_on: Vec<usize>,
    /// Transactions parked without aborting behind the key transaction.
    wait_for_dependency_waiters: Vec<Vec<TxIdx>>,
    execution_idx: usize,
    validation_idx: usize,
    min_validation_idx: usize,
    num_validated: usize,
    aborted: bool,
    ready_hint: usize,
}

impl View for Scheduler {
    type V = SchedulerView;

    closed spec fn view(&self) -> SchedulerView {
        SchedulerView {
            block_size: self.block_size as nat,
            statuses: self.transactions_status@,
            dependents: self.transactions_dependents@.map_values(|d: Vec<TxIdx>| d@),
            blocked_on: self.blocked_on@,
            waiters: self.wait_for_dependency_waiters@.map_values(|d: Vec<TxIdx>| d@),
            execution_idx: self.execution_idx as nat,
            validation_idx: self.validation_idx as nat,
            min_validation_idx: self.min_validation_idx as nat,
            num_validated: self.num_validated as nat,
            aborted: self.aborted,
            ready_hint: self.ready_hint as nat,
        }
    }
}

pub open spec fn min_nat(a: nat, b: nat) -> nat {
    if a <= b {
        a
    } else {
        b
    }
}

pub open spec fn clamp_nat(x: nat, lo: nat, hi: nat) -> nat {
    if x < lo {
        lo
    } else if x > hi {
        hi
    } else {
        x
    }
}

fn clamp_usize(x: usize, lo: usize, hi: usize) -> (r: usize)
    requires
        lo <= hi,
    ensures
        r == clamp_nat(x as nat, lo as nat, hi as nat),
{
    if x < lo {
        lo
    } else if x > hi {
        hi
    } else {
        x
    }
}

/// Every entry of a wait list names another transaction of the block.
pub open spec fn links_ok(lists: Seq<Seq<TxIdx>>, n: nat) -> bool {
    &&& lists.len() == n
    &&& forall|b: int, k: int|
        0 <= b < n && 0 <= k < lists[b].len() ==> #[trigger] lists[b][k] < n && lists[b][k] != b
}

impl Scheduler {
    /// The scheduler's own invariant: one entry per transaction everywhere,
    /// the lock-free mirrors agree with the statuses, and wait lists name
    /// other transactions of the block.
    pub closed spec fn wf(&self) -> bool {
        let n = self.block_size as nat;
        &&& self.transactions_status@.len() == n
        &&& self.done_flags@.len() == n
        &&& self.validated_flags@.len() == n
        &&& self.blocked_on@.len() == n
        &&& self.transactions_dependents@.len() == n
        &&& self.wait_for_dependency_waiters@.len() == n
        &&& forall|i: int| 0 <= i < n ==> #[trigger] self.done_flags@[i] == is_done_status(self.transactions_status@[i].status)
        &&& forall|i: int| 0 <= i < n ==> #[trigger] self.validated_flags@[i] == (self.transactions_status@[i].status == IncarnationStatus::Validated)
        &&& links_ok(self@.dependents, n)
        &&& links_ok(self@.waiters, n)
        &&& self.min_validation_idx <= self.block_size
    }

    /// A well-formed scheduler's view is shaped.
    pub proof fn lemma_shaped(&self)
        requires
            self.wf(),
        ensures
            self@.shaped(),
    {
    }

    proof fn lemma_view_lens(&self)
        requires
            self.wf(),
        ensures
            self@.statuses.len() == self@.block_size,
            self@.dependents.len() == self@.block_size,
            self@.waiters.len() == self@.block_size,
            self@.blocked_on.len() == self@.block_size,
            self@.min_validation_idx <= self@.block_size,
    {
    }

    pub fn new(block_size: usize) -> (s: Self)
        ensures
            s.wf(),
            s@.block_size == block_size,
            s@.statuses == Seq::new(
                block_size as nat,
                |i: int| TxStatus { incarnation: 0, status: IncarnationStatus::ReadyToExecute },
            ),
            s@.dependents == Seq::new(block_size as nat, |i: int| Seq::<TxIdx>::empty()),
            s@.waiters == Seq::new(block_size as nat, |i: int| Seq::<TxIdx>::empty()),
            s@.blocked_on == Seq::new(block_size as nat, |i: int| usize::MAX),
            s@.execution_idx == 0,
            s@.validation_idx == block_size,
            s@.min_validation_idx == block_size,
            s@.num_validated == 0,
            !s@.aborted,
            s@.ready_hint == 0,
    {
        let mut statuses: Vec<TxStatus> = Vec::new();
        let mut done_flags: Vec<bool> = Vec::new();
        let mut validated_flags: Vec<bool> = Vec::new();
        let mut dependents: Vec<Vec<TxIdx>> = Vec::new();
        let mut blocked_on: Vec<usize> = Vec::new();
        let mut waiters: Vec<Vec<TxIdx>> = Vec::new();
        let mut i: usize = 0;
        while i < block_size
            invariant
                i <= block_size,
                statuses@.len() == i,
                done_flags@.len() == i,
                validated_flags@.len() == i,
                dependents@.len() == i,
                blocked_on@.len() == i,
                waiters@.len() == i,
                forall|j: int| 0 <= j < i ==> #[trigger] statuses@[j] == (TxStatus {
                    incarnation: 0,
                    status: IncarnationStatus::ReadyToExecute,
                }),
                forall|j: int| 0 <= j < i ==> !#[trigger] done_flags@[j],
                forall|j: int| 0 <= j < i ==> !#[trigger] validated_flags@[j],
                forall|j: int| 0 <= j < i ==> (#[trigger] dependents@[j])@.len() == 0,
                forall|j: int| 0 <= j < i ==> (#[trigger] waiters@[j])@.len() == 0,
                forall|j: int| 0 <= j < i ==> #[trigger] blocked_on@[j] == usize::MAX,
            decreases block_size - i,
        {
            statuses.push(TxStatus { incarnation: 0, status: IncarnationStatus::ReadyToExecute });
            done_flags.push(false);
            validated_flags.push(false);
            dependents.push(Vec::new());
            blocked_on.push(usize::MAX);
            waiters.push(Vec::new());
            i = i + 1;
        }
        let s = Scheduler {
            block_size,
            transactions_status: statuses,
            done_flags,
            validated_flags,
            transactions_dependents: dependents,
            blocked_on,
            wait_for_dependency_waiters: waiters,
            execution_idx: 0,
            validation_idx: block_size,
            min_validation_idx: block_size,
            num_validated: 0,
            aborted: false,
            ready_hint: 0,
        };
        assert(s@.statuses =~= Seq::new(
            block_size as nat,
            |i: int| TxStatus { incarnation: 0, status: IncarnationStatus::ReadyToExecute },
        ));
        assert(s@.dependents =~~= Seq::new(block_size as nat, |i: int| Seq::<TxIdx>::empty()));
        assert(s@.waiters =~~= Seq::new(block_size as nat, |i: int| Seq::<TxIdx>::empty()));
        assert(s@.blocked_on =~= Seq::new(block_size as nat, |i: int| usize::MAX));
        s
    }

    pub fn block_size(&self) -> (r: usize)
        ensures
            r == self@.block_size,
    {
        self.block_size
    }

    /// Stop handing out work (a fatal execution error).
    pub fn abort(&mut self)
        requires
            old(self).wf(),
        ensures
            final(self).wf(),
            final(self)@ == (SchedulerView { aborted: true, ..old(self)@ }),
    {
        self.aborted = true;
    }

    /// Final incarnation index per transaction (0: succeeded on first try).
    pub fn incarnation_snapshot(&self) -> (r: Vec<usize>)
        requires
            self.wf(),
        ensures
            r@ == self@.statuses.map_values(|s: TxStatus| s.incarnation),
    {
        let mut r: Vec<usize> = Vec::new();
        let mut i: usize = 0;
        while i < self.block_size
            invariant
                self.wf(),
                i <= self.block_size,
                r@ == self@.statuses.take(i as int).map_values(|s: TxStatus| s.incarnation),
            decreases self.block_size - i,
        {
            r.push(self.transactions_status[i].incarnation);
            i = i + 1;
            assert(self@.statuses.take(i as int) =~= self@.statuses.take(i - 1).push(
                self@.statuses[i - 1],
            ));
        }
        assert(self@.statuses.take(i as int) =~= self@.statuses);
        r
    }

    /// The incarnation is `Executed` or `Validated` (out-of-block: true).
    pub fn is_done(&self, tx_idx: TxIdx) -> (r: bool)
        requires
            self.wf(),
        ensures
            r == self@.done(tx_idx as int),
    {
        if tx_idx >= self.block_size {
            return true;
        }
        self.done_flags[tx_idx]
    }

    /// The incarnation is `Validated` (out-of-block: true).
    pub fn is_validated(&self, tx_idx: TxIdx) -> (r: bool)
        requires
            self.wf(),
        ensures
            r == self@.validated(tx_idx as int),
    {
        if tx_idx >= self.block_size {
            return true;
        }
        self.validated_flags[tx_idx]
    }

    fn status_is(&self, tx_idx: TxIdx, s: IncarnationStatus) -> (r: bool)
        requires
            self.wf(),
        ensures
            r == (tx_idx < self@.block_size && self@.status_of(tx_idx as int) == s),
    {
        if tx_idx >= self.block_size {
            return false;
        }
        self.transactions_status[tx_idx].status == s
    }

    /// The incarnation is queued `ReadyToExecute` (out-of-block: false).
    pub fn is_ready(&self, tx_idx: TxIdx) -> (r: bool)
        requires
            self.wf(),
        ensures
            r == (tx_idx < self@.block_size && self@.status_of(tx_idx as int)
                == IncarnationStatus::ReadyToExecute),
    {
        self.status_is(tx_idx, IncarnationStatus::ReadyToExecute)
    }

    /// The incarnation is `Executing` (out-of-block: false).
    pub fn is_executing(&self, tx_idx: TxIdx) -> (r: bool)
        requires
            self.wf(),
        ensures
            r == (tx_idx < self@.block_size && self@.status_of(tx_idx as int)
                == IncarnationStatus::Executing),
    {
        self.status_is(tx_idx, IncarnationStatus::Executing)
    }

    /// The incarnation is `Executed` (out-of-block: false).
    pub fn is_executed(&self, tx_idx: TxIdx) -> (r: bool)
        requires
            self.wf(),
        ensures
            r == (tx_idx < self@.block_size && self@.status_of(tx_idx as int)
                == IncarnationStatus::Executed),
    {
        self.status_is(tx_idx, IncarnationStatus::Executed)
    }

    /// The incarnation is `Aborting` (out-of-block: false).
    pub fn is_aborting(&self, tx_idx: TxIdx) -> (r: bool)
        requires
            self.wf(),
        ensures
            r == (tx_idx < self@.block_size && self@.status_of(tx_idx as int)
                == IncarnationStatus::Aborting),
    {
        self.status_is(tx_idx, IncarnationStatus::Aborting)
    }

    /// The writer has a live stage: ready, executing, executed or validated.
    /// `Aborting` is not a progress path.
    pub fn producer_stage_runnable(&self, writer: TxIdx) -> (r: bool)
        requires
            self.wf(),
        ensures
            r == (writer >= self@.block_size || self@.status_of(writer as int)
                != IncarnationStatus::Aborting),
    {
        self.is_done(writer) || self.is_ready(writer) || self.is_executing(writer)
            || self.is_validated(writer)
    }

    /// Current incarnation of a transaction of the block.
    pub fn current_version(&self, tx_idx: TxIdx) -> (r: Option<TxVersion>)
        requires
            self.wf(),
        ensures
            r == (if tx_idx < self@.block_size {
                Some(
                    TxVersion {
                        tx_idx,
                        tx_incarnation: self@.statuses[tx_idx as int].incarnation,
                    },
                )
            } else {
                None
            }),
    {
        if tx_idx >= self.block_size {
            return None;
        }
        Some(TxVersion { tx_idx, tx_incarnation: self.transactions_status[tx_idx].incarnation })
    }

    /// Some transaction is still ready, executing or aborting.
    pub fn has_unfinished(&self) -> (r: bool)
        requires
            self.wf(),
        ensures
            r == self@.has_undone(),
    {
        let mut i: usize = 0;
        while i < self.block_size
            invariant
                self.wf(),
                i <= self.block_size,
                forall|j: int| 0 <= j < i ==> is_done_status(#[trigger] self@.status_of(j)),
            decreases self.block_size - i,
        {
            if !self.is_done(i) && !self.is_validated(i) {
                return true;
            }
            i = i + 1;
        }
        false
    }

    /// Every transaction is validated (or the counter says so).
    pub fn all_validated(&self) -> (r: bool)
        requires
            self.wf(),
        ensures
            r == (self@.num_validated >= self@.block_size || forall|i: int|
                0 <= i < self@.block_size ==> #[trigger] self@.status_of(i)
                    == IncarnationStatus::Validated),
    {
        if self.num_validated >= self.block_size {
            return true;
        }
        let mut i: usize = 0;
        while i < self.block_size
            invariant
                self.wf(),
                i <= self.block_size,
                self.num_validated < self.block_size,
                forall|j: int|
                    0 <= j < i ==> #[trigger] self@.status_of(j) == IncarnationStatus::Validated,
            decreases self.block_size - i,
        {
            if !self.is_validated(i) {
                assert(self@.status_of(i as int) != IncarnationStatus::Validated);
                return false;
            }
            i = i + 1;
        }
        true
    }
}

impl Scheduler {
    /// Set the status of `tx_idx`, keeping the lock-free mirrors in step.
    fn set_status(&mut self, tx_idx: TxIdx, st: TxStatus)
        requires
            old(self).wf(),
            tx_idx < old(self)@.block_size,
        ensures
            final(self).wf(),
            final(self)@ == old(self)@.with_status(tx_idx as int, st),
    {
        self.transactions_status.set(tx_idx, st);
        let done = st.status == IncarnationStatus::Executed || st.status
            == IncarnationStatus::Validated;
        self.done_flags.set(tx_idx, done);
        self.validated_flags.set(tx_idx, st.status == IncarnationStatus::Validated);
        assert(self@.statuses =~= old(self)@.statuses.update(tx_idx as int, st));
        assert(self@.dependents =~~= old(self)@.dependents);
        assert(self@.waiters =~~= old(self)@.waiters);
    }

    fn push_dependent(&mut self, key: TxIdx, tx_idx: TxIdx)
        requires
            old(self).wf(),
            key < old(self)@.block_size,
            tx_idx < old(self)@.block_size,
            tx_idx != key,
        ensures
            final(self).wf(),
            final(self)@ == old(self)@.with_dependent(key as int, tx_idx),
    {
        let mut d: Vec<TxIdx> = Vec::new();
        std::mem::swap(&mut d, &mut self.transactions_dependents[key]);
        d.push(tx_idx);
        self.transactions_dependents.set(key, d);
        assert(self@.dependents =~~= old(self)@.dependents.update(
            key as int,
            old(self)@.dependents[key as int].push(tx_idx),
        ));
        assert(self@.waiters =~~= old(self)@.waiters);
    }

    fn push_waiter(&mut self, key: TxIdx, tx_idx: TxIdx)
        requires
            old(self).wf(),
            key < old(self)@.block_size,
            tx_idx < old(self)@.block_size,
            tx_idx != key,
        ensures
            final(self).wf(),
            final(self)@ == old(self)@.with_waiter(key as int, tx_idx),
    {
        let mut d: Vec<TxIdx> = Vec::new();
        std::mem::swap(&mut d, &mut self.wait_for_dependency_waiters[key]);
        d.push(tx_idx);
        self.wait_for_dependency_waiters.set(key, d);
        assert(self@.waiters =~~= old(self)@.waiters.update(
            key as int,
            old(self)@.waiters[key as int].push(tx_idx),
        ));
        assert(self@.dependents =~~= old(self)@.dependents);
    }

    fn set_blocked_on(&mut self, tx_idx: TxIdx, writer: usize)
        requires
            old(self).wf(),
            tx_idx < old(self)@.block_size,
        ensures
            final(self).wf(),
            final(self)@ == (SchedulerView {
                blocked_on: old(self)@.blocked_on.update(tx_idx as int, writer),
                ..old(self)@
            }),
    {
        self.blocked_on.set(tx_idx, writer);
        assert(self@.blocked_on =~= old(self)@.blocked_on.update(tx_idx as int, writer));
        assert(self@.dependents =~~= old(self)@.dependents);
        assert(self@.waiters =~~= old(self)@.waiters);
    }

    /// Start executing `tx_idx` if it is ready: it becomes `Executing` at
    /// its current incarnation, which is returned.
    pub fn try_execute(&mut self, tx_idx: TxIdx) -> (r: Option<TxVersion>)
        requires
            old(self).wf(),
        ensures
            final(self).wf(),
            if tx_idx < old(self)@.block_size && old(self)@.status_of(tx_idx as int)
                == IncarnationStatus::ReadyToExecute {
                let inc = old(self)@.statuses[tx_idx as int].incarnation;
                &&& r == Some(TxVersion { tx_idx, tx_incarnation: inc })
                &&& final(self)@ == old(self)@.with_status(
                    tx_idx as int,
                    TxStatus { incarnation: inc, status: IncarnationStatus::Executing },
                )
            } else {
                r.is_none() && final(self)@ == old(self)@
            },
    {
        if tx_idx < self.block_size {
            let st = self.transactions_status[tx_idx];
            if st.status == IncarnationStatus::ReadyToExecute {
                self.set_status(
                    tx_idx,
                    TxStatus { incarnation: st.incarnation, status: IncarnationStatus::Executing },
                );
                return Some(TxVersion { tx_idx, tx_incarnation: st.incarnation });
            }
        }
        None
    }

    /// Park the executing `tx_idx` behind `blocking_tx_idx` so that it
    /// re-executes once that writer finishes. Refused (`false`, nothing
    /// changes) when the writer is already executed or validated.
    pub fn add_dependency(&mut self, tx_idx: TxIdx, blocking_tx_idx: TxIdx) -> (r: bool)
        requires
            old(self).wf(),
            tx_idx < old(self)@.block_size,
            blocking_tx_idx < old(self)@.block_size,
            is_done_status(old(self)@.status_of(blocking_tx_idx as int)) || tx_idx
                != blocking_tx_idx,
        ensures
            final(self).wf(),
            r == !is_done_status(old(self)@.status_of(blocking_tx_idx as int)),
            final(self)@ == (if r {
                old(self)@.parked(tx_idx as int, blocking_tx_idx)
            } else {
                old(self)@
            }),
    {
        if self.is_done(blocking_tx_idx) {
            return false;
        }
        let inc = self.transactions_status[tx_idx].incarnation;
        self.set_status(tx_idx, TxStatus { incarnation: inc, status: IncarnationStatus::Aborting });
        self.set_blocked_on(tx_idx, blocking_tx_idx);
        self.push_dependent(blocking_tx_idx, tx_idx);
        true
    }

    /// Park `tx_idx` behind `blocking_tx_idx` without aborting it: it stays
    /// `Executing` at the same incarnation until the writer finishes.
    /// Refused when the writer is already executed or validated.
    pub fn add_wait_for_dependency(&mut self, tx_idx: TxIdx, blocking_tx_idx: TxIdx) -> (r: bool)
        requires
            old(self).wf(),
            tx_idx < old(self)@.block_size,
            blocking_tx_idx < old(self)@.block_size,
            is_done_status(old(self)@.status_of(blocking_tx_idx as int)) || tx_idx
                != blocking_tx_idx,
        ensures
            final(self).wf(),
            r == !is_done_status(old(self)@.status_of(blocking_tx_idx as int)),
            final(self)@ == (if r {
                old(self)@.with_waiter(blocking_tx_idx as int, tx_idx)
            } else {
                old(self)@
            }),
    {
        if self.is_done(blocking_tx_idx) {
            return false;
        }
        self.push_waiter(blocking_tx_idx, tx_idx);
        true
    }

    /// Wake a wait-for-dependency waiter: `Executing` becomes ready at the
    /// same incarnation; any other status stays.
    fn set_wait_for_dependency_ready(&mut self, tx_idx: TxIdx)
        requires
            old(self).wf(),
            tx_idx < old(self)@.block_size,
        ensures
            final(self).wf(),
            final(self)@ == (if old(self)@.status_of(tx_idx as int)
                == IncarnationStatus::Executing {
                old(self)@.with_status(
                    tx_idx as int,
                    TxStatus {
                        incarnation: old(self)@.statuses[tx_idx as int].incarnation,
                        status: IncarnationStatus::ReadyToExecute,
                    },
                )
            } else {
                old(self)@
            }),
    {
        let st = self.transactions_status[tx_idx];
        if st.status != IncarnationStatus::Executing {
            return;
        }
        self.set_status(
            tx_idx,
            TxStatus { incarnation: st.incarnation, status: IncarnationStatus::ReadyToExecute },
        );
    }

    /// Park an already `Aborting` transaction behind an unfinished writer.
    /// Refused when the writer is already executed or validated.
    pub fn add_dependency_from_aborting(&mut self, tx_idx: TxIdx, blocking_tx_idx: TxIdx) -> (r:
        bool)
        requires
            old(self).wf(),
            tx_idx < old(self)@.block_size,
            blocking_tx_idx < old(self)@.block_size,
            is_done_status(old(self)@.status_of(blocking_tx_idx as int)) || tx_idx
                != blocking_tx_idx,
        ensures
            final(self).wf(),
            r == !is_done_status(old(self)@.status_of(blocking_tx_idx as int)),
            final(self)@ == (if r {
                old(self)@.with_dependent(blocking_tx_idx as int, tx_idx)
            } else {
                old(self)@
            }),
    {
        if self.is_done(blocking_tx_idx) {
            return false;
        }
        self.push_dependent(blocking_tx_idx, tx_idx);
        true
    }

    /// Park an executed consumer behind an unfinished writer without
    /// aborting it; the writer's finish re-queues its validation. Refused
    /// when the writer is done or the consumer is not.
    pub fn defer_validation_behind(&mut self, tx_idx: TxIdx, blocking_tx_idx: TxIdx) -> (r: bool)
        requires
            old(self).wf(),
            tx_idx < old(self)@.block_size,
            blocking_tx_idx < old(self)@.block_size,
            is_done_status(old(self)@.status_of(blocking_tx_idx as int)) || tx_idx
                != blocking_tx_idx,
        ensures
            final(self).wf(),
            r == (!is_done_status(old(self)@.status_of(blocking_tx_idx as int))
                && is_done_status(old(self)@.status_of(tx_idx as int))),
            final(self)@ == (if r {
                old(self)@.with_dependent(blocking_tx_idx as int, tx_idx)
            } else {
                old(self)@
            }),
    {
        if self.is_done(blocking_tx_idx) {
            return false;
        }
        if !self.is_done(tx_idx) {
            return false;
        }
        self.push_dependent(blocking_tx_idx, tx_idx);
        true
    }

    /// An `Aborting` transaction becomes ready at the next incarnation and
    /// is no longer parked; any other status stays.
    fn set_ready_status(&mut self, tx_idx: TxIdx)
        requires
            old(self).wf(),
            tx_idx < old(self)@.block_size,
            old(self)@.can_bump(tx_idx as int),
        ensures
            final(self).wf(),
            final(self)@ == old(self)@.readied(tx_idx as int),
    {
        let st = self.transactions_status[tx_idx];
        if st.status != IncarnationStatus::Aborting {
            return;
        }
        self.set_status(
            tx_idx,
            TxStatus { incarnation: st.incarnation + 1, status: IncarnationStatus::ReadyToExecute },
        );
        self.set_blocked_on(tx_idx, usize::MAX);
    }

    /// Ready an `Aborting` waiter (next incarnation); `false` otherwise.
    pub fn try_ready_waiter(&mut self, tx_idx: TxIdx) -> (r: bool)
        requires
            old(self).wf(),
            old(self)@.can_bump(tx_idx as int),
        ensures
            final(self).wf(),
            r == (tx_idx < old(self)@.block_size && old(self)@.status_of(tx_idx as int)
                == IncarnationStatus::Aborting),
            final(self)@ == (if r {
                old(self)@.readied(tx_idx as int)
            } else {
                old(self)@
            }),
    {
        if tx_idx >= self.block_size {
            return false;
        }
        if !self.is_aborting(tx_idx) {
            return false;
        }
        self.set_ready_status(tx_idx);
        true
    }

    /// Lost-wakeup recovery: `Aborting` becomes ready (next incarnation).
    pub fn recover_aborting(&mut self, tx_idx: TxIdx) -> (r: bool)
        requires
            old(self).wf(),
            old(self)@.can_bump(tx_idx as int),
        ensures
            final(self).wf(),
            r == (tx_idx < old(self)@.block_size && old(self)@.status_of(tx_idx as int)
                == IncarnationStatus::Aborting),
            final(self)@ == (if r {
                old(self)@.readied(tx_idx as int)
            } else {
                old(self)@
            }),
    {
        if tx_idx >= self.block_size || !self.is_aborting(tx_idx) {
            return false;
        }
        self.set_ready_status(tx_idx);
        self.is_ready(tx_idx)
    }

    /// A waiter left `Executing` after its worker returned: ready again at
    /// the same incarnation.
    pub fn recover_executing_waiter(&mut self, tx_idx: TxIdx) -> (r: bool)
        requires
            old(self).wf(),
        ensures
            final(self).wf(),
            r == (tx_idx < old(self)@.block_size && old(self)@.status_of(tx_idx as int)
                == IncarnationStatus::Executing),
            final(self)@ == (if r {
                old(self)@.with_status(
                    tx_idx as int,
                    TxStatus {
                        incarnation: old(self)@.statuses[tx_idx as int].incarnation,
                        status: IncarnationStatus::ReadyToExecute,
                    },
                )
            } else {
                old(self)@
            }),
    {
        if tx_idx >= self.block_size {
            return false;
        }
        let st = self.transactions_status[tx_idx];
        if st.status != IncarnationStatus::Executing {
            return false;
        }
        self.set_status(
            tx_idx,
            TxStatus { incarnation: st.incarnation, status: IncarnationStatus::ReadyToExecute },
        );
        true
    }

    fn rewind_validation(&mut self, tx_idx: TxIdx, rewind_to: Option<TxIdx>)
        requires
            old(self).wf(),
            tx_idx < old(self)@.block_size,
        ensures
            final(self).wf(),
            final(self)@ == old(self)@.rewound(tx_idx as int, rewind_to),
    {
        if let Some(to) = rewind_to {
            let to = clamp_usize(to, tx_idx + 1, self.block_size);
            if to < self.validation_idx {
                self.validation_idx = to;
            }
        }
    }

    fn lower_execution_idx(&mut self, tx_idx: TxIdx)
        requires
            old(self).wf(),
        ensures
            final(self).wf(),
            final(self)@ == (SchedulerView {
                execution_idx: min_nat(old(self)@.execution_idx, tx_idx as nat),
                ..old(self)@
            }),
    {
        if tx_idx < self.execution_idx {
            self.execution_idx = tx_idx;
        }
    }

    /// Validation abort that defers the re-execution: the transaction is
    /// ready again, the execution cursor comes back to it and the
    /// validation cursor rewinds to `rewind_to`. Never returns a task.
    pub fn finish_validation_fenced_defer_exec(
        &mut self,
        tx_version: &TxVersion,
        rewind_to: Option<TxIdx>,
    ) -> (r: Option<Task>)
        requires
            old(self).wf(),
            tx_version.tx_idx < old(self)@.block_size,
            old(self)@.can_bump(tx_version.tx_idx as int),
        ensures
            final(self).wf(),
            r.is_none(),
            final(self)@ == (SchedulerView {
                execution_idx: min_nat(old(self)@.execution_idx, tx_version.tx_idx as nat),
                ..old(self)@.readied(tx_version.tx_idx as int)
            }).rewound(tx_version.tx_idx as int, rewind_to),
    {
        self.set_ready_status(tx_version.tx_idx);
        self.lower_execution_idx(tx_version.tx_idx);
        self.rewind_validation(tx_version.tx_idx, rewind_to);
        None
    }

    /// Validation abort parked on a writer: the status stays `Aborting`;
    /// only the validation cursor rewinds.
    pub fn finish_validation_fenced_barrier_park(
        &mut self,
        tx_version: &TxVersion,
        rewind_to: Option<TxIdx>,
    ) -> (r: Option<Task>)
        requires
            old(self).wf(),
            rewind_to.is_some() ==> tx_version.tx_idx < old(self)@.block_size,
        ensures
            final(self).wf(),
            r.is_none(),
            final(self)@ == old(self)@.rewound(tx_version.tx_idx as int, rewind_to),
    {
        if rewind_to.is_some() {
            self.rewind_validation(tx_version.tx_idx, rewind_to);
        }
        None
    }
}

/// The first wait list (by key) that names `tx`; `usize::MAX` where none does.
pub open spec fn first_holder_ok(lists: Seq<Seq<TxIdx>>, tx: TxIdx, r: usize) -> bool {
    if r == usize::MAX {
        forall|b: int| 0 <= b < lists.len() ==> !(#[trigger] lists[b]).contains(tx)
    } else {
        &&& r < lists.len()
        &&& lists[r as int].contains(tx)
        &&& forall|b: int| 0 <= b < r ==> !(#[trigger] lists[b]).contains(tx)
    }
}

/// What a failed validation of `t` does (`try_validation_abort`), and
/// whether it aborted.
pub open spec fn validation_abort_spec(o: SchedulerView, t: int) -> (SchedulerView, bool) {
    let o1 = if o.status_of(t) == IncarnationStatus::Validated {
        SchedulerView { num_validated: wrap_dec(o.num_validated), ..o }
    } else {
        o
    };
    if is_done_status(o.status_of(t)) {
        (
            SchedulerView {
                blocked_on: o1.blocked_on.update(t, usize::MAX),
                ..o1.with_status(
                    t,
                    TxStatus { incarnation: o.statuses[t].incarnation, status: IncarnationStatus::Aborting },
                )
            },
            true,
        )
    } else {
        (o1, false)
    }
}

/// A passed validation: an executed transaction is validated and counted.
pub open spec fn validated_spec(o: SchedulerView, t: int) -> SchedulerView {
    if o.status_of(t) == IncarnationStatus::Executed {
        SchedulerView {
            num_validated: wrap_inc(o.num_validated),
            ..o.with_status(
                t,
                TxStatus { incarnation: o.statuses[t].incarnation, status: IncarnationStatus::Validated },
            )
        }
    } else {
        o
    }
}

/// What the end of a validation of `t` does (`finish_validation_fenced`),
/// and the task it hands back.
pub open spec fn finish_validation_spec(
    o: SchedulerView,
    t: int,
    aborted: bool,
    rewind_to: Option<TxIdx>,
) -> (SchedulerView, Option<Task>) {
    if aborted {
        let mid = (SchedulerView {
            execution_idx: min_nat(o.execution_idx, t as nat),
            ..o.readied(t)
        }).rewound(t, rewind_to);
        if mid.status_of(t) == IncarnationStatus::ReadyToExecute {
            let inc = mid.statuses[t].incarnation;
            (
                mid.with_status(t, TxStatus { incarnation: inc, status: IncarnationStatus::Executing }),
                Some(Task::Execution(TxVersion { tx_idx: t as usize, tx_incarnation: inc })),
            )
        } else {
            (mid, None)
        }
    } else {
        (validated_spec(o, t), None)
    }
}

impl Scheduler {
    fn bump_validated(&mut self)
        requires
            old(self).wf(),
        ensures
            final(self).wf(),
            final(self)@ == (SchedulerView {
                num_validated: wrap_inc(old(self)@.num_validated),
                ..old(self)@
            }),
    {
        self.num_validated = wrapping_inc(self.num_validated);
    }

    fn drop_validated(&mut self)
        requires
            old(self).wf(),
        ensures
            final(self).wf(),
            final(self)@ == (SchedulerView {
                num_validated: wrap_dec(old(self)@.num_validated),
                ..old(self)@
            }),
    {
        self.num_validated = wrapping_dec(self.num_validated);
    }

    /// A failed validation of `tx_version`: an executed or validated
    /// incarnation becomes `Aborting` (and is no longer parked); `true`
    /// exactly then. A validated one also leaves the validated count.
    pub fn try_validation_abort(&mut self, tx_version: &TxVersion) -> (r: bool)
        requires
            old(self).wf(),
            tx_version.tx_idx < old(self)@.block_size,
        ensures
            final(self).wf(),
            (final(self)@, r) == validation_abort_spec(old(self)@, tx_version.tx_idx as int),
    {
        let t = tx_version.tx_idx;
        let st = self.transactions_status[t];
        if st.status == IncarnationStatus::Validated {
            self.drop_validated();
        }
        let aborting = st.status == IncarnationStatus::Executed || st.status
            == IncarnationStatus::Validated;
        if aborting {
            self.set_status(t, TxStatus { incarnation: st.incarnation, status: IncarnationStatus::Aborting });
            self.set_blocked_on(t, usize::MAX);
        }
        aborting
    }

    /// Demote `Validated` to `Executed` so the read set can be re-checked;
    /// the executed version comes back, `None` for any other status.
    pub fn prepare_revalidate(&mut self, tx_idx: TxIdx) -> (r: Option<TxVersion>)
        requires
            old(self).wf(),
        ensures
            final(self).wf(),
            ({
                let o = old(self)@;
                let t = tx_idx as int;
                if tx_idx >= o.block_size {
                    r.is_none() && final(self)@ == o
                } else {
                    let inc = o.statuses[t].incarnation;
                    &&& r == (if is_done_status(o.status_of(t)) {
                        Some(TxVersion { tx_idx, tx_incarnation: inc })
                    } else {
                        None
                    })
                    &&& final(self)@ == (if o.status_of(t) == IncarnationStatus::Validated {
                        SchedulerView {
                            num_validated: wrap_dec(o.num_validated),
                            ..o.with_status(
                                t,
                                TxStatus { incarnation: inc, status: IncarnationStatus::Executed },
                            )
                        }
                    } else {
                        o
                    })
                }
            }),
    {
        if tx_idx >= self.block_size {
            return None;
        }
        let st = self.transactions_status[tx_idx];
        if st.status == IncarnationStatus::Validated {
            self.set_status(tx_idx, TxStatus { incarnation: st.incarnation, status: IncarnationStatus::Executed });
            self.drop_validated();
        }
        if st.status == IncarnationStatus::Executed || st.status == IncarnationStatus::Validated {
            Some(TxVersion { tx_idx, tx_incarnation: st.incarnation })
        } else {
            None
        }
    }

    /// A passed validation: `Executed` becomes `Validated` and is counted.
    fn mark_validated(&mut self, tx_idx: TxIdx)
        requires
            old(self).wf(),
            tx_idx < old(self)@.block_size,
        ensures
            final(self).wf(),
            final(self)@ == (if old(self)@.status_of(tx_idx as int)
                == IncarnationStatus::Executed {
                SchedulerView {
                    num_validated: wrap_inc(old(self)@.num_validated),
                    ..old(self)@.with_status(
                        tx_idx as int,
                        TxStatus {
                            incarnation: old(self)@.statuses[tx_idx as int].incarnation,
                            status: IncarnationStatus::Validated,
                        },
                    )
                }
            } else {
                old(self)@
            }),
    {
        let st = self.transactions_status[tx_idx];
        if st.status == IncarnationStatus::Executed {
            self.set_status(tx_idx, TxStatus { incarnation: st.incarnation, status: IncarnationStatus::Validated });
            self.bump_validated();
        }
    }

    /// The end of a validation in fence mode: an abort makes the
    /// transaction ready again and rewinds the validation cursor to
    /// `rewind_to`; a pass marks it validated. Never returns a task.
    pub fn finish_validation_sf(
        &mut self,
        tx_version: &TxVersion,
        aborted: bool,
        rewind_to: Option<TxIdx>,
    )
        requires
            old(self).wf(),
            tx_version.tx_idx < old(self)@.block_size,
            old(self)@.can_bump(tx_version.tx_idx as int),
        ensures
            final(self).wf(),
            final(self)@ == (if aborted {
                old(self)@.readied(tx_version.tx_idx as int).rewound(
                    tx_version.tx_idx as int,
                    rewind_to,
                )
            } else {
                let o = old(self)@;
                let t = tx_version.tx_idx as int;
                if o.status_of(t) == IncarnationStatus::Executed {
                    SchedulerView {
                        num_validated: wrap_inc(o.num_validated),
                        ..o.with_status(
                            t,
                            TxStatus {
                                incarnation: o.statuses[t].incarnation,
                                status: IncarnationStatus::Validated,
                            },
                        )
                    }
                } else {
                    o
                }
            }),
    {
        if aborted {
            self.set_ready_status(tx_version.tx_idx);
            self.rewind_validation(tx_version.tx_idx, rewind_to);
            return;
        }
        self.mark_validated(tx_version.tx_idx);
    }

    /// The end of a validation: an abort makes the transaction ready again
    /// at its next incarnation, brings the execution cursor back to it,
    /// rewinds the validation cursor to `rewind_to`, and hands its
    /// re-execution straight back; a pass marks it validated.
    pub fn finish_validation_fenced(
        &mut self,
        tx_version: &TxVersion,
        aborted: bool,
        rewind_to: Option<TxIdx>,
    ) -> (r: Option<Task>)
        requires
            old(self).wf(),
            tx_version.tx_idx < old(self)@.block_size,
            old(self)@.can_bump(tx_version.tx_idx as int),
        ensures
            final(self).wf(),
            (final(self)@, r) == finish_validation_spec(
                old(self)@,
                tx_version.tx_idx as int,
                aborted,
                rewind_to,
            ),
    {
        if aborted {
            self.set_ready_status(tx_version.tx_idx);
            self.lower_execution_idx(tx_version.tx_idx);
            self.rewind_validation(tx_version.tx_idx, rewind_to);
            return match self.try_execute(tx_version.tx_idx) {
                Some(v) => Some(Task::Execution(v)),
                None => None,
            };
        }
        self.mark_validated(tx_version.tx_idx);
        None
    }

    /// The end of a validation with the classic cascade: an abort rewinds
    /// validation to the transaction right after it.
    pub fn finish_validation(&mut self, tx_version: &TxVersion, aborted: bool) -> (r: Option<Task>)
        requires
            old(self).wf(),
            tx_version.tx_idx < old(self)@.block_size,
            old(self)@.can_bump(tx_version.tx_idx as int),
        ensures
            final(self).wf(),
            (final(self)@, r) == finish_validation_spec(
                old(self)@,
                tx_version.tx_idx as int,
                aborted,
                if aborted {
                    Some((tx_version.tx_idx + 1) as usize)
                } else {
                    None
                },
            ),
    {
        let rewind = if aborted {
            Some(tx_version.tx_idx + 1)
        } else {
            None
        };
        self.finish_validation_fenced(tx_version, aborted, rewind)
    }

    /// Remove every occurrence of `waiter` from the dependents of `writer`;
    /// `true` when there was one.
    pub fn detach_dependent(&mut self, writer: TxIdx, waiter: TxIdx) -> (r: bool)
        requires
            old(self).wf(),
        ensures
            final(self).wf(),
            writer >= old(self)@.block_size ==> !r && final(self)@ == old(self)@,
            writer < old(self)@.block_size ==> {
                let d = old(self)@.dependents[writer as int];
                &&& r == d.contains(waiter)
                &&& final(self)@ == (SchedulerView {
                    dependents: old(self)@.dependents.update(
                        writer as int,
                        d.filter(|t: TxIdx| t != waiter),
                    ),
                    ..old(self)@
                })
            },
    {
        if writer >= self.block_size {
            return false;
        }
        let mut d: Vec<TxIdx> = Vec::new();
        std::mem::swap(&mut d, &mut self.transactions_dependents[writer]);
        let ghost d0 = d@;
        assert(d0 == old(self)@.dependents[writer as int]);
        let mut kept: Vec<TxIdx> = Vec::new();
        let mut found = false;
        let mut i: usize = 0;
        while i < d.len()
            invariant
                d@ == d0,
                i <= d@.len(),
                kept@ == d0.take(i as int).filter(|t: TxIdx| t != waiter),
                found == d0.take(i as int).contains(waiter),
                (kept@.len() == i) == !found,
                kept@.len() <= i,
            decreases d.len() - i,
        {
            let t = d[i];
            if t != waiter {
                kept.push(t);
            } else {
                found = true;
            }
            proof {
                let f = |t: TxIdx| t != waiter;
                assert(d0.take(i + 1) =~= d0.take(i as int).push(d0[i as int]));
                d0.take(i as int).lemma_filter_push(d0[i as int], f);
                if t == waiter {
                    assert(d0.take(i + 1)[i as int] == waiter);
                }
            }
            i = i + 1;
        }
        assert(d0.take(d0.len() as int) =~= d0);
        let changed = kept.len() != d.len();
        self.transactions_dependents.set(writer, kept);
        proof {
            let f = |t: TxIdx| t != waiter;
            assert forall|k: int| 0 <= k < d0.filter(f).len() implies d0.contains(#[trigger] d0.filter(f)[k]) by {
                d0.lemma_filter_contains_rev(f, d0.filter(f)[k]);
            }
        }
        assert(self@.dependents =~~= old(self)@.dependents.update(
            writer as int,
            d0.filter(|t: TxIdx| t != waiter),
        ));
        assert(self@.waiters =~~= old(self)@.waiters);
        changed
    }

    /// Drop a stale park of `waiter` on `writer`: clear its blocked-on mark
    /// when it names that writer, and detach it from the writer's dependents.
    pub fn clear_stale_block(&mut self, waiter: TxIdx, writer: TxIdx)
        requires
            old(self).wf(),
        ensures
            final(self).wf(),
            ({
                let o = old(self)@;
                if waiter >= o.block_size {
                    final(self)@ == o
                } else {
                    let o1 = if o.blocked_on[waiter as int] == writer {
                        SchedulerView { blocked_on: o.blocked_on.update(waiter as int, usize::MAX), ..o }
                    } else {
                        o
                    };
                    final(self)@ == (if writer < o.block_size {
                        SchedulerView {
                            dependents: o.dependents.update(
                                writer as int,
                                o.dependents[writer as int].filter(|t: TxIdx| t != waiter),
                            ),
                            ..o1
                        }
                    } else {
                        o1
                    })
                }
            }),
    {
        if waiter >= self.block_size {
            return;
        }
        if self.blocked_on[waiter] == writer {
            self.set_blocked_on(waiter, usize::MAX);
        }
        if writer < self.block_size {
            let _ = self.detach_dependent(writer, waiter);
        }
    }

    /// The writer an `Aborting` park still waits for: `None` once that
    /// writer is done, or when no park is recorded.
    pub fn live_block(&self, tx_idx: TxIdx) -> (r: Option<TxIdx>)
        requires
            self.wf(),
        ensures
            r == (if tx_idx >= self@.block_size {
                None
            } else {
                let b = self@.blocked_on[tx_idx as int];
                if b >= self@.block_size || self@.done(b as int) {
                    None
                } else {
                    Some(b)
                }
            }),
    {
        if tx_idx >= self.block_size {
            return None;
        }
        let b = self.blocked_on[tx_idx];
        if b >= self.block_size || self.is_done(b) {
            None
        } else {
            Some(b)
        }
    }

    /// For a hang trace: the incarnation of `waiter`, the first writer whose
    /// dependents name it and the first writer whose wait-for-dependency
    /// waiters name it (`usize::MAX` where none).
    pub fn hang_dep_of(&self, waiter: TxIdx) -> (r: (usize, usize, usize))
        requires
            self.wf(),
        ensures
            waiter >= self@.block_size ==> r == (0usize, usize::MAX, usize::MAX),
            waiter < self@.block_size ==> {
                &&& r.0 == self@.statuses[waiter as int].incarnation
                &&& first_holder_ok(self@.dependents, waiter, r.1)
                &&& first_holder_ok(self@.waiters, waiter, r.2)
            },
    {
        if waiter >= self.block_size {
            return (0, usize::MAX, usize::MAX);
        }
        let inc = self.transactions_status[waiter].incarnation;
        let mut dep = usize::MAX;
        let mut wfd = usize::MAX;
        let mut b: usize = 0;
        proof {
            self.lemma_view_lens();
        }
        while b < self.block_size && (dep == usize::MAX || wfd == usize::MAX)
            invariant
                self.wf(),
                b <= self.block_size,
                self@.dependents.len() == self@.block_size,
                self@.waiters.len() == self@.block_size,
                dep == usize::MAX ==> forall|k: int| 0 <= k < b ==> !(#[trigger] self@.dependents[k]).contains(waiter),
                dep != usize::MAX ==> first_holder_ok(self@.dependents, waiter, dep),
                wfd == usize::MAX ==> forall|k: int| 0 <= k < b ==> !(#[trigger] self@.waiters[k]).contains(waiter),
                wfd != usize::MAX ==> first_holder_ok(self@.waiters, waiter, wfd),
            decreases self.block_size - b,
        {
            if dep == usize::MAX {
                if contains_idx(&self.transactions_dependents[b], waiter) {
                    dep = b;
                }
            }
            if wfd == usize::MAX {
                if contains_idx(&self.wait_for_dependency_waiters[b], waiter) {
                    wfd = b;
                }
            }
            b = b + 1;
        }
        (inc, dep, wfd)
    }
}

fn contains_idx(v: &Vec<TxIdx>, x: TxIdx) -> (r: bool)
    ensures
        r == v@.contains(x),
{
    let mut i: usize = 0;
    while i < v.len()
        invariant
            i <= v@.len(),
            forall|k: int| 0 <= k < i ==> v@[k] != x,
        decreases v.len() - i,
    {
        if v[i] == x {
            assert(v@[i as int] == x);
            return true;
        }
        i = i + 1;
    }
    false
}

/// The smallest of `init` and those entries of `s` that `keep` accepts.
pub open spec fn min_where(s: Seq<TxIdx>, keep: spec_fn(TxIdx) -> bool, init: nat) -> nat
    decreases s.len(),
{
    if s.len() == 0 {
        init
    } else {
        let m = min_where(s.drop_last(), keep, init);
        if keep(s.last()) {
            min_nat(m, s.last() as nat)
        } else {
            m
        }
    }
}

proof fn lemma_min_where_step(s: Seq<TxIdx>, keep: spec_fn(TxIdx) -> bool, init: nat, k: int)
    requires
        0 <= k < s.len(),
    ensures
        min_where(s.take(k + 1), keep, init) == (if keep(s[k]) {
            min_nat(min_where(s.take(k), keep, init), s[k] as nat)
        } else {
            min_where(s.take(k), keep, init)
        }),
{
    assert(s.take(k + 1).drop_last() =~= s.take(k));
}

/// The status of transaction `j` after a writer's finish woke `drained`
/// (its dependents: an `Aborting` one is ready at the next incarnation)
/// and `pins` (its wait-for-dependency waiters: an `Executing` one is
/// ready at the same incarnation).
pub open spec fn woken(st: TxStatus, j: TxIdx, drained: Seq<TxIdx>, pins: Seq<TxIdx>) -> TxStatus {
    if drained.contains(j) && st.status == IncarnationStatus::Aborting {
        TxStatus {
            incarnation: (st.incarnation + 1) as usize,
            status: IncarnationStatus::ReadyToExecute,
        }
    } else if pins.contains(j) && st.status == IncarnationStatus::Executing {
        TxStatus { incarnation: st.incarnation, status: IncarnationStatus::ReadyToExecute }
    } else {
        st
    }
}

/// Where the minimum validation index stands after a finish.
pub open spec fn finish_min_validation(o: SchedulerView, t: int, flags: FinishExecFlags) -> nat {
    if flags.need_validation {
        min_nat(o.min_validation_idx, t as nat)
    } else {
        o.min_validation_idx
    }
}

/// The finished transaction lies between the minimum validation index and
/// the validation cursor: it is validated (or re-validated) right away.
pub open spec fn finish_in_window(o: SchedulerView, t: int, flags: FinishExecFlags) -> bool {
    let mv = finish_min_validation(o, t, flags);
    mv < o.block_size && t >= mv && t < o.validation_idx
}

/// The statuses right after the finished transaction's own update.
pub open spec fn finish_own_status(o: SchedulerView, t: int, flags: FinishExecFlags) -> Seq<TxStatus> {
    o.statuses.update(
        t,
        TxStatus {
            incarnation: o.statuses[t].incarnation,
            status: if flags.need_validation {
                IncarnationStatus::Executed
            } else {
                IncarnationStatus::Validated
            },
        },
    )
}

/// What `finish_execution` makes of the scheduler, and what it returns.
pub open spec fn finish_exec_spec(o: SchedulerView, tv: TxVersion, flags: FinishExecFlags) -> (
    SchedulerView,
    Option<Task>,
) {
    let t = tv.tx_idx as int;
    let n = o.block_size;
    let drained = o.dependents[t];
    let pins = o.waiters[t];
    let mv = finish_min_validation(o, t, flags);
    let below = mv < n && t < mv;
    let in_window = finish_in_window(o, t, flags);
    let val1 = if below && flags.wrote_new_location {
        min_nat(o.validation_idx, mv)
    } else if in_window && flags.wrote_new_location {
        min_nat(o.validation_idx, (t + 1) as nat)
    } else {
        o.validation_idx
    };
    let counted = if flags.need_validation {
        o.num_validated
    } else if in_window {
        wrap_inc(wrap_inc(o.num_validated))
    } else {
        wrap_inc(o.num_validated)
    };
    let s1 = finish_own_status(o, t, flags);
    let not_done = |d: TxIdx| !is_done_status(s1[d as int].status);
    let done = |d: TxIdx| is_done_status(s1[d as int].status);
    (
        SchedulerView {
            statuses: Seq::new(n, |j: int| woken(s1[j], j as TxIdx, drained, pins)),
            dependents: o.dependents.update(t, Seq::empty()),
            blocked_on: Seq::new(
                n,
                |j: int|
                    if drained.contains(j as TxIdx) && s1[j].status == IncarnationStatus::Aborting {
                        usize::MAX
                    } else {
                        o.blocked_on[j]
                    },
            ),
            waiters: o.waiters.update(t, Seq::empty()),
            execution_idx: min_where(pins, |d: TxIdx| true, min_where(drained, not_done, o.execution_idx)),
            validation_idx: min_where(drained, done, val1),
            min_validation_idx: mv,
            num_validated: counted,
            ..o
        },
        if in_window && flags.need_validation {
            Some(Task::Validation(tv))
        } else {
            None
        },
    )
}

impl Scheduler {
    /// The end of an execution. The transaction becomes `Executed` (when
    /// its reads need validation) or `Validated`; the validation cursor and
    /// minimum move as the flags say; its dependents wake (an aborting one
    /// is ready at its next incarnation, an executed one is re-validated)
    /// and so do its wait-for-dependency waiters (ready at the same
    /// incarnation). A validation task comes back when the transaction must
    /// be validated at once.
    pub fn finish_execution(&mut self, tx_version: TxVersion, flags: FinishExecFlags) -> (r:
        Option<Task>)
        requires
            old(self).wf(),
            tx_version.tx_idx < old(self)@.block_size,
            forall|k: int|
                0 <= k < old(self)@.dependents[tx_version.tx_idx as int].len() ==> old(
                    self,
                )@.can_bump(#[trigger] old(self)@.dependents[tx_version.tx_idx as int][k] as int),
        ensures
            final(self).wf(),
            (final(self)@, r) == finish_exec_spec(old(self)@, tx_version, flags),
    {
        let ghost o = self@;
        let t = tx_version.tx_idx;
        let ghost n = o.block_size;
        proof {
            self.lemma_view_lens();
        }
        let mut drained: Vec<TxIdx> = Vec::new();
        std::mem::swap(&mut drained, &mut self.transactions_dependents[t]);
        let mut pins: Vec<TxIdx> = Vec::new();
        std::mem::swap(&mut pins, &mut self.wait_for_dependency_waiters[t]);
        let ghost dd = drained@;
        let ghost pp = pins@;
        assert(dd == o.dependents[t as int]);
        assert(pp == o.waiters[t as int]);
        assert(self@.dependents =~~= o.dependents.update(t as int, Seq::empty()));
        assert(self@.waiters =~~= o.waiters.update(t as int, Seq::empty()));
        let mv = if flags.need_validation {
            if t < self.min_validation_idx {
                self.min_validation_idx = t;
            }
            self.min_validation_idx
        } else {
            self.min_validation_idx
        };
        let inc = self.transactions_status[t].incarnation;
        let mut early = false;
        if mv < self.block_size {
            if t < mv {
                if flags.wrote_new_location && mv < self.validation_idx {
                    self.validation_idx = mv;
                }
            } else if t < self.validation_idx {
                if flags.wrote_new_location && t + 1 < self.validation_idx {
                    self.validation_idx = t + 1;
                }
                if flags.need_validation {
                    self.set_status(t, TxStatus { incarnation: inc, status: IncarnationStatus::Executed });
                    early = true;
                } else {
                    self.set_status(t, TxStatus { incarnation: inc, status: IncarnationStatus::Validated });
                    self.bump_validated();
                }
            }
        }
        if !early {
            if flags.need_validation {
                self.set_status(t, TxStatus { incarnation: inc, status: IncarnationStatus::Executed });
            } else {
                self.set_status(t, TxStatus { incarnation: inc, status: IncarnationStatus::Validated });
                self.bump_validated();
            }
        }
        let ghost spec = finish_exec_spec(o, tx_version, flags);
        let ghost s1 = finish_own_status(o, t as int, flags);
        let ghost not_done = |d: TxIdx| !is_done_status(s1[d as int].status);
        let ghost done = |d: TxIdx| is_done_status(s1[d as int].status);
        let ghost val1 = self@.validation_idx;
        let ghost exec0 = self@.execution_idx;
        assert(self@.statuses =~= s1);
        assert(self@.statuses =~= Seq::new(n, |j: int| woken(s1[j], j as TxIdx, dd.take(0), Seq::empty())));
        assert(self@.blocked_on =~= Seq::new(
            n,
            |j: int|
                if dd.take(0).contains(j as TxIdx) && s1[j].status == IncarnationStatus::Aborting {
                    usize::MAX
                } else {
                    o.blocked_on[j]
                },
        ));
        let mut k: usize = 0;
        while k < drained.len()
            invariant
                self.wf(),
                drained@ == dd,
                k <= dd.len(),
                t < n,
                n == self@.block_size,
                n == o.block_size,
                o.statuses.len() == n,
                o.blocked_on.len() == n,
                s1.len() == n,
                forall|q: int| 0 <= q < dd.len() ==> #[trigger] dd[q] < n && dd[q] != t,
                forall|q: int| 0 <= q < dd.len() ==> o.can_bump(#[trigger] dd[q] as int),
                forall|j: int| 0 <= j < n && j != t ==> #[trigger] s1[j] == o.statuses[j],
                self@.statuses == Seq::new(n, |j: int| woken(s1[j], j as TxIdx, dd.take(k as int), Seq::empty())),
                self@.blocked_on == Seq::new(
                    n,
                    |j: int|
                        if dd.take(k as int).contains(j as TxIdx) && s1[j].status
                            == IncarnationStatus::Aborting {
                            usize::MAX
                        } else {
                            o.blocked_on[j]
                        },
                ),
                not_done == (|d: TxIdx| !is_done_status(s1[d as int].status)),
                done == (|d: TxIdx| is_done_status(s1[d as int].status)),
                self@.execution_idx == min_where(dd.take(k as int), not_done, exec0),
                self@.validation_idx == min_where(dd.take(k as int), done, val1),
                self@.dependents == spec.0.dependents,
                self@.waiters == spec.0.waiters,
                self@.min_validation_idx == spec.0.min_validation_idx,
                self@.num_validated == spec.0.num_validated,
                self@.aborted == o.aborted,
                self@.ready_hint == o.ready_hint,
            decreases dd.len() - k,
        {
            let d = drained[k];
            proof {
                lemma_min_where_step(dd, not_done, exec0, k as int);
                lemma_min_where_step(dd, done, val1, k as int);
                assert(dd.take(k + 1) =~= dd.take(k as int).push(d));
                assert(dd[k as int] == d);
                assert(o.can_bump(d as int));
                assert(s1[d as int] == o.statuses[d as int]);
                assert(self@.statuses[d as int] == woken(s1[d as int], d, dd.take(k as int), Seq::empty()));
                assert(is_done_status(self@.statuses[d as int].status) == is_done_status(s1[d as int].status));
                assert(not_done(d) == !is_done_status(s1[d as int].status));
                assert(done(d) == is_done_status(s1[d as int].status));
                if dd.take(k as int).contains(d) && s1[d as int].status == IncarnationStatus::Aborting {
                    assert(self@.status_of(d as int) == IncarnationStatus::ReadyToExecute);
                    assert(self@.can_bump(d as int));
                } else {
                    assert(self@.statuses[d as int] == o.statuses[d as int]);
                    assert(o.statuses[d as int].status != IncarnationStatus::Aborting || o.statuses[d as int].incarnation < usize::MAX);
                    assert(self@.can_bump(d as int));
                }
            }
            if self.is_done(d) {
                if d < self.validation_idx {
                    self.validation_idx = d;
                }
            } else {
                self.set_ready_status(d);
                self.lower_execution_idx(d);
            }
            proof {
                assert forall|j: int| 0 <= j < n implies #[trigger] self@.statuses[j] == woken(
                    s1[j],
                    j as TxIdx,
                    dd.take(k + 1),
                    Seq::empty(),
                ) by {
                    if j != d {
                        assert(dd.take(k + 1).contains(j as TxIdx) == dd.take(k as int).contains(
                            j as TxIdx,
                        ));
                    } else {
                        assert(dd.take(k + 1).contains(j as TxIdx)) by {
                            assert(dd.take(k + 1)[k as int] == d);
                        }
                    }
                }
                assert(self@.statuses =~= Seq::new(
                    n,
                    |j: int| woken(s1[j], j as TxIdx, dd.take(k + 1), Seq::empty()),
                ));
                assert forall|j: int| 0 <= j < n implies #[trigger] self@.blocked_on[j] == (
                if dd.take(k + 1).contains(j as TxIdx) && s1[j].status
                    == IncarnationStatus::Aborting {
                    usize::MAX
                } else {
                    o.blocked_on[j]
                }) by {
                    if j != d {
                        assert(dd.take(k + 1).contains(j as TxIdx) == dd.take(k as int).contains(
                            j as TxIdx,
                        ));
                    } else {
                        assert(dd.take(k + 1)[k as int] == d);
                    }
                }
                assert(self@.blocked_on =~= Seq::new(
                    n,
                    |j: int|
                        if dd.take(k + 1).contains(j as TxIdx) && s1[j].status
                            == IncarnationStatus::Aborting {
                            usize::MAX
                        } else {
                            o.blocked_on[j]
                        },
                ));
            }
            k = k + 1;
        }
        assert(dd.take(dd.len() as int) =~= dd);
        let ghost exec1 = self@.execution_idx;
        assert(self@.statuses =~= Seq::new(n, |j: int| woken(s1[j], j as TxIdx, dd, pp.take(0))));
        let mut k: usize = 0;
        while k < pins.len()
            invariant
                self.wf(),
                pins@ == pp,
                k <= pp.len(),
                t < n,
                n == self@.block_size,
                s1.len() == n,
                forall|q: int| 0 <= q < pp.len() ==> #[trigger] pp[q] < n && pp[q] != t,
                self@.statuses == Seq::new(n, |j: int| woken(s1[j], j as TxIdx, dd, pp.take(k as int))),
                self@.execution_idx == min_where(pp.take(k as int), |d: TxIdx| true, exec1),
                self@.blocked_on == spec.0.blocked_on,
                self@.validation_idx == spec.0.validation_idx,
                self@.dependents == spec.0.dependents,
                self@.waiters == spec.0.waiters,
                self@.min_validation_idx == spec.0.min_validation_idx,
                self@.num_validated == spec.0.num_validated,
                self@.aborted == o.aborted,
                self@.ready_hint == o.ready_hint,
            decreases pp.len() - k,
        {
            let d = pins[k];
            proof {
                lemma_min_where_step(pp, |d: TxIdx| true, exec1, k as int);
                assert(pp.take(k + 1) =~= pp.take(k as int).push(d));
            }
            self.set_wait_for_dependency_ready(d);
            self.lower_execution_idx(d);
            proof {
                assert forall|j: int| 0 <= j < n implies #[trigger] self@.statuses[j] == woken(
                    s1[j],
                    j as TxIdx,
                    dd,
                    pp.take(k + 1),
                ) by {
                    if j != d {
                        assert(pp.take(k + 1).contains(j as TxIdx) == pp.take(k as int).contains(
                            j as TxIdx,
                        ));
                    } else {
                        assert(pp.take(k + 1)[k as int] == d);
                    }
                }
                assert(self@.statuses =~= Seq::new(
                    n,
                    |j: int| woken(s1[j], j as TxIdx, dd, pp.take(k + 1)),
                ));
            }
            k = k + 1;
        }
        assert(pp.take(pp.len() as int) =~= pp);
        assert(self@ == spec.0);
        if early {
            Some(Task::Validation(tx_version))
        } else {
            None
        }
    }
}

/// Distance from `start` to `j` going round a block of `n` transactions.
pub open spec fn circ_off(start: nat, j: int, n: nat) -> int {
    if j >= start {
        j - start
    } else {
        j + n - start
    }
}

/// Where the scan for a runnable transaction starts.
pub open spec fn scan_start(v: SchedulerView) -> nat {
    if v.ready_hint < v.block_size {
        v.ready_hint
    } else {
        0
    }
}


/// `i` is the first ready transaction going round the block from the scan
/// start.
pub open spec fn is_first_ready(v: SchedulerView, i: int) -> bool {
    &&& 0 <= i < v.block_size
    &&& v.status_of(i) == IncarnationStatus::ReadyToExecute
    &&& forall|j: int|
        0 <= j < v.block_size && circ_off(scan_start(v), j, v.block_size) < circ_off(scan_start(v), i, v.block_size)
            ==> #[trigger] v.status_of(j) != IncarnationStatus::ReadyToExecute
}

/// The first ready transaction from the scan start, if any is ready.
pub open spec fn first_ready(v: SchedulerView) -> Option<int> {
    if exists|i: int| is_first_ready(v, i) {
        Some(choose|i: int| is_first_ready(v, i))
    } else {
        None
    }
}

proof fn lemma_first_ready_unique(v: SchedulerView, i: int)
    requires
        is_first_ready(v, i),
    ensures
        first_ready(v) == Some(i),
{
    let k = choose|k: int| is_first_ready(v, k);
    assert(is_first_ready(v, k));
    let st = scan_start(v);
    let n = v.block_size;
    if circ_off(st, i, n) < circ_off(st, k, n) {
        assert(v.status_of(i) != IncarnationStatus::ReadyToExecute);
    } else if circ_off(st, k, n) < circ_off(st, i, n) {
        assert(v.status_of(k) != IncarnationStatus::ReadyToExecute);
    }
}

/// The task the scheduler's walk hands out, and the state it leaves, from
/// state `v` (`hit`: a scan already moved the execution cursor back to a
/// ready transaction). In order: when both cursors are past the block, scan
/// from the hint for a ready transaction and move the execution cursor back
/// to it, else finish when everything is done and enough is counted
/// validated, else idle; execute the transaction at the execution cursor
/// if it is ready; otherwise, when the validation cursor is below the
/// execution cursor, take the transaction there (execute it if ready,
/// validate it if executed or validated, skip it if aborting); otherwise
/// advance the execution cursor and go on.
pub open spec fn pick_spec(v: SchedulerView, hit: bool) -> (SchedulerView, Pick)
    decreases
        (if hit {
            0int
        } else {
            1int
        }),
        v.block_size - min_nat(v.validation_idx, v.block_size),
        v.block_size - min_nat(v.execution_idx, v.block_size),
{
    let n = v.block_size;
    let e = v.execution_idx;
    let vi = v.validation_idx;
    if e >= n && vi >= n {
        if hit {
            (v, Pick::Idle)
        } else {
            match first_ready(v) {
                Some(i) => pick_spec(
                    SchedulerView {
                        ready_hint: (i + 1) as nat,
                        execution_idx: if i < e {
                            i as nat
                        } else {
                            e
                        },
                        ..v
                    },
                    true,
                ),
                None => (
                    v,
                    if v.num_validated + v.min_validation_idx >= n && !v.has_undone() {
                        Pick::Finished
                    } else {
                        Pick::Idle
                    },
                ),
            }
        }
    } else if e < n && v.status_of(e as int) == IncarnationStatus::ReadyToExecute {
        let inc = v.statuses[e as int].incarnation;
        (
            SchedulerView {
                execution_idx: e + 1,
                ..v.with_status(e as int, TxStatus { incarnation: inc, status: IncarnationStatus::Executing })
            },
            Pick::Run(Task::Execution(TxVersion { tx_idx: e as usize, tx_incarnation: inc })),
        )
    } else {
        let v2 = if vi < e {
            SchedulerView { validation_idx: vi + 1, ..v }
        } else {
            v
        };
        let st = v.statuses[vi as int];
        let ver = TxVersion { tx_idx: vi as usize, tx_incarnation: st.incarnation };
        if vi < e && vi < n && st.status == IncarnationStatus::ReadyToExecute {
            (
                v2.with_status(vi as int, TxStatus { incarnation: st.incarnation, status: IncarnationStatus::Executing }),
                Pick::Run(Task::Execution(ver)),
            )
        } else if vi < e && vi < n && (st.status == IncarnationStatus::Executed || st.status
            == IncarnationStatus::Validated) {
            (v2, Pick::Run(Task::Validation(ver)))
        } else if vi < e && vi < n && st.status == IncarnationStatus::Aborting {
            pick_spec(v2, hit)
        } else {
            pick_spec(
                SchedulerView {
                    execution_idx: if e < n {
                        e + 1
                    } else {
                        wrap_inc(e)
                    },
                    ..v2
                },
                hit,
            )
        }
    }
}

impl Scheduler {
    /// The first ready transaction going round the block from the scan
    /// hint; a hit moves the hint just past it.
    fn min_runnable(&mut self) -> (r: MinRun)
        requires
            old(self).wf(),
        ensures
            final(self).wf(),
            ({
                let o = old(self)@;
                let n = o.block_size;
                let start = scan_start(o);
                match r {
                    MinRun::Hit(i) => {
                        &&& i < n
                        &&& o.status_of(i as int) == IncarnationStatus::ReadyToExecute
                        &&& forall|j: int|
                            0 <= j < n && circ_off(start, j, n) < circ_off(start, i as int, n)
                                ==> #[trigger] o.status_of(j) != IncarnationStatus::ReadyToExecute
                        &&& final(self)@ == (SchedulerView { ready_hint: (i + 1) as nat, ..o })
                    },
                    MinRun::Empty => !o.has_ready() && final(self)@ == o,
                }
            }),
    {
        let n = self.block_size;
        let start = if self.ready_hint < n {
            self.ready_hint
        } else {
            0
        };
        let mut off: usize = 0;
        while off < n
            invariant
                self.wf(),
                self@ == old(self)@,
                n == self@.block_size,
                start == scan_start(self@),
                off <= n,
                forall|j: int|
                    0 <= j < n && circ_off(start as nat, j, n as nat) < off
                        ==> #[trigger] self@.status_of(j) != IncarnationStatus::ReadyToExecute,
            decreases n - off,
        {
            let i = if off < n - start {
                start + off
            } else {
                off - (n - start)
            };
            assert(circ_off(start as nat, i as int, n as nat) == off);
            if !self.is_done(i) && !self.is_validated(i) && self.is_ready(i) {
                self.ready_hint = i + 1;
                return MinRun::Hit(i);
            }
            off = off + 1;
        }
        proof {
            assert forall|j: int| 0 <= j < n implies #[trigger] self@.status_of(j)
                != IncarnationStatus::ReadyToExecute by {
                assert(circ_off(start as nat, j, n as nat) < n);
            }
        }
        MinRun::Empty
    }

    /// The next task for a worker. An execution task is handed out only
    /// for a ready transaction, which becomes `Executing` at the same
    /// incarnation; a validation task only for an executed or validated
    /// one. `Finished` comes only when the scheduler was aborted or every
    /// transaction is executed or validated and enough are counted
    /// validated; `Idle` only when nothing is ready but the block is not
    /// finished. No other status changes, and no wait list.
    pub fn next_task(&mut self) -> (r: Pick)
        requires
            old(self).wf(),
        ensures
            final(self).wf(),
            old(self)@.aborted ==> final(self)@ == old(self)@ && r == Pick::Finished,
            !old(self)@.aborted ==> (final(self)@, r) == pick_spec(old(self)@, false),
            final(self)@.same_links(old(self)@),
            final(self)@.aborted == old(self)@.aborted,
            final(self)@.num_validated == old(self)@.num_validated,
            final(self)@.min_validation_idx == old(self)@.min_validation_idx,
            ({
                let o = old(self)@;
                let n = o.block_size;
                match r {
                    Pick::Run(Task::Execution(v)) => {
                        &&& v.tx_idx < n
                        &&& o.statuses[v.tx_idx as int] == (TxStatus {
                            incarnation: v.tx_incarnation,
                            status: IncarnationStatus::ReadyToExecute,
                        })
                        &&& final(self)@.statuses == o.statuses.update(
                            v.tx_idx as int,
                            TxStatus { incarnation: v.tx_incarnation, status: IncarnationStatus::Executing },
                        )
                    },
                    Pick::Run(Task::Validation(v)) => {
                        &&& v.tx_idx < n
                        &&& is_done_status(o.status_of(v.tx_idx as int))
                        &&& o.statuses[v.tx_idx as int].incarnation == v.tx_incarnation
                        &&& final(self)@.statuses == o.statuses
                    },
                    Pick::Idle => {
                        &&& !o.aborted
                        &&& !o.has_ready()
                        &&& (o.has_undone() || o.num_validated + o.min_validation_idx < n)
                        &&& final(self)@.statuses == o.statuses
                    },
                    Pick::Finished => {
                        &&& o.aborted || (!o.has_undone() && o.num_validated + o.min_validation_idx >= n)
                        &&& final(self)@.statuses == o.statuses
                    },
                }
            }),
    {
        let ghost o = self@;
        if self.aborted {
            return Pick::Finished;
        }
        let n = self.block_size;
        let ghost mut hit = false;
        loop
            invariant
                self.wf(),
                o == old(self)@,
                n == self@.block_size,
                self@.same_links(o),
                !self@.aborted,
                !o.aborted,
                self@.num_validated == o.num_validated,
                self@.min_validation_idx == o.min_validation_idx,
                self@.statuses == o.statuses,
                o.block_size == n,
                pick_spec(self@, hit) == pick_spec(o, false),
                hit ==> self.execution_idx < n && self@.status_of(self.execution_idx as int)
                    == IncarnationStatus::ReadyToExecute,
            decreases
                (if hit {
                    0int
                } else {
                    1int
                }),
                n - min_nat(self.validation_idx as nat, n as nat),
                n - min_nat(self.execution_idx as nat, n as nat),
        {
            let ghost s0 = self@;
            let e = self.execution_idx;
            let v = self.validation_idx;
            if e >= n && v >= n {
                let validated_done = self.num_validated >= n - self.min_validation_idx;
                match self.min_runnable() {
                    MinRun::Hit(idx) => {
                        proof {
                            lemma_first_ready_unique(s0, idx as int);
                        }
                        if idx < self.execution_idx {
                            self.execution_idx = idx;
                        }
                        proof {
                            hit = true;
                        }
                        continue ;
                    },
                    MinRun::Empty => {
                        proof {
                            if exists|i: int| is_first_ready(s0, i) {
                                let i = choose|i: int| is_first_ready(s0, i);
                                assert(s0.status_of(i) == IncarnationStatus::ReadyToExecute);
                            }
                            assert forall|i: int| 0 <= i < n implies #[trigger] o.status_of(i)
                                != IncarnationStatus::ReadyToExecute by {
                                assert(self@.status_of(i) == o.status_of(i));
                            }
                        }
                        let unfinished = self.has_unfinished();
                        proof {
                            if unfinished {
                                let i = choose|i: int| 0 <= i < n && !is_done_status(#[trigger] self@.status_of(i));
                                assert(o.status_of(i) == self@.status_of(i));
                            } else {
                                assert forall|i: int| 0 <= i < n implies is_done_status(#[trigger] o.status_of(i)) by {
                                    assert(o.status_of(i) == self@.status_of(i));
                                }
                            }
                        }
                        if validated_done && !unfinished {
                            return Pick::Finished;
                        }
                        return Pick::Idle;
                    },
                }
            }
            if e < n {
                if let Some(ver) = self.try_execute(e) {
                    if e + 1 > self.execution_idx {
                        self.execution_idx = e + 1;
                    }
                    return Pick::Run(Task::Execution(ver));
                }
            }
            if v < e {
                let tx_idx = self.validation_idx;
                self.validation_idx = tx_idx + 1;
                if tx_idx < n {
                    let st = self.transactions_status[tx_idx];
                    if st.status == IncarnationStatus::ReadyToExecute {
                        self.set_status(
                            tx_idx,
                            TxStatus { incarnation: st.incarnation, status: IncarnationStatus::Executing },
                        );
                        return Pick::Run(
                            Task::Execution(TxVersion { tx_idx, tx_incarnation: st.incarnation }),
                        );
                    }
                    if st.status == IncarnationStatus::Executed || st.status
                        == IncarnationStatus::Validated {
                        return Pick::Run(
                            Task::Validation(TxVersion { tx_idx, tx_incarnation: st.incarnation }),
                        );
                    }
                    if st.status == IncarnationStatus::Aborting {
                        continue ;
                    }
                }
            }
            let next_exec = self.execution_idx;
            self.execution_idx = wrapping_inc(next_exec);
            if let Some(ver) = self.try_execute(next_exec) {
                return Pick::Run(Task::Execution(ver));
            }
        }
    }
}

impl Scheduler {
    /// [`Scheduler::finish_execution`], then the fence graph releases every
    /// soft wait that the finished writer's publish resolves.
    pub fn finish_execution_with_fence(
        &mut self,
        tx_version: TxVersion,
        flags: FinishExecFlags,
        fence: &mut FenceGraph,
    ) -> (r: Option<Task>)
        requires
            old(self).wf(),
            tx_version.tx_idx < old(self)@.block_size,
            forall|k: int|
                0 <= k < old(self)@.dependents[tx_version.tx_idx as int].len() ==> old(
                    self,
                )@.can_bump(#[trigger] old(self)@.dependents[tx_version.tx_idx as int][k] as int),
        ensures
            final(self).wf(),
            (final(self)@, r) == finish_exec_spec(old(self)@, tx_version, flags),
            exists|ks: Seq<u64>|
                ks.no_duplicates() && ks.to_set() == old(fence)@.soft.dom() && final(fence)@
                    == wake_all(old(fence)@, tx_version.tx_idx, ks).0,
    {
        let r = self.finish_execution(tx_version, flags);
        let _ = fence.clear_for_writer(tx_version.tx_idx);
        r
    }

    /// A short label of a transaction's status, for research traces.
    pub fn status_label(&self, tx_idx: TxIdx) -> (r: &'static str)
        requires
            self.wf(),
        ensures
            r@ == (if tx_idx >= self@.block_size {
                "oob"@
            } else {
                match self@.status_of(tx_idx as int) {
                    IncarnationStatus::ReadyToExecute => "ready"@,
                    IncarnationStatus::Executing => "executing"@,
                    IncarnationStatus::Executed => "executed"@,
                    IncarnationStatus::Validated => "validated"@,
                    IncarnationStatus::Aborting => "aborting"@,
                }
            }),
    {
        if tx_idx >= self.block_size {
            return "oob";
        }
        match self.transactions_status[tx_idx].status {
            IncarnationStatus::ReadyToExecute => "ready",
            IncarnationStatus::Executing => "executing",
            IncarnationStatus::Executed => "executed",
            IncarnationStatus::Validated => "validated",
            IncarnationStatus::Aborting => "aborting",
        }
    }
}

/// A validation that fails on an executed or validated incarnation aborts
/// it, and finishing that validation hands the transaction straight back
/// for execution at the next incarnation.
pub proof fn law_failed_validation_reexecutes(o: SchedulerView, t: int)
    requires
        o.shaped(),
        0 <= t < o.block_size,
        is_done_status(o.status_of(t)),
        o.statuses[t].incarnation < usize::MAX,
    ensures
        ({
            let (a, aborted) = validation_abort_spec(o, t);
            let (f, r) = finish_validation_spec(a, t, true, Some((t + 1) as usize));
            &&& aborted
            &&& r == Some(
                Task::Execution(
                    TxVersion {
                        tx_idx: t as usize,
                        tx_incarnation: (o.statuses[t].incarnation + 1) as usize,
                    },
                ),
            )
            &&& f.status_of(t) == IncarnationStatus::Executing
        }),
{
}

/// A transaction parked behind an unfinished writer with
/// `add_wait_for_dependency` is not aborted: it stays executing at its
/// incarnation, and when the writer finishes it is ready again at that
/// same incarnation.
pub proof fn law_wait_resumes_same_incarnation(
    o: SchedulerView,
    tx: int,
    writer: TxVersion,
    flags: FinishExecFlags,
)
    requires
        o.shaped(),
        0 <= tx < o.block_size,
        writer.tx_idx < o.block_size,
        tx != writer.tx_idx,
        o.status_of(tx) == IncarnationStatus::Executing,
        !is_done_status(o.status_of(writer.tx_idx as int)),
    ensures
        ({
            let p = o.with_waiter(writer.tx_idx as int, tx as TxIdx);
            let (f, _) = finish_exec_spec(p, writer, flags);
            &&& p.statuses[tx] == o.statuses[tx]
            &&& f.statuses[tx] == (TxStatus {
                incarnation: o.statuses[tx].incarnation,
                status: IncarnationStatus::ReadyToExecute,
            })
        }),
{
    let p = o.with_waiter(writer.tx_idx as int, tx as TxIdx);
    let w = writer.tx_idx as int;
    assert(p.waiters[w].contains(tx as TxIdx)) by {
        assert(p.waiters[w][p.waiters[w].len() - 1] == tx as TxIdx);
    }
    assert(finish_own_status(p, w, flags)[tx] == o.statuses[tx]);
}

/// Once a writer has finished executing it counts as done, and its wait
/// lists are empty: every later attempt to park behind it is refused.
pub proof fn law_finished_writer_is_done(o: SchedulerView, writer: TxVersion, flags: FinishExecFlags)
    requires
        o.shaped(),
        writer.tx_idx < o.block_size,
    ensures
        ({
            let (f, _) = finish_exec_spec(o, writer, flags);
            let w = writer.tx_idx as int;
            &&& is_done_status(f.status_of(w))
            &&& f.dependents[w].len() == 0
            &&& f.waiters[w].len() == 0
            &&& f.statuses[w].incarnation == o.statuses[w].incarnation
        }),
{
    let w = writer.tx_idx as int;
    let d = o.dependents[w];
    let p = o.waiters[w];
    assert(!d.contains(w as TxIdx)) by {
        if d.contains(w as TxIdx) {
            let k = choose|k: int| 0 <= k < d.len() && d[k] == w as TxIdx;
            assert(o.dependents[w][k] != w);
        }
    }
    assert(!p.contains(w as TxIdx)) by {
        if p.contains(w as TxIdx) {
            let k = choose|k: int| 0 <= k < p.len() && p[k] == w as TxIdx;
            assert(o.waiters[w][k] != w);
        }
    }
}

/// Past an execution cursor with nothing ready to run, a validation cursor
/// below it that points at an executed or validated transaction hands out
/// the validation of that transaction at its current incarnation.
pub proof fn law_validation_cursor_validates(v: SchedulerView, hit: bool)
    requires
        v.validation_idx < v.execution_idx,
        v.validation_idx < v.block_size,
        v.execution_idx < v.block_size ==> v.status_of(v.execution_idx as int) != IncarnationStatus::ReadyToExecute,
        v.status_of(v.validation_idx as int) == IncarnationStatus::Executed || v.status_of(v.validation_idx as int)
            == IncarnationStatus::Validated,
    ensures
        pick_spec(v, hit).1 == Pick::Run(
            Task::Validation(
                TxVersion {
                    tx_idx: v.validation_idx as usize,
                    tx_incarnation: v.statuses[v.validation_idx as int].incarnation,
                },
            ),
        ),
{
}

proof fn lemma_min_where_le(s: Seq<TxIdx>, keep: spec_fn(TxIdx) -> bool, init: nat)
    ensures
        min_where(s, keep, init) <= init,
    decreases s.len(),
{
    if s.len() > 0 {
        lemma_min_where_le(s.drop_last(), keep, init);
    }
}

/// A finished execution that wrote a new location, at or above the minimum
/// validation index and below the validation cursor, pulls the cursor back
/// to right after it: every higher transaction is validated again.
pub proof fn law_new_location_revalidates_above(o: SchedulerView, tv: TxVersion, flags: FinishExecFlags)
    requires
        flags.wrote_new_location,
        o.min_validation_idx <= tv.tx_idx,
        o.min_validation_idx < o.block_size,
        tv.tx_idx < o.validation_idx,
    ensures
        finish_exec_spec(o, tv, flags).0.validation_idx <= tv.tx_idx + 1,
{
    let t = tv.tx_idx as int;
    let s1 = finish_own_status(o, t, flags);
    let done = |d: TxIdx| is_done_status(s1[d as int].status);
    let mv = finish_min_validation(o, t, flags);
    assert(mv <= t && mv < o.block_size);
    assert(finish_in_window(o, t, flags));
    let val1 = min_nat(o.validation_idx, (t + 1) as nat);
    lemma_min_where_le(o.dependents[t], done, val1);
}

/// A passed validation of an executed transaction validates it at the same
/// incarnation and counts it once more.
pub proof fn law_passed_validation_counts(o: SchedulerView, t: int, rewind_to: Option<TxIdx>)
    requires
        0 <= t < o.statuses.len(),
        o.status_of(t) == IncarnationStatus::Executed,
        o.num_validated < usize::MAX,
    ensures
        finish_validation_spec(o, t, false, rewind_to).0.num_validated == o.num_validated + 1,
        finish_validation_spec(o, t, false, rewind_to).0.statuses[t] == (TxStatus {
            incarnation: o.statuses[t].incarnation,
            status: IncarnationStatus::Validated,
        }),
        finish_validation_spec(o, t, false, rewind_to).1 is None,
{
}

} // verus!
