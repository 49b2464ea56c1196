//! Per-core queue of admitted independent transactions: the owner works
//! LIFO at the bottom, thieves take FIFO from the top.

use vstd::prelude::*;
use super::deque::{LocalDeque, ring_capacity_for};

verus! {

/// Per-core queue of admitted independent transactions.
pub struct LocalAdmitDeque {
    ring: LocalDeque,
}

impl LocalAdmitDeque {
    pub closed spec fn wf(self) -> bool {
        self.ring.wf()
    }

    pub closed spec fn capacity(self) -> nat {
        self.ring.capacity()
    }

    /// Queued transactions, oldest first.
    pub closed spec fn tasks(self) -> Seq<usize> {
        self.ring.tasks()
    }

    /// Empty queue with room for `min_live` simultaneous tasks and a spare slot.
    pub fn with_capacity(min_live: usize) -> (r: Self)
        requires
            min_live < usize::MAX / 8,
        ensures
            r.wf(),
            r.tasks() == Seq::<usize>::empty(),
            ring_capacity_for(min_live as nat, r.capacity()),
    {
        LocalAdmitDeque { ring: LocalDeque::with_capacity(min_live) }
    }

    /// Owner push. The queue must not be full.
    pub fn push_bottom(&mut self, tx: usize)
        requires
            old(self).wf(),
            old(self).tasks().len() < old(self).capacity(),
        ensures
            final(self).wf(),
            final(self).tasks() == old(self).tasks().push(tx),
            final(self).capacity() == old(self).capacity(),
    {
        self.ring.push_bottom(tx);
    }

    /// Owner pop: the newest task, `None` when empty.
    pub fn pop_bottom(&mut self) -> (r: Option<usize>)
        requires
            old(self).wf(),
        ensures
            final(self).wf(),
            old(self).tasks().len() == 0 ==> r is None && final(self).tasks() == old(
                self,
            ).tasks(),
            old(self).tasks().len() > 0 ==> r == Some(old(self).tasks().last())
                && final(self).tasks() == old(self).tasks().drop_last(),
            final(self).capacity() == old(self).capacity(),
    {
        self.ring.pop_bottom()
    }

    /// Thief pop: the oldest task, `None` when empty.
    pub fn pop_top(&mut self) -> (r: Option<usize>)
        requires
            old(self).wf(),
        ensures
            final(self).wf(),
            old(self).tasks().len() == 0 ==> r is None && final(self).tasks() == old(
                self,
            ).tasks(),
            old(self).tasks().len() > 0 ==> r == Some(old(self).tasks()[0])
                && final(self).tasks() == old(self).tasks().drop_first(),
            final(self).capacity() == old(self).capacity(),
    {
        self.ring.pop_top()
    }

    /// Number of queued tasks.
    pub fn len(&self) -> (r: usize)
        ensures
            r == self.tasks().len(),
    {
        self.ring.len()
    }
}

/// Nothing is lost or duplicated: a pop at either end removes exactly the
/// task it returns, so the queued multiset shrinks by that one task.
pub proof fn law_pop_takes_each_task_once(q: Seq<usize>)
    requires
        q.len() > 0,
    ensures
        q.drop_last().to_multiset() == q.to_multiset().remove(q.last()),
        q.drop_first().to_multiset() == q.to_multiset().remove(q[0]),
{
    q.to_multiset_ensures();
    assert(q.remove(q.len() - 1) =~= q.drop_last());
    assert(q.remove(0) =~= q.drop_first());
}

/// A push adds exactly the pushed task to the queued multiset.
pub proof fn law_push_adds_one_task(q: Seq<usize>, tx: usize)
    ensures
        q.push(tx).to_multiset() == q.to_multiset().insert(tx),
{
    q.to_multiset_ensures();
}

/// One operation on a task ring.
#[derive(Debug, Clone, Copy, PartialEq, Eq, Structural)]
pub enum DequeOp {
    Push(usize),
    PopBottom,
    PopTop,
}

/// The queued tasks and the tasks taken, in order, after `ops` from an
/// empty ring, as the ring's operations specify them (a pop of an empty
/// ring takes nothing).
pub open spec fn run_ops(ops: Seq<DequeOp>) -> (Seq<usize>, Seq<usize>)
    decreases ops.len(),
{
    if ops.len() == 0 {
        (Seq::empty(), Seq::empty())
    } else {
        let (q, taken) = run_ops(ops.drop_last());
        match ops.last() {
            DequeOp::Push(t) => (q.push(t), taken),
            DequeOp::PopBottom => if q.len() == 0 {
                (q, taken)
            } else {
                (q.drop_last(), taken.push(q.last()))
            },
            DequeOp::PopTop => if q.len() == 0 {
                (q, taken)
            } else {
                (q.drop_first(), taken.push(q[0]))
            },
        }
    }
}

/// The tasks pushed by `ops`, in order.
pub open spec fn pushed(ops: Seq<DequeOp>) -> Seq<usize>
    decreases ops.len(),
{
    if ops.len() == 0 {
        Seq::empty()
    } else {
        match ops.last() {
            DequeOp::Push(t) => pushed(ops.drop_last()).push(t),
            _ => pushed(ops.drop_last()),
        }
    }
}

/// Over any run of owner pushes and pops at either end, every pushed task
/// is taken at most once and none is lost: the tasks taken and the tasks
/// still queued are together exactly the tasks pushed.
pub proof fn law_run_takes_each_task_once(ops: Seq<DequeOp>)
    ensures
        run_ops(ops).1.to_multiset().add(run_ops(ops).0.to_multiset()) == pushed(ops).to_multiset(),
    decreases ops.len(),
{
    broadcast use vstd::multiset::group_multiset_axioms;
    if ops.len() == 0 {
        Seq::<usize>::empty().to_multiset_ensures();
        assert(Seq::<usize>::empty().to_multiset().add(Seq::<usize>::empty().to_multiset()) =~= Seq::<usize>::empty().to_multiset());
    } else {
        let prev = ops.drop_last();
        law_run_takes_each_task_once(prev);
        let (q, taken) = run_ops(prev);
        q.to_multiset_ensures();
        taken.to_multiset_ensures();
        pushed(prev).to_multiset_ensures();
        match ops.last() {
            DequeOp::Push(t) => {
                q.push(t).to_multiset_ensures();
                pushed(prev).push(t).to_multiset_ensures();
                assert(taken.to_multiset().add(q.push(t).to_multiset()) =~= pushed(prev).push(t).to_multiset());
                assert(run_ops(ops) == (q.push(t), taken));
                assert(pushed(ops) == pushed(prev).push(t));
            },
            DequeOp::PopBottom => {
                if q.len() > 0 {
                    law_pop_takes_each_task_once(q);
                    taken.push(q.last()).to_multiset_ensures();
                    assert(q.to_multiset().count(q.last()) > 0) by {
                        assert(q.contains(q.last()));
                    }
                    assert(taken.push(q.last()).to_multiset().add(q.drop_last().to_multiset()) =~= taken.to_multiset().add(
                        q.to_multiset(),
                    ));
                    assert(run_ops(ops) == (q.drop_last(), taken.push(q.last())));
                }
                assert(pushed(ops) == pushed(prev));
                if q.len() == 0 {
                    assert(run_ops(ops) == (q, taken));
                }
            },
            DequeOp::PopTop => {
                if q.len() > 0 {
                    law_pop_takes_each_task_once(q);
                    taken.push(q[0]).to_multiset_ensures();
                    assert(q.to_multiset().count(q[0]) > 0) by {
                        assert(q.contains(q[0]));
                    }
                    assert(taken.push(q[0]).to_multiset().add(q.drop_first().to_multiset()) =~= taken.to_multiset().add(
                        q.to_multiset(),
                    ));
                    assert(run_ops(ops) == (q.drop_first(), taken.push(q[0])));
                }
                assert(pushed(ops) == pushed(prev));
                if q.len() == 0 {
                    assert(run_ops(ops) == (q, taken));
                }
            },
        }
    }
}

} // verus!
