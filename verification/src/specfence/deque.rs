//! Owner/thief task ring of one core.
//!
//! The owner pushes and pops at the bottom (LIFO); thieves take from the
//! top (FIFO). Slots live in a power-of-two ring so that a full ring never
//! wraps onto a live task.

use vstd::prelude::*;
use vstd::arithmetic::power2::{pow2, lemma_pow2, lemma_pow2_unfold};
use vstd::arithmetic::power::lemma_pow0;

verus! {

/// `p` is the least power of two that is at least `n`.
pub open spec fn is_least_pow2_at_least(p: nat, n: nat) -> bool {
    exists|e: nat| #[trigger] pow2(e) == p && p >= n && (e == 0 || pow2((e - 1) as nat) < n)
}

/// Ring capacity chosen for `min_live` simultaneous tasks: twice the least
/// power of two above `min_live`, and at least 4.
pub open spec fn ring_capacity_for(min_live: nat, cap: nat) -> bool {
    exists|p: nat| #[trigger] is_least_pow2_at_least(p, min_live + 1) && cap == (if 2 * p
        >= 4 {
        2 * p
    } else {
        4
    })
}

/// Slot of the `i`-th live task when the ring starts at `head`.
pub open spec fn ring_slot(head: int, i: int, cap: int) -> int {
    if head + i < cap {
        head + i
    } else {
        head + i - cap
    }
}

/// Task ring of one core.
pub struct LocalDeque {
    slots: Vec<usize>,
    head: usize,
    len: usize,
}

impl LocalDeque {
    /// Ring well-formedness: at least four slots, a head inside the ring and
    /// no more live tasks than slots.
    pub closed spec fn wf(self) -> bool {
        &&& self.slots@.len() >= 4
        &&& self.slots@.len() <= usize::MAX / 2
        &&& self.head < self.slots@.len()
        &&& self.len <= self.slots@.len()
    }

    /// Number of slots of the ring.
    pub closed spec fn capacity(self) -> nat {
        self.slots@.len()
    }

    /// Live tasks, from the top (oldest) to the bottom (newest).
    pub closed spec fn tasks(self) -> Seq<usize> {
        Seq::new(
            self.len as nat,
            |i: int| self.slots@[ring_slot(self.head as int, i, self.slots@.len() as int)],
        )
    }

    /// Empty ring for `min_live` simultaneous tasks.
    pub fn with_capacity(min_live: usize) -> (r: Self)
        requires
            min_live < usize::MAX / 8,
        ensures
            r.wf(),
            r.tasks() == Seq::<usize>::empty(),
            ring_capacity_for(min_live as nat, r.capacity()),
    {
        let n = min_live + 1;
        let mut p: usize = 1;
        let ghost mut e: nat = 0;
        proof {
            lemma_pow2(0);
            lemma_pow0(2);
        }
        while p < n
            invariant
                n == min_live + 1,
                n <= usize::MAX / 8,
                1 <= p,
                p == pow2(e),
                e == 0 || pow2((e - 1) as nat) < n,
                p < 2 * n,
            decreases 2 * n - p,
        {
            proof {
                lemma_pow2_unfold(e + 1);
            }
            p = p * 2;
            proof {
                e = e + 1;
            }
        }
        proof {
            assert(pow2(e) == p as nat && p as nat >= n as nat && (e == 0 || pow2((e - 1) as nat)
                < n as nat));
            assert(is_least_pow2_at_least(p as nat, n as nat));
        }
        let cap: usize = if p * 2 >= 4 { p * 2 } else { 4 };
        let mut slots: Vec<usize> = Vec::new();
        while slots.len() < cap
            invariant
                slots@.len() <= cap,
            decreases cap - slots.len(),
        {
            slots.push(0);
        }
        let r = LocalDeque { slots, head: 0, len: 0 };
        proof {
            assert(r.tasks() =~= Seq::<usize>::empty());
            assert(is_least_pow2_at_least(p as nat, min_live as nat + 1));
            assert(ring_capacity_for(min_live as nat, r.capacity()));
        }
        r
    }

    /// Owner push at the bottom. The ring must have room (a full ring is
    /// an overflow of the caller's bound).
    pub fn push_bottom(&mut self, tx: usize)
        requires
            old(self).tasks().len() < old(self).capacity(),
            old(self).wf(),
        ensures
            final(self).wf(),
            final(self).tasks() == old(self).tasks().push(tx),
            final(self).capacity() == old(self).capacity(),
    {
        let cap = self.slots.len();
        let i = if self.head + self.len < cap {
            self.head + self.len
        } else {
            self.head + self.len - cap
        };
        self.slots.set(i, tx);
        self.len = self.len + 1;
        proof {
            assert(self.tasks() =~= old(self).tasks().push(tx));
        }
    }

    /// Owner pop at the bottom. `None` when the ring is empty.
    pub fn pop_bottom(&mut self) -> (r: Option<usize>)
        requires
            old(self).wf(),
        ensures
            final(self).wf(),
            old(self).tasks().len() == 0 ==> r is None && final(self).tasks() == old(
                self,
            ).tasks(),
            old(self).tasks().len() > 0 ==> r == Some(old(self).tasks().last())
                && final(self).tasks() == old(self).tasks().drop_last(),
            final(self).capacity() == old(self).capacity(),
    {
        if self.len == 0 {
            return None;
        }
        let cap = self.slots.len();
        let last = self.len - 1;
        let i = if self.head + last < cap {
            self.head + last
        } else {
            self.head + last - cap
        };
        let tx = self.slots[i];
        self.len = last;
        proof {
            assert(self.tasks() =~= old(self).tasks().drop_last());
        }
        Some(tx)
    }

    /// Thief pop at the top. `None` when the ring is empty.
    pub fn pop_top(&mut self) -> (r: Option<usize>)
        requires
            old(self).wf(),
        ensures
            final(self).wf(),
            old(self).tasks().len() == 0 ==> r is None && final(self).tasks() == old(
                self,
            ).tasks(),
            old(self).tasks().len() > 0 ==> r == Some(old(self).tasks()[0])
                && final(self).tasks() == old(self).tasks().drop_first(),
            final(self).capacity() == old(self).capacity(),
    {
        if self.len == 0 {
            return None;
        }
        let cap = self.slots.len();
        let tx = self.slots[self.head];
        let next = if self.head + 1 < cap {
            self.head + 1
        } else {
            0
        };
        self.head = next;
        self.len = self.len - 1;
        proof {
            assert(self.tasks() =~= old(self).tasks().drop_first());
        }
        Some(tx)
    }

    /// Number of live tasks.
    pub fn len(&self) -> (r: usize)
        ensures
            r == self.tasks().len(),
    {
        self.len
    }
}

} // verus!
