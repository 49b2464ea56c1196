//! Applying an armed program-counter resume to a fresh interpreter frame:
//! when the armed tip may not be applied on this frame, and how the live
//! stack is reconciled with the certified prefix's storage values.

use vstd::prelude::*;
use crate::types::{Addr, Word256};
use super::boundary::{BoundarySnapshot, FfValue};

verus! {

/// Why an armed tip is not applied (the resume is then cleared).
#[derive(Debug, Clone, Copy, PartialEq, Eq, Structural)]
pub enum ResumeRefusal {
    /// The frame depth differs from the tip's (top-level depths 0 and 1 agree).
    Depth,
    /// The frame runs other code than the tip captured.
    CodeHash,
    /// The tip's program counter lies past its bytecode.
    PcOutOfBounds,
    /// A read-prefix tip would land on a nested frame.
    NestedReadPrefix,
}

pub open spec fn refusal_spec(
    s: BoundarySnapshot,
    call_depth: u16,
    frame_code_hash: Word256,
    journal_depth: usize,
) -> Option<ResumeRefusal> {
    if s.call_depth != call_depth && !(s.call_depth <= 1 && call_depth <= 1) {
        Some(ResumeRefusal::Depth)
    } else if s.code_hash matches Some(h) && h != frame_code_hash {
        Some(ResumeRefusal::CodeHash)
    } else if s.bytecode_len > 0 && s.pc >= s.bytecode_len {
        Some(ResumeRefusal::PcOutOfBounds)
    } else if s.sstore_index == 0 && !s.post_sstore && journal_depth > 1 {
        Some(ResumeRefusal::NestedReadPrefix)
    } else {
        None
    }
}

/// May the armed tip `s` be applied on a frame at `call_depth`, running
/// code with hash `frame_code_hash`, with the journal at `journal_depth`?
/// `None` when it may.
pub fn resume_refusal(
    s: &BoundarySnapshot,
    call_depth: u16,
    frame_code_hash: Word256,
    journal_depth: usize,
) -> (r: Option<ResumeRefusal>)
    ensures
        r == refusal_spec(*s, call_depth, frame_code_hash, journal_depth),
{
    if s.call_depth != call_depth && !(s.call_depth <= 1 && call_depth <= 1) {
        return Some(ResumeRefusal::Depth);
    }
    if let Some(h) = s.code_hash {
        if h != frame_code_hash {
            return Some(ResumeRefusal::CodeHash);
        }
    }
    if s.bytecode_len > 0 && s.pc >= s.bytecode_len {
        return Some(ResumeRefusal::PcOutOfBounds);
    }
    if s.sstore_index == 0 && !s.post_sstore && journal_depth > 1 {
        return Some(ResumeRefusal::NestedReadPrefix);
    }
    None
}

/// The first fast-forwarded storage value of `(address, slot)`, scanning
/// `ff` from the start.
pub open spec fn first_ff_storage(ff: Seq<FfValue>, address: Addr, slot: Word256) -> Option<Word256>
    decreases ff.len(),
{
    if ff.len() == 0 {
        None
    } else {
        match ff[0] {
            FfValue::Storage { address: a, slot: s, value } => if a == address && s == slot {
                Some(value)
            } else {
                first_ff_storage(ff.drop_first(), address, slot)
            },
            _ => first_ff_storage(ff.drop_first(), address, slot),
        }
    }
}

/// Every stack word equal to `from` becomes `to`.
pub open spec fn replace_all(stack: Seq<Word256>, from: Word256, to: Word256) -> Seq<Word256> {
    Seq::new(stack.len(), |i: int| if stack[i] == from { to } else { stack[i] })
}

/// The stack after reconciling the tip's bound reads `sloads` in order:
/// where the certified prefix holds another value for a read slot, every
/// stack word equal to the read value is replaced by the certified one.
pub open spec fn reconcile_spec(
    stack: Seq<Word256>,
    sloads: Seq<(Addr, Word256, Word256)>,
    ff: Seq<FfValue>,
) -> Seq<Word256>
    decreases sloads.len(),
{
    if sloads.len() == 0 {
        stack
    } else {
        let prev = reconcile_spec(stack, sloads.drop_last(), ff);
        let (a, s, v) = sloads.last();
        match first_ff_storage(ff, a, s) {
            Some(x) => if x != v {
                replace_all(prev, v, x)
            } else {
                prev
            },
            None => prev,
        }
    }
}

fn find_ff_storage(ff: &Vec<FfValue>, address: Addr, slot: Word256) -> (r: Option<Word256>)
    ensures
        r == first_ff_storage(ff@, address, slot),
{
    let mut i: usize = 0;
    assert(ff@.skip(0) =~= ff@);
    while i < ff.len()
        invariant
            i <= ff@.len(),
            first_ff_storage(ff@, address, slot) == first_ff_storage(ff@.skip(i as int), address, slot),
        decreases ff.len() - i,
    {
        assert(ff@.skip(i as int)[0] == ff@[i as int]);
        assert(ff@.skip(i as int).drop_first() =~= ff@.skip(i + 1));
        if let FfValue::Storage { address: a, slot: s, value } = ff[i] {
            if a == address && s == slot {
                return Some(value);
            }
        }
        i = i + 1;
    }
    assert(ff@.skip(i as int).len() == 0);
    None
}

fn replace_in_stack(stack: &mut Vec<Word256>, from: Word256, to: Word256)
    ensures
        final(stack)@ == replace_all(old(stack)@, from, to),
{
    let mut i: usize = 0;
    while i < stack.len()
        invariant
            i <= stack@.len(),
            stack@.len() == old(stack)@.len(),
            forall|j: int| 0 <= j < i ==> stack@[j] == (if old(stack)@[j] == from { to } else { old(stack)@[j] }),
            forall|j: int| i <= j < stack@.len() ==> stack@[j] == old(stack)@[j],
        decreases stack.len() - i,
    {
        if stack[i] == from {
            stack.set(i, to);
        }
        i = i + 1;
    }
    assert(stack@ =~= replace_all(old(stack)@, from, to));
}

/// Reconcile the live stack with the certified prefix: stale read values
/// that the prefix has since overwritten are replaced.
pub fn reconcile_stack(
    stack: &mut Vec<Word256>,
    sloads: &Vec<(Addr, Word256, Word256)>,
    ff: &Vec<FfValue>,
)
    ensures
        final(stack)@ == reconcile_spec(old(stack)@, sloads@, ff@),
{
    let mut i: usize = 0;
    while i < sloads.len()
        invariant
            i <= sloads@.len(),
            stack@ == reconcile_spec(old(stack)@, sloads@.take(i as int), ff@),
        decreases sloads.len() - i,
    {
        let (a, s, v) = sloads[i];
        assert(sloads@.take(i + 1).drop_last() =~= sloads@.take(i as int));
        assert(sloads@.take(i + 1).last() == sloads@[i as int]);
        if let Some(x) = find_ff_storage(ff, a, s) {
            if x != v {
                replace_in_stack(stack, v, x);
            }
        }
        i = i + 1;
    }
    assert(sloads@.take(sloads@.len() as int) =~= sloads@);
}

/// A reconcile never changes the stack's depth.
pub proof fn law_reconcile_keeps_depth(
    stack: Seq<Word256>,
    sloads: Seq<(Addr, Word256, Word256)>,
    ff: Seq<FfValue>,
)
    ensures
        reconcile_spec(stack, sloads, ff).len() == stack.len(),
    decreases sloads.len(),
{
    if sloads.len() > 0 {
        law_reconcile_keeps_depth(stack, sloads.drop_last(), ff);
    }
}

/// A tip whose reads all agree with the certified prefix leaves the stack
/// as it is.
pub proof fn law_agreeing_prefix_keeps_stack(
    stack: Seq<Word256>,
    sloads: Seq<(Addr, Word256, Word256)>,
    ff: Seq<FfValue>,
)
    requires
        forall|i: int|
            0 <= i < sloads.len() ==> match first_ff_storage(ff, (#[trigger] sloads[i]).0, sloads[i].1) {
                Some(x) => x == sloads[i].2,
                None => true,
            },
    ensures
        reconcile_spec(stack, sloads, ff) == stack,
    decreases sloads.len(),
{
    if sloads.len() > 0 {
        assert forall|i: int| 0 <= i < sloads.drop_last().len() implies match first_ff_storage(
            ff,
            (#[trigger] sloads.drop_last()[i]).0,
            sloads.drop_last()[i].1,
        ) {
            Some(x) => x == sloads.drop_last()[i].2,
            None => true,
        } by {
            assert(sloads.drop_last()[i] == sloads[i]);
        }
        law_agreeing_prefix_keeps_stack(stack, sloads.drop_last(), ff);
        assert(sloads.last() == sloads[sloads.len() - 1]);
    }
}

} // verus!
