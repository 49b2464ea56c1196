//! Decisions of the boundary inspector, as a state machine.
//!
//! The interpreter hook layer reports each event (an opcode about to run,
//! an opcode done, a nested call or create entered or left); the inspector
//! updates its frame bookkeeping and answers with what the hook layer must
//! do: capture a tip, short-circuit a call from the resume cache, or keep
//! the outcome of a finished call for a later resume.

use vstd::prelude::*;
use crate::types::{Addr, Word256};
use super::boundary::CachedCallOutcome;

verus! {

/// Opcode of a storage store.
pub const OP_SSTORE: u8 = 0x55;
/// First log opcode.
pub const OP_LOG0: u8 = 0xa0;
/// Last log opcode.
pub const OP_LOG4: u8 = 0xa4;

/// A nested call that was entered and has not ended yet.
#[derive(Debug, Clone, Copy, PartialEq, Eq, Structural)]
pub struct PendingCallMeta {
    pub call_seq: u32,
    pub depth: u16,
    pub target: Addr,
    pub bytecode_address: Addr,
    pub caller: Addr,
    pub gas_limit: u64,
    pub is_static: bool,
    /// Value the call transfers (zero when none).
    pub value: Word256,
}

/// What the hook layer does once an opcode has run.
#[derive(Debug, Clone, Copy, PartialEq, Eq, Structural)]
pub struct StepEndAction {
    /// The tip follows the end of a nested call of this frame.
    pub at_call_boundary: bool,
    /// The opcode was a storage store: mark the tip, note its gas and
    /// attach it to the plant.
    pub post_sstore: bool,
    /// The opcode was a log: record the new logs and attach the tip.
    pub after_log: bool,
    /// An effect boundary was armed, or a call just ended: attach the tip.
    pub attach_effect: bool,
}

/// How to run a nested call that is about to start.
#[derive(Debug, Clone, Copy, PartialEq, Eq, Structural)]
pub enum CallPlan {
    /// Execute the call.
    Proceed,
    /// Transfer `value` in the journal and answer with the cached outcome
    /// at `index` of the resume cache.
    ShortCircuit { index: usize, value: Word256 },
}

/// Frame bookkeeping of one inspected run.
pub struct SpecFenceInspector {
    /// Opcodes stepped since the run began.
    pub opcode_steps: u64,
    /// Opcodes stepped in this interpreter run.
    pub steps_this_run: u64,
    pub call_depth: u16,
    /// Ordinal of the last call entered.
    pub call_seq: u32,
    /// Opcode seen by the last step.
    pub last_opcode: u8,
    /// An effect boundary asks the next step end to attach its tip.
    pub pending_effect_cp: bool,
    /// A nested call ended; the parent's next step end is a call boundary.
    pub pending_parent_call_boundary: bool,
    /// Calls entered and not yet ended, innermost last.
    pub pending_calls: Vec<PendingCallMeta>,
    /// Nested call outcomes captured in this run.
    pub captured_calls: Vec<CachedCallOutcome>,
    /// Certified nested outcomes a resume may short-circuit, in call order.
    pub resume_calls: Vec<CachedCallOutcome>,
    /// Next entry of `resume_calls`.
    pub resume_idx: usize,
}

pub open spec fn sat_add_u16(a: u16) -> u16 {
    if a == u16::MAX { a } else { (a + 1) as u16 }
}

pub open spec fn sat_sub_u16(a: u16) -> u16 {
    if a == 0 { 0 } else { (a - 1) as u16 }
}

pub open spec fn sat_add_u32(a: u32) -> u32 {
    if a == u32::MAX { a } else { (a + 1) as u32 }
}

pub open spec fn sat_add_usize(a: usize) -> usize {
    if a == usize::MAX { a } else { (a + 1) as usize }
}

/// The bookkeeping of a fresh run.
pub open spec fn is_fresh(s: SpecFenceInspector) -> bool {
    &&& s.opcode_steps == 0
    &&& s.steps_this_run == 0
    &&& s.call_depth == 0
    &&& s.call_seq == 0
    &&& s.last_opcode == 0
    &&& !s.pending_effect_cp
    &&& !s.pending_parent_call_boundary
    &&& s.pending_calls@.len() == 0
    &&& s.captured_calls@.len() == 0
    &&& s.resume_calls@.len() == 0
    &&& s.resume_idx == 0
}

/// The cached outcome answers the call: same ordinal, depth, target,
/// code address and caller.
pub open spec fn cache_matches(c: CachedCallOutcome, m: PendingCallMeta) -> bool {
    &&& c.call_seq == m.call_seq
    &&& c.depth == m.depth
    &&& c.target == m.target
    &&& c.bytecode_address == m.bytecode_address
    &&& c.caller == m.caller
}

/// The plan for a call entered with frame depth `parent` (before the call),
/// resume cache `cache` at `idx`, call `m`, and whether valued calls may
/// be short-circuited.
pub open spec fn call_plan_spec(
    parent: u16,
    cache: Seq<CachedCallOutcome>,
    idx: usize,
    m: PendingCallMeta,
    allow_valued: bool,
) -> CallPlan {
    if parent >= 1 && idx < cache.len() && cache_matches(cache[idx as int], m) {
        let c = cache[idx as int];
        let value = if c.value.value() != 0 { c.value } else { m.value };
        if (value.value() == 0 || allow_valued) && m.gas_limit == c.gas_limit {
            CallPlan::ShortCircuit { index: idx, value }
        } else {
            CallPlan::Proceed
        }
    } else {
        CallPlan::Proceed
    }
}

pub open spec fn is_log_op(op: u8) -> bool {
    OP_LOG0 <= op <= OP_LOG4
}

impl SpecFenceInspector {
    /// Construct the boundary inspector of a fresh run.
    pub fn new() -> (r: Self)
        ensures
            is_fresh(r),
    {
        SpecFenceInspector {
            opcode_steps: 0,
            steps_this_run: 0,
            call_depth: 0,
            call_seq: 0,
            last_opcode: 0,
            pending_effect_cp: false,
            pending_parent_call_boundary: false,
            pending_calls: Vec::new(),
            captured_calls: Vec::new(),
            resume_calls: Vec::new(),
            resume_idx: 0,
        }
    }

    /// Queue certified nested outcomes for the next run to short-circuit.
    pub fn arm_call_outcome_cache(&mut self, calls: Vec<CachedCallOutcome>)
        ensures
            final(self).resume_calls@ == calls@,
            final(self).resume_idx == 0,
            final(self).opcode_steps == old(self).opcode_steps,
            final(self).call_depth == old(self).call_depth,
            final(self).call_seq == old(self).call_seq,
            final(self).pending_calls@ == old(self).pending_calls@,
            final(self).captured_calls@ == old(self).captured_calls@,
    {
        self.resume_idx = 0;
        self.resume_calls = calls;
    }

    /// Ask the next step end to attach its live tip.
    pub fn arm_pending_effect_cp(&mut self)
        ensures
            final(self).pending_effect_cp,
            final(self).opcode_steps == old(self).opcode_steps,
            final(self).steps_this_run == old(self).steps_this_run,
            final(self).call_depth == old(self).call_depth,
            final(self).call_seq == old(self).call_seq,
            final(self).last_opcode == old(self).last_opcode,
            final(self).pending_parent_call_boundary == old(self).pending_parent_call_boundary,
            final(self).pending_calls@ == old(self).pending_calls@,
            final(self).captured_calls@ == old(self).captured_calls@,
            final(self).resume_calls@ == old(self).resume_calls@,
            final(self).resume_idx == old(self).resume_idx,
    {
        self.pending_effect_cp = true;
    }

    /// An opcode is about to run: count it and remember it.
    pub fn on_step(&mut self, op: u8) -> (n: u64)
        requires
            old(self).opcode_steps < u64::MAX,
            old(self).steps_this_run < u64::MAX,
        ensures
            n == old(self).opcode_steps + 1,
            final(self).opcode_steps == n,
            final(self).steps_this_run == old(self).steps_this_run + 1,
            final(self).last_opcode == op,
            final(self).call_depth == old(self).call_depth,
            final(self).call_seq == old(self).call_seq,
            final(self).pending_effect_cp == old(self).pending_effect_cp,
            final(self).pending_parent_call_boundary == old(self).pending_parent_call_boundary,
            final(self).pending_calls@ == old(self).pending_calls@,
            final(self).captured_calls@ == old(self).captured_calls@,
            final(self).resume_calls@ == old(self).resume_calls@,
            final(self).resume_idx == old(self).resume_idx,
    {
        let n = self.opcode_steps + 1;
        self.opcode_steps = n;
        self.steps_this_run = self.steps_this_run + 1;
        self.last_opcode = op;
        n
    }

    /// An opcode has run: consume the pending call boundary and effect
    /// flags and say which tip to capture and attach.
    pub fn on_step_end(&mut self) -> (a: StepEndAction)
        ensures
            a.at_call_boundary == old(self).pending_parent_call_boundary,
            a.post_sstore == (old(self).last_opcode == OP_SSTORE),
            a.after_log == is_log_op(old(self).last_opcode),
            a.attach_effect == (old(self).pending_effect_cp
                || old(self).pending_parent_call_boundary),
            !final(self).pending_parent_call_boundary,
            !final(self).pending_effect_cp,
            final(self).opcode_steps == old(self).opcode_steps,
            final(self).steps_this_run == old(self).steps_this_run,
            final(self).last_opcode == old(self).last_opcode,
            final(self).call_depth == old(self).call_depth,
            final(self).call_seq == old(self).call_seq,
            final(self).pending_calls@ == old(self).pending_calls@,
            final(self).captured_calls@ == old(self).captured_calls@,
            final(self).resume_calls@ == old(self).resume_calls@,
            final(self).resume_idx == old(self).resume_idx,
    {
        let call_boundary = self.pending_parent_call_boundary;
        self.pending_parent_call_boundary = false;
        let op = self.last_opcode;
        let post_sstore = op == OP_SSTORE;
        let after_log = !post_sstore && OP_LOG0 <= op && op <= OP_LOG4;
        let effect = self.pending_effect_cp;
        self.pending_effect_cp = false;
        StepEndAction {
            at_call_boundary: call_boundary,
            post_sstore,
            after_log,
            attach_effect: effect || call_boundary,
        }
    }

    /// A nested call is about to start: enter its frame and plan it.
    ///
    /// Outside the top-level call, a call that matches the next entry of the
    /// resume cache is short-circuited, provided it moves no value (or
    /// `allow_valued`) and its gas limit is the cached one.
    pub fn on_call(
        &mut self,
        target: Addr,
        bytecode_address: Addr,
        caller: Addr,
        gas_limit: u64,
        is_static: bool,
        value: Word256,
        allow_valued: bool,
    ) -> (plan: CallPlan)
        ensures
            final(self).call_depth == sat_add_u16(old(self).call_depth),
            final(self).call_seq == sat_add_u32(old(self).call_seq),
            final(self).pending_calls@ == old(self).pending_calls@.push(
                PendingCallMeta {
                    call_seq: sat_add_u32(old(self).call_seq),
                    depth: sat_add_u16(old(self).call_depth),
                    target,
                    bytecode_address,
                    caller,
                    gas_limit,
                    is_static,
                    value,
                },
            ),
            plan == call_plan_spec(
                old(self).call_depth,
                old(self).resume_calls@,
                old(self).resume_idx,
                final(self).pending_calls@.last(),
                allow_valued,
            ),
            final(self).opcode_steps == old(self).opcode_steps,
            final(self).steps_this_run == old(self).steps_this_run,
            final(self).last_opcode == old(self).last_opcode,
            final(self).pending_effect_cp == old(self).pending_effect_cp,
            final(self).pending_parent_call_boundary == old(self).pending_parent_call_boundary,
            final(self).captured_calls@ == old(self).captured_calls@,
            final(self).resume_calls@ == old(self).resume_calls@,
            final(self).resume_idx == old(self).resume_idx,
    {
        let parent_depth = self.call_depth;
        let depth = parent_depth.saturating_add(1);
        self.call_depth = depth;
        let seq = self.call_seq.saturating_add(1);
        self.call_seq = seq;
        let meta = PendingCallMeta {
            call_seq: seq,
            depth,
            target,
            bytecode_address,
            caller,
            gas_limit,
            is_static,
            value,
        };
        self.pending_calls.push(meta);
        if parent_depth >= 1 {
            let idx = self.resume_idx;
            if idx < self.resume_calls.len() {
                let cached = self.resume_calls[idx];
                if cached.call_seq == seq && cached.depth == depth && cached.target == target
                    && cached.bytecode_address == bytecode_address && cached.caller == caller {
                    let v = if !cached.value.is_zero() {
                        cached.value
                    } else {
                        value
                    };
                    if v.is_zero() || allow_valued {
                        if gas_limit != cached.gas_limit {
                            return CallPlan::Proceed;
                        }
                        return CallPlan::ShortCircuit { index: idx, value: v };
                    }
                }
            }
        }
        CallPlan::Proceed
    }

    /// The journal transfer of a short-circuited call went through: the
    /// next resume entry is due.
    pub fn note_call_short_circuit(&mut self)
        ensures
            final(self).resume_idx == sat_add_usize(old(self).resume_idx),
            final(self).opcode_steps == old(self).opcode_steps,
            final(self).call_depth == old(self).call_depth,
            final(self).call_seq == old(self).call_seq,
            final(self).pending_calls@ == old(self).pending_calls@,
            final(self).captured_calls@ == old(self).captured_calls@,
            final(self).resume_calls@ == old(self).resume_calls@,
    {
        self.resume_idx = self.resume_idx.saturating_add(1);
    }

    /// A nested call ended. A successful call below the top-level frame
    /// is captured for later resumes (with `k_end`, the effect ordinal at
    /// its end) and returned; the parent's next step end is a call boundary.
    pub fn on_call_end(&mut self, success: bool, k_end: usize) -> (r: Option<CachedCallOutcome>)
        ensures
            final(self).pending_calls@ == (if old(self).pending_calls@.len() > 0 {
                old(self).pending_calls@.drop_last()
            } else {
                old(self).pending_calls@
            }),
            r == (if old(self).pending_calls@.len() > 0 && success
                && old(self).pending_calls@.last().depth > 1 {
                let m = old(self).pending_calls@.last();
                Some(
                    CachedCallOutcome {
                        call_seq: m.call_seq,
                        depth: m.depth,
                        target: m.target,
                        bytecode_address: m.bytecode_address,
                        caller: m.caller,
                        gas_limit: m.gas_limit,
                        is_static: m.is_static,
                        value: m.value,
                        k_end,
                    },
                )
            } else {
                None
            }),
            final(self).captured_calls@ == (match r {
                Some(c) => old(self).captured_calls@.push(c),
                None => old(self).captured_calls@,
            }),
            final(self).pending_parent_call_boundary,
            final(self).call_depth == sat_sub_u16(old(self).call_depth),
            final(self).opcode_steps == old(self).opcode_steps,
            final(self).steps_this_run == old(self).steps_this_run,
            final(self).last_opcode == old(self).last_opcode,
            final(self).call_seq == old(self).call_seq,
            final(self).pending_effect_cp == old(self).pending_effect_cp,
            final(self).resume_calls@ == old(self).resume_calls@,
            final(self).resume_idx == old(self).resume_idx,
    {
        let meta = self.pending_calls.pop();
        let mut out: Option<CachedCallOutcome> = None;
        if let Some(m) = meta {
            if m.depth > 1 && success {
                let cached = CachedCallOutcome {
                    call_seq: m.call_seq,
                    depth: m.depth,
                    target: m.target,
                    bytecode_address: m.bytecode_address,
                    caller: m.caller,
                    gas_limit: m.gas_limit,
                    is_static: m.is_static,
                    value: m.value,
                    k_end,
                };
                self.captured_calls.push(cached);
                out = Some(cached);
            }
        }
        self.pending_parent_call_boundary = true;
        self.call_depth = self.call_depth.saturating_sub(1);
        out
    }

    /// A create frame is entered.
    pub fn on_create(&mut self)
        ensures
            final(self).call_depth == sat_add_u16(old(self).call_depth),
            final(self).opcode_steps == old(self).opcode_steps,
            final(self).call_seq == old(self).call_seq,
            final(self).pending_calls@ == old(self).pending_calls@,
            final(self).captured_calls@ == old(self).captured_calls@,
            final(self).resume_calls@ == old(self).resume_calls@,
            final(self).resume_idx == old(self).resume_idx,
    {
        self.call_depth = self.call_depth.saturating_add(1);
    }

    /// A create frame is left.
    pub fn on_create_end(&mut self)
        ensures
            final(self).call_depth == sat_sub_u16(old(self).call_depth),
            final(self).opcode_steps == old(self).opcode_steps,
            final(self).call_seq == old(self).call_seq,
            final(self).pending_calls@ == old(self).pending_calls@,
            final(self).captured_calls@ == old(self).captured_calls@,
            final(self).resume_calls@ == old(self).resume_calls@,
            final(self).resume_idx == old(self).resume_idx,
    {
        self.call_depth = self.call_depth.saturating_sub(1);
    }
}

/// Entering and then leaving a nested frame (call or create) restores the
/// frame depth, as long as the depth is below its ceiling.
pub proof fn law_frame_depth_balanced(d: u16)
    requires
        d < u16::MAX,
    ensures
        sat_sub_u16(sat_add_u16(d)) == d,
{
}

/// A call is short-circuited only below the top-level frame, from the
/// next resume entry, when that entry matches the call and its gas limit,
/// and when it moves value only if valued calls are allowed.
pub proof fn law_short_circuit_needs_matching_entry(
    parent: u16,
    cache: Seq<CachedCallOutcome>,
    idx: usize,
    m: PendingCallMeta,
    allow_valued: bool,
)
    ensures
        call_plan_spec(parent, cache, idx, m, allow_valued) matches CallPlan::ShortCircuit {
            index,
            value,
        } ==> {
            &&& parent >= 1
            &&& index == idx
            &&& idx < cache.len()
            &&& cache_matches(cache[idx as int], m)
            &&& cache[idx as int].gas_limit == m.gas_limit
            &&& (value.value() != 0 ==> allow_valued)
        },
        !allow_valued && m.value.value() == 0 && parent >= 1 && idx < cache.len()
            && cache_matches(cache[idx as int], m) && cache[idx as int].value.value() == 0
            && cache[idx as int].gas_limit == m.gas_limit ==> call_plan_spec(
            parent,
            cache,
            idx,
            m,
            allow_valued,
        ) == (CallPlan::ShortCircuit { index: idx, value: m.value }),
{
}

} // verus!
