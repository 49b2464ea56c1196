//! Resume boundaries: may an aborted execution jump straight to the program
//! counter of its snapshot, or must it re-run its prefix?
//!
//! A jump is safe only when the snapshot is a live capture, the prefix is
//! certified by fast-forwarded values or controlled storage replays, and
//! nothing the jump would skip (nested valued calls, unreplayed stores,
//! self-destructs, storage in the journal blob) is left unaccounted for.

use vstd::prelude::*;
use crate::types::{Addr, Word256};
use super::access_spine::AccessMode;

verus! {

/// One storage write replayed into the journal at resume.
#[derive(Debug, Clone, Copy, PartialEq, Eq, Structural)]
pub struct StorageWriteReplay {
    pub address: Addr,
    pub slot: Word256,
    pub present: Word256,
    pub original: Word256,
    /// Gas left right after the store; 0 when unknown.
    pub gas_remaining_after: u64,
}

/// A fast-forwarded value of the certified prefix.
#[derive(Debug, Clone, Copy, PartialEq, Eq, Structural)]
pub enum FfValue {
    /// Account basic data.
    Basic,
    /// One storage slot.
    Storage { address: Addr, slot: Word256, value: Word256 },
    /// Any other fast-forwarded value.
    Other,
}

/// A nested call whose outcome is cached for replay.
#[derive(Debug, Clone, Copy, PartialEq, Eq, Structural)]
pub struct CachedCallOutcome {
    pub call_seq: u32,
    pub depth: u16,
    pub target: Addr,
    pub bytecode_address: Addr,
    pub caller: Addr,
    pub gas_limit: u64,
    pub is_static: bool,
    /// Transferred value.
    pub value: Word256,
    pub k_end: usize,
}

/// One account of a journal blob.
#[derive(Debug, Clone, Copy, PartialEq, Eq, Structural)]
pub struct BlobAccount {
    pub selfdestructed: bool,
    /// Number of storage entries the journal holds for the account.
    pub storage_len: usize,
}

/// Journal snapshot taken at an effect boundary.
pub struct JournalBlob {
    pub accounts: Vec<BlobAccount>,
    pub log_count: usize,
}

impl JournalBlob {
    pub fn is_empty(&self) -> (r: bool)
        ensures
            r == (self.accounts@.len() == 0 && self.log_count == 0),
    {
        self.accounts.len() == 0 && self.log_count == 0
    }

    pub fn account_count(&self) -> (r: usize)
        ensures
            r == self.accounts@.len(),
    {
        self.accounts.len()
    }
}

/// Interpreter state captured at a boundary.
pub struct BoundarySnapshot {
    pub pc: usize,
    pub gas_remaining: u64,
    pub gas_refunded: i64,
    pub memory_words: usize,
    pub memory_expansion_cost: u64,
    pub call_depth: u16,
    /// Interpreter steps before the capture.
    pub opcode_steps: u64,
    pub stack: Vec<Word256>,
    pub memory: Vec<u8>,
    pub code_hash: Option<Word256>,
    pub bytecode_len: usize,
    /// Captured at the end of a call.
    pub at_call_boundary: bool,
    /// Captured right after a store (its gas already charged).
    pub post_sstore: bool,
    /// Ordinal of that store in the plant; 0 for inspector captures.
    pub sstore_index: u64,
    /// Exact storage presents at this tip.
    pub write_replays_at_tip: Vec<StorageWriteReplay>,
    /// Bound storage reads `(address, slot, value)` up to the tip.
    pub tip_sloads: Vec<(Addr, Word256, Word256)>,
}

/// The snapshot holds a live interpreter state, not an empty placeholder.
pub open spec fn is_live_spec(s: BoundarySnapshot) -> bool {
    s.gas_remaining > 0 || s.pc > 0 || s.stack@.len() > 0 || s.memory@.len() > 0
        || s.code_hash is Some
}

impl BoundarySnapshot {
    /// A live capture: gas, a program counter, stack, memory or a code hash.
    pub fn is_live_capture(&self) -> (r: bool)
        ensures
            r == is_live_spec(*self),
    {
        self.gas_remaining > 0 || self.pc > 0 || self.stack.len() > 0 || self.memory.len() > 0
            || self.code_hash.is_some()
    }
}

/// Everything a resume knows about the prefix it would skip.
pub struct ResumeContinuation {
    pub jump_snap: Option<BoundarySnapshot>,
    /// A valued call precedes the tip but its outcome is not cached.
    pub valued_blocks_jump: bool,
    pub call_outcomes: Vec<CachedCallOutcome>,
    pub write_replays: Vec<StorageWriteReplay>,
    /// Fast-forwarded values of the prefix.
    pub values: Vec<FfValue>,
    /// Modes of the prefix effects, in order.
    pub effects: Vec<AccessMode>,
    /// Access ordinal of the checkpoint.
    pub cp_k: usize,
    pub journal_blob: Option<JournalBlob>,
    /// Logs emitted by the prefix, each with the program counter it was
    /// emitted at, to be replayed into the receipt when a jump skips them.
    pub log_replays: Vec<LogReplay>,
}

/// One emitted log of the prefix: where it was emitted and which log of the
/// transaction it is (the interpreter keeps the log bodies).
#[derive(Debug, Clone, Copy, PartialEq, Eq, Structural)]
pub struct LogReplay {
    pub pc: usize,
    pub log_seq: u32,
}

/// The logs emitted at or before program counter `pc`, in order.
pub open spec fn logs_upto(logs: Seq<LogReplay>, pc: usize) -> Seq<LogReplay>
    decreases logs.len(),
{
    if logs.len() == 0 {
        Seq::empty()
    } else {
        logs_upto(logs.drop_last(), pc) + if logs.last().pc <= pc {
            seq![logs.last()]
        } else {
            Seq::empty()
        }
    }
}

fn logs_upto_exec(logs: &Vec<LogReplay>, pc: usize) -> (r: Vec<LogReplay>)
    ensures
        r@ == logs_upto(logs@, pc),
{
    let mut r: Vec<LogReplay> = Vec::new();
    let mut i: usize = 0;
    while i < logs.len()
        invariant
            i <= logs@.len(),
            r@ == logs_upto(logs@.take(i as int), pc),
        decreases logs.len() - i,
    {
        assert(logs@.take(i + 1).drop_last() =~= logs@.take(i as int));
        if logs[i].pc <= pc {
            r.push(logs[i]);
        }
        proof {
            let t = logs@.take(i + 1);
            assert(t.last() == logs@[i as int]);
            assert(r@ =~= logs_upto(t, pc));
        }
        i = i + 1;
    }
    assert(logs@.take(logs@.len() as int) =~= logs@);
    r
}

/// Bytecode up to this length may always jump.
pub const MAX_TINY: usize = 256;
/// Bytecode above this length never jumps.
pub const MAX_STORAGE: usize = 4096;
/// Widest spread of post-store gas among replays.
pub const MAX_GAS_SPREAD: u64 = 50_000;

pub open spec fn has_storage_spec(c: ResumeContinuation) -> bool {
    exists|i: int| 0 <= i < c.values@.len() && #[trigger] c.values@[i] is Storage
}

pub open spec fn has_basic_spec(c: ResumeContinuation) -> bool {
    exists|i: int| 0 <= i < c.values@.len() && #[trigger] c.values@[i] is Basic
}

pub open spec fn has_write_effects_spec(c: ResumeContinuation) -> bool {
    exists|i: int| 0 <= i < c.effects@.len() && #[trigger] c.effects@[i] == AccessMode::Write
}

pub open spec fn has_valued_call_spec(c: ResumeContinuation) -> bool {
    exists|i: int| 0 <= i < c.call_outcomes@.len() && (#[trigger] c.call_outcomes@[i]).value.value()
        != 0
}

/// A bound storage read of the tip matches a fast-forwarded storage value.
pub open spec fn tip_sload_ff_spec(c: ResumeContinuation, s: BoundarySnapshot) -> bool {
    exists|i: int, j: int|
        0 <= i < s.tip_sloads@.len() && 0 <= j < c.values@.len() && (#[trigger] c.values@[j] matches FfValue::Storage { address, slot, value } && address
            == (#[trigger] s.tip_sloads@[i]).0 && slot == s.tip_sloads@[i].1 && value
            == s.tip_sloads@[i].2)
}

pub open spec fn blob_selfdestruct_spec(c: ResumeContinuation) -> bool {
    c.journal_blob matches Some(b) && exists|i: int|
        0 <= i < b.accounts@.len() && (#[trigger] b.accounts@[i]).selfdestructed
}

/// The journal blob carries storage entries (which would shadow the
/// multi-version memory if restored).
pub open spec fn blob_storage_spec(c: ResumeContinuation) -> bool {
    c.journal_blob matches Some(b) && exists|i: int|
        0 <= i < b.accounts@.len() && (#[trigger] b.accounts@[i]).storage_len > 0
}

/// Step budget of a prefix: wide when replays, cached calls or storage
/// values certify it, else narrow.
pub open spec fn max_steps_spec(c: ResumeContinuation, s: BoundarySnapshot) -> u64 {
    if c.write_replays@.len() > 0 || c.call_outcomes@.len() > 0 || has_storage_spec(c)
        || tip_sload_ff_spec(c, s) {
        2048
    } else {
        128
    }
}

/// Live post-store gas of replay `w`.
pub open spec fn live_gas(w: StorageWriteReplay) -> bool {
    w.gas_remaining_after > 0
}

/// A write prefix may jump: some replay carries post-store gas, the tip
/// has no more gas left than any of them, their spread is bounded, and
/// the blob holds no storage.
pub open spec fn write_prefix_safe_spec(c: ResumeContinuation, s: BoundarySnapshot) -> bool {
    let r = c.write_replays@;
    &&& exists|i: int| 0 <= i < r.len() && live_gas(#[trigger] r[i])
    &&& forall|i: int|
        0 <= i < r.len() && live_gas(#[trigger] r[i]) ==> s.gas_remaining <= r[i].gas_remaining_after
    &&& forall|i: int, j: int|
        0 <= i < r.len() && 0 <= j < r.len() && live_gas(#[trigger] r[i]) && live_gas(
            #[trigger] r[j],
        ) ==> r[i].gas_remaining_after - r[j].gas_remaining_after <= MAX_GAS_SPREAD
    &&& !blob_storage_spec(c)
}

/// Index of the first continuation replay on the slot of `w`.
pub open spec fn first_same_slot(r: Seq<StorageWriteReplay>, w: StorageWriteReplay, i: int) -> bool {
    0 <= i < r.len() && r[i].address == w.address && r[i].slot == w.slot && forall|j: int|
        0 <= j < i ==> !((#[trigger] r[j]).address == w.address && r[j].slot == w.slot)
}

/// The conditions of a store tip: it is the single first store of the plant,
/// its gas matches the tip, no later store's replay is pending, memory is
/// live, and the continuation agrees with the tip on that slot.
pub open spec fn tip_gates_spec(c: ResumeContinuation, s: BoundarySnapshot) -> bool {
    let tip = s.write_replays_at_tip@;
    let w0 = tip[0];
    &&& s.sstore_index == 1
    &&& tip.len() == 1
    &&& w0.gas_remaining_after == s.gas_remaining
    &&& w0.gas_remaining_after > 0
    &&& !exists|i: int|
        0 <= i < c.write_replays@.len() && live_gas(#[trigger] c.write_replays@[i])
            && c.write_replays@[i].gas_remaining_after < s.gas_remaining
    &&& s.memory@.len() > 0
    &&& exists|i: int|
        #[trigger] first_same_slot(c.write_replays@, w0, i) && c.write_replays@[i].present
            == w0.present && c.write_replays@[i].original == w0.original
}

/// When a resume may absolute-jump to its snapshot.
pub open spec fn jump_safe_spec(c: ResumeContinuation) -> bool {
    c.jump_snap matches Some(s) && {
        &&& is_live_spec(s)
        &&& !c.valued_blocks_jump
        &&& c.call_outcomes@.len() > 0 ==> !(has_valued_call_spec(c) && c.write_replays@.len()
            == 0) && s.at_call_boundary
        &&& s.call_depth <= 2
        &&& !(s.bytecode_len > 0 && s.pc >= s.bytecode_len)
        &&& s.bytecode_len > MAX_TINY ==> s.bytecode_len <= MAX_STORAGE && (has_storage_spec(c)
            || tip_sload_ff_spec(c, s) || s.at_call_boundary || c.write_replays@.len() > 0)
        &&& 0 < s.opcode_steps <= max_steps_spec(c, s)
        &&& c.effects@.len() > 0
        &&& !(s.post_sstore && c.write_replays@.len() == 0)
        &&& s.sstore_index > 0 ==> tip_gates_spec(c, s)
        &&& c.write_replays@.len() > 0 && s.sstore_index > 0 ==> !blob_storage_spec(c)
        &&& c.write_replays@.len() > 0 && s.sstore_index == 0 ==> write_prefix_safe_spec(c, s)
        &&& c.write_replays@.len() == 0 ==> !has_write_effects_spec(c)
        &&& has_basic_spec(c) || has_storage_spec(c) || c.write_replays@.len() > 0
        &&& !blob_selfdestruct_spec(c)
        &&& !blob_storage_spec(c)
    }
}

fn has_storage(c: &ResumeContinuation) -> (r: bool)
    ensures
        r == has_storage_spec(*c),
{
    let mut i: usize = 0;
    while i < c.values.len()
        invariant
            i <= c.values@.len(),
            forall|j: int| 0 <= j < i ==> !(#[trigger] c.values@[j] is Storage),
        decreases c.values.len() - i,
    {
        if let FfValue::Storage { .. } = c.values[i] {
            return true;
        }
        i = i + 1;
    }
    false
}

fn has_basic(c: &ResumeContinuation) -> (r: bool)
    ensures
        r == has_basic_spec(*c),
{
    let mut i: usize = 0;
    while i < c.values.len()
        invariant
            i <= c.values@.len(),
            forall|j: int| 0 <= j < i ==> !(#[trigger] c.values@[j] is Basic),
        decreases c.values.len() - i,
    {
        if let FfValue::Basic = c.values[i] {
            return true;
        }
        i = i + 1;
    }
    false
}

fn has_write_effects(c: &ResumeContinuation) -> (r: bool)
    ensures
        r == has_write_effects_spec(*c),
{
    let mut i: usize = 0;
    while i < c.effects.len()
        invariant
            i <= c.effects@.len(),
            forall|j: int| 0 <= j < i ==> #[trigger] c.effects@[j] != AccessMode::Write,
        decreases c.effects.len() - i,
    {
        if let AccessMode::Write = c.effects[i] {
            return true;
        }
        i = i + 1;
    }
    false
}

fn has_valued_call(c: &ResumeContinuation) -> (r: bool)
    ensures
        r == has_valued_call_spec(*c),
{
    let mut i: usize = 0;
    while i < c.call_outcomes.len()
        invariant
            i <= c.call_outcomes@.len(),
            forall|j: int| 0 <= j < i ==> (#[trigger] c.call_outcomes@[j]).value.value() == 0,
        decreases c.call_outcomes.len() - i,
    {
        if !c.call_outcomes[i].value.is_zero() {
            return true;
        }
        i = i + 1;
    }
    false
}

fn tip_sload_ff(c: &ResumeContinuation, s: &BoundarySnapshot) -> (r: bool)
    ensures
        r == tip_sload_ff_spec(*c, *s),
{
    let mut i: usize = 0;
    while i < s.tip_sloads.len()
        invariant
            i <= s.tip_sloads@.len(),
            forall|a: int, j: int|
                0 <= a < i && 0 <= j < c.values@.len() ==> !(#[trigger] c.values@[j] matches FfValue::Storage { address, slot, value } && address
                    == (#[trigger] s.tip_sloads@[a]).0 && slot == s.tip_sloads@[a].1 && value
                    == s.tip_sloads@[a].2),
        decreases s.tip_sloads.len() - i,
    {
        let (addr, slot, val) = s.tip_sloads[i];
        let mut j: usize = 0;
        while j < c.values.len()
            invariant
                i < s.tip_sloads@.len(),
                (addr, slot, val) == s.tip_sloads@[i as int],
                j <= c.values@.len(),
                forall|b: int|
                    0 <= b < j ==> !(#[trigger] c.values@[b] matches FfValue::Storage { address, slot: ss, value } && address
                        == addr && ss == slot && value == val),
            decreases c.values.len() - j,
        {
            if let FfValue::Storage { address, slot: ss, value } = c.values[j] {
                if address == addr && ss == slot && value == val {
                    proof {
                        assert(c.values@[j as int] matches FfValue::Storage { address, slot, value } && address
                            == s.tip_sloads@[i as int].0 && slot == s.tip_sloads@[i as int].1
                            && value == s.tip_sloads@[i as int].2);
                    }
                    return true;
                }
            }
            j = j + 1;
        }
        i = i + 1;
    }
    false
}

fn blob_selfdestruct(c: &ResumeContinuation) -> (r: bool)
    ensures
        r == blob_selfdestruct_spec(*c),
{
    match c.journal_blob.as_ref() {
        None => false,
        Some(b) => {
            let mut i: usize = 0;
            while i < b.accounts.len()
                invariant
                    i <= b.accounts@.len(),
                    c.journal_blob is Some && c.journal_blob->0.accounts@ == b.accounts@,
                    forall|j: int| 0 <= j < i ==> !(#[trigger] b.accounts@[j]).selfdestructed,
                decreases b.accounts.len() - i,
            {
                if b.accounts[i].selfdestructed {
                    proof {
                        assert(b.accounts@[i as int].selfdestructed);
                    }
                    return true;
                }
                i = i + 1;
            }
            false
        },
    }
}

fn blob_storage(c: &ResumeContinuation) -> (r: bool)
    ensures
        r == blob_storage_spec(*c),
{
    match c.journal_blob.as_ref() {
        None => false,
        Some(b) => {
            let mut i: usize = 0;
            while i < b.accounts.len()
                invariant
                    i <= b.accounts@.len(),
                    c.journal_blob is Some && c.journal_blob->0.accounts@ == b.accounts@,
                    forall|j: int| 0 <= j < i ==> (#[trigger] b.accounts@[j]).storage_len == 0,
                decreases b.accounts.len() - i,
            {
                if b.accounts[i].storage_len > 0 {
                    proof {
                        assert(b.accounts@[i as int].storage_len > 0);
                    }
                    return true;
                }
                i = i + 1;
            }
            false
        },
    }
}

fn write_prefix_jump_is_safe(c: &ResumeContinuation, s: &BoundarySnapshot) -> (r: bool)
    ensures
        r == write_prefix_safe_spec(*c, *s),
{
    let r: &Vec<StorageWriteReplay> = &c.write_replays;
    assert(r@ == c.write_replays@);
    let mut found = false;
    let mut lo: u64 = 0;
    let mut hi: u64 = 0;
    let mut i: usize = 0;
    while i < r.len()
        invariant
            i <= r@.len(),
            r@ == c.write_replays@,
            found == exists|j: int| 0 <= j < i && live_gas(#[trigger] r@[j]),
            found ==> exists|j: int| 0 <= j < i && live_gas(#[trigger] r@[j]) && r@[j].gas_remaining_after == lo,
            found ==> exists|j: int| 0 <= j < i && live_gas(#[trigger] r@[j]) && r@[j].gas_remaining_after == hi,
            forall|j: int|
                0 <= j < i && live_gas(#[trigger] r@[j]) ==> lo <= r@[j].gas_remaining_after
                    <= hi,
        decreases r.len() - i,
    {
        let g = r[i].gas_remaining_after;
        if g > 0 {
            if !found {
                lo = g;
                hi = g;
                found = true;
            } else {
                if g < lo {
                    lo = g;
                }
                if g > hi {
                    hi = g;
                }
            }
        }
        i = i + 1;
    }
    if !found {
        return false;
    }
    if s.gas_remaining > lo {
        proof {
            let j = choose|j: int|
                0 <= j < r@.len() && live_gas(#[trigger] r@[j]) && r@[j].gas_remaining_after == lo;
            assert(!(s.gas_remaining <= r@[j].gas_remaining_after));
        }
        return false;
    }
    if hi - lo > MAX_GAS_SPREAD {
        proof {
            let a = choose|j: int|
                0 <= j < r@.len() && live_gas(#[trigger] r@[j]) && r@[j].gas_remaining_after == hi;
            let b = choose|j: int|
                0 <= j < r@.len() && live_gas(#[trigger] r@[j]) && r@[j].gas_remaining_after == lo;
            assert(!(r@[a].gas_remaining_after - r@[b].gas_remaining_after <= MAX_GAS_SPREAD));
        }
        return false;
    }
    if blob_storage(c) {
        return false;
    }
    true
}

fn tip_gates(c: &ResumeContinuation, s: &BoundarySnapshot) -> (r: bool)
    ensures
        r == tip_gates_spec(*c, *s),
{
    if s.sstore_index != 1 || s.write_replays_at_tip.len() != 1 {
        return false;
    }
    let w0 = s.write_replays_at_tip[0];
    if w0.gas_remaining_after != s.gas_remaining || w0.gas_remaining_after == 0 {
        return false;
    }
    let r: &Vec<StorageWriteReplay> = &c.write_replays;
    assert(r@ == c.write_replays@);
    let mut i: usize = 0;
    while i < r.len()
        invariant
            i <= r@.len(),
            r@ == c.write_replays@,
            s.sstore_index == 1,
            s.write_replays_at_tip@.len() == 1,
            w0 == s.write_replays_at_tip@[0],
            w0.gas_remaining_after == s.gas_remaining,
            w0.gas_remaining_after > 0,
            forall|j: int|
                0 <= j < i ==> !(live_gas(#[trigger] r@[j]) && r@[j].gas_remaining_after
                    < s.gas_remaining),
        decreases r.len() - i,
    {
        if r[i].gas_remaining_after > 0 && r[i].gas_remaining_after < s.gas_remaining {
            proof {
                assert(live_gas(c.write_replays@[i as int])
                    && c.write_replays@[i as int].gas_remaining_after < s.gas_remaining);
                assert(!tip_gates_spec(*c, *s));
            }
            return false;
        }
        i = i + 1;
    }
    if s.memory.len() == 0 {
        return false;
    }
    let mut k: usize = 0;
    while k < r.len()
        invariant
            k <= r@.len(),
            r@ == c.write_replays@,
            s.sstore_index == 1,
            s.write_replays_at_tip@.len() == 1,
            w0 == s.write_replays_at_tip@[0],
            w0.gas_remaining_after == s.gas_remaining,
            w0.gas_remaining_after > 0,
            s.memory@.len() > 0,
            forall|j: int|
                0 <= j < r@.len() ==> !(live_gas(#[trigger] r@[j]) && r@[j].gas_remaining_after
                    < s.gas_remaining),
            forall|j: int|
                0 <= j < k ==> !((#[trigger] r@[j]).address == w0.address && r@[j].slot == w0.slot),
        decreases r.len() - k,
    {
        if r[k].address == w0.address && r[k].slot == w0.slot {
            proof {
                assert(first_same_slot(r@, w0, k as int));
                assert forall|i2: int| #[trigger] first_same_slot(r@, w0, i2) implies i2 == k by {
                    if i2 < k {
                        assert(!(r@[i2].address == w0.address && r@[i2].slot == w0.slot));
                    } else if i2 > k {
                        assert(r@[k as int].address == w0.address && r@[k as int].slot == w0.slot);
                    }
                }
            }
            let ok = r[k].present == w0.present && r[k].original == w0.original;
            proof {
                if ok {
                    assert(first_same_slot(r@, w0, k as int) && r@[k as int].present == w0.present
                        && r@[k as int].original == w0.original);
                } else {
                    assert forall|i2: int| #[trigger] first_same_slot(r@, w0, i2) implies !(
                    r@[i2].present == w0.present && r@[i2].original == w0.original) by {
                        if i2 < k {
                            assert(!(r@[i2].address == w0.address && r@[i2].slot == w0.slot));
                        } else if i2 > k {
                            assert(r@[k as int].address == w0.address && r@[k as int].slot
                                == w0.slot);
                        }
                    }
                }
            }
            return ok;
        }
        k = k + 1;
    }
    proof {
        assert forall|i2: int| #[trigger] first_same_slot(r@, w0, i2) implies false by {}
    }
    false
}

/// May this resume absolute-jump to its snapshot?
pub fn jump_is_safe(cont: &ResumeContinuation) -> (r: bool)
    ensures
        r == jump_safe_spec(*cont),
{
    let snap = match &cont.jump_snap {
        None => {
            return false;
        },
        Some(s) => s,
    };
    if !snap.is_live_capture() {
        return false;
    }
    if cont.valued_blocks_jump {
        return false;
    }
    if cont.call_outcomes.len() > 0 {
        let has_valued = has_valued_call(cont);
        if has_valued && cont.write_replays.len() == 0 {
            return false;
        }
        if !snap.at_call_boundary {
            return false;
        }
    }
    if snap.call_depth > 2 {
        return false;
    }
    if snap.bytecode_len > 0 && snap.pc >= snap.bytecode_len {
        return false;
    }
    let storage = has_storage(cont);
    let basic = has_basic(cont);
    let sload_ff = tip_sload_ff(cont, snap);
    let write_effects = has_write_effects(cont);
    if snap.bytecode_len > MAX_TINY {
        if snap.bytecode_len > MAX_STORAGE {
            return false;
        }
        if !storage && !sload_ff && !snap.at_call_boundary && cont.write_replays.len() == 0 {
            return false;
        }
    }
    if cont.cp_k == 0 && cont.effects.len() == 0 && snap.opcode_steps == 0 {
        return false;
    }
    let max_steps: u64 = if cont.write_replays.len() > 0 || cont.call_outcomes.len() > 0
        || storage || sload_ff {
        2048
    } else {
        128
    };
    if snap.opcode_steps == 0 || snap.opcode_steps > max_steps {
        return false;
    }
    if cont.effects.len() == 0 {
        return false;
    }
    if snap.post_sstore && cont.write_replays.len() == 0 {
        return false;
    }
    if snap.sstore_index > 0 {
        if !tip_gates(cont, snap) {
            return false;
        }
    }
    if cont.write_replays.len() > 0 {
        if snap.sstore_index > 0 {
            if blob_storage(cont) {
                return false;
            }
        } else if !write_prefix_jump_is_safe(cont, snap) {
            return false;
        }
    } else if write_effects {
        return false;
    }
    if !basic && !storage && cont.write_replays.len() == 0 {
        return false;
    }
    if blob_selfdestruct(cont) {
        return false;
    }
    if blob_storage(cont) {
        return false;
    }
    true
}


/// `v` is a fast-forwarded value of storage slot `slot` of `addr`.
pub open spec fn ff_slot_is(v: FfValue, addr: Addr, slot: Word256) -> bool {
    v matches FfValue::Storage { address, slot: s, .. } && address == addr && s == slot
}

/// The value of the first fast-forwarded entry for that slot, if any.
pub open spec fn first_ff_slot(values: Seq<FfValue>, addr: Addr, slot: Word256) -> Option<Word256> {
    if exists|j: int| 0 <= j < values.len() && ff_slot_is(#[trigger] values[j], addr, slot) {
        let j = choose|j: int|
            0 <= j < values.len() && ff_slot_is(#[trigger] values[j], addr, slot) && forall|k: int|
                0 <= k < j ==> !ff_slot_is(#[trigger] values[k], addr, slot);
        Some(values[j]->value)
    } else {
        None
    }
}

fn lookup_ff_slot(values: &Vec<FfValue>, addr: Addr, slot: Word256) -> (r: Option<Word256>)
    ensures
        r == first_ff_slot(values@, addr, slot),
{
    let mut i: usize = 0;
    while i < values.len()
        invariant
            i <= values@.len(),
            forall|k: int| 0 <= k < i ==> !ff_slot_is(#[trigger] values@[k], addr, slot),
        decreases values.len() - i,
    {
        if let FfValue::Storage { address, slot: s, value } = values[i] {
            if address == addr && s == slot {
                proof {
                    let vs = values@;
                    assert(ff_slot_is(vs[i as int], addr, slot));
                    let j = choose|j: int|
                        0 <= j < vs.len() && ff_slot_is(#[trigger] vs[j], addr, slot) && forall|k: int|
                            0 <= k < j ==> !ff_slot_is(#[trigger] vs[k], addr, slot);
                    if j < i {
                        assert(!ff_slot_is(vs[j], addr, slot));
                    }
                    if i < j {
                        assert(!ff_slot_is(vs[i as int], addr, slot));
                    }
                }
                return Some(value);
            }
        }
        i = i + 1;
    }
    None
}

/// The tip's bound storage reads agree with the fast-forwarded values: on a
/// read-prefix tip (no store ordinal, not right after a store) with bound
/// reads, none of them conflicts with a fast-forwarded value of its slot
/// and at least one of them matches one. Any other tip agrees.
pub open spec fn tip_agrees_spec(c: ResumeContinuation, s: BoundarySnapshot) -> bool {
    let t = s.tip_sloads@;
    if s.sstore_index == 0 && !s.post_sstore && t.len() > 0 {
        &&& forall|i: int| 0 <= i < t.len() ==> match first_ff_slot(c.values@, (#[trigger] t[i]).0, t[i].1) {
            Some(v) => v == t[i].2,
            None => true,
        }
        &&& exists|i: int| 0 <= i < t.len() && first_ff_slot(c.values@, (#[trigger] t[i]).0, t[i].1) == Some(t[i].2)
    } else {
        true
    }
}

#[verifier::spinoff_prover]
#[verifier::rlimit(40)]
fn tip_agrees(c: &ResumeContinuation, s: &BoundarySnapshot) -> (r: bool)
    ensures
        r == tip_agrees_spec(*c, *s),
{
    if !(s.sstore_index == 0 && !s.post_sstore && s.tip_sloads.len() > 0) {
        return true;
    }
    let mut any_match = false;
    let mut i: usize = 0;
    while i < s.tip_sloads.len()
        invariant
            i <= s.tip_sloads@.len(),
            s.sstore_index == 0 && !s.post_sstore && s.tip_sloads@.len() > 0,
            forall|a: int| 0 <= a < i ==> match first_ff_slot(c.values@, (#[trigger] s.tip_sloads@[a]).0, s.tip_sloads@[a].1) {
                Some(v) => v == s.tip_sloads@[a].2,
                None => true,
            },
            any_match == exists|a: int| 0 <= a < i && first_ff_slot(c.values@, (#[trigger] s.tip_sloads@[a]).0, s.tip_sloads@[a].1) == Some(s.tip_sloads@[a].2),
        decreases s.tip_sloads.len() - i,
    {
        let (addr, slot, val) = s.tip_sloads[i];
        match lookup_ff_slot(&c.values, addr, slot) {
            Some(v) => {
                if v == val {
                    any_match = true;
                } else {
                    proof {
                        let t = s.tip_sloads@;
                        assert((addr, slot, val) == t[i as int]);
                        assert(first_ff_slot(c.values@, t[i as int].0, t[i as int].1) == Some(v));
                        assert(v != t[i as int].2);
                    }
                    return false;
                }
            },
            None => {},
        }
        proof {
            let t = s.tip_sloads@;
            if any_match {
                if first_ff_slot(c.values@, t[i as int].0, t[i as int].1) == Some(t[i as int].2) {
                    assert(0 <= i < i + 1);
                }
            }
            assert forall|a: int| 0 <= a < i + 1 && first_ff_slot(c.values@, (#[trigger] t[a]).0, t[a].1) == Some(t[a].2) implies any_match by {
                if a == i {
                } else {
                    assert(exists|b: int| 0 <= b < i && first_ff_slot(c.values@, (#[trigger] t[b]).0, t[b].1) == Some(t[b].2));
                }
            }
        }
        i = i + 1;
    }
    any_match
}

/// What arming an absolute jump hands to the resumed run.
pub struct JumpArm {
    /// Store presents to replay at the tip.
    pub tip_writes: Vec<StorageWriteReplay>,
    /// Fast-forwarded values to pre-warm on a read-prefix jump.
    pub warm_presents: Vec<FfValue>,
    /// Nested call outcomes to replay past the jump.
    pub call_touches: Vec<CachedCallOutcome>,
    /// Logs the jump skips (emitted at or before the tip), to replay.
    pub skipped_logs: Vec<LogReplay>,
}

/// Whether and how to arm an absolute jump: only when the flag allows it,
/// the jump was not disabled for the transaction, the jump is safe and the
/// tip's bound reads agree. The tip's own store presents are replayed when
/// it has a store ordinal, else the continuation's; a read-prefix jump with
/// no replays pre-warms every fast-forwarded value; cached call outcomes
/// are replayed, and so are the logs emitted at or before the tip.
pub fn plan_absolute_jump(cont: &ResumeContinuation, env_ok: bool, jump_disabled: bool) -> (r: Option<JumpArm>)
    ensures
        r is Some <==> (env_ok && !jump_disabled && jump_safe_spec(*cont) && tip_agrees_spec(*cont, cont.jump_snap->0)),
        r is Some ==> ({
            let s = cont.jump_snap->0;
            let a = r->0;
            &&& a.tip_writes@ == (if s.sstore_index > 0 { s.write_replays_at_tip@ } else { cont.write_replays@ })
            &&& a.warm_presents@ == (if s.sstore_index == 0 && !s.post_sstore && cont.write_replays@.len() == 0 {
                cont.values@
            } else {
                Seq::<FfValue>::empty()
            })
            &&& a.call_touches@ == cont.call_outcomes@
            &&& a.skipped_logs@ == logs_upto(cont.log_replays@, s.pc)
        }),
{
    if !env_ok || jump_disabled || !jump_is_safe(cont) {
        return None;
    }
    let snap = match &cont.jump_snap {
        Some(s) => s,
        None => {
            return None;
        },
    };
    if !tip_agrees(cont, snap) {
        return None;
    }
    let tip_writes = if snap.sstore_index > 0 {
        snap.write_replays_at_tip.clone()
    } else {
        cont.write_replays.clone()
    };
    let warm_presents = if snap.sstore_index == 0 && !snap.post_sstore && cont.write_replays.len() == 0 {
        cont.values.clone()
    } else {
        Vec::new()
    };
    let skipped_logs = logs_upto_exec(&cont.log_replays, snap.pc);
    Some(JumpArm { tip_writes, warm_presents, call_touches: cont.call_outcomes.clone(), skipped_logs })
}

/// The checks of a jump, in the order they are checked; `Allowed` when all pass.
#[derive(Debug, Clone, Copy, PartialEq, Eq, Structural)]
pub enum JumpRefusal {
    NoSnap,
    NotLive,
    ValuedBlocks,
    ValuedCallNoWrites,
    CallOutcomesNotBoundary,
    CallDepth,
    PcOob,
    BytecodeHuge,
    BytecodeNoStorageFf,
    EmptyCp0,
    StepsZero,
    StepsOver,
    EffectsEmpty,
    PostSstoreNoReplays,
    SstoreTipGates,
    WritePrefixUnsafe,
    WriteEffectsNoReplays,
    NoFfValues,
    BlobSelfdestruct,
    BlobStoragePoison,
    Allowed,
    Unknown,
}

/// Why a resume may not jump: the first failing check, `"ok"` when every
/// check passes on an inspector tip. Store tips are reported as a group.
pub open spec fn refusal_spec(c: ResumeContinuation) -> JumpRefusal {
    if c.jump_snap is None {
        JumpRefusal::NoSnap
    } else {
        let s = c.jump_snap->0;
        let replays = c.write_replays@.len();
        if !is_live_spec(s) {
            JumpRefusal::NotLive
        } else if c.valued_blocks_jump {
            JumpRefusal::ValuedBlocks
        } else if c.call_outcomes@.len() > 0 && has_valued_call_spec(c) && replays == 0 {
            JumpRefusal::ValuedCallNoWrites
        } else if c.call_outcomes@.len() > 0 && !s.at_call_boundary {
            JumpRefusal::CallOutcomesNotBoundary
        } else if s.call_depth > 2 {
            JumpRefusal::CallDepth
        } else if s.bytecode_len > 0 && s.pc >= s.bytecode_len {
            JumpRefusal::PcOob
        } else if s.bytecode_len > MAX_TINY && s.bytecode_len > MAX_STORAGE {
            JumpRefusal::BytecodeHuge
        } else if s.bytecode_len > MAX_TINY && !has_storage_spec(c) && !tip_sload_ff_spec(c, s)
            && !s.at_call_boundary && replays == 0 {
            JumpRefusal::BytecodeNoStorageFf
        } else if c.cp_k == 0 && c.effects@.len() == 0 && s.opcode_steps == 0 {
            JumpRefusal::EmptyCp0
        } else if s.opcode_steps == 0 {
            JumpRefusal::StepsZero
        } else if s.opcode_steps > max_steps_spec(c, s) {
            JumpRefusal::StepsOver
        } else if c.effects@.len() == 0 {
            JumpRefusal::EffectsEmpty
        } else if s.post_sstore && replays == 0 {
            JumpRefusal::PostSstoreNoReplays
        } else if s.sstore_index > 0 {
            JumpRefusal::SstoreTipGates
        } else if replays > 0 && !write_prefix_safe_spec(c, s) {
            JumpRefusal::WritePrefixUnsafe
        } else if replays == 0 && has_write_effects_spec(c) {
            JumpRefusal::WriteEffectsNoReplays
        } else if !has_basic_spec(c) && !has_storage_spec(c) && replays == 0 {
            JumpRefusal::NoFfValues
        } else if blob_selfdestruct_spec(c) {
            JumpRefusal::BlobSelfdestruct
        } else if blob_storage_spec(c) {
            JumpRefusal::BlobStoragePoison
        } else if jump_safe_spec(c) {
            JumpRefusal::Allowed
        } else {
            JumpRefusal::Unknown
        }
    }
}

/// The diagnostic name of a refusal.
pub open spec fn refusal_name(r: JumpRefusal) -> Seq<char> {
    match r {
        JumpRefusal::NoSnap => "no_snap"@,
        JumpRefusal::NotLive => "not_live"@,
        JumpRefusal::ValuedBlocks => "valued_blocks"@,
        JumpRefusal::ValuedCallNoWrites => "valued_call_no_writes"@,
        JumpRefusal::CallOutcomesNotBoundary => "call_outcomes_not_boundary"@,
        JumpRefusal::CallDepth => "call_depth"@,
        JumpRefusal::PcOob => "pc_oob"@,
        JumpRefusal::BytecodeHuge => "bytecode_huge"@,
        JumpRefusal::BytecodeNoStorageFf => "bytecode_no_storage_ff"@,
        JumpRefusal::EmptyCp0 => "empty_cp0"@,
        JumpRefusal::StepsZero => "steps_zero"@,
        JumpRefusal::StepsOver => "steps_over"@,
        JumpRefusal::EffectsEmpty => "effects_empty"@,
        JumpRefusal::PostSstoreNoReplays => "post_sstore_no_replays"@,
        JumpRefusal::SstoreTipGates => "sstore_tip_gates"@,
        JumpRefusal::WritePrefixUnsafe => "write_prefix_unsafe"@,
        JumpRefusal::WriteEffectsNoReplays => "write_effects_no_replays"@,
        JumpRefusal::NoFfValues => "no_ff_values"@,
        JumpRefusal::BlobSelfdestruct => "blob_selfdestruct"@,
        JumpRefusal::BlobStoragePoison => "blob_storage_poison"@,
        JumpRefusal::Allowed => "ok"@,
        JumpRefusal::Unknown => "unknown"@,
    }
}

/// Name of the first failing check.
pub open spec fn refuse_reason_spec(c: ResumeContinuation) -> Seq<char> {
    refusal_name(refusal_spec(c))
}

/// Name the first check that refuses a jump (diagnostics).
pub fn jump_refuse_reason(cont: &ResumeContinuation) -> (r: &'static str)
    ensures
        r@ == refuse_reason_spec(*cont),
{
    let snap = match &cont.jump_snap {
        None => {
            return "no_snap";
        },
        Some(s) => s,
    };
    if !snap.is_live_capture() {
        return "not_live";
    }
    if cont.valued_blocks_jump {
        return "valued_blocks";
    }
    if cont.call_outcomes.len() > 0 {
        let has_valued = has_valued_call(cont);
        if has_valued && cont.write_replays.len() == 0 {
            return "valued_call_no_writes";
        }
        if !snap.at_call_boundary {
            return "call_outcomes_not_boundary";
        }
    }
    if snap.call_depth > 2 {
        return "call_depth";
    }
    if snap.bytecode_len > 0 && snap.pc >= snap.bytecode_len {
        return "pc_oob";
    }
    let storage = has_storage(cont);
    let basic = has_basic(cont);
    let sload_ff = tip_sload_ff(cont, snap);
    let write_effects = has_write_effects(cont);
    if snap.bytecode_len > MAX_TINY {
        if snap.bytecode_len > MAX_STORAGE {
            return "bytecode_huge";
        }
        if !storage && !sload_ff && !snap.at_call_boundary && cont.write_replays.len() == 0 {
            return "bytecode_no_storage_ff";
        }
    }
    if cont.cp_k == 0 && cont.effects.len() == 0 && snap.opcode_steps == 0 {
        return "empty_cp0";
    }
    let max_steps: u64 = if cont.write_replays.len() > 0 || cont.call_outcomes.len() > 0
        || storage || sload_ff {
        2048
    } else {
        128
    };
    if snap.opcode_steps == 0 {
        return "steps_zero";
    }
    if snap.opcode_steps > max_steps {
        return "steps_over";
    }
    if cont.effects.len() == 0 {
        return "effects_empty";
    }
    if snap.post_sstore && cont.write_replays.len() == 0 {
        return "post_sstore_no_replays";
    }
    if snap.sstore_index > 0 {
        return "sstore_tip_gates";
    }
    if cont.write_replays.len() > 0 {
        if !write_prefix_jump_is_safe(cont, snap) {
            return "write_prefix_unsafe";
        }
    } else if write_effects {
        return "write_effects_no_replays";
    }
    if !basic && !storage && cont.write_replays.len() == 0 {
        return "no_ff_values";
    }
    if blob_selfdestruct(cont) {
        return "blob_selfdestruct";
    }
    if blob_storage(cont) {
        return "blob_storage_poison";
    }
    if jump_is_safe(cont) {
        return "ok";
    }
    "unknown"
}

/// The diagnosis agrees with the jump check: the reason is `"ok"` exactly when
/// the jump is safe from an inspector tip (no store ordinal); a safe jump
/// from a store tip is reported as `"sstore_tip_gates"`; and the fallback
/// `"unknown"` is never reached.
pub proof fn law_refuse_reason_matches_jump_check(c: ResumeContinuation)
    ensures
        (refusal_spec(c) == JumpRefusal::Allowed) == (jump_safe_spec(c) && c.jump_snap->0.sstore_index
            == 0),
        jump_safe_spec(c) ==> refusal_spec(c) == JumpRefusal::Allowed || refusal_spec(c)
            == JumpRefusal::SstoreTipGates,
        refusal_spec(c) != JumpRefusal::Unknown,
{
    if c.jump_snap is Some {
        let s = c.jump_snap->0;
        let replays = c.write_replays@.len();
        let passes = {
            &&& is_live_spec(s)
            &&& !c.valued_blocks_jump
            &&& !(c.call_outcomes@.len() > 0 && has_valued_call_spec(c) && replays == 0)
            &&& !(c.call_outcomes@.len() > 0 && !s.at_call_boundary)
            &&& s.call_depth <= 2
            &&& !(s.bytecode_len > 0 && s.pc >= s.bytecode_len)
            &&& !(s.bytecode_len > MAX_TINY && s.bytecode_len > MAX_STORAGE)
            &&& !(s.bytecode_len > MAX_TINY && !has_storage_spec(c) && !tip_sload_ff_spec(c, s)
                && !s.at_call_boundary && replays == 0)
            &&& !(c.cp_k == 0 && c.effects@.len() == 0 && s.opcode_steps == 0)
            &&& s.opcode_steps != 0
            &&& s.opcode_steps <= max_steps_spec(c, s)
            &&& c.effects@.len() != 0
            &&& !(s.post_sstore && replays == 0)
        };
        let tail = {
            &&& !(replays > 0 && !write_prefix_safe_spec(c, s))
            &&& !(replays == 0 && has_write_effects_spec(c))
            &&& !(!has_basic_spec(c) && !has_storage_spec(c) && replays == 0)
            &&& !blob_selfdestruct_spec(c)
            &&& !blob_storage_spec(c)
        };
        if passes && s.sstore_index == 0 && tail {
            assert(jump_safe_spec(c));
        }
        if jump_safe_spec(c) {
            assert(passes);
            if s.sstore_index == 0 {
                assert(tail);
            }
        }
    }
}

} // verus!
