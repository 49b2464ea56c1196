//! First-conflict classification, commuting lazy adds, and the lazy
//! default for short transfer spines.
//!
//! A failed validation names its invalid locations; each is described here
//! by what the multi-version memory and the block's envelope hints say of
//! it, and the rules below decide whether the failure commutes, is lazy
//! noise, or is an effective write-after-write.

use vstd::prelude::*;
use crate::mv_memory::{current_value_spec, MvMemory};
use crate::types::{Addr, MemoryValue, TxIdx};

verus! {

/// Class of the first validation-fail location.
#[derive(Debug, Clone, Copy, PartialEq, Eq, Structural)]
pub enum ConflictClass {
    /// Transfers whose lazy recipient and beneficiary adds commute.
    CommuteCandidate,
    /// Storage, or eager account data, with a real prior writer.
    EffectiveWAW,
    /// Lazy-only updates, or a same-sender transfer nonce race.
    LazyNoise,
}

/// Kind of the value the multi-version memory holds at a location.
#[derive(Debug, Clone, Copy, PartialEq, Eq, Structural)]
pub enum ValueKind {
    Basic,
    Storage,
    LazyRecipient,
    LazySender,
    Other,
}

/// The envelope of a transaction: sender and recipient.
#[derive(Debug, Clone, Copy, PartialEq, Eq, Structural)]
pub struct Envelope {
    pub from: Addr,
    pub to: Option<Addr>,
    /// Empty calldata: a plain value transfer.
    pub empty_input: bool,
}

/// A writer below the failing transaction, with its envelope.
#[derive(Debug, Clone, Copy, PartialEq, Eq, Structural)]
pub struct PriorWriter {
    pub tx: TxIdx,
    pub env: Envelope,
}

/// What is known of one invalid location of the failing transaction.
#[derive(Debug, Clone, Copy, PartialEq, Eq, Structural)]
pub struct LocFacts {
    /// The location is the sender's account data.
    pub is_sender_basic: bool,
    /// The location is the beneficiary's account data.
    pub is_beneficiary_basic: bool,
    /// Value the failing transaction currently reads there.
    pub value: Option<ValueKind>,
    /// Last writer below the failing transaction, with its envelope.
    pub last_writer: Option<PriorWriter>,
}

/// First conflict location and peer of a would-re-execute validation fail.
#[derive(Debug, Clone, Copy, PartialEq, Eq, Structural)]
pub struct FirstConflict {
    pub location: u64,
    pub peer: Option<TxIdx>,
    pub class: ConflictClass,
    pub lazy: bool,
}

pub open spec fn is_lazy(v: Option<ValueKind>) -> bool {
    v == Some(ValueKind::LazyRecipient) || v == Some(ValueKind::LazySender)
}

/// `{from, to}` of `a` and `b` do not intersect.
pub open spec fn disjoint_spec(a: Envelope, b: Envelope) -> bool {
    &&& a.from != b.from
    &&& !(a.to is Some && a.to == b.to)
    &&& a.to != Some(b.from)
    &&& b.to != Some(a.from)
}

/// True when the sender/recipient pairs of two envelopes do not intersect.
pub fn envelopes_disjoint(a: &Envelope, b: &Envelope) -> (r: bool)
    ensures
        r == disjoint_spec(*a, *b),
{
    if a.from == b.from {
        return false;
    }
    if a.to.is_some() && a.to == b.to {
        return false;
    }
    if a.to == Some(b.from) || b.to == Some(a.from) {
        return false;
    }
    true
}

/// A plain value transfer (empty input).
pub fn is_value_transfer(e: &Envelope) -> (r: bool)
    ensures
        r == e.empty_input,
{
    e.empty_input
}

/// One invalid location of `tx` is a commutative lazy add.
pub open spec fn commute_location_spec(tx: TxIdx, me: Envelope, f: LocFacts) -> bool {
    if f.is_sender_basic {
        false
    } else if f.is_beneficiary_basic {
        true
    } else if f.value == Some(ValueKind::LazyRecipient) {
        true
    } else {
        match f.last_writer {
            None => false,
            Some(w) => w.tx < tx && w.env.empty_input && w.env.from != me.from && is_lazy(f.value),
        }
    }
}

pub fn commute_location_ok(tx: TxIdx, me: &Envelope, f: &LocFacts) -> (r: bool)
    ensures
        r == commute_location_spec(tx, *me, *f),
{
    if f.is_sender_basic {
        return false;
    }
    if f.is_beneficiary_basic {
        return true;
    }
    if f.value == Some(ValueKind::LazyRecipient) {
        return true;
    }
    let (peer, pe) = match f.last_writer {
        None => {
            return false;
        },
        Some(w) => (w.tx, w.env),
    };
    if peer >= tx || !pe.empty_input {
        return false;
    }
    if pe.from == me.from {
        return false;
    }
    f.value == Some(ValueKind::LazyRecipient) || f.value == Some(ValueKind::LazySender)
}

/// Skip a full abort when `tx` is a transfer and every invalid location is
/// a commutative lazy add.
pub open spec fn commute_spec(tx: TxIdx, me: Envelope, invalid: Seq<LocFacts>) -> bool {
    invalid.len() > 0 && me.empty_input && forall|i: int|
        0 <= i < invalid.len() ==> commute_location_spec(tx, me, #[trigger] invalid[i])
}

pub fn commute_ok(tx: TxIdx, me: &Envelope, invalid: &[LocFacts]) -> (r: bool)
    ensures
        r == commute_spec(tx, *me, invalid@),
{
    if invalid.len() == 0 || !me.empty_input {
        return false;
    }
    let mut i: usize = 0;
    while i < invalid.len()
        invariant
            i <= invalid@.len(),
            forall|j: int| 0 <= j < i ==> commute_location_spec(tx, *me, #[trigger] invalid@[j]),
        decreases invalid.len() - i,
    {
        if !commute_location_ok(tx, me, &invalid[i]) {
            return false;
        }
        i = i + 1;
    }
    true
}

/// The class of the first conflict.
pub open spec fn class_spec(tx: TxIdx, me: Envelope, invalid: Seq<LocFacts>) -> ConflictClass {
    let f = invalid[0];
    let peer = match f.last_writer {
        Some(w) => if w.tx < tx {
            Some(w)
        } else {
            None
        },
        None => None,
    };
    if commute_spec(tx, me, invalid) {
        ConflictClass::CommuteCandidate
    } else if f.value == Some(ValueKind::Storage) {
        ConflictClass::EffectiveWAW
    } else if is_lazy(f.value) {
        ConflictClass::LazyNoise
    } else if me.empty_input && (peer matches Some(w) && w.env.empty_input && w.env.from == me.from) {
        ConflictClass::LazyNoise
    } else {
        ConflictClass::EffectiveWAW
    }
}

/// The first invalid location (`locations[0]`, described by `invalid[0]`)
/// and its peer, classed as commuting, lazy noise or an effective WAW.
/// `None` when nothing is invalid.
pub fn classify_first_conflict(
    tx: TxIdx,
    me: &Envelope,
    locations: &[u64],
    invalid: &[LocFacts],
) -> (r: Option<FirstConflict>)
    requires
        locations@.len() == invalid@.len(),
    ensures
        match r {
            None => invalid@.len() == 0,
            Some(c) => {
                let f = invalid@[0];
                &&& invalid@.len() > 0
                &&& c.location == locations@[0]
                &&& c.peer == (match f.last_writer {
                    Some(w) => if w.tx < tx {
                        Some(w.tx)
                    } else {
                        None
                    },
                    None => None,
                })
                &&& c.lazy == is_lazy(f.value)
                &&& c.class == class_spec(tx, *me, invalid@)
            },
        },
{
    if invalid.len() == 0 {
        return None;
    }
    let f = invalid[0];
    let peer: Option<PriorWriter> = match f.last_writer {
        Some(w) => if w.tx < tx {
            Some(w)
        } else {
            None
        },
        None => None,
    };
    let lazy = f.value == Some(ValueKind::LazyRecipient) || f.value == Some(ValueKind::LazySender);
    let class = if commute_ok(tx, me, invalid) {
        ConflictClass::CommuteCandidate
    } else if f.value == Some(ValueKind::Storage) {
        ConflictClass::EffectiveWAW
    } else if lazy {
        ConflictClass::LazyNoise
    } else if me.empty_input && match peer {
        Some(w) => w.env.empty_input && w.env.from == me.from,
        None => false,
    } {
        ConflictClass::LazyNoise
    } else {
        ConflictClass::EffectiveWAW
    };
    Some(
        FirstConflict {
            location: locations[0],
            peer: match peer {
                Some(w) => Some(w.tx),
                None => None,
            },
            class,
            lazy,
        },
    )
}

/// Spines at least this long stay eager.
pub const SHORT_SPINE: usize = 16;

/// Force lazy on an empty-input transfer to an externally owned account
/// when it shares a short spine (2 to 15 transactions) of senders or
/// recipients, in a block that runs optimistically and when it is not
/// already queued.
pub open spec fn hinted_lazy_spec(
    n_from: usize,
    n_to: Option<usize>,
    empty_input: bool,
    eoa: bool,
    optimistic_majority_block: bool,
    queued: bool,
) -> bool {
    &&& optimistic_majority_block
    &&& !queued
    &&& empty_input
    &&& eoa
    &&& (2 <= n_from < SHORT_SPINE || (n_to matches Some(n) && 2 <= n < SHORT_SPINE))
}

/// `n_from` and `n_to` are the numbers of the block's transactions from the
/// sender and to the recipient (when there is one).
pub fn optimistic_majority_hinted_lazy(
    n_from: usize,
    n_to: Option<usize>,
    empty_input: bool,
    eoa: bool,
    optimistic_majority_block: bool,
    queued: bool,
) -> (r: bool)
    ensures
        r == hinted_lazy_spec(n_from, n_to, empty_input, eoa, optimistic_majority_block, queued),
{
    if !optimistic_majority_block || queued || !empty_input || !eoa {
        return false;
    }
    if 2 <= n_from && n_from < SHORT_SPINE {
        return true;
    }
    if let Some(n) = n_to {
        if 2 <= n && n < SHORT_SPINE {
            return true;
        }
    }
    false
}

/// A transaction never commutes with a writer that shares its sender: a
/// write to the sender's own account data, or a lazy add by a same-sender
/// transfer, always forces the full abort path.
pub proof fn law_same_sender_never_commutes(tx: TxIdx, me: Envelope, f: LocFacts)
    requires
        f.is_sender_basic || (!f.is_beneficiary_basic && f.value != Some(ValueKind::LazyRecipient)
            && (f.last_writer matches Some(w) && w.env.from == me.from)),
    ensures
        !commute_location_spec(tx, me, f),
{
}

/// Envelope disjointness is symmetric.
pub proof fn law_disjoint_symmetric(a: Envelope, b: Envelope)
    ensures
        disjoint_spec(a, b) == disjoint_spec(b, a),
{
}

/// The kind of a stored value.
pub open spec fn kind_of(v: MemoryValue) -> ValueKind {
    match v {
        MemoryValue::Basic(_) => ValueKind::Basic,
        MemoryValue::Storage(_) => ValueKind::Storage,
        MemoryValue::LazyRecipient(_) => ValueKind::LazyRecipient,
        MemoryValue::LazySender(_) => ValueKind::LazySender,
        _ => ValueKind::Other,
    }
}

pub fn value_kind(v: &MemoryValue) -> (r: ValueKind)
    ensures
        r == kind_of(*v),
{
    match v {
        MemoryValue::Basic(_) => ValueKind::Basic,
        MemoryValue::Storage(_) => ValueKind::Storage,
        MemoryValue::LazyRecipient(_) => ValueKind::LazyRecipient,
        MemoryValue::LazySender(_) => ValueKind::LazySender,
        _ => ValueKind::Other,
    }
}

/// The value `tx_idx` reads at `loc` is a pending lazy balance change.
pub fn location_is_lazy(mv_memory: &MvMemory, tx_idx: TxIdx, loc: u64) -> (r: bool)
    ensures
        r == match current_value_spec(mv_memory@, tx_idx, loc) {
            Some(v) => is_lazy(Some(kind_of(v))),
            None => false,
        },
{
    match mv_memory.current_data_value(tx_idx, loc) {
        Some(v) => {
            let k = value_kind(&v);
            k == ValueKind::LazyRecipient || k == ValueKind::LazySender
        },
        None => false,
    }
}

/// Only a lazy add commutes: a location that is not the beneficiary's
/// account and whose current value is neither a pending recipient add nor a
/// pending sender subtraction never commutes, whatever wrote it last; and
/// the sender's own account never commutes. One such location among the
/// invalid ones is enough to refuse the commute, so the abort happens.
pub proof fn law_only_lazy_adds_commute(tx: TxIdx, me: Envelope, f: LocFacts, invalid: Seq<LocFacts>, i: int)
    ensures
        !f.is_beneficiary_basic && f.value != Some(ValueKind::LazyRecipient) && f.value != Some(ValueKind::LazySender)
            ==> !commute_location_spec(tx, me, f),
        f.is_sender_basic ==> !commute_location_spec(tx, me, f),
        0 <= i < invalid.len() && !invalid[i].is_beneficiary_basic && invalid[i].value != Some(ValueKind::LazyRecipient)
            && invalid[i].value != Some(ValueKind::LazySender) ==> !commute_spec(tx, me, invalid),
{
    if 0 <= i < invalid.len() && !invalid[i].is_beneficiary_basic && invalid[i].value != Some(ValueKind::LazyRecipient)
        && invalid[i].value != Some(ValueKind::LazySender) {
        assert(!commute_location_spec(tx, me, invalid[i]));
    }
}

} // verus!
