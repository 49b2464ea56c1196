//! World-state effects an opcode puts on the research journal stream: the
//! storage, account and code-hash locations it reads, and the accounts it
//! writes, read off the operands on the interpreter stack.

use vstd::prelude::*;
use crate::types::{Addr, Word256};

verus! {

pub const OP_BALANCE: u8 = 0x31;
pub const OP_EXTCODESIZE: u8 = 0x3b;
pub const OP_EXTCODECOPY: u8 = 0x3c;
pub const OP_EXTCODEHASH: u8 = 0x3f;
pub const OP_SELFBALANCE: u8 = 0x47;
pub const OP_SLOAD: u8 = 0x54;
pub const OP_SSTORE: u8 = 0x55;
pub const OP_CREATE: u8 = 0xf0;
pub const OP_CALL: u8 = 0xf1;
pub const OP_CALLCODE: u8 = 0xf2;
pub const OP_CREATE2: u8 = 0xf5;
pub const OP_SELFDESTRUCT: u8 = 0xff;

/// A world-state location.
#[derive(Debug, Clone, Copy, PartialEq, Eq, Structural)]
pub enum LocRef {
    Storage { address: Addr, key: Word256 },
    Basic { address: Addr },
    CodeHash { address: Addr },
}

/// One journal entry of an opcode.
#[derive(Debug, Clone, Copy, PartialEq, Eq, Structural)]
pub enum JournalNote {
    Read(LocRef),
    Write(LocRef),
    /// A write to an account's basic data.
    AccountWrite(Addr),
}

/// 2^160.
pub open spec fn two_160() -> nat {
    0x1_0000_0000_0000_0000 * 0x1_0000_0000_0000_0000 * 0x1_0000_0000
}

/// `a` is the address in the low 160 bits of `w`.
pub open spec fn is_low_address(a: Addr, w: Word256) -> bool {
    a.value() == w.value() % two_160()
}

/// The notes of opcode `op` run by `target` (called by `caller`), with
/// `p0`, `p1`, `p2` the top three stack words (when present).
pub open spec fn notes_ok(
    op: u8,
    target: Addr,
    caller: Addr,
    p0: Option<Word256>,
    p1: Option<Word256>,
    p2: Option<Word256>,
    r: Seq<JournalNote>,
) -> bool {
    if op == OP_SLOAD {
        r == match p0 {
            Some(k) => seq![JournalNote::Read(LocRef::Storage { address: target, key: k })],
            None => Seq::<JournalNote>::empty(),
        }
    } else if op == OP_SSTORE {
        r == match p1 {
            Some(k) => seq![JournalNote::Write(LocRef::Storage { address: target, key: k })],
            None => Seq::<JournalNote>::empty(),
        }
    } else if op == OP_BALANCE {
        match p0 {
            Some(w) => r.len() == 1 && (r[0] matches JournalNote::Read(LocRef::Basic { address })
                && is_low_address(address, w)),
            None => r.len() == 0,
        }
    } else if op == OP_SELFBALANCE {
        r == seq![JournalNote::Read(LocRef::Basic { address: target })]
    } else if op == OP_EXTCODESIZE || op == OP_EXTCODEHASH || op == OP_EXTCODECOPY {
        match p0 {
            Some(w) => r.len() == 1 && (r[0] matches JournalNote::Read(LocRef::CodeHash { address })
                && is_low_address(address, w)),
            None => r.len() == 0,
        }
    } else if op == OP_CALL || op == OP_CALLCODE {
        match (p2, p1) {
            (Some(v), Some(w)) => if v.value() == 0 {
                r.len() == 0
            } else {
                r.len() == 2 && r[0] == JournalNote::AccountWrite(caller) && (r[1] matches JournalNote::AccountWrite(a) && is_low_address(a, w))
            },
            (Some(v), None) => r.len() == 0,
            (None, _) => r.len() == 0,
        }
    } else if op == OP_CREATE || op == OP_CREATE2 {
        r == seq![JournalNote::AccountWrite(caller)]
    } else if op == OP_SELFDESTRUCT {
        match p0 {
            Some(w) => r.len() == 2 && r[0] == JournalNote::AccountWrite(target) && (r[1] matches JournalNote::AccountWrite(a) && is_low_address(a, w)),
            None => r.len() == 0,
        }
    } else {
        r.len() == 0
    }
}

/// The journal notes of one opcode.
pub fn journal_notes(
    op: u8,
    target: Addr,
    caller: Addr,
    p0: Option<Word256>,
    p1: Option<Word256>,
    p2: Option<Word256>,
) -> (r: Vec<JournalNote>)
    ensures
        notes_ok(op, target, caller, p0, p1, p2, r@),
{
    let mut r: Vec<JournalNote> = Vec::new();
    if op == OP_SLOAD {
        if let Some(k) = p0 {
            r.push(JournalNote::Read(LocRef::Storage { address: target, key: k }));
        }
    } else if op == OP_SSTORE {
        if let Some(k) = p1 {
            r.push(JournalNote::Write(LocRef::Storage { address: target, key: k }));
        }
    } else if op == OP_BALANCE {
        if let Some(w) = p0 {
            r.push(JournalNote::Read(LocRef::Basic { address: w.to_address() }));
        }
    } else if op == OP_SELFBALANCE {
        r.push(JournalNote::Read(LocRef::Basic { address: target }));
    } else if op == OP_EXTCODESIZE || op == OP_EXTCODEHASH || op == OP_EXTCODECOPY {
        if let Some(w) = p0 {
            r.push(JournalNote::Read(LocRef::CodeHash { address: w.to_address() }));
        }
    } else if op == OP_CALL || op == OP_CALLCODE {
        if let Some(v) = p2 {
            if !v.is_zero() {
                if let Some(w) = p1 {
                    r.push(JournalNote::AccountWrite(caller));
                    r.push(JournalNote::AccountWrite(w.to_address()));
                }
            }
        }
    } else if op == OP_CREATE || op == OP_CREATE2 {
        r.push(JournalNote::AccountWrite(caller));
    } else if op == OP_SELFDESTRUCT {
        if let Some(w) = p0 {
            r.push(JournalNote::AccountWrite(target));
            r.push(JournalNote::AccountWrite(w.to_address()));
        }
    }
    proof {
        if r@.len() == 1 {
            assert(r@ == seq![r@[0]]);
        }
    }
    r
}

/// Gas limit and gas used stamped on a journal entry: the transaction's
/// limit when known, else the interpreter's; used is what the limit has
/// lost to the remaining gas (never below zero).
pub fn journal_gas(tx_gas_limit: Option<u64>, interp_limit: u64, remaining: u64) -> (r: (u64, u64))
    ensures
        r.0 == (match tx_gas_limit {
            Some(l) => l,
            None => interp_limit,
        }),
        r.1 == (if r.0 >= remaining {
            (r.0 - remaining) as u64
        } else {
            0
        }),
{
    let limit = match tx_gas_limit {
        Some(l) => l,
        None => interp_limit,
    };
    (limit, limit.saturating_sub(remaining))
}

/// Only value-moving calls, creates and self-destructs write accounts, and
/// a read-only opcode never writes.
pub proof fn law_reads_never_write(
    op: u8,
    target: Addr,
    caller: Addr,
    p0: Option<Word256>,
    p1: Option<Word256>,
    p2: Option<Word256>,
    r: Seq<JournalNote>,
    i: int,
)
    requires
        notes_ok(op, target, caller, p0, p1, p2, r),
        0 <= i < r.len(),
        op == OP_SLOAD || op == OP_BALANCE || op == OP_SELFBALANCE || op == OP_EXTCODESIZE || op
            == OP_EXTCODEHASH || op == OP_EXTCODECOPY,
    ensures
        r[i] is Read,
{
}

} // verus!
