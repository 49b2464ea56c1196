use pevm::specfence::journal_effect::{
    journal_gas, journal_notes, JournalNote, LocRef, OP_BALANCE, OP_CALL, OP_CREATE2,
    OP_EXTCODEHASH, OP_SELFBALANCE, OP_SELFDESTRUCT, OP_SLOAD, OP_SSTORE,
};
use pevm::types::{Addr, Word256};

fn addr(n: u32) -> Addr {
    Addr { hi: 0, mid: 0, lo: n }
}

fn word(n: u64) -> Word256 {
    Word256 { l0: n, l1: 0, l2: 0, l3: 0 }
}

#[test]
fn sload_and_sstore_use_their_key_operand() {
    let t = addr(1);
    let c = addr(2);
    assert_eq!(
        journal_notes(OP_SLOAD, t, c, Some(word(7)), None, None),
        vec![JournalNote::Read(LocRef::Storage { address: t, key: word(7) })]
    );
    assert_eq!(
        journal_notes(OP_SSTORE, t, c, Some(word(9)), Some(word(7)), None),
        vec![JournalNote::Write(LocRef::Storage { address: t, key: word(7) })]
    );
    assert!(journal_notes(OP_SSTORE, t, c, Some(word(9)), None, None).is_empty());
}

#[test]
fn balance_reads_the_low_160_bits() {
    let w = Word256 { l0: 0x1122_3344_5566_7788, l1: 0x99aa_bbcc_ddee_ff00, l2: 0xdead_beef_0102_0304, l3: 5 };
    let notes = journal_notes(OP_BALANCE, addr(1), addr(2), Some(w), None, None);
    assert_eq!(
        notes,
        vec![JournalNote::Read(LocRef::Basic {
            address: Addr { hi: 0x0102_0304_99aa_bbcc, mid: 0xddee_ff00_1122_3344, lo: 0x5566_7788 }
        })]
    );
    assert_eq!(
        journal_notes(OP_SELFBALANCE, addr(1), addr(2), None, None, None),
        vec![JournalNote::Read(LocRef::Basic { address: addr(1) })]
    );
    assert_eq!(
        journal_notes(OP_EXTCODEHASH, addr(1), addr(2), Some(word(3)), None, None),
        vec![JournalNote::Read(LocRef::CodeHash { address: addr(3) })]
    );
}

#[test]
fn only_valued_calls_write_accounts() {
    let none = journal_notes(OP_CALL, addr(1), addr(2), Some(word(50)), Some(word(3)), Some(word(0)));
    assert!(none.is_empty());
    let two = journal_notes(OP_CALL, addr(1), addr(2), Some(word(50)), Some(word(3)), Some(word(1)));
    assert_eq!(two, vec![JournalNote::AccountWrite(addr(2)), JournalNote::AccountWrite(addr(3))]);
    assert_eq!(
        journal_notes(OP_CREATE2, addr(1), addr(2), None, None, None),
        vec![JournalNote::AccountWrite(addr(2))]
    );
    assert_eq!(
        journal_notes(OP_SELFDESTRUCT, addr(1), addr(2), Some(word(4)), None, None),
        vec![JournalNote::AccountWrite(addr(1)), JournalNote::AccountWrite(addr(4))]
    );
    let delegate: u8 = 0xf4;
    assert!(journal_notes(delegate, addr(1), addr(2), Some(word(1)), Some(word(1)), Some(word(1))).is_empty());
}

#[test]
fn gas_stamp_prefers_transaction_limit() {
    assert_eq!(journal_gas(Some(100), 500, 30), (100, 70));
    assert_eq!(journal_gas(None, 500, 30), (500, 470));
    assert_eq!(journal_gas(Some(10), 500, 30), (10, 0));
}
