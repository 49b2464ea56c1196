use pevm::specfence::collateral::{
    classify_first_conflict, commute_location_ok, commute_ok, envelopes_disjoint,
    is_value_transfer, optimistic_majority_hinted_lazy, ConflictClass, Envelope, LocFacts,
    PriorWriter, ValueKind,
};
use pevm::mv_memory::MvMemory;
use pevm::specfence::collateral::{location_is_lazy, value_kind};
use pevm::types::{MemoryValue, TxVersion, Word256};
use pevm::types::Addr;

fn a(b: u32) -> Addr {
    Addr { hi: 0, mid: 0, lo: b }
}

fn transfer(from: u32, to: u32) -> Envelope {
    Envelope { from: a(from), to: Some(a(to)), empty_input: true }
}

fn facts(value: Option<ValueKind>, writer: Option<PriorWriter>) -> LocFacts {
    LocFacts { is_sender_basic: false, is_beneficiary_basic: false, value, last_writer: writer }
}

#[test]
fn commute_ok_matches_per_location() {
    let me = transfer(0x11, 0x22);
    assert!(!commute_ok(0, &me, &[]), "empty invalid is not a commute");
    let f = facts(None, None);
    assert_eq!(commute_ok(0, &me, &[f]), commute_location_ok(0, &me, &f));
}

#[test]
fn value_transfer_is_empty_input_not_exact_21k() {
    assert!(is_value_transfer(&transfer(0x11, 0x22)));
    let call = Envelope { empty_input: false, ..transfer(0x11, 0x22) };
    assert!(!is_value_transfer(&call));
}

#[test]
fn same_from_envelopes_are_not_disjoint() {
    assert!(!envelopes_disjoint(&transfer(0x2a, 0x11), &transfer(0x2a, 0x11)));
}

#[test]
fn disjoint_envelopes() {
    let x = transfer(0xaa, 0xbb);
    let y = transfer(0xcc, 0xdd);
    assert!(envelopes_disjoint(&x, &y));
    assert!(!envelopes_disjoint(&x, &x));
    // A recipient that is the other's sender intersects.
    assert!(!envelopes_disjoint(&transfer(0xaa, 0xcc), &y));
}

#[test]
fn optimistic_majority_hinted_lazy_same_from_only() {
    assert!(optimistic_majority_hinted_lazy(2, Some(2), true, true, true, false));
    assert!(
        !optimistic_majority_hinted_lazy(2, Some(2), true, true, true, true),
        "A1-queued must not take the A0 lazy commute"
    );
    assert!(
        !optimistic_majority_hinted_lazy(1, Some(1), true, true, true, false),
        "unique 21k stays eager (no single-entry lazy tax)"
    );
    assert!(
        !optimistic_majority_hinted_lazy(32, Some(32), true, true, true, false),
        "n_from=32 ≥ SHORT_SPINE must not force-lazy"
    );
    assert!(optimistic_majority_hinted_lazy(32, Some(3), true, true, true, false));
    assert!(!optimistic_majority_hinted_lazy(3, None, true, true, false, false));
}

#[test]
fn beneficiary_and_lazy_recipient_commute() {
    let me = transfer(0x11, 0x22);
    let ben = LocFacts { is_beneficiary_basic: true, ..facts(None, None) };
    let lazy_to = facts(Some(ValueKind::LazyRecipient), None);
    assert!(commute_ok(5, &me, &[ben, lazy_to]));
    let own = LocFacts { is_sender_basic: true, ..ben };
    assert!(!commute_ok(5, &me, &[ben, own]));
    let c = classify_first_conflict(5, &me, &[9, 10], &[ben, lazy_to]).unwrap();
    assert_eq!(c.class, ConflictClass::CommuteCandidate);
    assert_eq!(c.location, 9);
}

#[test]
fn storage_conflict_is_effective_waw() {
    let me = Envelope { empty_input: false, ..transfer(0x11, 0x22) };
    let w = PriorWriter { tx: 3, env: transfer(0x33, 0x22) };
    let f = facts(Some(ValueKind::Storage), Some(w));
    let c = classify_first_conflict(5, &me, &[7], &[f]).unwrap();
    assert_eq!(c.class, ConflictClass::EffectiveWAW);
    assert_eq!(c.peer, Some(3));
    assert!(!c.lazy);
    assert!(classify_first_conflict(5, &me, &[], &[]).is_none());
}

#[test]
fn same_sender_nonce_race_is_lazy_noise() {
    let me = transfer(0x11, 0x22);
    let w = PriorWriter { tx: 4, env: transfer(0x11, 0x44) };
    let f = facts(Some(ValueKind::Basic), Some(w));
    let c = classify_first_conflict(5, &me, &[7], &[f]).unwrap();
    assert_eq!(c.class, ConflictClass::LazyNoise);
    // A later writer is no peer.
    let late = PriorWriter { tx: 8, env: transfer(0x11, 0x44) };
    let c = classify_first_conflict(5, &me, &[7], &[facts(Some(ValueKind::Basic), Some(late))]).unwrap();
    assert_eq!(c.peer, None);
    assert_eq!(c.class, ConflictClass::EffectiveWAW);
}

#[test]
fn location_is_lazy_reads_the_multi_version_value() {
    let w = |n: u64| Word256 { l0: n, l1: 0, l2: 0, l3: 0 };
    let mut mv = MvMemory::new(3, Vec::new(), Vec::new());
    mv.record(&TxVersion { tx_idx: 0, tx_incarnation: 0 }, Vec::new(), vec![(1, MemoryValue::LazyRecipient(w(5))), (2, MemoryValue::Storage(w(5)))]);
    assert!(location_is_lazy(&mv, 1, 1));
    assert!(!location_is_lazy(&mv, 1, 2));
    assert!(!location_is_lazy(&mv, 0, 1));
    assert!(!location_is_lazy(&mv, 1, 3));
    assert_eq!(value_kind(&MemoryValue::LazySender(w(1))), ValueKind::LazySender);
    assert_eq!(value_kind(&MemoryValue::SelfDestructed), ValueKind::Other);
}
