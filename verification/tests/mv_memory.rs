use pevm::mv_memory::MvMemory;
use pevm::types::{AccountBasic, Addr, MemoryEntry, MemoryValue, ReadOrigin, TxVersion, Word256};

fn word(n: u64) -> Word256 {
    Word256 { l0: n, l1: 0, l2: 0, l3: 0 }
}

fn read_of(loc: u64, origin: ReadOrigin) -> Vec<(u64, Vec<ReadOrigin>)> {
    vec![(loc, vec![origin])]
}

fn v(tx_idx: usize, tx_incarnation: usize) -> TxVersion {
    TxVersion { tx_idx, tx_incarnation }
}

#[test]
fn same_incarnation_rewrite_fails_validation() {
    let mut mv = MvMemory::new(2, Vec::new(), Vec::new());
    let loc = 7u64;
    let writer = v(0, 0);
    mv.record(&writer, Vec::new(), vec![(loc, MemoryValue::LazySender(word(100)))]);
    mv.record(&v(1, 0), read_of(loc, ReadOrigin::mv(0, 0, MemoryValue::LazySender(word(100)))), Vec::new());
    assert!(mv.validate_read_locations(1));
    mv.record(&writer, Vec::new(), vec![(loc, MemoryValue::LazySender(word(50)))]);
    assert!(
        !mv.validate_read_locations(1),
        "same incarnation published a different lazy amount"
    );
}

#[test]
fn estimate_replaced_under_same_incarnation_fails_validation() {
    let mut mv = MvMemory::new(2, Vec::new(), Vec::new());
    let loc = 9u64;
    let writer = v(0, 0);
    mv.record(&writer, Vec::new(), vec![(loc, MemoryValue::Storage(word(3)))]);
    mv.record(&v(1, 0), read_of(loc, ReadOrigin::mv(0, 0, MemoryValue::Storage(word(3)))), Vec::new());
    mv.invalidate_partial_suffix(0, &[loc]);
    assert!(!mv.validate_read_locations(1));
    mv.record(&writer, Vec::new(), vec![(loc, MemoryValue::Storage(word(8)))]);
    assert!(
        !mv.validate_read_locations(1),
        "Estimate replaced by a different Data value under the same incarnation"
    );
}

#[test]
fn read_sees_closest_lower_writer() {
    let mut mv = MvMemory::new(4, Vec::new(), Vec::new());
    let loc = 5u64;
    mv.record(&v(0, 0), Vec::new(), vec![(loc, MemoryValue::Storage(word(1)))]);
    mv.record(&v(2, 0), Vec::new(), vec![(loc, MemoryValue::Storage(word(2)))]);
    assert_eq!(mv.current_data_value(1, loc), Some(MemoryValue::Storage(word(1))));
    assert_eq!(mv.current_data_value(3, loc), Some(MemoryValue::Storage(word(2))));
    assert_eq!(mv.current_data_value(0, loc), None);
    assert_eq!(mv.last_writer_before(loc, 3), Some(2));
    assert_eq!(mv.last_writer_before(loc, 0), None);
    assert_eq!(mv.last_writer_before(99, 3), None);
    assert_eq!(mv.published_data_value(2, loc), Some(MemoryValue::Storage(word(2))));
    assert_eq!(mv.entry_kind_at(loc, 2), "data");
    assert_eq!(mv.entry_kind_at(loc, 1), "absent");
    assert_eq!(
        mv.current_read_origins(3, loc),
        Some(vec![ReadOrigin::mv(2, 0, MemoryValue::Storage(word(2)))])
    );
    assert_eq!(mv.current_read_origins(3, 77), Some(vec![ReadOrigin::Storage]));
    // A publish opens and closes the epoch.
    assert_eq!(mv.write_epoch(), 4);
}

#[test]
fn record_reports_new_locations_and_contention() {
    let mut mv = MvMemory::new(3, Vec::new(), Vec::new());
    let (new0, contended0) =
        mv.record(&v(0, 0), Vec::new(), vec![(1, MemoryValue::Storage(word(1)))]);
    assert!(new0);
    assert!(contended0.is_empty());
    let (new1, contended1) = mv.record(
        &v(1, 0),
        Vec::new(),
        vec![(1, MemoryValue::Storage(word(2))), (2, MemoryValue::Storage(word(3)))],
    );
    assert!(new1);
    assert_eq!(contended1, vec![1]);
    // The same writes again: nothing new. Dropping location 2 removes its version.
    let (again, _) = mv.record(&v(1, 1), Vec::new(), vec![(1, MemoryValue::Storage(word(4)))]);
    assert!(!again);
    assert_eq!(mv.write_locations(1), vec![1]);
    assert_eq!(mv.entry_kind_at(2, 1), "absent");
    assert_eq!(mv.current_data_value(2, 1), Some(MemoryValue::Storage(word(4))));
}

#[test]
fn estimates_skip_to_older_live_data() {
    let mut mv = MvMemory::new(3, vec![(8, vec![1])], Vec::new());
    assert_eq!(mv.entry_kind_at(8, 1), "estimate");
    assert_eq!(mv.current_data_value(2, 8), None, "an estimate is not a value");
    assert_eq!(mv.current_read_origins(2, 8), None);
    mv.record(&v(0, 0), Vec::new(), vec![(8, MemoryValue::Storage(word(6)))]);
    assert_eq!(mv.last_data_before(8, 2), Some((0, 0)));
    assert_eq!(mv.last_data_before(8, 0), None);
}

#[test]
fn storage_reads_validate_until_a_lower_write() {
    let mut mv = MvMemory::new(3, Vec::new(), Vec::new());
    mv.record(&v(2, 0), read_of(4, ReadOrigin::Storage), Vec::new());
    assert!(mv.validate_read_locations(2));
    assert!(mv.validate_location(2, 4));
    assert!(mv.validate_location(2, 5), "a location not read is not checked");
    mv.record(&v(0, 0), Vec::new(), vec![(4, MemoryValue::Storage(word(1)))]);
    assert!(!mv.validate_read_locations(2));
    assert_eq!(mv.collect_invalid_reads(2), vec![4]);
    assert_eq!(mv.read_locations(2), vec![4]);
    // Re-binding moves the read onto the new version.
    assert!(mv.try_rebind_invalid_reads(2, &[4]));
    assert!(mv.validate_read_locations(2));
    assert!(mv.prior_read_value_stable(2, 4));
}

#[test]
fn rebind_refuses_estimates_and_multi_origin_reads() {
    let mut mv = MvMemory::new(3, Vec::new(), Vec::new());
    mv.record(&v(0, 0), Vec::new(), vec![(4, MemoryValue::LazyRecipient(word(2)))]);
    let lazy = vec![(4, vec![ReadOrigin::Storage, ReadOrigin::mv(0, 0, MemoryValue::LazyRecipient(word(1)))])];
    mv.record(&v(2, 0), lazy, Vec::new());
    assert!(!mv.validate_read_locations(2));
    assert!(!mv.try_rebind_invalid_reads(2, &[4]), "a lazy chain needs the value-stable path");
    assert!(mv.try_rebind_invalid_reads_value_stable(2, &[4]));
    assert!(mv.validate_read_locations(2));
    mv.convert_writes_to_estimates(0);
    assert!(!mv.try_rebind_invalid_reads_value_stable(2, &[4]), "an estimate cannot be bound");
    assert!(mv.try_rebind_invalid_reads(2, &[]));
}

#[test]
fn selective_invalidation_estimates_only_read_writes() {
    let mut mv = MvMemory::new(3, Vec::new(), Vec::new());
    mv.record(
        &v(0, 0),
        Vec::new(),
        vec![(1, MemoryValue::Storage(word(1))), (2, MemoryValue::Storage(word(2)))],
    );
    mv.record(&v(2, 0), read_of(1, ReadOrigin::mv(0, 0, MemoryValue::Storage(word(1)))), Vec::new());
    assert!(mv.has_higher_reader(0, 1));
    assert!(!mv.has_higher_reader(0, 2));
    assert_eq!(mv.higher_readers_of(1, 0), vec![2]);
    assert_eq!(mv.min_higher_reader_of(0, &[2, 1]), Some(2));
    let (estimated, fallback) = mv.invalidate_selective(0, Some(0));
    assert_eq!(estimated, vec![1]);
    assert!(!fallback);
    assert_eq!(mv.entry_kind_at(1, 0), "estimate");
    assert_eq!(mv.entry_kind_at(2, 0), "data");
    assert!(mv.is_aborted_incarnation(0, 0));
    assert_eq!(mv.current_data_value(1, 2), None, "aborted data is not a value");
    assert_eq!(mv.residual_writes(0), vec![1, 2]);
    assert_eq!(mv.residual_writer_before(2, 1), Some(0));
    assert_eq!(mv.residual_writer_before(2, 0), None);
    mv.clear_aborted_incarnation(0);
    assert!(!mv.is_aborted_incarnation(0, 0));
    let (all, fallback) = mv.invalidate_selective(0, None);
    assert_eq!(all, vec![1, 2]);
    assert!(fallback);
    assert_eq!(mv.entry_kind_at(2, 0), "estimate");
}

#[test]
fn min_higher_reader_falls_back_to_read_sets() {
    let mut mv = MvMemory::new(4, Vec::new(), Vec::new());
    assert_eq!(mv.min_higher_reader_of(0, &[]), None);
    assert_eq!(mv.min_higher_reader_of(0, &[3]), None);
    mv.record(&v(3, 0), read_of(3, ReadOrigin::Storage), Vec::new());
    assert_eq!(mv.min_higher_reader_of(1, &[3]), Some(3));
    assert_eq!(mv.min_higher_reader_of(3, &[3]), None);
}

#[test]
fn commute_rebind_accepts_only_commutative_locations() {
    let mut mv = MvMemory::new(3, Vec::new(), Vec::new());
    mv.record(&v(2, 0), read_of(4, ReadOrigin::Storage), Vec::new());
    assert!(!mv.try_commute_rebind_invalid(2, |_| true), "nothing invalid");
    mv.record(&v(0, 0), Vec::new(), vec![(4, MemoryValue::LazyRecipient(word(5)))]);
    assert!(!mv.try_commute_rebind_invalid(2, |l| l != 4));
    assert!(!mv.validate_read_locations(2));
    assert!(mv.try_commute_rebind_invalid(2, |l| l == 4));
    assert!(mv.validate_read_locations(2));
}

#[test]
fn pinned_values_and_lazy_addresses() {
    let a = Addr { hi: 0, mid: 0, lo: 1 };
    let b = Addr { hi: 0, mid: 0, lo: 2 };
    let mut mv = MvMemory::new(2, Vec::new(), vec![a, a]);
    mv.add_lazy_addresses(vec![b, a]);
    let mut lazy = mv.consume_lazy_addresses();
    lazy.sort_by_key(|x| x.lo);
    assert_eq!(lazy, vec![a, b]);
    assert!(mv.consume_lazy_addresses().is_empty());
    let basic = MemoryValue::Basic(AccountBasic { balance: word(10), nonce: 1 });
    mv.pin_aborted_value(3, 1, 0, basic);
    mv.pin_aborted_value(3, 1, 1, MemoryValue::Storage(word(2)));
    assert_eq!(mv.pinned_entry(3, 1), Some(MemoryEntry::Data(1, MemoryValue::Storage(word(2)))));
    assert_eq!(mv.pinned_entry(3, 0), None);
    assert_eq!(mv.pinned_entry(4, 1), None);
    mv.publish_ws_prior(1);
    assert_eq!(mv.residual_writes(1), Vec::<u64>::new());
    mv.mark_incarnation_aborted(1, 3);
    assert!(mv.is_aborted_incarnation(1, 3));
}

#[test]
fn record_keeps_write_order_compacted_then_new_in_write_order() {
    let mut mv = MvMemory::new(2, Vec::new(), Vec::new());
    let w = |l: u64| (l, MemoryValue::Storage(word(l)));
    mv.record(&v(0, 0), Vec::new(), vec![w(1), w(2), w(3)]);
    assert_eq!(mv.write_locations(0), vec![1, 2, 3]);
    // 2 is no longer written: the last entry takes its place, then 4 is new.
    mv.record(&v(0, 1), Vec::new(), vec![w(4), w(1), w(3)]);
    assert_eq!(mv.write_locations(0), vec![1, 3, 4]);
}
