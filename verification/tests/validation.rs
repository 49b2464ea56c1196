use pevm::mv_memory::MvMemory;
use pevm::scheduler::{FinishExecFlags, Scheduler, Task};
use pevm::types::{MemoryValue, ReadOrigin, TxVersion, Word256};
use pevm::validation::{
    finish_full_abort, finish_inspect_abort, finish_lean_abort, invalid_reads_value_stable, lean_escalate, lean_fence,
    protected_locations, rebind_only_first, rebind_path, InspectRepair, LeanRepair, RebindPath,
};

fn word(n: u64) -> Word256 {
    Word256 { l0: n, l1: 0, l2: 0, l3: 0 }
}

fn v(tx_idx: usize, tx_incarnation: usize) -> TxVersion {
    TxVersion { tx_idx, tx_incarnation }
}

#[test]
fn rebind_path_prefers_value_stable_then_no_suffix_write() {
    assert_eq!(rebind_path(Some(3), true, true, true), RebindPath::ValueStable);
    assert_eq!(rebind_path(Some(3), false, true, false), RebindPath::Plain);
    assert_eq!(rebind_path(Some(3), true, false, false), RebindPath::Refused);
    // Without a known checkpoint any write counts as a failed-suffix write.
    assert_eq!(rebind_path(None, false, true, false), RebindPath::Refused);
    assert_eq!(rebind_path(None, true, false, false), RebindPath::Plain);
}

#[test]
fn lean_abort_escalates_on_force_bind_or_depth_two() {
    assert!(lean_escalate(true, 0));
    assert!(lean_escalate(false, 2));
    assert!(!lean_escalate(false, 1));
}

#[test]
fn protected_locations_merge_in_order_without_duplicates() {
    assert_eq!(protected_locations(false, &vec![3, 1], &vec![1, 7, 7, 2]), vec![3, 1, 7, 2]);
    assert_eq!(protected_locations(true, &vec![3, 1], &vec![9]), Vec::<u64>::new());
}

#[test]
fn unchanged_value_is_rebound_without_reexecution() {
    let mut mv = MvMemory::new(3, Vec::new(), Vec::new());
    mv.record(&v(0, 0), Vec::new(), vec![(4, MemoryValue::Storage(word(5)))]);
    mv.record(&v(2, 0), vec![(4, vec![ReadOrigin::mv(0, 0, MemoryValue::Storage(word(5)))])], vec![(9, MemoryValue::Storage(word(1)))]);
    // Transaction 1 now writes the same value at location 4.
    mv.record(&v(1, 0), Vec::new(), vec![(4, MemoryValue::Storage(word(5)))]);
    let invalid = mv.collect_invalid_reads(2);
    assert_eq!(invalid, vec![4]);
    assert!(invalid_reads_value_stable(&mv, 2, &invalid, &vec![false]));
    // A write of the failed suffix does not stop a value-stable rebind.
    assert!(rebind_only_first(&mut mv, 2, &invalid, Some(0), true, &vec![false]));
    assert!(mv.validate_read_locations(2));
    // Only the read set moved: the versions and write sets stay.
    assert_eq!(mv.write_locations(2), vec![9]);
    assert_eq!(mv.entry_kind_at(4, 1), "data");
    assert_eq!(mv.entry_kind_at(9, 2), "data");
}

#[test]
fn changed_value_with_suffix_write_is_refused() {
    let mut mv = MvMemory::new(3, Vec::new(), Vec::new());
    mv.record(&v(0, 0), Vec::new(), vec![(4, MemoryValue::Storage(word(5)))]);
    mv.record(&v(2, 0), vec![(4, vec![ReadOrigin::mv(0, 0, MemoryValue::Storage(word(5)))])], vec![(9, MemoryValue::Storage(word(1)))]);
    mv.record(&v(1, 0), Vec::new(), vec![(4, MemoryValue::Storage(word(6)))]);
    let invalid = mv.collect_invalid_reads(2);
    assert!(!invalid_reads_value_stable(&mv, 2, &invalid, &vec![false]));
    assert!(invalid_reads_value_stable(&mv, 2, &invalid, &vec![true]), "a snapshot match counts");
    assert!(!rebind_only_first(&mut mv, 2, &invalid, None, false, &vec![false]));
    assert!(!mv.validate_read_locations(2));
    // With no failed-suffix write the read is re-bound in place.
    assert!(rebind_only_first(&mut mv, 2, &invalid, Some(1), false, &vec![false]));
    assert!(mv.validate_read_locations(2));
}

#[test]
fn suffix_repair_fences_only_the_suffix() {
    let mut mv = MvMemory::new(3, Vec::new(), Vec::new());
    mv.record(&v(0, 0), Vec::new(), vec![(1, MemoryValue::Storage(word(1))), (2, MemoryValue::Storage(word(2)))]);
    let repair = LeanRepair::SuffixRepair { suffix_writes: vec![2] };
    let fence = lean_fence(&mut mv, &v(0, 0), &repair, false, &Vec::new(), &Vec::new());
    assert_eq!(fence, vec![2]);
    assert_eq!(mv.entry_kind_at(2, 0), "estimate");
    assert_eq!(mv.entry_kind_at(1, 0), "data");
    // An empty suffix fences the whole write set.
    let empty = LeanRepair::ForceBind { suffix_writes: Vec::new() };
    assert_eq!(lean_fence(&mut mv, &v(0, 0), &empty, false, &Vec::new(), &Vec::new()), vec![1, 2]);
}

#[test]
fn full_restart_keeps_force_bound_data_unless_escalating() {
    let mut mv = MvMemory::new(3, Vec::new(), Vec::new());
    mv.record(&v(0, 0), Vec::new(), vec![(1, MemoryValue::Storage(word(1))), (2, MemoryValue::Storage(word(2)))]);
    let fence = lean_fence(&mut mv, &v(0, 0), &LeanRepair::FullRestart, false, &vec![1], &Vec::new());
    assert_eq!(fence, vec![2]);
    assert_eq!(mv.entry_kind_at(1, 0), "data");
    assert_eq!(mv.entry_kind_at(2, 0), "estimate");

    let mut mv = MvMemory::new(3, Vec::new(), Vec::new());
    mv.record(&v(0, 0), Vec::new(), vec![(1, MemoryValue::Storage(word(1))), (2, MemoryValue::Storage(word(2)))]);
    mv.record(&v(2, 0), vec![(2, vec![ReadOrigin::mv(0, 0, MemoryValue::Storage(word(2)))])], Vec::new());
    // Escalation drops the protection: a selective invalidation estimates
    // only the write that a higher transaction reads.
    let fence = lean_fence(&mut mv, &v(0, 0), &LeanRepair::FullRestart, true, &vec![1], &Vec::new());
    assert_eq!(fence, vec![1, 2]);
    assert_eq!(mv.entry_kind_at(1, 0), "data");
    assert_eq!(mv.entry_kind_at(2, 0), "estimate");
    assert!(mv.is_aborted_incarnation(0, 0));
}

#[test]
fn lean_abort_rewinds_to_the_lowest_reader_of_the_fence() {
    let mut mv = MvMemory::new(4, Vec::new(), Vec::new());
    mv.record(&v(0, 0), Vec::new(), vec![(1, MemoryValue::Storage(word(1))), (2, MemoryValue::Storage(word(2)))]);
    mv.record(&v(3, 0), vec![(2, vec![ReadOrigin::mv(0, 0, MemoryValue::Storage(word(2)))])], Vec::new());
    let mut s = Scheduler::new(4);
    let tv = s.try_execute(0).unwrap();
    let flags = FinishExecFlags { need_validation: true, wrote_new_location: true };
    assert_eq!(s.finish_execution(tv, flags), Some(Task::Validation(tv)));
    assert!(s.try_validation_abort(&tv));
    let repair = LeanRepair::SuffixRepair { suffix_writes: vec![2] };
    let (task, rewind) = finish_lean_abort(&mut mv, &mut s, &tv, &repair, false, &Vec::new(), &Vec::new());
    assert_eq!(rewind, Some(3));
    assert_eq!(task, Some(Task::Execution(v(0, 1))));
}

#[test]
fn full_abort_estimates_every_write() {
    let mut mv = MvMemory::new(2, Vec::new(), Vec::new());
    mv.record(&v(1, 0), Vec::new(), vec![(5, MemoryValue::Storage(word(1)))]);
    let mut s = Scheduler::new(2);
    let tv = s.try_execute(1).unwrap();
    let flags = FinishExecFlags { need_validation: true, wrote_new_location: true };
    assert_eq!(s.finish_execution(tv, flags), Some(Task::Validation(tv)));
    assert!(s.try_validation_abort(&tv));
    assert_eq!(finish_full_abort(&mut mv, &mut s, &tv), Some(Task::Execution(v(1, 1))));
    assert_eq!(mv.entry_kind_at(5, 1), "estimate");
}

#[test]
fn inspect_restart_fences_read_writes_or_all() {
    let mut mv = MvMemory::new(3, Vec::new(), Vec::new());
    mv.record(&v(0, 0), Vec::new(), vec![(1, MemoryValue::Storage(word(1))), (2, MemoryValue::Storage(word(2)))]);
    mv.record(&v(2, 0), vec![(2, vec![ReadOrigin::mv(0, 0, MemoryValue::Storage(word(2)))])], Vec::new());
    let mut s = Scheduler::new(3);
    let tv = s.try_execute(0).unwrap();
    let flags = FinishExecFlags { need_validation: true, wrote_new_location: true };
    assert_eq!(s.finish_execution(tv, flags), Some(Task::Validation(tv)));
    assert!(s.try_validation_abort(&tv));
    // Only location 2 is read above: it alone is fenced and estimated.
    let (task, rewind) = finish_inspect_abort(&mut mv, &mut s, &tv, &InspectRepair::FullRestart);
    assert_eq!(rewind, Some(2));
    assert_eq!(task, Some(Task::Execution(v(0, 1))));
    assert_eq!(mv.entry_kind_at(2, 0), "estimate");
    assert_eq!(mv.entry_kind_at(1, 0), "data");
}

#[test]
fn inspect_rewind_fences_the_suffix() {
    let mut mv = MvMemory::new(2, Vec::new(), Vec::new());
    mv.record(&v(0, 0), Vec::new(), vec![(1, MemoryValue::Storage(word(1))), (2, MemoryValue::Storage(word(2)))]);
    let mut s = Scheduler::new(2);
    let tv = s.try_execute(0).unwrap();
    let flags = FinishExecFlags { need_validation: true, wrote_new_location: true };
    assert_eq!(s.finish_execution(tv, flags), Some(Task::Validation(tv)));
    assert!(s.try_validation_abort(&tv));
    let repair = InspectRepair::RewindTo { suffix_writes: vec![1] };
    let (task, rewind) = finish_inspect_abort(&mut mv, &mut s, &tv, &repair);
    assert_eq!(rewind, None, "nobody reads the fence");
    assert_eq!(task, Some(Task::Execution(v(0, 1))));
    assert_eq!(mv.entry_kind_at(1, 0), "estimate");
    assert_eq!(mv.entry_kind_at(2, 0), "data");
}
