use pevm::specfence::dag::FenceGraph;
use pevm::scheduler::{FinishExecFlags, Pick, Scheduler, Task};
use pevm::types::TxVersion;

fn no_flags() -> FinishExecFlags {
    FinishExecFlags::empty()
}

#[test]
fn wait_for_dependency_does_not_abort_or_bump_incarnation() {
    let mut s = Scheduler::new(3);
    let p = s.try_execute(0).unwrap();
    let c = s.try_execute(1).unwrap();
    assert_eq!(c.tx_incarnation, 0);
    assert!(s.add_wait_for_dependency(1, 0));
    assert!(s.is_executing(1), "WaitForDependency must not mark Aborting");
    assert!(!s.is_aborting(1));
    let _ = s.finish_execution(
        TxVersion { tx_idx: p.tx_idx, tx_incarnation: p.tx_incarnation },
        FinishExecFlags::empty(),
    );
    assert!(s.is_ready(1));
    let again = s.try_execute(1).expect("same-incarnation resume");
    assert_eq!(again.tx_incarnation, 0, "wait_for_dependency keeps incarnation");
}

#[test]
fn wait_for_dependency_loses_race_when_writer_done() {
    let mut s = Scheduler::new(2);
    let p = s.try_execute(0).unwrap();
    let _ = s.finish_execution(
        TxVersion { tx_idx: p.tx_idx, tx_incarnation: p.tx_incarnation },
        FinishExecFlags::empty(),
    );
    let _ = s.try_execute(1).unwrap();
    assert!(
        !s.add_wait_for_dependency(1, 0),
        "writer already Done must not wait_for_dependency forever"
    );
}

#[test]
fn fresh_scheduler_hands_out_executions_in_order() {
    let mut s = Scheduler::new(3);
    assert_eq!(s.block_size(), 3);
    for i in 0..3 {
        match s.next_task() {
            Pick::Run(Task::Execution(v)) => {
                assert_eq!(v, TxVersion { tx_idx: i, tx_incarnation: 0 });
            }
            other => panic!("expected an execution, got {other:?}"),
        }
        assert!(s.is_executing(i));
    }
    // Everything is executing: nothing to hand out, block not finished.
    assert_eq!(s.next_task(), Pick::Idle);
    assert!(s.has_unfinished());
}

#[test]
fn block_finishes_once_everything_is_validated() {
    let mut s = Scheduler::new(2);
    for _ in 0..2 {
        let Pick::Run(Task::Execution(v)) = s.next_task() else {
            panic!("expected an execution");
        };
        assert_eq!(s.finish_execution(v, no_flags()), None);
    }
    assert!(s.is_validated(0) && s.is_validated(1));
    assert!(s.all_validated());
    assert!(!s.has_unfinished());
    assert_eq!(s.next_task(), Pick::Finished);
}

#[test]
fn executed_transaction_is_validated_after_finish() {
    let mut s = Scheduler::new(2);
    let v0 = s.try_execute(0).unwrap();
    let v1 = s.try_execute(1).unwrap();
    let flags = FinishExecFlags { need_validation: true, wrote_new_location: false };
    // Needing validation pulls the minimum validation index down to the
    // finished transaction, which is then validated at once.
    assert_eq!(s.finish_execution(v1, flags), Some(Task::Validation(v1)));
    assert!(s.is_executed(1));
    assert!(s.is_done(1) && !s.is_validated(1));
    assert_eq!(s.finish_execution(v0, flags), Some(Task::Validation(v0)));
    assert_eq!(s.status_label(0), "executed");
    assert_eq!(s.finish_validation(&v0, false), None);
    assert!(s.is_validated(0));
    assert_eq!(s.status_label(0), "validated");
}

#[test]
fn failed_validation_reexecutes_next_incarnation() {
    let mut s = Scheduler::new(2);
    let v = s.try_execute(1).unwrap();
    let flags = FinishExecFlags { need_validation: true, wrote_new_location: true };
    assert_eq!(s.finish_execution(v, flags), Some(Task::Validation(v)));
    assert!(s.try_validation_abort(&v));
    assert!(s.is_aborting(1));
    assert_eq!(s.status_label(1), "aborting");
    let next = s.finish_validation(&v, true);
    assert_eq!(next, Some(Task::Execution(TxVersion { tx_idx: 1, tx_incarnation: 1 })));
    assert!(s.is_executing(1));
    assert_eq!(s.incarnation_snapshot(), vec![0, 1]);
    // A second abort of the old version finds nothing to abort.
    assert!(!s.try_validation_abort(&v));
}

#[test]
fn add_dependency_parks_and_writer_finish_readies_next_incarnation() {
    let mut s = Scheduler::new(3);
    let w = s.try_execute(0).unwrap();
    let _ = s.try_execute(2).unwrap();
    assert!(s.add_dependency(2, 0));
    assert!(s.is_aborting(2));
    assert_eq!(s.live_block(2), Some(0));
    assert_eq!(s.hang_dep_of(2), (0, 0, usize::MAX));
    let _ = s.finish_execution(w, no_flags());
    assert!(s.is_ready(2));
    assert_eq!(s.current_version(2), Some(TxVersion { tx_idx: 2, tx_incarnation: 1 }));
    assert_eq!(s.live_block(2), None);
    assert_eq!(s.hang_dep_of(2), (1, usize::MAX, usize::MAX));
    // Parking behind a writer that is done is refused.
    let _ = s.try_execute(2).unwrap();
    assert!(!s.add_dependency(2, 0));
    assert!(s.is_executing(2));
}

#[test]
fn detach_and_clear_stale_block() {
    let mut s = Scheduler::new(3);
    let _ = s.try_execute(0).unwrap();
    let _ = s.try_execute(1).unwrap();
    assert!(s.add_dependency(1, 0));
    assert_eq!(s.live_block(1), Some(0));
    s.clear_stale_block(1, 0);
    assert_eq!(s.live_block(1), None);
    assert!(!s.detach_dependent(0, 1), "already detached");
    assert_eq!(s.hang_dep_of(1), (0, usize::MAX, usize::MAX));
    // Still aborting: the lost-wakeup recovery readies it.
    assert!(s.recover_aborting(1));
    assert!(s.is_ready(1));
    assert!(!s.recover_aborting(1));
}

#[test]
fn prepare_revalidate_demotes_validated() {
    let mut s = Scheduler::new(1);
    let v = s.try_execute(0).unwrap();
    let _ = s.finish_execution(v, no_flags());
    assert!(s.is_validated(0));
    assert_eq!(s.prepare_revalidate(0), Some(v));
    assert!(s.is_executed(0));
    assert!(!s.all_validated());
    assert_eq!(s.prepare_revalidate(5), None);
}

#[test]
fn recover_executing_waiter_keeps_incarnation() {
    let mut s = Scheduler::new(2);
    let _ = s.try_execute(1).unwrap();
    assert!(s.recover_executing_waiter(1));
    assert_eq!(s.try_execute(1), Some(TxVersion { tx_idx: 1, tx_incarnation: 0 }));
    assert!(!s.recover_executing_waiter(0));
}

#[test]
fn defer_validation_behind_needs_done_consumer_and_live_writer() {
    let mut s = Scheduler::new(3);
    let _ = s.try_execute(0).unwrap();
    let v2 = s.try_execute(2).unwrap();
    assert!(!s.defer_validation_behind(2, 0), "consumer not executed yet");
    let _ = s.finish_execution(v2, no_flags());
    assert!(s.defer_validation_behind(2, 0));
    let _ = s.try_execute(1).unwrap();
    assert!(s.add_dependency(1, 0));
    assert!(s.add_dependency_from_aborting(1, 0));
    assert_eq!(s.hang_dep_of(1), (0, 0, usize::MAX));
    assert!(s.producer_stage_runnable(0));
    assert!(s.producer_stage_runnable(7), "out of the block counts as done");
}

#[test]
fn aborted_scheduler_is_finished() {
    let mut s = Scheduler::new(4);
    s.abort();
    assert_eq!(s.next_task(), Pick::Finished);
    assert_eq!(s.status_label(9), "oob");
    assert_eq!(s.status_label(0), "ready");
}

#[test]
fn validation_cursor_hands_out_validations() {
    let mut s = Scheduler::new(2);
    let v0 = s.try_execute(0).unwrap();
    let v1 = s.try_execute(1).unwrap();
    let need = FinishExecFlags { need_validation: true, wrote_new_location: false };
    assert_eq!(s.finish_execution(v0, need), Some(Task::Validation(v0)));
    assert_eq!(s.finish_execution(v1, need), Some(Task::Validation(v1)));
    // A parked validation abort rewinds the cursor to just after itself.
    assert_eq!(s.finish_validation_fenced_barrier_park(&v0, Some(0)), None);
    match s.next_task() {
        Pick::Run(Task::Validation(v)) => assert_eq!(v.tx_idx, 1),
        other => panic!("expected a validation, got {other:?}"),
    }
}

#[test]
fn finish_with_fence_releases_soft_waits_on_the_writer() {
    let mut s = Scheduler::new(3);
    let mut g = FenceGraph::new();
    let w = s.try_execute(0).unwrap();
    assert!(g.arm_soft(7, 2, 1, Some(0)));
    assert!(g.has_soft_wait(7));
    let _ = s.finish_execution_with_fence(w, no_flags(), &mut g);
    assert!(s.is_done(0));
    assert!(!g.has_soft_wait(7));
}

#[test]
fn execution_cursor_is_served_before_validation() {
    let mut s = Scheduler::new(3);
    let Pick::Run(Task::Execution(v0)) = s.next_task() else {
        panic!("expected an execution");
    };
    let flags = FinishExecFlags { need_validation: true, wrote_new_location: false };
    let _ = s.finish_execution(v0, flags);
    // Transaction 1 is ready at the execution cursor: it goes first.
    assert_eq!(s.next_task(), Pick::Run(Task::Execution(TxVersion { tx_idx: 1, tx_incarnation: 0 })));
    assert_eq!(s.next_task(), Pick::Run(Task::Execution(TxVersion { tx_idx: 2, tx_incarnation: 0 })));
}
