use pevm::specfence::busy_stall::{
    begin, bind, charge, charge_exec, charge_nested, charge_pick, charge_publish, charge_span,
    enabled, guard, guard_at, kind_name, last_snap, lock_t0, seal, take_nested, time_lock_acq,
    worker_exit, BusyStallStore, BusyStallThread, BIN_NS, BINS, KIND_EVM_FIRST_ABORT,
    KIND_EVM_REPART, KIND_LOCK, KIND_N, KIND_PUBLISH, KIND_SCHED, KIND_VALIDATE, PRED_NONE,
};

fn setup() -> (BusyStallStore, BusyStallThread) {
    let mut store = BusyStallStore::new(true);
    begin(&mut store, 1_000);
    let mut th = BusyStallThread::new();
    bind(&store, &mut th, 3);
    (store, th)
}

#[test]
fn kind_names_cover_every_kind() {
    assert_eq!(kind_name(0), "evm_first");
    assert_eq!(kind_name(9), "lock");
    assert_eq!(kind_name(16), "stall_join");
    assert_eq!(kind_name(17), "other");
}

#[test]
fn disabled_recorder_keeps_nothing() {
    let mut store = BusyStallStore::new(false);
    assert!(!enabled(&store));
    begin(&mut store, 5);
    let mut th = BusyStallThread::new();
    bind(&store, &mut th, 2);
    charge(&mut store, &th, KIND_VALIDATE, 100, 10);
    assert_eq!(lock_t0(&store, 77), None);
    assert!(guard(&store, &th, KIND_SCHED, 1, 0, 0, 0, true).is_none());
    seal(&mut store);
    let snap = last_snap(&store);
    assert!(!snap.enabled);
    assert_eq!(snap.kinds.len(), KIND_N);
    assert!(snap.workers.is_empty() && snap.spans.is_empty() && snap.timeline.is_empty());
}

#[test]
fn charge_splits_time_across_bins() {
    let (mut store, th) = setup();
    // starts 100_000 ns after the origin, lasts 300_000 ns: 150_000 in bin 0 and in bin 1
    charge(&mut store, &th, KIND_VALIDATE, 300_000, 101_000);
    seal(&mut store);
    let snap = last_snap(&store);
    assert!(snap.enabled);
    assert_eq!(snap.bin_ns, BIN_NS);
    assert_eq!(snap.bins, BINS);
    assert_eq!(snap.workers.len(), 1);
    assert_eq!(snap.workers[0].worker, 3);
    assert_eq!(snap.workers[0].ns[KIND_VALIDATE as usize], 300_000);
    assert_eq!(snap.workers[0].cnt[KIND_VALIDATE as usize], 1);
    assert_eq!(snap.timeline.len(), 2);
    assert_eq!((snap.timeline[0].w, snap.timeline[0].k, snap.timeline[0].bin), (3, KIND_VALIDATE, 0));
    assert_eq!(snap.timeline[0].ns, 150_000);
    assert_eq!(snap.timeline[1].bin, 1);
    assert_eq!(snap.timeline[1].ns, 150_000);
    assert_eq!(snap.timeline_overflow_ns, 0);
}

#[test]
fn time_past_the_last_bin_overflows() {
    let (mut store, th) = setup();
    let end_of_bins = BIN_NS * BINS as u64;
    // 100 ns inside the last bin, 400 ns past it
    charge(&mut store, &th, KIND_SCHED, 500, 1_000 + end_of_bins - 100);
    seal(&mut store);
    let snap = last_snap(&store);
    assert_eq!(snap.timeline.len(), 1);
    assert_eq!(snap.timeline[0].bin as usize, BINS - 1);
    assert_eq!(snap.timeline[0].ns, 100);
    assert_eq!(snap.timeline_overflow_ns, 400);
}

#[test]
fn nested_time_is_subtracted_from_the_parent() {
    let (mut store, mut th) = setup();
    charge_nested(&mut store, &mut th, KIND_LOCK, 40, 2_000, PRED_NONE, PRED_NONE, 0, false);
    charge_exec(&mut store, &mut th, false, 2, true, 100, 1_500, 9, Some(4), None);
    seal(&mut store);
    let snap = last_snap(&store);
    let w = &snap.workers[0];
    assert_eq!(w.ns[KIND_LOCK as usize], 40);
    assert_eq!(w.ns[KIND_EVM_REPART as usize], 60);
    assert_eq!(snap.spans.len(), 1);
    let s = &snap.spans[0];
    assert_eq!(s.kind, "evm_repart");
    assert_eq!((s.tx, s.pred, s.inc, s.dur_ns, s.gross_ns), (9, Some(4), 2, 60, 100));
    assert_eq!(s.t0_ns, 500);
}

#[test]
fn first_incarnation_abort_has_its_own_kind() {
    let (mut store, mut th) = setup();
    charge_exec(&mut store, &mut th, false, 0, false, 10, 1_000, 1, None, Some(0));
    seal(&mut store);
    let snap = last_snap(&store);
    assert_eq!(snap.spans[0].k, KIND_EVM_FIRST_ABORT);
    assert_eq!(snap.spans[0].pred, Some(0));
}

#[test]
fn take_nested_resets_and_pick_charges_the_rest() {
    let (mut store, mut th) = setup();
    charge_nested(&mut store, &mut th, KIND_LOCK, 7, 1_000, 0, 0, 0, false);
    assert_eq!(take_nested(&store, &mut th), 7);
    assert_eq!(take_nested(&store, &mut th), 0);
    charge_nested(&mut store, &mut th, KIND_LOCK, 5, 1_000, 0, 0, 0, false);
    charge_pick(&mut store, &mut th, 25, 1_000);
    seal(&mut store);
    let snap = last_snap(&store);
    assert_eq!(snap.workers[0].ns[KIND_SCHED as usize], 20);
    assert_eq!(snap.workers[0].ns[KIND_LOCK as usize], 12);
}

#[test]
fn guard_charges_the_interval_minus_children() {
    let (mut store, mut th) = setup();
    let g = guard_at(&store, &th, KIND_VALIDATE, 1_000, 5, usize::MAX, 1, true).unwrap();
    charge_nested(&mut store, &mut th, KIND_LOCK, 30, 1_100, 0, 0, 0, false);
    g.finish(&mut store, &mut th, 1_200);
    seal(&mut store);
    let snap = last_snap(&store);
    assert_eq!(snap.workers[0].ns[KIND_VALIDATE as usize], 170);
    assert_eq!(snap.spans.len(), 1);
    assert_eq!(snap.spans[0].pred, None);
    assert_eq!(snap.spans[0].dur_ns, 170);
    // the parent sees both the child and this interval as nested
    assert_eq!(take_nested(&store, &mut th), 200);
}

#[test]
fn publish_and_lock_acquire() {
    let (mut store, mut th) = setup();
    let t0 = lock_t0(&store, 3_000);
    assert_eq!(t0, Some(3_000));
    time_lock_acq(&mut store, &mut th, t0, 3_010);
    charge_publish(&mut store, &mut th, 50, 2_990, 11, 70_000);
    seal(&mut store);
    let snap = last_snap(&store);
    assert_eq!(snap.workers[0].ns[KIND_LOCK as usize], 10);
    assert_eq!(snap.workers[0].ns[KIND_PUBLISH as usize], 40);
    assert_eq!(snap.spans[0].inc, u16::MAX);
    assert_eq!(snap.spans[0].gross_ns, 50);
}

#[test]
fn span_with_only_gross_time_is_kept() {
    let (mut store, th) = setup();
    charge_span(&mut store, &th, KIND_VALIDATE, 0, 1_000, 1, 2, 3, 99);
    seal(&mut store);
    let snap = last_snap(&store);
    // no nanoseconds charged, so the worker is idle and its spans are not sealed
    assert!(snap.workers.is_empty());
    assert!(snap.spans.is_empty());
}

#[test]
fn worker_exit_records_lifetime_and_high_slots_share_the_last() {
    let mut store = BusyStallStore::new(true);
    begin(&mut store, 100);
    let mut th = BusyStallThread::new();
    bind(&store, &mut th, 40);
    worker_exit(&mut store, &th, 600);
    seal(&mut store);
    let snap = last_snap(&store);
    assert_eq!(snap.workers.len(), 1);
    assert_eq!(snap.workers[0].worker, 15);
    assert_eq!(snap.workers[0].life_ns, 500);
}

#[test]
fn switch_keeps_its_first_read_through_every_operation() {
    let on = pevm::specfence::flags::stall_flag_on(Some(b"TRUE".as_slice()));
    let mut store = BusyStallStore::new(on);
    begin(&mut store, 1_000);
    let mut th = BusyStallThread::new();
    bind(&store, &mut th, 1);
    charge(&mut store, &th, KIND_VALIDATE, 10, 1_500);
    seal(&mut store);
    assert!(enabled(&store), "still the value read first");
    let off = pevm::specfence::flags::stall_flag_on(Some(b"yes".as_slice()));
    let mut store = BusyStallStore::new(off);
    begin(&mut store, 1_000);
    charge(&mut store, &th, KIND_VALIDATE, 10, 1_500);
    assert!(!enabled(&store));
}
