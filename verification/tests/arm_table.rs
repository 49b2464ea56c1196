use pevm::specfence::arm_table::{w_max, ArmKind, ArmSnap, ArmTable, IntraPatch, PatchOutcome, ResolvePlan, THIN_SHELL_N};

fn snap(location: u64, arm: ArmKind, sticky: bool, under_covered: bool) -> ArmSnap {
    ArmSnap { location, arm, sticky, under_covered }
}

#[test]
fn thin_w_max_is_two() {
    assert_eq!(w_max(176, 20, false), 2);
    assert_eq!(w_max(64, 8, false), 2);
    assert!(w_max(512, 8, false) <= 4);
}

#[test]
fn reuse_sticky_explore_budget_zero() {
    let prior = vec![snap(11, ArmKind::Win { w: 2 }, true, false)];
    let mut t = ArmTable::new();
    t.begin_from_prior(prior, true);
    assert!(t.began_from_prior());
    assert_eq!(t.explore_n(), 0);
    let e = t.entry(11).expect("prior arm");
    assert_eq!(e.explore_budget, 0);
    assert!(e.sticky);
}

#[test]
fn under_covered_end_pack_forbids_full() {
    let mut t = ArmTable::new();
    // A full replay on an unfenced storm marks the location under-covered.
    t.observe(ResolvePlan::FullReplay, Some(3), false, true, 200, 0);
    assert!(t.entry(3).unwrap().under_covered);
    // Force its arm to a full chain, keeping it under-covered.
    t.begin_from_prior(vec![snap(3, ArmKind::Full, true, true)], false);
    assert_eq!(t.arm_of(3), Some(ArmKind::Full));
    let snaps = t.end_pack(200);
    assert!(snaps.iter().any(|s| s.location == 3 && matches!(s.arm, ArmKind::Opt)));
}

#[test]
fn w_max_edges() {
    assert_eq!(w_max(0, 0, false), 1);
    assert_eq!(w_max(THIN_SHELL_N, 0, true), 2);
    assert_eq!(w_max(THIN_SHELL_N + 1, 63, false), 4);
    assert_eq!(w_max(THIN_SHELL_N + 1, 64, false), 2);
}

#[test]
fn arm_kind_window_and_full() {
    assert_eq!(ArmKind::Opt.window(), 0);
    assert_eq!(ArmKind::Defer.window(), 0);
    assert_eq!(ArmKind::Win { w: 3 }.window(), 3);
    assert_eq!(ArmKind::Seg { s: 7 }.window(), 7);
    assert_eq!(ArmKind::Full.window(), u8::MAX);
    assert!(ArmKind::Full.is_full());
    assert!(!ArmKind::Win { w: 255 }.is_full());
}

#[test]
fn begin_without_prior_is_cold_and_explores_once() {
    let mut t = ArmTable::new();
    t.begin_from_prior(Vec::new(), true);
    assert!(!t.began_from_prior());
    // Without reuse a sticky prior still gets one explore.
    t.begin_from_prior(vec![snap(5, ArmKind::Win { w: 2 }, true, false)], false);
    assert!(t.began_from_prior());
    assert_eq!(t.entry(5).unwrap().explore_budget, 1);
    // Reuse zeroes it, and a non-sticky one keeps its single explore.
    t.begin_from_prior(vec![snap(6, ArmKind::Opt, false, false)], true);
    assert_eq!(t.entry(5).unwrap().explore_budget, 0);
    assert_eq!(t.entry(6).unwrap().explore_budget, 1);
}

#[test]
fn observe_counts_and_rewards() {
    let mut t = ArmTable::new();
    t.observe(ResolvePlan::Commit, Some(1), false, false, 300, 0);
    t.observe(ResolvePlan::OrderedReplay, Some(1), false, false, 300, 0);
    t.observe(ResolvePlan::PartialAbortRebind, Some(1), false, false, 300, 0);
    t.observe(ResolvePlan::PartialAbortRewind, None, false, false, 300, 0);
    t.observe(ResolvePlan::FullReplay, None, false, false, 300, 0);
    t.observe(ResolvePlan::Commit, None, false, false, 300, 0);
    assert_eq!(t.e1_n(), 1);
    assert_eq!(t.e2_n(), 1);
    assert_eq!(t.e3_n(), 2);
    let e = t.entry(1).unwrap();
    assert_eq!(e.n_reward, 3);
    assert_eq!(e.ema_wall_ns, 3);
    assert_eq!(e.ema_abort_cf_ns, 0);
    // The third observation stamped tick 3.
    assert_eq!(e.last_update_tick, 3);
    assert_eq!(e.arm, ArmKind::Opt);
}

#[test]
fn lazy_location_is_pinned_optimistic() {
    let mut t = ArmTable::new();
    t.begin_from_prior(vec![snap(9, ArmKind::Win { w: 2 }, false, false)], false);
    t.observe(ResolvePlan::FullReplay, Some(9), true, false, 300, 0);
    assert_eq!(t.e6_n(), 1);
    assert_eq!(t.e2_n(), 0);
    let e = t.entry(9).unwrap();
    assert_eq!(e.arm, ArmKind::Opt);
    assert!(e.lazy && e.sticky);
    assert_eq!(e.explore_budget, 0);
    let packed = t.end_pack(300);
    assert_eq!(packed.len(), 1);
    assert_eq!(packed[0].arm, ArmKind::Opt);
    assert!(t.take_pending().is_empty());
}

#[test]
fn full_replay_queues_capped_widening() {
    let mut t = ArmTable::new();
    t.begin_from_prior(vec![snap(4, ArmKind::Win { w: 2 }, false, false)], false);
    // Thin block: the cap is two, so a window of two stays two.
    t.observe(ResolvePlan::FullReplay, Some(4), false, false, 100, 0);
    // Wide block: a fresh location goes from no window to one.
    t.observe(ResolvePlan::FullReplay, Some(8), false, false, 500, 0);
    assert_eq!(t.e2_n(), 2);
    let p = t.take_pending();
    assert_eq!(p.len(), 2);
    assert_eq!(p[0].location, 4);
    assert_eq!(p[0].new_arm, ArmKind::Win { w: 2 });
    assert_eq!(p[1].location, 8);
    assert_eq!(p[1].new_arm, ArmKind::Win { w: 1 });
    assert!(t.take_pending().is_empty());
    let e = t.entry(8).unwrap();
    assert_eq!(e.ema_abort_cf_ns, 1);
    assert_eq!(e.ema_wall_ns, 0);
}

#[test]
fn storm_marks_under_covered_instead_of_widening() {
    let mut t = ArmTable::new();
    t.observe(ResolvePlan::FullReplay, Some(2), false, true, 500, 0);
    assert_eq!(t.e5_n(), 1);
    assert!(t.take_pending().is_empty());
    // An under-covered location is never widened later.
    t.observe(ResolvePlan::FullReplay, Some(2), false, false, 500, 0);
    assert!(t.take_pending().is_empty());
}

#[test]
fn end_pack_caps_thin_windows() {
    let mut t = ArmTable::new();
    t.begin_from_prior(
        vec![
            snap(1, ArmKind::Win { w: 4 }, false, false),
            snap(2, ArmKind::Full, false, false),
            snap(3, ArmKind::Seg { s: 2 }, true, false),
        ],
        false,
    );
    let mut thin = t.end_pack(THIN_SHELL_N);
    thin.sort_by_key(|s| s.location);
    assert_eq!(thin[0].arm, ArmKind::Win { w: 2 });
    assert_eq!(thin[1].arm, ArmKind::Win { w: 2 });
    assert_eq!(thin[2].arm, ArmKind::Seg { s: 2 });
    assert!(thin[2].sticky);
    let mut wide = t.end_pack(THIN_SHELL_N + 1);
    wide.sort_by_key(|s| s.location);
    assert_eq!(wide[0].arm, ArmKind::Win { w: 4 });
    assert_eq!(wide[1].arm, ArmKind::Full);
}

#[test]
fn explore_and_e4_notes_count() {
    let mut t = ArmTable::new();
    t.note_explore();
    t.note_explore();
    t.note_e4();
    assert_eq!(t.explore_n(), 2);
    assert_eq!(t.e4_n(), 1);
    assert_eq!(t.mid_promote_n(), 0);
    assert_eq!(t.mid_promote_veto_n(), 0);
    assert_eq!(t.prior_plant_n(), 0);
    assert_eq!(t.arm_of(77), None);
}

#[test]
fn queued_widening_is_applied_once_unless_vetoed() {
    let mut t = ArmTable::new();
    t.begin_from_prior(vec![snap(5, ArmKind::Opt, true, false)], false);
    let wide = IntraPatch { location: 5, new_arm: ArmKind::Win { w: 4 } };
    // A thin block allows no window of four.
    assert_eq!(t.apply_patch(wide, false, 0, 8, 4, 100), PatchOutcome::WindowVeto);
    assert_eq!(t.apply_patch(wide, true, 0, 8, 4, 500), PatchOutcome::PolicyVeto);
    // Releasing three of five runnable would leave two for four cores.
    assert_eq!(t.apply_patch(wide, false, 3, 5, 4, 500), PatchOutcome::DrainVeto);
    assert_eq!(t.mid_promote_veto_n(), 3);
    assert_eq!(t.apply_patch(wide, false, 3, 8, 4, 500), PatchOutcome::Applied);
    assert_eq!(t.mid_promote_n(), 1);
    let e = t.entry(5).unwrap();
    assert_eq!(e.arm, ArmKind::Win { w: 4 });
    assert!(!e.sticky);
    assert_eq!(t.apply_patch(wide, false, 0, 8, 4, 500), PatchOutcome::AlreadyPromoted);
    assert_eq!(t.mid_promote_veto_n(), 3);
}
