use pevm::specfence::access_spine::{
    handler_preserves_frame, morph_of, storm_of, AccessEvent, AccessMode, AccessSpine, EdgeClass,
    HandlerFault, MorphClass, Recipe, HOT_LOCS_MAX, NO_LOC,
};

fn ev(tx: usize, loc: u64, k: u16, depth: u8, mode: AccessMode) -> AccessEvent {
    AccessEvent { tx, loc, k, depth, mode }
}

#[test]
fn handler_yield_preserves_frame_policy() {
    assert!(handler_preserves_frame(HandlerFault::YieldWait));
    assert!(!handler_preserves_frame(HandlerFault::Fatal));
}

#[test]
fn detect_overrides_sticky_recipe_on_same_loc() {
    let mut spine = AccessSpine::begin(NO_LOC, Vec::new(), 4);
    let loc = 7u64;
    let read = ev(4, loc, 3, 1, AccessMode::Read);
    assert_eq!(spine.detect_raw(read, 1), Recipe::WaitTrueVersion);
    let write = ev(9, loc, 8, 1, AccessMode::Write);
    assert_eq!(spine.detect_waw(write, Some(4)), Recipe::OrderedTip);
    let again = ev(12, loc, 2, 2, AccessMode::Read);
    assert_eq!(spine.detect_raw(again, 9), Recipe::WaitTrueVersion);
    let rec = spine.record_at(loc).unwrap();
    assert_eq!(rec.last_class, EdgeClass::Raw);
    assert_eq!(rec.recipe, Recipe::WaitTrueVersion);
    assert!(rec.writers.contains(&4) && rec.writers.contains(&9));
}

#[test]
fn retain_history_pin_survives_later_write_record() {
    let mut spine = AccessSpine::begin(NO_LOC, Vec::new(), 2);
    let loc = 42u64;
    spine.detect_raw(ev(3, loc, 1, 1, AccessMode::Read), 1);
    spine.on_write_effects(8, &[loc]);
    let pins = spine.retained_for(loc);
    assert!(
        pins.iter().any(|&(r, w)| r == 3 && w == 8),
        "reader tip must stay pinned, got {pins:?}"
    );
}

#[test]
fn spine_owner_stays_one() {
    let mut spine = AccessSpine::begin(NO_LOC, Vec::new(), 4);
    assert!(spine.try_acquire(3));
    assert!(!spine.try_acquire(4), "second hop must not share the core");
    assert!(spine.spine_busy());
    spine.release_owner_tx(3);
    assert!(spine.try_acquire(4));
    spine.release_owner_tx(4);
    assert!(!spine.spine_busy());
}

#[test]
fn ordered_successor_waits_for_pred_start_then_handoff() {
    let mut spine = AccessSpine::begin(7, vec![1, 4, 9], 4);
    assert_eq!(spine.armed_locs(), 0, "chain is not an Avoid arm");
    assert!(spine.successor_blocked(4, &vec![false; 16]));
    assert!(!spine.successor_blocked(1, &vec![false; 16]));
    spine.note_chain_start(1);
    assert!(spine.successor_blocked(4, &vec![false; 16]));
    assert_eq!(spine.take_handoff(), None);
    assert_eq!(spine.ordered_blocker(7, 4, &vec![false; 16]), Some(1));
    spine.on_write_effects(1, &[7]);
    assert!(!spine.successor_blocked(4, &vec![false; 16]));
    assert_eq!(spine.take_handoff(), Some(4));
    assert_eq!(spine.ordered_blocker(7, 4, &vec![false; 16]), None);
}

#[test]
fn war_pin_is_a_retain_keep() {
    let mut spine = AccessSpine::begin(NO_LOC, Vec::new(), 2);
    let read = ev(3, 1, 1, 1, AccessMode::Read);
    spine.detect_raw(read, 1);
    spine.on_write_effects(8, &[1]);
    assert!(spine.must_retain(1, 8));
    spine.note_reader_origin(1, 3, 1);
    assert!(spine.should_pin_origin(1, 1));
    assert!(spine.reader_needs_origin(1, 3, 1));
    assert!(
        !spine.should_pin_origin(1, 8),
        "the later writer is not the historical tip"
    );
    spine.note_retain_keep();
    let end = spine.end_block();
    assert!(end.report.retain_keeps >= 1);
    assert_eq!(end.report.prior_radar_only, 1);
}

#[test]
fn soft0_begin_has_empty_avoid_even_with_radar() {
    let spine = AccessSpine::begin(123, Vec::new(), 8);
    assert_eq!(spine.armed_locs(), 0);
    assert!(spine.record_at(123).is_none());
}

#[test]
fn multi_loc_budget_arms_both_locations() {
    let mut spine = AccessSpine::begin(NO_LOC, Vec::new(), 4);
    for tx in 0..6usize {
        spine.detect_waw(
            ev(tx, 1, tx as u16, 1, AccessMode::Write),
            if tx == 0 { None } else { Some(tx - 1) },
        );
    }
    spine.detect_waw(ev(2, 2, 1, 1, AccessMode::Write), Some(1));
    assert!(spine.armed_locs() >= 2);
    let end = spine.end_block();
    let (loc, writers) = end.chain.unwrap();
    assert_eq!(loc, 1);
    assert_eq!(writers, vec![0, 1, 2, 3, 4, 5]);
    assert_eq!(end.waw, 7);
    assert_eq!(end.morph, MorphClass::WawSpine);
}

#[test]
fn quiet_block_ends_with_no_chain_and_storm_flag() {
    let spine = AccessSpine::begin(NO_LOC, Vec::new(), 2);
    let end = spine.end_block();
    assert!(end.chain.is_none());
    assert_eq!(end.morph, MorphClass::NearIndependent);
    assert!(!end.war_presence);
    assert_eq!(end.report.armed_locs, 0);
    assert_eq!(end.report.span_head, usize::MAX);
    // 36 + 30 + 17 edges before, none now: a storm-to-quiet swing.
    assert!(storm_of(36, 30, 17, 0, 0, 0));
    assert!(!storm_of(10, 8, 4, 4, 0, 0));
}

#[test]
fn morph_classes() {
    assert_eq!(morph_of(1, 1, 1), MorphClass::NearIndependent);
    assert_eq!(morph_of(10, 10, 10), MorphClass::SparseConflict);
    assert_eq!(morph_of(50, 10, 10), MorphClass::RawFanOut);
    assert_eq!(morph_of(10, 50, 10), MorphClass::WawSpine);
    assert_eq!(morph_of(30, 20, 20), MorphClass::MixedRawWaw);
}

#[test]
fn yield_refused_on_last_core() {
    let mut spine = AccessSpine::begin(NO_LOC, Vec::new(), 2);
    assert!(spine.enter_yield());
    assert!(!spine.enter_yield(), "last core must not pin the producer");
    assert_eq!(spine.yield_waiters(), 1);
    spine.leave_yield_ok();
    assert_eq!(spine.yield_waiters(), 0);
    spine.leave_yield_deadlock();
    assert_eq!(spine.yield_waiters(), 0);
    assert!(spine.try_escape());
    assert!(!spine.try_escape());
    spine.clear_escape();
    assert!(spine.try_escape());
}

#[test]
fn first_write_opens_record_without_primitive() {
    let mut spine = AccessSpine::begin(NO_LOC, Vec::new(), 2);
    spine.on_write_effects(5, &[9]);
    let rec = spine.record_at(9).unwrap();
    assert_eq!(rec.writers, vec![5]);
    assert!(!rec.hard_armed);
    assert_eq!(spine.armed_locs(), 0);
    spine.on_write_effects(6, &[9]);
    let rec = spine.record_at(9).unwrap();
    assert_eq!(rec.writers, vec![5, 6]);
    assert_eq!(rec.recipe, Recipe::OrderedTip);
    assert_eq!(spine.armed_locs(), 1);
}

#[test]
fn reader_origin_keeps_only_earlier_origins() {
    let mut spine = AccessSpine::begin(NO_LOC, Vec::new(), 2);
    spine.note_reader_origin(4, 3, 5);
    assert!(!spine.reader_needs_origin(4, 3, 5));
    spine.on_access(ev(3, 4, 0, 0, AccessMode::Read));
    assert!(spine.record_at(4).is_none());
}

#[test]
fn hot_locs_keeps_sixteen_hottest_first() {
    let mut spine = AccessSpine::begin(NO_LOC, Vec::new(), 4);
    for l in 1..=20u64 {
        for t in 0..l {
            spine.detect_waw(ev(t as usize, l, 1, 1, AccessMode::Write), None);
        }
    }
    let hot = spine.hot_locs();
    assert_eq!(hot.len(), HOT_LOCS_MAX);
    for w in hot.windows(2) {
        assert!(w[0].1 >= w[1].1);
    }
    let mut all: Vec<usize> = Vec::new();
    for l in 1..=20u64 {
        let r = spine.record_at(l).unwrap();
        all.push(r.writers.len() + r.readers.len());
    }
    for &(loc, h) in &hot {
        let r = spine.record_at(loc).unwrap();
        assert_eq!(h, r.writers.len() + r.readers.len());
    }
    all.sort_unstable_by(|a, b| b.cmp(a));
    let kept: Vec<usize> = hot.iter().map(|p| p.1).collect();
    assert_eq!(kept, all[..HOT_LOCS_MAX].to_vec());
    // Location 20 has twenty writers: the hottest.
    assert_eq!(hot[0], (20, 20));
}

#[test]
fn hot_locs_of_an_empty_block_is_empty() {
    let spine = AccessSpine::begin(NO_LOC, Vec::new(), 1);
    assert!(spine.hot_locs().is_empty());
    assert_eq!(spine.radar_hits(&vec![1, 2]), 0);
}

#[test]
fn radar_hits_counts_recorded_locations() {
    let mut spine = AccessSpine::begin(NO_LOC, Vec::new(), 2);
    spine.detect_waw(ev(1, 5, 1, 1, AccessMode::Write), None);
    spine.detect_raw(ev(2, 6, 1, 1, AccessMode::Read), 1);
    assert_eq!(spine.radar_hits(&vec![5, 6, 7, 5]), 3);
    assert_eq!(spine.radar_hits(&Vec::new()), 0);
}
