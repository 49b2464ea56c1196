use pevm::specfence::access_policy::{
    decide, decide_queried, AccessDecision, AccessVis, BayesAnswers, LearnerAnswers,
};

fn learner() -> LearnerAnswers {
    LearnerAnswers {
        has_any_predicted: true,
        predicted: true,
        predicted_intra: false,
        dominant_fan_out: true,
        quiet_fence_off: false,
        prior_pe_fire_wins: true,
        bind_tax_losing: false,
    }
}

fn data_vis() -> AccessVis {
    AccessVis {
        published_data: true,
        writer: Some(1),
        writer_executing: false,
        unfinished: 0,
        in_serial_lane: false,
        hot: false,
        ws_hat: true,
        independence_certified: false,
        tip_is_conflict_producer: true,
    }
}

fn exec_vis(w: usize) -> AccessVis {
    AccessVis {
        published_data: false,
        writer: Some(w),
        writer_executing: true,
        unfinished: 1,
        in_serial_lane: false,
        hot: false,
        ws_hat: false,
        independence_certified: false,
        tip_is_conflict_producer: false,
    }
}

fn multi_vis(w: usize) -> AccessVis {
    AccessVis { unfinished: 3, hot: true, ..exec_vis(w) }
}

const ROI_SKIP: AccessDecision = AccessDecision::UnfencedOcc { predicted: true, roi_skip: true };

#[test]
fn no_prediction_reads_optimistically() {
    let l = LearnerAnswers { has_any_predicted: false, ..learner() };
    assert_eq!(
        decide(&l, Some(&data_vis())),
        AccessDecision::UnfencedOcc { predicted: false, roi_skip: false }
    );
    let l = LearnerAnswers { predicted: false, ..learner() };
    assert_eq!(
        decide(&l, None),
        AccessDecision::UnfencedOcc { predicted: false, roi_skip: false }
    );
}

#[test]
fn prediction_without_visibility_is_roi_skip() {
    assert_eq!(decide(&learner(), None), ROI_SKIP);
}

#[test]
fn conflict_producer_data_binds() {
    assert_eq!(decide(&learner(), Some(&data_vis())), AccessDecision::Bind);
    let mere = AccessVis { tip_is_conflict_producer: false, ..data_vis() };
    assert_eq!(decide(&learner(), Some(&mere)), ROI_SKIP);
    let taxed = LearnerAnswers { bind_tax_losing: true, ..learner() };
    assert_eq!(decide(&taxed, Some(&data_vis())), ROI_SKIP);
}

#[test]
fn single_executing_writer_is_waited_for() {
    assert_eq!(decide(&learner(), Some(&exec_vis(4))), AccessDecision::WaitFor { writer: 4 });
}

#[test]
fn multi_writer_class_is_a_serial_lane() {
    assert_eq!(decide(&learner(), Some(&multi_vis(0))), AccessDecision::SerialLane { writer: 0 });
    let ready = AccessVis { writer_executing: false, ..multi_vis(0) };
    assert_eq!(decide(&learner(), Some(&ready)), ROI_SKIP);
}

#[test]
fn independence_unfences_a_stale_prior() {
    let v = AccessVis { independence_certified: true, ..data_vis() };
    assert_eq!(decide(&learner(), Some(&v)), ROI_SKIP);
}

#[test]
fn bayes_depth_opens_wait_and_low_depth_does_not() {
    let q = BayesAnswers {
        known_star: false,
        quiet_cold: false,
        ev_pin_beats_abort: false,
        deep_enough: false,
        ev_bind_beats_b0: false,
    };
    assert_eq!(decide_queried(&learner(), Some(&exec_vis(2)), Some(q)), ROI_SKIP);
    let deep = BayesAnswers { deep_enough: true, ..q };
    assert_eq!(
        decide_queried(&learner(), Some(&exec_vis(2)), Some(deep)),
        AccessDecision::WaitFor { writer: 2 }
    );
}

#[test]
fn known_star_opens_wait_on_quiet_morph() {
    let quiet = LearnerAnswers { quiet_fence_off: true, ..learner() };
    let q = BayesAnswers {
        known_star: true,
        quiet_cold: false,
        ev_pin_beats_abort: false,
        deep_enough: false,
        ev_bind_beats_b0: false,
    };
    assert_eq!(
        decide_queried(&quiet, Some(&exec_vis(3)), Some(q)),
        AccessDecision::WaitFor { writer: 3 }
    );
    let cold = BayesAnswers { quiet_cold: true, ..q };
    assert_eq!(decide_queried(&quiet, Some(&exec_vis(3)), Some(cold)), ROI_SKIP);
}

// The learner's answers for the learner states of the policy's scenarios:
// a fresh block on the default (quiet) morph keeps fences off; a fan-out
// morph (fan-out 0.70) leaves them on; a seeded prior marks one access
// predicted; an abort on it marks it predicted from this block.

fn quiet_block() -> LearnerAnswers {
    LearnerAnswers {
        has_any_predicted: false,
        predicted: false,
        predicted_intra: false,
        dominant_fan_out: false,
        quiet_fence_off: true,
        prior_pe_fire_wins: false,
        bind_tax_losing: false,
    }
}

fn fan_out_block() -> LearnerAnswers {
    LearnerAnswers {
        dominant_fan_out: true,
        quiet_fence_off: false,
        prior_pe_fire_wins: true,
        ..quiet_block()
    }
}

fn seeded(l: LearnerAnswers) -> LearnerAnswers {
    LearnerAnswers { has_any_predicted: true, predicted: true, ..l }
}

fn aborted_here(l: LearnerAnswers) -> LearnerAnswers {
    LearnerAnswers { has_any_predicted: true, predicted: true, predicted_intra: true, ..l }
}

fn data_plus_multi() -> AccessVis {
    AccessVis {
        published_data: true,
        writer: Some(0),
        writer_executing: true,
        unfinished: 3,
        in_serial_lane: false,
        hot: true,
        ws_hat: true,
        independence_certified: false,
        tip_is_conflict_producer: false,
    }
}

fn bayes(depth_frac: f64, ev_pin_beats_abort: bool, ev_bind_beats_b0: bool, known_star: bool) -> BayesAnswers {
    BayesAnswers {
        known_star,
        quiet_cold: false,
        ev_pin_beats_abort,
        deep_enough: depth_frac >= 0.50,
        ev_bind_beats_b0,
    }
}

#[test]
fn empty_pe_is_unfenced_occ() {
    assert_eq!(
        decide(&quiet_block(), None),
        AccessDecision::UnfencedOcc { predicted: false, roi_skip: false }
    );
}

#[test]
fn prior_pe_without_vis_is_roi_skip() {
    assert_eq!(decide(&seeded(fan_out_block()), None), ROI_SKIP);
}

#[test]
fn prior_pe_plus_data_and_unfinished0_is_bind() {
    let live = seeded(fan_out_block());
    assert_eq!(decide(&live, Some(&data_vis())), AccessDecision::Bind);
    let mut mere_data = data_vis();
    mere_data.tip_is_conflict_producer = false;
    assert_eq!(decide(&live, Some(&mere_data)), ROI_SKIP);
}

#[test]
fn prior_pe_plus_executing_writer_is_waitfor() {
    let live = seeded(fan_out_block());
    assert_eq!(decide(&live, Some(&exec_vis(2))), AccessDecision::WaitFor { writer: 2 });
}

#[test]
fn multi_writer_pe_is_serial_lane() {
    let live = seeded(fan_out_block());
    assert_eq!(decide(&live, Some(&multi_vis(0))), AccessDecision::SerialLane { writer: 0 });
    assert_eq!(decide(&live, Some(&data_plus_multi())), AccessDecision::SerialLane { writer: 0 });
    let mut ready_multi = data_plus_multi();
    ready_multi.writer_executing = false;
    assert_eq!(decide(&live, Some(&ready_multi)), ROI_SKIP);
}

#[test]
fn intra_abort_pe_opens_pcc() {
    let live = aborted_here(fan_out_block());
    assert_eq!(decide(&live, Some(&exec_vis(1))), AccessDecision::WaitFor { writer: 1 });
    // Another ordinal of the same location is not predicted.
    let other_access = LearnerAnswers { predicted: false, predicted_intra: false, ..live };
    assert_eq!(
        decide(&other_access, None),
        AccessDecision::UnfencedOcc { predicted: false, roi_skip: false }
    );
}

#[test]
fn quiet_intra_pe_waitfor_executing_but_does_not_bind() {
    let live = aborted_here(quiet_block());
    assert_eq!(decide(&live, Some(&exec_vis(1))), ROI_SKIP);
    assert_eq!(decide(&live, Some(&data_vis())), ROI_SKIP);
}

#[test]
fn hot_is_not_a_serial_lane_door() {
    let live = seeded(fan_out_block());
    let mut vis = exec_vis(2);
    vis.hot = true;
    vis.unfinished = 1;
    assert_eq!(decide(&live, Some(&vis)), AccessDecision::WaitFor { writer: 2 });
}

#[test]
fn prior_only_executing_on_quiet_is_roi_skip() {
    let live = seeded(quiet_block());
    assert_eq!(decide(&live, Some(&exec_vis(2))), ROI_SKIP);
    assert_eq!(decide(&live, Some(&data_vis())), ROI_SKIP);
}

#[test]
fn bind_tax_trips_only_when_aborts_match_binds() {
    // Sixteen binds and one abort: the tax has not tripped.
    let live = aborted_here(seeded(fan_out_block()));
    assert_eq!(decide(&live, Some(&data_vis())), AccessDecision::Bind);
    // Seventeen aborts against sixteen binds: it has.
    let taxed = LearnerAnswers { bind_tax_losing: true, ..live };
    assert_eq!(decide(&taxed, Some(&data_vis())), ROI_SKIP);
}

#[test]
fn bayes_low_depth_does_not_waitfor() {
    let live = seeded(fan_out_block());
    let q = bayes(0.15, false, false, false);
    assert_eq!(decide_queried(&live, Some(&exec_vis(2)), Some(q)), ROI_SKIP);
}

#[test]
fn bayes_pin_ev_opens_waitfor() {
    let live = seeded(fan_out_block());
    let q = bayes(0.85, true, false, false);
    assert_eq!(
        decide_queried(&live, Some(&exec_vis(2)), Some(q)),
        AccessDecision::WaitFor { writer: 2 }
    );
}

#[test]
fn known_star_bayes_opens_waitfor_on_quiet() {
    let live = seeded(quiet_block());
    let q = bayes(0.85, true, true, true);
    assert_eq!(
        decide_queried(&live, Some(&exec_vis(2)), Some(q)),
        AccessDecision::WaitFor { writer: 2 }
    );
}

#[test]
fn independence_unfences_stale_prior() {
    let live = seeded(fan_out_block());
    let mut vis = data_vis();
    vis.published_data = false;
    vis.independence_certified = true;
    vis.ws_hat = false;
    assert_eq!(decide(&live, Some(&vis)), ROI_SKIP);
}
