use pevm::specfence::engagement::{should_start_lean, AdaptiveEngagement, BlockEngagementMode};

#[test]
fn default_start_is_lean_without_inspect_flag() {
    assert!(should_start_lean(false));
    let mut eng = AdaptiveEngagement::new(4, true);
    assert!(eng.begin_tx(0, false));
    assert_eq!(eng.lean_mode_txs(), 1);
    assert_eq!(eng.full_mode_txs(), 0);
}

#[test]
fn note_abort_never_escalates_hotset_v5() {
    let mut eng = AdaptiveEngagement::new(64, true);
    for i in 0..40 {
        assert!(eng.begin_tx(i, false));
    }
    for _ in 0..20 {
        assert!(
            !eng.note_abort(),
            "V5-P0: engagement must not escalate HotSet / flip π"
        );
    }
    assert_eq!(eng.engagement_switches(), 0);
    assert!(eng.is_lean());
}

#[test]
fn first_abort_does_not_escalate_hotset() {
    let mut eng = AdaptiveEngagement::new(4, true);
    assert!(eng.begin_tx(0, false));
    assert!(!eng.note_abort());
    assert_eq!(eng.engagement_switches(), 0);
}

#[test]
fn maybe_flip_counts_switch() {
    let mut eng = AdaptiveEngagement::new(4, true);
    assert!(!eng.is_storm());
    assert!(eng.maybe_flip_mode(BlockEngagementMode::Storm));
    assert!(eng.is_storm());
    assert_eq!(eng.engagement_switches(), 1);
    assert!(!eng.maybe_flip_mode(BlockEngagementMode::Storm));
    assert_eq!(eng.engagement_switches(), 1);
}

#[test]
fn research_inspect_forces_full_execute() {
    assert!(!should_start_lean(true));
    let mut eng = AdaptiveEngagement::new(2, true);
    assert!(!eng.begin_tx(1, true));
    assert!(!eng.is_lean());
    assert_eq!(eng.full_mode_txs(), 1);
    assert!(!eng.tx_was_lean(1));
    assert!(eng.begin_tx(1, false));
    assert!(eng.tx_was_lean(1));
    // Out-of-range transactions are never lean.
    assert!(eng.begin_tx(5, false));
    assert!(!eng.tx_was_lean(5));
}

#[test]
fn stored_mode_tag_decodes() {
    assert_eq!(BlockEngagementMode::from_u8(1), BlockEngagementMode::Storm);
    assert_eq!(BlockEngagementMode::from_u8(0), BlockEngagementMode::Quiet);
    assert_eq!(BlockEngagementMode::from_u8(7), BlockEngagementMode::Quiet);
    let mut eng = AdaptiveEngagement::disabled(3);
    assert!(!eng.is_lean());
    eng.set_mode(BlockEngagementMode::Storm);
    assert_eq!(eng.mode(), BlockEngagementMode::Storm);
}
