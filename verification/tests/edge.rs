use pevm::specfence::edge::{
    access_k_class, choose_edge_action, classify_edge, EdgeAction, EdgeKey, EdgeKind, EdgeState,
    EdgeTable, EdgeView, EdgeVisibility,
};
use pevm::types::{TxIdx, TxVersion};


fn view(
    bind: Option<TxVersion>,
    writer: Option<TxIdx>,
    published: bool,
    validated: bool,
    hot: bool,
    avoid: bool,
    canary: bool,
    indep: bool,
    essential: bool,
    clique: bool,
) -> EdgeView {
    EdgeView {
        location: 1,
        reader: 7,
        access_k: 3,
        access_depth: 1,
        writer,
        bind_version: bind,
        writer_published: published,
        writer_validated: validated,
        is_program: true,
        in_hot_set: hot,
        avoid_broadcast: avoid,
        canary_ok: canary,
        independence_certified: indep,
        predicted_essential: essential,
        essential_antidep: essential,
        force_prefix: false,
        clique_gated: clique,
        writer_executing: false,
        writer_ready: false,
    }
}

#[test]
fn a3_bind_published_data_without_writer_done() {
    let v = TxVersion {
        tx_idx: 2,
        tx_incarnation: 1,
    };
    // Hypothesis fix: Data exists → Bind even when !validated / !done.
    let a = choose_edge_action(&view(
        Some(v.clone()),
        Some(2),
        true,
        false,
        true,
        true,
        false,
        false,
        true,
        true,
    ));
    assert_eq!(a, EdgeAction::Bind(v));
}

#[test]
fn a3_bind_not_gated_on_validated() {
    let v = TxVersion {
        tx_idx: 1,
        tx_incarnation: 0,
    };
    // A3 still holds — but only on the PredictedEssential path.
    let a = choose_edge_action(&view(
        Some(v.clone()),
        Some(1),
        true,
        false,
        true,
        false,
        false,
        false,
        true,
        false,
    ));
    assert_eq!(a, EdgeAction::Bind(v));
}

#[test]
fn unfenced_when_data_but_not_predicted() {
    let v = TxVersion {
        tx_idx: 1,
        tx_incarnation: 0,
    };
    let a = choose_edge_action(&view(
        Some(v),
        Some(1),
        true,
        false,
        false,
        false,
        false,
        true,
        false,
        false,
    ));
    assert_eq!(
        a,
        EdgeAction::Unfenced,
        "¬PredictedEssential must not Bind-tax published Data"
    );
}

#[test]
fn d6_wait_unpublished_essential() {
    let a = choose_edge_action(&view(
        None,
        Some(3),
        false,
        false,
        true,
        false,
        false,
        false,
        true,
        false,
    ));
    assert_eq!(a, EdgeAction::WaitFor(3));
}

#[test]
fn location_avoid_is_not_an_or_door() {
    // Per-ℓ Avoid broadcast is observe / first-wave fuel — not a live OR.
    // Without PredictedEssential(ℓ, k) this access stays Unfenced≡OCC.
    let a = choose_edge_action(&view(
        None,
        Some(4),
        false,
        false,
        true,
        true,
        false,
        true,
        false,
        false,
    ));
    assert_eq!(a, EdgeAction::Unfenced);
}

#[test]
fn a4_independence_unfenced() {
    let a = choose_edge_action(&view(
        None, None, false, false, false, false, false, true, false, false,
    ));
    assert_eq!(a, EdgeAction::Unfenced);
}

#[test]
fn canary_is_not_a_live_verb() {
    // Exclude: canary never enters classify (was Unfenced discovery tax).
    let a = choose_edge_action(&view(
        None,
        Some(1),
        false,
        false,
        true,
        false,
        true,
        true,
        false,
        true,
    ));
    assert_eq!(a, EdgeAction::Unfenced);
    assert!(matches!(
        classify_edge(&view(
            None,
            Some(1),
            false,
            false,
            true,
            false,
            true,
            true,
            false,
            true,
        )),
        EdgeVisibility::Independent
    ));
}

#[test]
fn clique_is_not_an_avoid_key() {
    // Clique / canary-adjacent is observe-only. ¬PredictedEssential → OCC.
    let a = choose_edge_action(&view(
        None,
        Some(1),
        false,
        false,
        true,
        false,
        false,
        true,
        false,
        true,
    ));
    assert_eq!(a, EdgeAction::Unfenced);
}

#[test]
fn clique_none_writer_first_wave_unfenced() {
    let a = choose_edge_action(&view(
        None, None, false, false, false, false, false, true, false, true,
    ));
    assert_eq!(
        a,
        EdgeAction::Unfenced,
        "clique ∧ writer=None ∧ !PredictedEssential is OCC, not serial-all"
    );
}

#[test]
fn independence_wins_without_predicted_essential() {
    // Clique + writer without PredictedEssential stays Unfenced≡OCC.
    let a = choose_edge_action(&view(
        None,
        Some(2),
        false,
        false,
        false,
        false,
        false,
        true,
        false,
        true,
    ));
    assert_eq!(
        a,
        EdgeAction::Unfenced,
        "¬PredictedEssential must not Fence via clique/canary leftover"
    );
}

#[test]
fn never_wait_for_higher_or_self() {
    let mut v = view(
        None,
        Some(9),
        false,
        false,
        true,
        true,
        false,
        false,
        true,
        true,
    );
    v.reader = 4;
    v.writer = Some(9);
    assert_eq!(
        choose_edge_action(&v),
        EdgeAction::Unfenced,
        "WaitFor(later) inverts preset order"
    );
    v.writer = Some(4);
    assert_eq!(choose_edge_action(&v), EdgeAction::Unfenced);
}

#[test]
fn wait_for_ready_known_essential() {
    // Ready is not an Unfenced door — admission makes the writer progress.
    let a = choose_edge_action(&view(
        None,
        Some(3),
        false,
        false,
        true,
        true,
        false,
        false,
        true,
        true,
    ));
    assert_eq!(a, EdgeAction::WaitFor(3));
}

#[test]
fn hot_alone_is_cold_unfenced_not_wait() {
    // H membership is not an OR-door into WaitFor (dissolved salad).
    let a = choose_edge_action(&view(
        None, None, false, false, true, false, false, false, false, false,
    ));
    assert_eq!(a, EdgeAction::Unfenced);
    assert!(matches!(
        classify_edge(&view(
            None, None, false, false, true, false, false, false, false, false,
        )),
        EdgeVisibility::Independent | EdgeVisibility::Cold
    ));
}

#[test]
fn visibility_machine_published_then_essential_then_unfenced() {
    let v = TxVersion {
        tx_idx: 2,
        tx_incarnation: 1,
    };
    assert!(matches!(
        classify_edge(&view(
            Some(v.clone()),
            Some(2),
            true,
            false,
            true,
            true,
            false,
            false,
            true,
            true,
        )),
        EdgeVisibility::PublishedData { .. }
    ));
    assert!(matches!(
        classify_edge(&view(
            None,
            Some(3),
            false,
            false,
            true,
            false,
            false,
            false,
            true,
            false,
        )),
        EdgeVisibility::UnpublishedEssential { writer: 3 }
    ));
    assert!(matches!(
        classify_edge(&view(
            None, None, false, false, false, false, false, true, false, false,
        )),
        EdgeVisibility::Independent
    ));
}

#[test]
fn never_unfenced_known_essential() {
    let a = choose_edge_action(&view(
        None,
        Some(3),
        false,
        false,
        true,
        false,
        false,
        false,
        true,
        false,
    ));
    assert!(matches!(a, EdgeAction::WaitFor(3)));
    assert!(!matches!(a, EdgeAction::Unfenced));
}

#[test]
fn force_prefix_is_not_pi() {
    // Exclude: ForcePrefix bool must not Fence (sticky tx-grain / inc smell).
    let mut v = view(
        None, None, false, false, true, false, false, true, false, false,
    );
    v.force_prefix = true;
    assert_eq!(
        choose_edge_action(&v),
        EdgeAction::Unfenced,
        "force_prefix ∧ writer=None is NOT serial-lane π"
    );
    v.reader = 0;
    assert_eq!(choose_edge_action(&v), EdgeAction::Unfenced);
}

#[test]
fn force_prefix_does_not_override_independence() {
    let mut v = view(
        None,
        Some(2),
        false,
        false,
        true,
        false,
        false,
        true,
        false,
        false,
    );
    v.force_prefix = true;
    v.writer_ready = true;
    v.independence_certified = true;
    assert_eq!(
        choose_edge_action(&v),
        EdgeAction::Unfenced,
        "force_prefix is excluded; ¬PredictedEssential → OCC"
    );
    v.writer_executing = true;
    v.writer_ready = false;
    assert_eq!(choose_edge_action(&v), EdgeAction::Unfenced);
}

#[test]
fn prefer_admit_ready_does_not_unfence_must_wait() {
    let mut v = view(
        None,
        Some(3),
        false,
        false,
        true,
        true,
        false,
        true,
        true,
        true,
    );
    v.writer_ready = true;
    v.writer_executing = false;
    assert_eq!(
        choose_edge_action(&v),
        EdgeAction::WaitFor(3),
        "S1+U3: Ready spine writer stays a Fence; admit is the hang door"
    );
}

#[test]
fn avoid_none_writer_does_not_ghost_wait() {
    // wait_no_writer smell: no writer identity → no WaitFor(reader-1).
    let a = choose_edge_action(&view(
        None, None, false, false, true, true, false, false, true, false,
    ));
    assert_eq!(
        a,
        EdgeAction::Unfenced,
        "PredictedEssential ∧ writer=None must not invent a serial pred"
    );
}

#[test]
fn predicted_essential_waits_this_access_only() {
    let mut v = view(
        None,
        Some(3),
        false,
        false,
        false,
        false,
        false,
        false,
        true,
        false,
    );
    v.access_k = 6;
    v.access_depth = 2;
    assert_eq!(choose_edge_action(&v), EdgeAction::WaitFor(3));
    // Sibling access in the same tx (different k) is ¬PredictedEssential.
    v.predicted_essential = false;
    v.essential_antidep = false;
    v.independence_certified = true;
    v.access_k = 12;
    assert_eq!(
        choose_edge_action(&v),
        EdgeAction::Unfenced,
        "mixed verbs inside one tx: later k stays OCC"
    );
}

#[test]
fn inc_is_not_in_avoid_key() {
    // EdgeKey / EdgeView have no incarnation field. Repair-state must not
    // re-key Avoid (99-block: inc1+ fence≈74% smell).
    let k0 = EdgeKey {
        location: 1,
        reader: 7,
        access_k: 6,
        depth: 1,
    };
    let k1 = EdgeKey {
        location: 1,
        reader: 7,
        access_k: 6,
        depth: 1,
    };
    assert_eq!(k0, k1, "same a=(t,k,depth,ℓ) — inc is not part of identity");
}

#[test]
fn h_is_not_a_wait_or_door() {
    let mut v = view(
        None,
        Some(2),
        false,
        false,
        true,
        false,
        false,
        true,
        false,
        false,
    );
    v.in_hot_set = true;
    assert_eq!(
        choose_edge_action(&v),
        EdgeAction::Unfenced,
        "H membership is observe/prior, not a Wait OR-door"
    );
}

#[test]
fn writer_validated_is_not_a_bind_gate() {
    let ver = TxVersion {
        tx_idx: 2,
        tx_incarnation: 0,
    };
    let mut v = view(
        Some(ver.clone()),
        Some(2),
        true,
        false,
        false,
        false,
        false,
        false,
        true,
        false,
    );
    v.writer_validated = false;
    assert_eq!(
        choose_edge_action(&v),
        EdgeAction::Bind(ver),
        "A3: Data → Bind even if !validated"
    );
}

#[test]
fn access_k_class_buckets_match_field_table() {
    assert_eq!(access_k_class(0), 0);
    assert_eq!(access_k_class(2), 1);
    assert_eq!(access_k_class(6), 2);
    assert_eq!(access_k_class(10), 3);
    assert_eq!(access_k_class(20), 4);
}



#[test]
fn edge_table_multi_touch_not_flat() {
    let mut t = EdgeTable::new();
    let k0 = EdgeKey { location: 5, reader: 10, access_k: 1, depth: 0 };
    let k1 = EdgeKey { location: 5, reader: 10, access_k: 4, depth: 2 };
    t.record(k0, Some(2), EdgeKind::Wr, EdgeState::Unpublished);
    t.record(k1, Some(2), EdgeKind::Wr, EdgeState::PublishedUncommitted);
    let acc = t.accesses_of(5, 10);
    assert_eq!(acc.len(), 2, "flatten (location, reader) would drop a frame");
    assert!(t.broadcast_avoid(5));
    assert!(t.avoid_broadcast(5));
    assert!(!t.broadcast_avoid(5));
    assert_eq!(t.avoid_count(), 1);
    assert_eq!(t.min_k_of_invalid(10, &[5]), Some(1));
    assert_eq!(t.later_touches(5, 10, 1), 1);
}

#[test]
fn edge_table_counts_and_state_updates() {
    let mut t = EdgeTable::new();
    let k = EdgeKey { location: 9, reader: 3, access_k: 2, depth: 1 };
    t.record(k, None, EdgeKind::Rw, EdgeState::Unpublished);
    t.record(k, Some(1), EdgeKind::Ww, EdgeState::Unpublished);
    assert_eq!(t.access_count(), 1, "the same access is counted once");
    assert_eq!(t.wr_count(), 0);
    assert_eq!(t.ww_count(), 1);
    t.set_state(&k, EdgeState::Validated);
    let acc = t.accesses_of(9, 3);
    assert_eq!(acc.len(), 1);
    assert_eq!(acc[0].1.state, EdgeState::Validated);
    assert_eq!(acc[0].1.writer, Some(1));
    // An unknown access stays unknown.
    let other = EdgeKey { location: 9, reader: 4, access_k: 2, depth: 1 };
    t.set_state(&other, EdgeState::Validated);
    assert!(t.accesses_of(9, 4).is_empty());
    assert_eq!(t.min_k_of_invalid(3, &[1, 2]), None);
    assert_eq!(t.min_k_of_invalid(3, &[1, 9]), Some(2));
    assert_eq!(t.later_touches(9, 3, 2), 0);
    assert_eq!(t.later_touches(9, 3, 1), 1);
    assert!(!t.avoid_broadcast(9));
}
