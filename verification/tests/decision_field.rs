use pevm::specfence::decision_field::{
    depth_bucket_name, feature_name, inc_bucket_name, k_bucket_name, writer_status_name,
};
use pevm::specfence::decision_field::{
    DecisionFeat, DecisionFieldAgg, DecisionFieldSnap, DecisionVerb, VerbHist,
};

fn feat(verb: DecisionVerb) -> DecisionFeat {
    DecisionFeat {
        verb,
        access_k: 5,
        depth: 2,
        incarnation: 1,
        is_program: true,
        writer_published: false,
        writer_validated: false,
        writer_executing: true,
        writer_ready: false,
        writer_present: true,
        avoid_broadcast: false,
        canary_ok: false,
        independence_certified: false,
        essential_antidep: true,
        force_prefix: false,
        clique_gated: false,
        in_hot_set: false,
        prior_warm: false,
        mode_read: true,
    }
}

fn h(bind: u64, wait_for: u64, unfenced: u64) -> VerbHist {
    VerbHist { bind, wait_for, unfenced }
}

#[test]
fn record_counts_every_table_once() {
    let mut agg = DecisionFieldAgg::new();
    agg.record(feat(DecisionVerb::WaitFor));
    agg.record(feat(DecisionVerb::Unfenced));
    let s = agg.snapshot();
    assert_eq!(s.n_decisions, 2);
    assert_eq!(s.verb, h(0, 1, 1));
    assert_eq!(s.edge_kind_wr, h(0, 1, 1));
    // is_program is true for both: the true side holds both verbs
    let row = s.binary[0].as_ref().unwrap();
    assert_eq!(row[0], Some(h(0, 0, 0)));
    assert_eq!(row[1], Some(h(0, 1, 1)));
    // access_k 5 is bucket k4_7, depth 2 is d1_3, incarnation 1 is inc1
    assert_eq!(s.k_bucket[2], Some(h(0, 1, 1)));
    assert_eq!(s.depth_bucket[1], Some(h(0, 1, 1)));
    assert_eq!(s.inc_bucket[1], Some(h(0, 1, 1)));
    // present, executing writer
    assert_eq!(s.writer_status[2], Some(h(0, 1, 1)));
    // unfenced while essential
    assert_eq!(s.quality.missed_avoid, 1);
    assert_eq!(s.quality.unfenced_essential, 1);
    assert_eq!(s.quality.false_fence_wait, 0);
    assert_eq!(s.quality.wait_no_writer, 0);
    // the reserved row is never counted
    assert_eq!(s.binary[15].as_ref().unwrap()[0], Some(h(0, 0, 0)));
}

#[test]
fn quality_proxies_flag_suspicious_verbs() {
    let mut agg = DecisionFieldAgg::new();
    let mut f = feat(DecisionVerb::WaitFor);
    f.writer_published = true;
    f.writer_present = false;
    agg.record(f);
    let mut b = feat(DecisionVerb::Bind);
    b.writer_published = false;
    agg.record(b);
    let s = agg.snapshot();
    assert_eq!(s.quality.false_fence_wait, 1);
    assert_eq!(s.quality.wait_no_writer, 1);
    assert_eq!(s.quality.bind_no_publish, 1);
    assert_eq!(s.writer_status[0], Some(h(0, 1, 0)));
}

#[test]
fn merge_adds_counts_and_unions_keys() {
    let mut agg = DecisionFieldAgg::new();
    agg.record(feat(DecisionVerb::Bind));
    let one = agg.snapshot();
    let mut acc = DecisionFieldSnap::empty();
    assert!(acc.binary.iter().all(|r| r.is_none()));
    acc.merge_from(&one);
    acc.merge_from(&one);
    assert_eq!(acc.n_decisions, 2);
    assert_eq!(acc.verb, h(2, 0, 0));
    assert_eq!(acc.k_bucket[2], Some(h(2, 0, 0)));
    assert_eq!(acc.k_bucket[0], Some(h(0, 0, 0)));
    assert_eq!(acc.binary[0].as_ref().unwrap()[1], Some(h(2, 0, 0)));
    // merging an empty snapshot changes nothing
    let before = acc.k_bucket.clone();
    acc.merge_from(&DecisionFieldSnap::empty());
    assert_eq!(acc.k_bucket, before);
    assert_eq!(acc.n_decisions, 2);
}

fn same(a: &DecisionFieldSnap, b: &DecisionFieldSnap) -> bool {
    a.n_decisions == b.n_decisions
        && a.verb == b.verb
        && a.binary == b.binary
        && a.k_bucket == b.k_bucket
        && a.depth_bucket == b.depth_bucket
        && a.inc_bucket == b.inc_bucket
        && a.writer_status == b.writer_status
        && a.edge_kind_wr == b.edge_kind_wr
        && a.quality == b.quality
}

fn snap_of(verbs: &[DecisionVerb], depth: u8) -> DecisionFieldSnap {
    let mut agg = DecisionFieldAgg::new();
    for &v in verbs {
        agg.record(DecisionFeat { depth, ..feat(v) });
    }
    agg.snapshot()
}

#[test]
fn whole_snapshot_merge_is_commutative_associative_with_identity() {
    let a = snap_of(&[DecisionVerb::Bind, DecisionVerb::WaitFor], 1);
    let b = snap_of(&[DecisionVerb::Unfenced], 6);
    let c = snap_of(&[DecisionVerb::WaitFor, DecisionVerb::WaitFor], 3);
    let mut a0 = snap_of(&[DecisionVerb::Bind, DecisionVerb::WaitFor], 1);
    a0.merge_from(&DecisionFieldSnap::empty());
    assert!(same(&a0, &a), "the empty snapshot is the identity");
    let mut e = DecisionFieldSnap::empty();
    e.merge_from(&a);
    assert!(same(&e, &a), "on either side");
    let mut ab = snap_of(&[DecisionVerb::Bind, DecisionVerb::WaitFor], 1);
    ab.merge_from(&b);
    let mut ba = snap_of(&[DecisionVerb::Unfenced], 6);
    ba.merge_from(&a);
    assert!(same(&ab, &ba), "merging commutes");
    let mut ab_c = snap_of(&[DecisionVerb::Bind, DecisionVerb::WaitFor], 1);
    ab_c.merge_from(&b);
    ab_c.merge_from(&c);
    let mut bc = snap_of(&[DecisionVerb::Unfenced], 6);
    bc.merge_from(&c);
    let mut a_bc = snap_of(&[DecisionVerb::Bind, DecisionVerb::WaitFor], 1);
    a_bc.merge_from(&bc);
    assert!(same(&ab_c, &a_bc), "merging associates");
}

#[test]
fn snapshot_key_names_are_fixed_by_index() {
    let features: Vec<&str> = (0..16).map(feature_name).collect();
    assert_eq!(features[0], "is_program");
    assert_eq!(features[8], "independence_certified");
    assert_eq!(features[12], "in_hot_set_H");
    assert_eq!(features[15], "reserved");
    assert_eq!((0..5).map(k_bucket_name).collect::<Vec<_>>(), vec!["k0", "k1_3", "k4_7", "k8_15", "k16p"]);
    assert_eq!((0..4).map(depth_bucket_name).collect::<Vec<_>>(), vec!["d0", "d1_3", "d4_7", "d8p"]);
    assert_eq!((0..3).map(inc_bucket_name).collect::<Vec<_>>(), vec!["inc0", "inc1", "inc2p"]);
    assert_eq!(
        (0..5).map(writer_status_name).collect::<Vec<_>>(),
        vec!["none", "ready", "executing", "validated", "other"]
    );
}
