use pevm::types::Addr;
use pevm::specfence::admission::{
    admit_seed_on_abort, location_successors, plan_begin_block, plan_on_write_set, short_edge_successors,
    short_edges_at, plan_hint_short_edges, AdmitAction, AdmitCand, CohortKind, HintCallee, ShortEdgeAction,
    ShortPolicyAnswer,
    WriteSetAction, FAN_STAR_K,
};

fn cand(kind: CohortKind, loc: u64, score: i64, txs: Vec<usize>) -> AdmitCand {
    AdmitCand { kind, loc, score, txs }
}

fn edge(succ: usize, pred: usize, loc: u64) -> AdmitAction {
    AdmitAction::Consumer { succ, pred, on: Some(loc) }
}

#[test]
fn raw_fan_is_a_star_on_the_first_producer() {
    let plan = plan_begin_block(&vec![cand(CohortKind::RawFan, 100, 5, vec![2, 3, 4])], 8, true);
    assert_eq!(
        plan.actions,
        vec![
            AdmitAction::Reserve(2),
            AdmitAction::SeedEssential { loc: 100, k: FAN_STAR_K },
            AdmitAction::RawProducer { loc: 100, producer: 2 },
            edge(3, 2, 100),
            edge(4, 2, 100),
        ]
    );
    assert_eq!(plan.edges, 2);
    assert_eq!(plan.demoted, 0);
}

#[test]
fn short_calldata_to_chains_predecessors() {
    let plan = plan_begin_block(&vec![cand(CohortKind::CallWaw, 7, 1, vec![14, 16, 17])], 8, false);
    assert_eq!(plan.actions, vec![edge(16, 14, 7), edge(17, 16, 7)]);
    assert_eq!(plan.edges, 2);
}

#[test]
fn empty_to_is_a_probe_star() {
    let plan = plan_begin_block(&vec![cand(CohortKind::EmptyTo, 9, 1, vec![31, 66, 67])], 8, false);
    assert_eq!(plan.actions, vec![edge(66, 31, 9), edge(67, 31, 9)]);
}

#[test]
fn same_from_chains_behind_its_producer() {
    let plan = plan_begin_block(&vec![cand(CohortKind::SameFrom, 5, 1, vec![1, 2])], 8, false);
    assert_eq!(
        plan.actions,
        vec![AdmitAction::RawProducer { loc: 5, producer: 1 }, edge(2, 1, 5)]
    );
}

#[test]
fn a_queued_transaction_is_not_starred_twice() {
    let plan = plan_begin_block(
        &vec![
            cand(CohortKind::RawFan, 100, 9, vec![2, 3]),
            cand(CohortKind::EmptyTo, 200, 1, vec![1, 3, 4]),
        ],
        8,
        false,
    );
    assert_eq!(
        plan.actions,
        vec![
            AdmitAction::Reserve(2),
            AdmitAction::RawProducer { loc: 100, producer: 2 },
            edge(3, 2, 100),
            edge(4, 1, 200),
        ]
    );
    assert_eq!(plan.edges, 2);
}

#[test]
fn cap_keeps_the_hottest_in_stable_order() {
    let plan = plan_begin_block(
        &vec![
            cand(CohortKind::CallWaw, 1, 3, vec![1, 2]),
            cand(CohortKind::CallWaw, 2, 5, vec![3, 4]),
            cand(CohortKind::CallWaw, 3, 3, vec![5, 6]),
        ],
        2,
        false,
    );
    assert_eq!(plan.actions, vec![edge(4, 3, 2), edge(2, 1, 1)]);
    assert_eq!(plan.demoted, 1);
}

#[test]
fn abort_strengthen_needs_an_earlier_producer() {
    assert!(admit_seed_on_abort(3, 5, 7).is_empty());
    assert_eq!(
        admit_seed_on_abort(5, 3, 7),
        vec![
            AdmitAction::RawProducer { loc: 7, producer: 3 },
            AdmitAction::Consumer { succ: 5, pred: 3, on: None },
            AdmitAction::Reserve(3),
        ]
    );
}

use WriteSetAction::{
    Consumer, EffWaw, ImmediatePred, LocationWriter, RawProducer, ReleaseConsumer, ShortEdges,
};

#[test]
fn write_set_thin_block_hands_short_call_chain_to_short_edges() {
    let r = plan_on_write_set(4, 100, true, 3, &vec![], &vec![], false, &vec![1], &vec![1], true, true, false, false, &vec![]);
    assert_eq!(r, vec![ShortEdges]);
    let r = plan_on_write_set(4, 100, true, 5, &vec![], &vec![], false, &vec![1], &vec![1], true, true, false, false, &vec![]);
    assert!(r.is_empty());
    // A queued writer is planted as usual.
    let r = plan_on_write_set(4, 100, false, 0, &vec![], &vec![], false, &vec![1], &vec![], true, true, false, true, &vec![]);
    assert_eq!(r, vec![LocationWriter { loc: 1, writer: 4 }]);
}

#[test]
fn write_set_records_every_writer_and_sender_producer() {
    // No recipient: the sender location gets producer and predecessor,
    // every other effective location producer and predecessor too.
    let r = plan_on_write_set(4, 100, false, 0, &vec![], &vec![1, 4, 9], false, &vec![100, 7, 8], &vec![100, 7], false, false, false, false, &vec![]);
    assert_eq!(
        r,
        vec![
            LocationWriter { loc: 100, writer: 4 },
            LocationWriter { loc: 7, writer: 4 },
            LocationWriter { loc: 8, writer: 4 },
            RawProducer { loc: 100, producer: 4 },
            ImmediatePred { loc: 100, writer: 4 },
            RawProducer { loc: 7, producer: 4 },
            ImmediatePred { loc: 7, writer: 4 },
        ]
    );
    // A two-transaction sender stays without a predecessor.
    let r = plan_on_write_set(4, 100, false, 0, &vec![], &vec![1, 4], false, &vec![100], &vec![100], false, false, false, false, &vec![]);
    assert_eq!(r, vec![LocationWriter { loc: 100, writer: 4 }, RawProducer { loc: 100, producer: 4 }]);
}

#[test]
fn write_set_chains_later_payees_on_hidden_location() {
    // Writer 4 publishes storage slot 7 of a three-call recipient; payee 31
    // was probed, so 31 (and 40) chain behind 4 on slot 7.
    let r = plan_on_write_set(4, 100, true, 3, &vec![1, 4, 31, 40], &vec![4], false, &vec![7], &vec![7], true, false, false, false, &vec![31]);
    assert_eq!(
        r,
        vec![
            LocationWriter { loc: 7, writer: 4 },
            EffWaw { kind: CohortKind::CallWaw, effective: true },
            RawProducer { loc: 7, producer: 4 },
            LocationWriter { loc: 7, writer: 4 },
            ImmediatePred { loc: 7, writer: 4 },
            Consumer { succ: 31, pred: 4, on: Some(7) },
            Consumer { succ: 40, pred: 31, on: Some(7) },
        ]
    );
    // Nothing probed under a policy: no chain.
    let r = plan_on_write_set(4, 100, true, 3, &vec![1, 4, 31], &vec![4], false, &vec![7], &vec![7], true, false, false, false, &vec![]);
    assert!(!r.iter().any(|a| matches!(a, Consumer { .. })));
}

#[test]
fn write_set_lazy_only_releases_probed_payees() {
    // Only the sender location is effective: the later payees probed are
    // released, except the sender's own later transaction 9.
    let r = plan_on_write_set(4, 100, true, 0, &vec![2, 6, 9], &vec![4, 9], false, &vec![100, 55], &vec![100], true, false, false, false, &vec![6]);
    assert_eq!(
        r,
        vec![
            LocationWriter { loc: 100, writer: 4 },
            LocationWriter { loc: 55, writer: 4 },
            RawProducer { loc: 100, producer: 4 },
            EffWaw { kind: CohortKind::EmptyTo, effective: false },
            ReleaseConsumer(6),
        ]
    );
    // Nothing probed: nothing released.
    let r = plan_on_write_set(4, 100, true, 0, &vec![2, 6, 9], &vec![4, 9], false, &vec![55], &vec![], true, false, false, false, &vec![]);
    assert_eq!(r, vec![LocationWriter { loc: 55, writer: 4 }]);
}

#[test]
fn write_set_fan_star_plants_hidden_locations() {
    let r = plan_on_write_set(2, 100, true, 16, &vec![], &vec![], false, &vec![7], &vec![7], true, false, false, false, &vec![]);
    assert_eq!(
        r,
        vec![
            LocationWriter { loc: 7, writer: 2 },
            RawProducer { loc: 7, producer: 2 },
            LocationWriter { loc: 7, writer: 2 },
            ImmediatePred { loc: 7, writer: 2 },
            EffWaw { kind: CohortKind::RawFan, effective: true },
        ]
    );
}

#[test]
fn write_set_release_probe_star_frees_unkept_payees() {
    // Payees 31 and 20 are later; the chain keeps 31 (4 < 31) but not 20
    // (31 > 20), so the probe-star release frees 20.
    let r = plan_on_write_set(4, 100, true, 2, &vec![31, 20], &vec![], false, &vec![7], &vec![7], true, false, true, false, &vec![31]);
    assert_eq!(r.last(), Some(&ReleaseConsumer(20)));
    assert!(r.contains(&Consumer { succ: 31, pred: 4, on: Some(7) }));
    assert!(!r.contains(&ReleaseConsumer(31)));
}

#[test]
fn successors_follow_the_touched_account() {
    let from = vec![1, 4, 6];
    let to = vec![2, 5, 7];
    let short_calls = vec![3, 5, 9];
    // The sender's account: the later senders.
    assert_eq!(location_successors(10, 4, 10, &from, Some(20), &to, &short_calls), vec![6]);
    // The recipient's account: the later recipients.
    assert_eq!(location_successors(20, 4, 10, &from, Some(20), &to, &short_calls), vec![5, 7]);
    // Another location of a short call chain: the later callers.
    assert_eq!(location_successors(30, 4, 10, &from, Some(20), &to, &short_calls), vec![5, 9]);
    // A wide fan or a create orders nothing.
    let wide: Vec<usize> = (0..8).collect();
    assert!(location_successors(30, 4, 10, &from, Some(20), &to, &wide).is_empty());
    assert!(location_successors(30, 4, 10, &from, None, &to, &short_calls).is_empty());
    assert!(location_successors(30, 4, 10, &from, Some(20), &to, &vec![9]).is_empty());
}

#[test]
fn short_edge_successors_use_sender_or_short_envelope() {
    let from = vec![1, 3, 6];
    let calls = vec![2, 5, 8];
    // The sender's account, written effectively: the later senders.
    assert_eq!(short_edge_successors(10, 3, 10, &vec![10], &from, false, true, &calls, &vec![]), vec![6]);
    // Too few senders, or all of them empty: none.
    assert!(short_edge_successors(10, 3, 10, &vec![10], &vec![1, 6], false, true, &calls, &vec![]).is_empty());
    assert!(short_edge_successors(10, 3, 10, &vec![10], &from, true, true, &calls, &vec![]).is_empty());
    // A short call chain stands for the location.
    assert_eq!(short_edge_successors(40, 3, 10, &vec![40], &from, false, true, &calls, &vec![]), vec![5, 8]);
    // A short run of payments, with no call chain.
    assert_eq!(short_edge_successors(40, 3, 10, &vec![40], &from, false, true, &vec![], &vec![2, 7]), vec![7]);
    // A wide call fan does not.
    let wide: Vec<usize> = (0..8).collect();
    assert!(short_edge_successors(40, 3, 10, &vec![40], &from, false, true, &wide, &vec![]).is_empty());
}

#[test]
fn short_edges_order_around_the_writer() {
    let loc = 40u64;
    // No policy: an earlier writer gates; the writer waits for it and the
    // first successor waits for the writer.
    assert_eq!(
        short_edges_at(loc, 5, &vec![7, 9], Some(2), None),
        vec![
            ShortEdgeAction::ConsumerIfIdle { consumer: 5, producer: 2, loc },
            ShortEdgeAction::ConsumerIfIdle { consumer: 7, producer: 5, loc },
        ]
    );
    // No policy, one successor and no earlier writer: not gated.
    assert!(short_edges_at(loc, 5, &vec![7], None, None).is_empty());
    // A policy promotes and learns the pairs.
    let yes = ShortPolicyAnswer { gate: true, long_spine_lost: false };
    assert_eq!(
        short_edges_at(loc, 5, &vec![7], Some(2), Some(yes)),
        vec![
            ShortEdgeAction::Promote { loc },
            ShortEdgeAction::ShortPair { loc, pred: 5, succ: 7 },
            ShortEdgeAction::ShortPair { loc, pred: 2, succ: 5 },
            ShortEdgeAction::ConsumerIfIdle { consumer: 5, producer: 2, loc },
            ShortEdgeAction::ConsumerIfIdle { consumer: 7, producer: 5, loc },
        ]
    );
    let lost = ShortPolicyAnswer { gate: true, long_spine_lost: true };
    assert!(short_edges_at(loc, 5, &vec![7], Some(2), Some(lost)).is_empty());
    let no = ShortPolicyAnswer { gate: false, long_spine_lost: false };
    assert!(short_edges_at(loc, 5, &vec![7, 9], Some(2), Some(no)).is_empty());
}

fn callee(hi: u64, loc: u64, txs: Vec<usize>, gate: bool) -> HintCallee {
    HintCallee { addr: Addr { hi, mid: 0, lo: 0 }, loc, txs, gate }
}

#[test]
fn hint_short_edges_take_the_hottest_storage_trios() {
    let callees = vec![
        // Too many callers: a fan, not a trio.
        callee(1, 10, vec![1, 2, 3, 4, 5], true),
        callee(9, 20, vec![2, 4, 6], true),
        callee(3, 30, vec![1, 3, 5, 7], true),
        callee(2, 40, vec![0, 8, 9], true),
        callee(4, 50, vec![3, 6, 9], false),
    ];
    let c = |consumer: usize, producer: usize, loc: u64| ShortEdgeAction::ConsumerOn { consumer, producer, loc };
    let p = |loc: u64, pred: usize, succ: usize| ShortEdgeAction::ShortPair { loc, pred, succ };
    // Four callers first, then three by the lower address; two locations.
    assert_eq!(
        plan_hint_short_edges(&callees, 2),
        vec![
            c(3, 1, 30), p(30, 1, 3), c(5, 3, 30), p(30, 3, 5), c(7, 5, 30), p(30, 5, 7),
            ShortEdgeAction::Promote { loc: 30 },
            c(8, 0, 40), p(40, 0, 8), c(9, 8, 40), p(40, 8, 9),
            ShortEdgeAction::Promote { loc: 40 },
        ]
    );
    // A cap of one keeps the hottest only; an ungated account is skipped.
    let one = plan_hint_short_edges(&callees, 1);
    assert_eq!(one.len(), 7);
    assert!(plan_hint_short_edges(&vec![callee(4, 50, vec![3, 6, 9], false)], 4).is_empty());
}
