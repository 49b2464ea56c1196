//! Block-start and write-set admission scenarios. The ready-edge table is
//! read off the planted actions: a transaction waits when a consumer edge
//! names it (the last edge wins, as a re-bind does), an immediate
//! predecessor waits for the location's earlier writer, and a release
//! frees a waiter.

use pevm::specfence::admission::{
    admit_candidates, group_promoted_pairs, hint_fan, is_wide_envelope_writer_set, location_successors,
    plan_promoted_short_edges, flush_pending_idle_edges, PromotedGroup,
    persist_short_chain_after_abort, plan_begin_block, plan_hint_short_edges, plan_on_write_set,
    short_edge_successors, short_edges_at, AdmitAction, AdmitCand, CandQuery, CohortKind, HintAccount,
    HintCallee, PersistAction, ShortEdgeAction, ShortPolicyAnswer, WriteSetAction, FAN_STAR_K,
};
use pevm::types::Addr;

fn addr(b: u8) -> Addr {
    let w = u64::from_ne_bytes([b; 8]);
    Addr { hi: w, mid: w, lo: u32::from_ne_bytes([b; 4]) }
}

/// The account location of the address with byte `b`.
fn basic(b: u8) -> u64 {
    0xba5e_0000 + b as u64
}

fn account(b: u8) -> HintAccount {
    HintAccount {
        addr: addr(b),
        loc: basic(b),
        from_txs: Vec::new(),
        from_all_empty: false,
        to_txs: Vec::new(),
        call_to_txs: Vec::new(),
        is_contract: false,
    }
}

/// An account sending `txs`, all with empty input.
fn sender(b: u8, txs: Vec<usize>) -> HintAccount {
    HintAccount { from_txs: txs, from_all_empty: true, ..account(b) }
}

/// An account paid by `txs` with empty input.
fn payee(b: u8, txs: Vec<usize>, is_contract: bool) -> HintAccount {
    HintAccount { to_txs: txs, is_contract, ..account(b) }
}

/// An account called by `txs`.
fn callee(b: u8, txs: Vec<usize>) -> HintAccount {
    HintAccount { call_to_txs: txs, ..account(b) }
}

/// The full-shell cost policy's answers in these scenarios: every read
/// star, call chain and sender chain is taken; a payee probe only on a
/// contract.
fn full_shell_score(q: &CandQuery) -> Option<i64> {
    match q.kind {
        CohortKind::EmptyTo if !q.is_contract => None,
        _ => Some(q.txs.len() as i64),
    }
}

/// Block start on a full shell: the hints' cohorts, those the policy takes,
/// planted; a read star seeds its location when the hints show a fan.
fn seed(accts: &Vec<HintAccount>) -> (usize, Vec<AdmitAction>) {
    let star_edges = hint_fan(accts, addr(0));
    let cands: Vec<AdmitCand> = admit_candidates(accts, addr(0))
        .into_iter()
        .filter_map(|q| {
            full_shell_score(&q).map(|score| AdmitCand { kind: q.kind, loc: q.loc, score, txs: q.txs })
        })
        .collect();
    let plan = plan_begin_block(&cands, 64, star_edges);
    (plan.edges, plan.actions)
}

/// Block start on a thin shell (optimistic by majority): only the storage
/// trios' short edges, gated by the policy.
fn seed_thin(accts: &Vec<HintAccount>) -> (usize, Vec<ShortEdgeAction>) {
    let callees: Vec<HintCallee> = accts
        .iter()
        .map(|a| HintCallee { addr: a.addr, loc: a.loc, txs: a.call_to_txs.clone(), gate: true })
        .collect();
    let r = plan_hint_short_edges(&callees, 8);
    let n = r.iter().filter(|a| matches!(a, ShortEdgeAction::ConsumerOn { .. })).count();
    (n, r)
}

fn blocking(actions: &[AdmitAction], t: usize) -> Option<usize> {
    actions.iter().rev().find_map(|a| match a {
        AdmitAction::Consumer { succ, pred, .. } if *succ == t => Some(*pred),
        _ => None,
    })
}

fn may_execute(actions: &[AdmitAction], t: usize) -> bool {
    blocking(actions, t).is_none()
}

fn ws_blocking(actions: &[WriteSetAction], t: usize) -> Option<usize> {
    actions.iter().rev().find_map(|a| match a {
        WriteSetAction::Consumer { succ, pred, .. } if *succ == t => Some(*pred),
        _ => None,
    })
}

fn released(actions: &[WriteSetAction], t: usize) -> bool {
    actions.contains(&WriteSetAction::ReleaseConsumer(t))
}

fn writers_of(actions: &[WriteSetAction], loc: u64) -> Vec<usize> {
    let mut w = Vec::new();
    for a in actions {
        if let WriteSetAction::LocationWriter { loc: l, writer } = a {
            if *l == loc && !w.contains(writer) {
                w.push(*writer);
            }
        }
    }
    w
}

fn essential(actions: &[AdmitAction], loc: u64) -> bool {
    actions.contains(&AdmitAction::SeedEssential { loc, k: FAN_STAR_K })
}

fn queued_of(actions: &[AdmitAction]) -> Vec<usize> {
    actions
        .iter()
        .filter_map(|a| match a {
            AdmitAction::Consumer { succ, .. } => Some(*succ),
            _ => None,
        })
        .collect()
}

/// A write set without a policy (the structural path).
fn write_set(writer: usize, from: u8, to: Option<&HintAccount>, hints_from: &[usize], all: &[u64], eff: &[u64], queued: &[usize]) -> Vec<WriteSetAction> {
    let (has_to, call_n, to_txs) = match to {
        Some(a) => (true, a.call_to_txs.len(), a.to_txs.clone()),
        None => (false, 0, Vec::new()),
    };
    plan_on_write_set(
        writer,
        basic(from),
        has_to,
        call_n,
        &to_txs,
        &hints_from.to_vec(),
        true,
        &all.to_vec(),
        &eff.to_vec(),
        false,
        false,
        false,
        false,
        &queued.to_vec(),
    )
}

#[test]
fn lazy_same_from_is_not_seeded() {
    let (n, a) = seed(&vec![sender(0x11, (0..20).collect())]);
    assert_eq!(n, 0, "PC-2: basic_lazy same-from must default A0, got {n}");
    assert!(may_execute(&a, 19), "lazy spine stays independent");
}

#[test]
fn empty_to_fanout_does_not_tax_unrelated_from_chain() {
    let (n, a) = seed(&vec![payee(0x33, (0..16).collect(), true)]);
    assert!(n >= 15, "hot empty-to must probe-star, got {n}");
    assert!(may_execute(&a, 0), "probe head of empty-to must run");
    assert!(!may_execute(&a, 8), "empty-to later waits on the probe");
    assert_eq!(
        blocking(&a, 8),
        Some(0),
        "probe-star: later empty-to wait on the first, not a full begin-block chain"
    );
    assert!(!essential(&a, basic(0x33)), "must not plant Basic(to) PE on empty-calldata payee");
    assert!(may_execute(&a, 17), "tx outside the WAW chain must stay independent");
}

#[test]
fn two_tx_empty_to_is_not_seeded() {
    let (n, a) = seed(&vec![payee(0x55, vec![3, 9], false)]);
    assert_eq!(n, 0, "2-tx lazy payee must not tax independents");
    assert!(may_execute(&a, 9));
}

#[test]
fn short_calldata_to_chains_without_basic_pe() {
    let (n, a) = seed(&vec![callee(0xed, vec![14, 16, 17])]);
    assert_eq!(n, 2, "14→16→17 wait-for chain");
    assert!(may_execute(&a, 14));
    assert_eq!(blocking(&a, 16), Some(14));
    assert_eq!(blocking(&a, 17), Some(16));
    assert!(
        !essential(&a, basic(0xed)),
        "short calldata WAW must not fake Basic(to) PE / storage clone"
    );
}

#[test]
fn calldata_fanout_star_keeps_raw_cover() {
    let (n, a) = seed(&vec![callee(0xaa, (0..16).collect())]);
    assert!(n >= 15);
    assert_eq!(blocking(&a, 15), Some(0), "RAW fan-out stays a star on the first producer");
    assert!(essential(&a, basic(0xaa)), "RAW star still plants Basic PE (not a storage clone)");
}

#[test]
fn empty_to_probe_then_hidden_write_set_chains_waw() {
    let to = payee(0x20, vec![31, 66, 67, 69, 70, 93, 96, 103, 115], true);
    let (n, a) = seed(&vec![payee(0x20, to.to_txs.clone(), true)]);
    assert_eq!(n, 8, "probe-star: later empty-to wait on tx 31");
    assert!(may_execute(&a, 31));
    assert_eq!(blocking(&a, 66), Some(31));
    assert_eq!(blocking(&a, 67), Some(31));
    assert_eq!(blocking(&a, 115), Some(31));
    assert!(
        !a.contains(&AdmitAction::Reserve(31)) && !a.contains(&AdmitAction::Reserve(66)),
        "WAW probe must not ProducerStage-reserve the spine"
    );
    let hidden = 0x32be_u64;
    let w = write_set(31, 0x31, Some(&to), &[], &[hidden], &[hidden], &queued_of(&a));
    let mut all: Vec<(usize, usize)> = Vec::new();
    for t in [66usize, 67, 69] {
        all.push((t, ws_blocking(&w, t).or(blocking(&a, t)).unwrap()));
    }
    assert_eq!(all[0], (66, 31));
    assert_eq!(all[1], (67, 66), "write-set Detect upgrades probe-star to predecessor chain");
    assert_eq!(all[2], (69, 67));
    assert!(w.contains(&WriteSetAction::RawProducer { loc: hidden, producer: 31 }));
    assert!(may_execute(&a, 0) && ws_blocking(&w, 0).is_none(), "independents stay runnable");
    assert!(!essential(&a, basic(0x20)), "must not fake Basic(to) PE / storage clone");
}

#[test]
fn write_set_hidden_location_chains_same_to() {
    let to = payee(0x20, vec![31, 66, 67, 69], false);
    let hidden = 0x32be_u64;
    let w = write_set(31, 0x31, Some(&to), &[], &[hidden], &[hidden], &[]);
    assert_eq!(ws_blocking(&w, 66), Some(31));
    assert_eq!(ws_blocking(&w, 67), Some(66));
    assert_eq!(ws_blocking(&w, 69), Some(67));
    assert!(w.contains(&WriteSetAction::RawProducer { loc: hidden, producer: 31 }));
    assert!(ws_blocking(&w, 0).is_none(), "independents stay runnable");
}

#[test]
fn write_set_lazy_only_releases_provisional_to_chain() {
    let to = payee(0x20, (31..47).collect(), true);
    let plan = plan_begin_block(
        &vec![AdmitCand { kind: CohortKind::EmptyTo, loc: basic(0x20), score: 1, txs: to.to_txs.clone() }],
        64,
        false,
    );
    assert!(plan.edges >= 15);
    assert!(!may_execute(&plan.actions, 32));
    assert_eq!(blocking(&plan.actions, 32), Some(31));
    // Writer 31 published only Basic(from): no hidden write-after-write.
    let w = write_set(31, 0x31, Some(&to), &[], &[basic(0x31)], &[], &queued_of(&plan.actions));
    assert!(released(&w, 32), "lazy payee chain must release after write-set shows no hidden WAW");
    assert!(released(&w, 46));
}

#[test]
fn bayes_admit_seeds_storage_without_hint_fan() {
    // The Bayes and prior seeding of the storage location is the learner's
    // (outside the library); with no hint accounts nothing is planted.
    let (n, a) = seed(&Vec::new());
    assert_eq!(n, 0, "no hint accounts → no ReadyEdges");
    assert!(a.is_empty());
    assert!(!hint_fan(&Vec::new(), addr(0)));
}

#[test]
fn quiet_small_account_does_not_seed() {
    let (n, a) = seed(&vec![sender(0x22, vec![0])]);
    assert_eq!(n, 0, "single-tx sender is not a WAW chain");
    assert!(may_execute(&a, 2));
}

#[test]
fn two_tx_same_from_is_not_seeded() {
    let (n, a) = seed(&vec![sender(0x56, vec![56, 57])]);
    assert_eq!(n, 0, "2-tx same-from stays A0 (no refuse tax)");
    assert!(may_execute(&a, 57));
}

#[test]
fn hint_fan_does_not_drop_floor_onto_unrelated_accounts() {
    let star = vec![callee(0x33, (0..16).collect())];
    assert!(hint_fan(&star, addr(0)));
    let (n, _) = seed(&star);
    assert!(n >= 15);
    let side = vec![sender(0x44, vec![1, 5, 8])];
    let (n_side, a_side) = seed(&side);
    assert_eq!(n_side, 0, "PC-2: lazy same-from satellite stays A0 (not a star tax)");
    assert!(may_execute(&a_side, 8));
}

#[test]
fn a0_unique_write_records_d1_without_edge() {
    let loc = 0x32be_u64;
    // Thin block, optimistic by majority; the recipient has no call chain.
    let w = plan_on_write_set(4, basic(0x32), true, 0, &vec![4], &vec![], true, &vec![loc], &vec![loc], true, true, false, false, &vec![]);
    assert!(writers_of(&w, loc).is_empty(), "O1: thin A0 unique write is OCC — D1 comes from end-block MV");
    assert!(ws_blocking(&w, 31).is_none(), "unique writer with no hint successor must not refuse 31");
}

#[test]
fn thin_write_set_promotes_14_to_16() {
    let contract = callee(0xed, vec![14, 16, 17]);
    let loc = 0xedba_u64;
    let w = plan_on_write_set(14, basic(0x14), true, 3, &vec![], &vec![], true, &vec![loc], &vec![loc], true, true, false, false, &vec![]);
    assert_eq!(w, vec![WriteSetAction::ShortEdges]);
    // The short-edge seeding of the storage trio: the writer's successors,
    // no earlier writer, and the policy gates it.
    let later = short_edge_successors(loc, 14, basic(0x14), &vec![loc], &vec![], true, true, &contract.call_to_txs, &vec![]);
    let s = short_edges_at(loc, 14, &later, None, Some(ShortPolicyAnswer { gate: true, long_spine_lost: false }));
    let waits: Vec<(usize, usize)> = s
        .iter()
        .filter_map(|a| match a {
            ShortEdgeAction::ConsumerIfIdle { consumer, producer, .. } => Some((*consumer, *producer)),
            _ => None,
        })
        .collect();
    assert_eq!(waits, vec![(16, 14)], "C1/L1: first effective storage write must raise 14→16");
    assert!(!waits.iter().any(|&(c, _)| c == 17), "C5: short edge only — 17 stays A0 until 16 publishes");
}

#[test]
fn thin_write_set_promotes_4_to_31() {
    let loc = 0x32be_u64;
    let w = plan_on_write_set(4, basic(0x32), true, 0, &vec![4], &vec![], true, &vec![loc], &vec![loc], true, true, false, false, &vec![]);
    assert!(writers_of(&w, loc).is_empty() || writers_of(&w, loc) == vec![4]);
    let w = plan_on_write_set(31, basic(0x31), true, 0, &vec![31, 66, 67], &vec![], true, &vec![loc], &vec![loc], true, true, false, false, &vec![]);
    assert!(
        ws_blocking(&w, 31).is_none() && ws_blocking(&w, 66).is_none() && ws_blocking(&w, 67).is_none(),
        "O1/O2: thin write-set must not prepaid-serialize the long Basic spine"
    );
}

#[test]
fn write_set_d1_extends_all_earlier_writers() {
    let to = payee(0x20, vec![31, 66, 67], false);
    let other = payee(0x99, vec![4], false);
    let loc = 0x32be_u64;
    let w4 = write_set(4, 0x32, Some(&other), &[], &[loc], &[loc], &[]);
    assert_eq!(writers_of(&w4, loc), vec![4]);
    let w31 = write_set(31, 0x31, Some(&to), &[], &[loc], &[loc], &[]);
    let mut order = writers_of(&w4, loc);
    order.extend(writers_of(&w31, loc));
    assert_eq!(order, vec![4, 31], "D1 writer order must list 4 then 31");
    // 31 is the immediate successor of the earlier writer 4 on the location.
    assert!(
        w31.contains(&WriteSetAction::ImmediatePred { loc, writer: 31 }),
        "4→31 must be a ReadyEdge after write-set, not scheduler luck"
    );
    assert_eq!(ws_blocking(&w31, 66), Some(31));
}

#[test]
fn write_set_d1_lazy_then_effective_still_chains_4_to_31() {
    let to = payee(0x20, vec![31, 66, 67], false);
    let other = payee(0x99, vec![4], false);
    let loc = 0x32be_u64;
    let w4 = write_set(4, 0x32, Some(&other), &[], &[loc], &[], &[]);
    assert_eq!(writers_of(&w4, loc), vec![4]);
    assert!(ws_blocking(&w4, 31).is_none(), "lazy-only publish must not refuse the next writer before Detect");
    let w31 = write_set(31, 0x31, Some(&to), &[], &[loc], &[loc], &[]);
    let mut order = writers_of(&w4, loc);
    order.extend(writers_of(&w31, loc));
    assert_eq!(order, vec![4, 31]);
    assert!(
        w31.contains(&WriteSetAction::ImmediatePred { loc, writer: 31 }),
        "effective publish must extend order over the earlier lazy writer"
    );
    assert_eq!(ws_blocking(&w31, 66), Some(31));
}

#[test]
fn write_set_lazy_from_does_not_a1_same_from_spine() {
    let to = payee(0x11, vec![5, 6, 7, 8], false);
    let from_loc = basic(0x2a);
    let w5 = write_set(5, 0x2a, Some(&to), &[5, 6, 7, 8], &[from_loc], &[], &[]);
    let w6 = write_set(6, 0x2a, Some(&to), &[5, 6, 7, 8], &[from_loc], &[], &[]);
    let mut order = writers_of(&w5, from_loc);
    order.extend(writers_of(&w6, from_loc));
    assert_eq!(order, vec![5, 6]);
    let all: Vec<WriteSetAction> = w5.iter().chain(w6.iter()).copied().collect();
    assert!(
        ws_blocking(&all, 6).is_none() && ws_blocking(&all, 7).is_none() && ws_blocking(&all, 8).is_none(),
        "lazy same-from must stay A0 after write-set (no mid-block refuse tax)"
    );
}

#[test]
fn write_set_two_tx_effective_from_stays_a0() {
    let to = payee(0x11, vec![56, 57], false);
    let from_loc = basic(0x56);
    let w = plan_on_write_set(56, from_loc, true, 0, &to.to_txs, &vec![56, 57], false, &vec![from_loc], &vec![from_loc], false, false, false, false, &vec![]);
    assert!(
        ws_blocking(&w, 57).is_none() && !w.contains(&WriteSetAction::ImmediatePred { loc: from_loc, writer: 56 }),
        "2-tx same-from Data nonce must stay A0"
    );
}

#[test]
fn pc3_empty_to_does_not_dual_queue_same_from() {
    let txs: Vec<usize> = (75..87).collect();
    let (_, a) = seed(&vec![sender(0x95, txs.clone()), payee(0x9e, txs, true)]);
    let blocked = queued_of(&a);
    let mut unique = blocked.clone();
    unique.sort_unstable();
    unique.dedup();
    assert_eq!(unique.len(), blocked.len(), "PC-3: no dual same-from + empty-to tax");
}

#[test]
fn thin_cold_start_seeds_no_a1() {
    let (n, a) = seed_thin(&vec![payee(0x20, (0..16).collect(), true)]);
    assert_eq!(n, 0, "C4: empty-to payee spine stays A0 on thin, got {n}");
    assert!(!a.iter().any(|x| matches!(x, ShortEdgeAction::ConsumerOn { consumer: 0, .. })), "probe head stays runnable");
    assert!(!a.iter().any(|x| matches!(x, ShortEdgeAction::ConsumerOn { consumer: 8, .. })), "later empty-to stays OCC-runnable");
}

#[test]
fn thin_begin_seeds_call_waw_chain() {
    let (n, a) = seed_thin(&vec![callee(0xed, vec![14, 16, 17])]);
    assert_eq!(n, 2, "C1: 14→16→17 is two short edges, got {n}");
    assert!(a.contains(&ShortEdgeAction::ConsumerOn { consumer: 16, producer: 14, loc: basic(0xed) }));
    assert!(a.contains(&ShortEdgeAction::ConsumerOn { consumer: 17, producer: 16, loc: basic(0xed) }));
    assert!(!a.iter().any(|x| matches!(x, ShortEdgeAction::ConsumerOn { consumer: 14, .. })), "storage head stays runnable");
}

#[test]
fn thin_begin_call_waw_chain_not_star() {
    let (n, a) = seed_thin(&vec![callee(0x20, vec![31, 66, 67, 69, 70, 93, 96, 103])]);
    assert_eq!(n, 0, "C5: wide CallWaw stays A0 at thin begin, got {n}");
    assert!(a.is_empty(), "wide head stays runnable");
}

#[test]
fn wide_envelope_writer_set_skips_empty_to_not_hidden_basic() {
    let writers: Vec<usize> = vec![31, 66, 67, 69, 70, 93, 96, 103, 115, 131, 132, 135, 138, 141, 166, 171];
    let hints = vec![payee(0x20, writers.clone(), false)];
    assert!(
        is_wide_envelope_writer_set(&hints, &writers),
        "pure 0x209c envelope must not be persisted as a location chain"
    );
    let mut with_hot = writers.clone();
    with_hot.insert(0, 4);
    assert!(
        !is_wide_envelope_writer_set(&hints, &with_hot),
        "Basic(0x32be) writers 4∪0x209c are not a wide envelope"
    );
}

#[test]
fn abort_persists_hidden_basic_chain() {
    let loc = 0x32be_u64;
    let to = payee(0x20, vec![31, 66, 67, 69], false);
    let later = location_successors(loc, 31, basic(0), &vec![], Some(to.loc), &to.to_txs, &to.call_to_txs);
    let pairs = persist_short_chain_after_abort(31, 4, loc, false, &later);
    assert!(
        pairs.contains(&PersistAction::ShortPair { loc, pred: 4, succ: 31 }),
        "abort must persist the proven 4→31 pair: {pairs:?}"
    );
    assert!(
        !pairs.contains(&PersistAction::ShortPair { loc, pred: 31, succ: 66 }),
        "empty-to envelope must not be cloned onto a hidden ℓ: {pairs:?}"
    );
}

#[test]
fn abort_does_not_chain_wide_callwaw() {
    let loc = 0xabc_u64;
    let token = callee(0xaa, (0..16).collect());
    let later = location_successors(loc, 3, basic(0), &vec![], Some(token.loc), &token.to_txs, &token.call_to_txs);
    let pairs = persist_short_chain_after_abort(3, 1, loc, false, &later);
    assert!(
        pairs.contains(&PersistAction::ShortPair { loc, pred: 1, succ: 3 }),
        "producer→consumer pair is kept: {pairs:?}"
    );
    assert!(
        !pairs.contains(&PersistAction::ShortPair { loc, pred: 3, succ: 4 })
            && !pairs.iter().any(|p| matches!(p, PersistAction::ShortPair { succ: 15, .. })),
        "C5: wide CallWaw must not persist ERC-20 slot stars: {pairs:?}"
    );
}

/// A thin block start on the policy's promoted pairs: grouped, each with
/// the policy's hop count (`hops_of`), planted up to `cap` locations.
fn seed_promoted(pairs: Vec<(u64, usize, usize)>, promoted: Vec<u64>, hops_of: impl Fn(u64, usize) -> usize, cap: usize) -> (usize, Vec<ShortEdgeAction>) {
    let groups: Vec<PromotedGroup> = group_promoted_pairs(&pairs, &promoted)
        .into_iter()
        .map(|g| PromotedGroup { loc: g.loc, hops: hops_of(g.loc, g.pairs.len()), pairs: g.pairs })
        .collect();
    let r = plan_promoted_short_edges(&groups, &Vec::new(), true, cap);
    let n = r.iter().filter(|a| matches!(a, ShortEdgeAction::ConsumerOn { .. })).count();
    (n, r)
}

fn short_blocking(actions: &[ShortEdgeAction], t: usize) -> Option<usize> {
    actions.iter().rev().find_map(|a| match a {
        ShortEdgeAction::ConsumerOn { consumer, producer, .. } if *consumer == t => Some(*producer),
        _ => None,
    })
}

#[test]
fn thin_begin_reuses_main_chain_pairs() {
    // The learned main chain 4 → 31 → 66 → 67; the policy plants one hop.
    let spine = vec![(0x32be, 4, 31), (0x32be, 31, 66), (0x32be, 66, 67)];
    let (n, a) = seed_promoted(spine, vec![0x32be], |_, _| 1, 3);
    assert_eq!(n, 1, "CC-L3: reuse plants WindowedOrdered k=1, got {n}");
    assert_eq!(short_blocking(&a, 31), Some(4), "CC-L3: only nearest unfinished writer (4→31)");
    assert!(
        short_blocking(&a, 66).is_none() && short_blocking(&a, 67).is_none(),
        "CC-L3: no prepaid 31→66→67 full-spine list"
    );
    assert!(short_blocking(&a, 4).is_none(), "chain head stays runnable");
}

#[test]
fn thin_begin_k_caps_promoted_locations() {
    let pairs = vec![
        (0x32be, 4, 31),
        (0x32be, 31, 66),
        (0x32be, 66, 67),
        (0xedba, 14, 16),
        (0xedba, 16, 17),
        (0xa1, 10, 11),
        (0xa2, 12, 13),
        (0xa3, 18, 19),
    ];
    let promoted = vec![0x32be, 0xedba, 0xa1, 0xa2, 0xa3];
    // The policy plants one hop per location and at most three locations.
    let (n, a) = seed_promoted(pairs, promoted, |_, _| 1, 3);
    assert_eq!(short_blocking(&a, 31), Some(4), "CC-L3: long Basic spine plants only 4→31");
    assert!(short_blocking(&a, 66).is_none(), "CC-L3: tail of the long spine stays OptimisticRead at begin");
    assert_eq!(short_blocking(&a, 16), Some(14));
    let extra_blocked = [11usize, 13, 19].iter().filter(|&&t| short_blocking(&a, t).is_some()).count();
    assert!(
        extra_blocked <= 2 && n <= 2 + 1 + 1,
        "C5: thin reuse plants ≤K locations after dropping the long spine (extras_blocked={extra_blocked} edges={n})"
    );
}

#[test]
fn flush_pending_idle_plants_window_not_started() {
    let loc = 0x32be_u64;
    let later = location_successors(loc, 31, basic(0), &vec![], None, &vec![], &vec![]);
    let taught = persist_short_chain_after_abort(31, 4, loc, false, &later);
    // Pairs 31 → 66 and 66 → 67 are only learned; 4 → 31 is queued idle.
    let pending: Vec<(u64, usize, usize)> = taught
        .iter()
        .filter_map(|a| match a {
            PersistAction::QueueIdle { loc, pred, succ } => Some((*loc, *pred, *succ)),
            _ => None,
        })
        .collect();
    let planted = flush_pending_idle_edges(&pending);
    // The table plants an idle edge only on a consumer not started: 67 has.
    let started = [67usize];
    let n = planted
        .iter()
        .filter(|a| matches!(a, ShortEdgeAction::ConsumerIfIdle { consumer, .. } if !started.contains(consumer)))
        .count();
    assert!(n >= 1, "O3: idle 4→31 must plant, got {n}");
    assert!(planted.contains(&ShortEdgeAction::ConsumerIfIdle { consumer: 31, producer: 4, loc }));
    assert!(
        !planted.iter().any(|a| matches!(a, ShortEdgeAction::ConsumerIfIdle { consumer: 67, .. })),
        "O3: started 67 must stay A0 this incarnation"
    );
}

#[test]
fn flush_keeps_two_hops_per_location_sorted_once() {
    let pending = vec![(9u64, 5, 8), (7, 1, 2), (9, 3, 4), (9, 3, 4), (9, 6, 2), (9, 3, 7)];
    assert_eq!(
        flush_pending_idle_edges(&pending),
        vec![
            ShortEdgeAction::ConsumerIfIdle { consumer: 4, producer: 3, loc: 9 },
            ShortEdgeAction::ConsumerIfIdle { consumer: 7, producer: 3, loc: 9 },
            ShortEdgeAction::ConsumerIfIdle { consumer: 2, producer: 1, loc: 7 },
        ]
    );
}
