//! Admit seeding: the ready edges and producer reservations planted before
//! execution.
//!
//! Candidate cohorts (a read fan-out star, a short call WAW chain, an
//! empty-input payee probe, a same-sender chain) arrive scored and already
//! accepted by the cost policy. The hottest ones, up to the policy's cap,
//! are planted in score order; a transaction is queued behind at most one
//! star, while a predecessor chain re-binds a successor onto its location.

use vstd::prelude::*;
use crate::types::{Addr, MemoryLocationHash, TxIdx};

verus! {

/// Fan-star access class (the ordinal bucket 4 to 7).
pub const FAN_STAR_K: u32 = 6;

/// Kind of an admitted cohort.
#[derive(Debug, Clone, Copy, PartialEq, Eq, Structural)]
pub enum CohortKind {
    /// Many calls to one contract: a read star on the first producer.
    RawFan,
    /// A few calls to one contract: a write predecessor chain.
    CallWaw,
    /// Empty-input transfers to one payee: a probe star.
    EmptyTo,
    /// Transactions of one sender: a predecessor chain on its account.
    SameFrom,
}

/// One planting step for the ready-edge and producer-stage tables.
#[derive(Debug, Clone, Copy, PartialEq, Eq, Structural)]
pub enum AdmitAction {
    /// Reserve the producer's stage.
    Reserve(TxIdx),
    /// Seed `loc` as predicted essential at ordinal class `k`.
    SeedEssential { loc: MemoryLocationHash, k: u32 },
    /// `producer` is the read producer of `loc`.
    RawProducer { loc: MemoryLocationHash, producer: TxIdx },
    /// `succ` waits for `pred` (on location `on`, when given).
    Consumer { succ: TxIdx, pred: TxIdx, on: Option<MemoryLocationHash> },
}

/// An accepted cohort: its kind, the account location it centres on, its
/// policy score, and its transactions in block order.
pub struct AdmitCand {
    pub kind: CohortKind,
    pub loc: MemoryLocationHash,
    pub score: i64,
    pub txs: Vec<TxIdx>,
}

/// What planting accumulates: the actions so far and the transactions
/// already queued.
pub struct PlantState {
    pub actions: Seq<AdmitAction>,
    pub queued: Set<TxIdx>,
}

/// Number of consumer edges among `a`.
pub open spec fn edge_count(a: Seq<AdmitAction>) -> nat
    decreases a.len(),
{
    if a.len() == 0 {
        0
    } else {
        edge_count(a.drop_last()) + if a.last() is Consumer {
            1nat
        } else {
            0nat
        }
    }
}

/// The chain step for the pair ending at position `i + 1` of `chain`.
pub open spec fn chain_pair_step(st: PlantState, chain: Seq<TxIdx>, i: int, loc: u64) -> PlantState {
    let pred = chain[i];
    let succ = chain[i + 1];
    if pred >= succ {
        st
    } else {
        PlantState {
            actions: st.actions.push(AdmitAction::Consumer { succ, pred, on: Some(loc) }),
            queued: st.queued.insert(succ),
        }
    }
}

/// Chain the first `n` pairs of `chain`.
pub open spec fn chain_pairs(st: PlantState, chain: Seq<TxIdx>, n: int, loc: u64) -> PlantState
    decreases n,
{
    if n <= 0 {
        st
    } else {
        chain_pair_step(chain_pairs(st, chain, n - 1, loc), chain, n - 1, loc)
    }
}

/// The chain a predecessor chain walks: its first two entries for a short
/// edge, else all of them.
pub open spec fn chain_of(ordered: Seq<TxIdx>, short_edge: bool) -> Seq<TxIdx> {
    if short_edge && ordered.len() >= 2 {
        ordered.take(2)
    } else {
        ordered
    }
}

/// Chain each entry of `ordered` behind the one before it on `loc`.
pub open spec fn predecessor_chain_spec(st: PlantState, ordered: Seq<TxIdx>, loc: u64, short_edge: bool) -> PlantState {
    let chain = chain_of(ordered, short_edge);
    chain_pairs(st, chain, chain.len() - 1, loc)
}

/// The probe step for successor `succ` of `probe`.
pub open spec fn probe_step(st: PlantState, probe: TxIdx, succ: TxIdx, loc: u64) -> PlantState {
    if probe >= succ || st.queued.contains(succ) {
        st
    } else {
        PlantState {
            actions: st.actions.push(AdmitAction::Consumer { succ, pred: probe, on: Some(loc) }),
            queued: st.queued.insert(succ),
        }
    }
}

/// Queue the first `n` of `succs` behind `probe`.
pub open spec fn probe_fold(st: PlantState, probe: TxIdx, succs: Seq<TxIdx>, n: int, loc: u64) -> PlantState
    decreases n,
{
    if n <= 0 {
        st
    } else {
        probe_step(probe_fold(st, probe, succs, n - 1, loc), probe, succs[n - 1], loc)
    }
}

/// The star step for consumer `t` of `producer`.
pub open spec fn star_step(st: PlantState, producer: TxIdx, t: TxIdx, loc: u64) -> PlantState {
    if st.queued.contains(t) {
        st
    } else {
        PlantState {
            actions: st.actions.push(AdmitAction::Consumer { succ: t, pred: producer, on: Some(loc) }),
            queued: st.queued.insert(t),
        }
    }
}

/// Queue the first `n` of `consumers` behind `producer`.
pub open spec fn star_fold(st: PlantState, producer: TxIdx, consumers: Seq<TxIdx>, n: int, loc: u64) -> PlantState
    decreases n,
{
    if n <= 0 {
        st
    } else {
        star_step(star_fold(st, producer, consumers, n - 1, loc), producer, consumers[n - 1], loc)
    }
}

/// Park the later entries of `ordered` behind its first (the probe).
pub open spec fn probe_star_spec(st: PlantState, ordered: Seq<TxIdx>, loc: u64, short_edge: bool) -> PlantState {
    if ordered.len() < 2 {
        st
    } else {
        let probe = ordered[0];
        let st1 = PlantState { queued: st.queued.insert(probe), ..st };
        let succs = if short_edge {
            ordered.subrange(1, 2)
        } else {
            ordered.subrange(1, ordered.len() as int)
        };
        probe_fold(st1, probe, succs, succs.len() as int, loc)
    }
}

/// Plant one cohort.
pub open spec fn plant_spec(st: PlantState, kind: CohortKind, loc: u64, txs: Seq<TxIdx>, star_edges: bool) -> PlantState {
    match kind {
        CohortKind::RawFan => {
            let p = txs[0];
            let a0 = st.actions.push(AdmitAction::Reserve(p));
            let a1 = if star_edges {
                a0.push(AdmitAction::SeedEssential { loc, k: FAN_STAR_K })
            } else {
                a0
            };
            let st1 = PlantState {
                actions: a1.push(AdmitAction::RawProducer { loc, producer: p }),
                queued: st.queued.insert(p),
            };
            star_fold(st1, p, txs.subrange(1, txs.len() as int), txs.len() - 1, loc)
        },
        CohortKind::CallWaw => predecessor_chain_spec(st, txs, loc, false),
        CohortKind::EmptyTo => probe_star_spec(st, txs, loc, false),
        CohortKind::SameFrom => predecessor_chain_spec(
            PlantState {
                actions: st.actions.push(AdmitAction::RawProducer { loc, producer: txs[0] }),
                ..st
            },
            txs,
            loc,
            false,
        ),
    }
}

/// A star and a probe queue the same transaction once; a predecessor chain
/// re-binds it (a transaction already queued still gets its chain edge).
/// Both only add: no action is taken back and no queued transaction leaves.
pub proof fn law_planting_only_adds(st: PlantState, probe: TxIdx, succs: Seq<TxIdx>, n: int, loc: u64)
    requires
        0 <= n <= succs.len(),
    ensures
        st.actions.is_prefix_of(probe_fold(st, probe, succs, n, loc).actions),
        st.queued.subset_of(probe_fold(st, probe, succs, n, loc).queued),
    decreases n,
{
    if n > 0 {
        law_planting_only_adds(st, probe, succs, n - 1, loc);
        let prev = probe_fold(st, probe, succs, n - 1, loc);
        let next = probe_fold(st, probe, succs, n, loc);
        assert(prev.actions.is_prefix_of(next.actions));
    }
}

/// The block's transactions already queued behind a star or chain.
#[verifier::external_body]
pub struct TxQueue {
    inner: hashbrown::HashSet<usize>,
}

/// The transactions a queue holds.
pub uninterp spec fn queue_members(q: TxQueue) -> Set<usize>;

pub open spec fn no_txs() -> Set<usize> {
    Set::empty()
}

/// `hashbrown::HashSet::new`.
#[verifier::external_body]
fn queue_new() -> (r: TxQueue)
    ensures
        queue_members(r) == no_txs(),
{
    TxQueue { inner: hashbrown::HashSet::new() }
}

/// `hashbrown::HashSet::insert`.
#[verifier::external_body]
fn queue_insert(q: &mut TxQueue, tx: usize)
    ensures
        queue_members(*final(q)) == queue_members(*old(q)).insert(tx),
{
    q.inner.insert(tx);
}

/// `hashbrown::HashSet::contains`.
#[verifier::external_body]
fn queue_contains(q: &TxQueue, tx: usize) -> (r: bool)
    ensures
        r == queue_members(*q).contains(tx),
{
    q.inner.contains(&tx)
}

/// The planting state of `actions` and `queue`.
pub open spec fn state_of(actions: Seq<AdmitAction>, queue: TxQueue) -> PlantState {
    PlantState { actions, queued: queue_members(queue) }
}

/// Chain `ordered[i]` behind `ordered[i - 1]` on `loc`; with `short_edge`,
/// only the first successor.
fn note_predecessor_chain(
    actions: &mut Vec<AdmitAction>,
    ordered: &Vec<TxIdx>,
    loc: MemoryLocationHash,
    queued: &mut TxQueue,
    short_edge: bool,
)
    ensures
        state_of(final(actions)@, *final(queued)) == predecessor_chain_spec(
            state_of(old(actions)@, *old(queued)),
            ordered@,
            loc,
            short_edge,
        ),
{
    let len: usize = if short_edge && ordered.len() >= 2 {
        2
    } else {
        ordered.len()
    };
    let ghost chain = chain_of(ordered@, short_edge);
    assert(chain.len() == len);
    assert(forall|j: int| 0 <= j < len ==> chain[j] == ordered@[j]);
    if len < 2 {
        return;
    }
    let ghost st0 = state_of(old(actions)@, *old(queued));
    let mut i: usize = 0;
    while i + 1 < len
        invariant
            len >= 2,
            len <= ordered@.len(),
            chain.len() == len,
            forall|j: int| 0 <= j < len ==> chain[j] == ordered@[j],
            i + 1 <= len,
            state_of(actions@, *queued) == chain_pairs(st0, chain, i as int, loc),
        decreases len - i,
    {
        let pred = ordered[i];
        let succ = ordered[i + 1];
        if pred < succ {
            actions.push(AdmitAction::Consumer { succ, pred, on: Some(loc) });
            queue_insert(queued, succ);
        }
        i = i + 1;
    }
}

/// Park later entries behind the first (the probe); with `short_edge`,
/// only the first successor. An entry already queued stays where it is.
fn note_probe_star(
    actions: &mut Vec<AdmitAction>,
    ordered: &Vec<TxIdx>,
    loc: MemoryLocationHash,
    queued: &mut TxQueue,
    short_edge: bool,
)
    ensures
        state_of(final(actions)@, *final(queued)) == probe_star_spec(
            state_of(old(actions)@, *old(queued)),
            ordered@,
            loc,
            short_edge,
        ),
{
    if ordered.len() < 2 {
        return;
    }
    let probe = ordered[0];
    queue_insert(queued, probe);
    let end: usize = if short_edge {
        2
    } else {
        ordered.len()
    };
    let ghost succs = if short_edge {
        ordered@.subrange(1, 2)
    } else {
        ordered@.subrange(1, ordered@.len() as int)
    };
    let ghost st1 = state_of(actions@, *queued);
    let mut i: usize = 1;
    while i < end
        invariant
            2 <= ordered@.len(),
            1 <= i <= end,
            end <= ordered@.len(),
            succs.len() == end - 1,
            forall|j: int| 0 <= j < succs.len() ==> succs[j] == ordered@[j + 1],
            probe == ordered@[0],
            state_of(actions@, *queued) == probe_fold(st1, probe, succs, i - 1, loc),
        decreases end - i,
    {
        let succ = ordered[i];
        assert(succs[i - 1] == succ);
        if probe < succ && !queue_contains(queued, succ) {
            actions.push(AdmitAction::Consumer { succ, pred: probe, on: Some(loc) });
            queue_insert(queued, succ);
        }
        i = i + 1;
    }
}

/// Stable rank of candidates by score, highest first: entry `i` is placed
/// after every earlier-placed entry whose score is at least its own.
pub open spec fn insert_pos(order: Seq<usize>, scores: Seq<i64>, i: usize) -> int
    decreases order.len(),
{
    if order.len() == 0 {
        0
    } else if scores[order.last() as int] >= scores[i as int] {
        order.len() as int
    } else {
        insert_pos(order.drop_last(), scores, i)
    }
}

/// The stable ranking of the first `n` candidates.
pub open spec fn rank(scores: Seq<i64>, n: int) -> Seq<usize>
    decreases n,
{
    if n <= 0 {
        Seq::<usize>::empty()
    } else {
        let prev = rank(scores, n - 1);
        prev.insert(insert_pos(prev, scores, (n - 1) as usize), (n - 1) as usize)
    }
}

/// Plant the first `n` ranked candidates.
pub open spec fn plant_fold(
    st: PlantState,
    kinds: Seq<CohortKind>,
    locs: Seq<u64>,
    txs: Seq<Seq<TxIdx>>,
    order: Seq<usize>,
    n: int,
    star_edges: bool,
) -> PlantState
    decreases n,
{
    if n <= 0 {
        st
    } else {
        let c = order[n - 1] as int;
        plant_spec(plant_fold(st, kinds, locs, txs, order, n - 1, star_edges), kinds[c], locs[c], txs[c], star_edges)
    }
}

/// The admitted plan of a block start.
pub struct AdmitPlan {
    pub actions: Vec<AdmitAction>,
    /// Ready edges planted.
    pub edges: usize,
    /// Candidates dropped by the cap.
    pub demoted: usize,
}

fn rank_exec(cands: &Vec<AdmitCand>) -> (r: Vec<usize>)
    ensures
        r@ == rank(cands@.map_values(|c: AdmitCand| c.score), cands@.len() as int),
        r@.len() == cands@.len(),
        forall|j: int| 0 <= j < r@.len() ==> r@[j] < cands@.len(),
{
    let ghost scores = cands@.map_values(|c: AdmitCand| c.score);
    let mut order: Vec<usize> = Vec::new();
    let mut i: usize = 0;
    while i < cands.len()
        invariant
            i <= cands@.len(),
            scores == cands@.map_values(|c: AdmitCand| c.score),
            order@ == rank(scores, i as int),
            order@.len() == i,
            forall|j: int| 0 <= j < order@.len() ==> order@[j] < i,
        decreases cands.len() - i,
    {
        let s = cands[i].score;
        let mut p: usize = order.len();
        assert(order@.take(order@.len() as int) =~= order@);
        while p > 0 && cands[order[p - 1]].score < s
            invariant
                p <= order@.len(),
                i < cands@.len(),
                s == scores[i as int],
                scores == cands@.map_values(|c: AdmitCand| c.score),
                forall|j: int| 0 <= j < order@.len() ==> order@[j] < i,
                insert_pos(order@, scores, i) == insert_pos(order@.take(p as int), scores, i),
            decreases p,
        {
            assert(order@.take(p as int).drop_last() =~= order@.take(p - 1));
            assert(order@.take(p as int).last() == order@[p - 1]);
            p = p - 1;
        }
        proof {
            if p > 0 {
                assert(order@.take(p as int).last() == order@[p - 1]);
            } else {
                assert(order@.take(0) =~= Seq::<usize>::empty());
            }
        }
        order.insert(p, i);
        proof {
            assert forall|j: int| 0 <= j < order@.len() implies order@[j] < i + 1 by {
            }
        }
        i = i + 1;
    }
    order
}

/// Plant the accepted candidates of a block start: rank them by score
/// (ties keep their order), keep the first `cap`, and plant each by kind.
/// Every candidate must have a transaction.
pub fn plan_begin_block(cands: &Vec<AdmitCand>, cap: usize, star_edges: bool) -> (r: AdmitPlan)
    requires
        forall|i: int| 0 <= i < cands@.len() ==> (#[trigger] cands@[i]).txs@.len() >= 1,
    ensures
        ({
            let order = rank(cands@.map_values(|c: AdmitCand| c.score), cands@.len() as int);
            let kept = if cands@.len() > cap {
                cap as int
            } else {
                cands@.len() as int
            };
            let st = plant_fold(
                PlantState { actions: Seq::empty(), queued: Set::empty() },
                cands@.map_values(|c: AdmitCand| c.kind),
                cands@.map_values(|c: AdmitCand| c.loc),
                cands@.map_values(|c: AdmitCand| c.txs@),
                order,
                kept,
                star_edges,
            );
            &&& r.actions@ == st.actions
            &&& r.edges == edge_count(st.actions)
            &&& r.demoted == cands@.len() - kept
        }),
{
    let order = rank_exec(cands);
    let kept: usize = if cands.len() > cap {
        cap
    } else {
        cands.len()
    };
    let ghost kinds = cands@.map_values(|c: AdmitCand| c.kind);
    let ghost locs = cands@.map_values(|c: AdmitCand| c.loc);
    let ghost txss = cands@.map_values(|c: AdmitCand| c.txs@);
    let ghost st0 = PlantState { actions: Seq::empty(), queued: Set::empty() };
    let mut actions: Vec<AdmitAction> = Vec::new();
    let mut queued = queue_new();
    let mut j: usize = 0;
    while j < kept
        invariant
            kept <= cands@.len(),
            order@.len() == cands@.len(),
            forall|t: int| 0 <= t < order@.len() ==> order@[t] < cands@.len(),
            forall|t: int| 0 <= t < cands@.len() ==> (#[trigger] cands@[t]).txs@.len() >= 1,
            kinds == cands@.map_values(|c: AdmitCand| c.kind),
            locs == cands@.map_values(|c: AdmitCand| c.loc),
            txss == cands@.map_values(|c: AdmitCand| c.txs@),
            j <= kept,
            state_of(actions@, queued) == plant_fold(st0, kinds, locs, txss, order@, j as int, star_edges),
        decreases kept - j,
    {
        let c = &cands[order[j]];
        let ghost ci = order@[j as int] as int;
        assert(kinds[ci] == c.kind && locs[ci] == c.loc && txss[ci] == c.txs@);
        match c.kind {
            CohortKind::RawFan => {
                let producer = c.txs[0];
                actions.push(AdmitAction::Reserve(producer));
                if star_edges {
                    actions.push(AdmitAction::SeedEssential { loc: c.loc, k: FAN_STAR_K });
                }
                actions.push(AdmitAction::RawProducer { loc: c.loc, producer });
                queue_insert(&mut queued, producer);
                let ghost st1 = state_of(actions@, queued);
                let ghost succs = c.txs@.subrange(1, c.txs@.len() as int);
                let mut t: usize = 1;
                while t < c.txs.len()
                    invariant
                        1 <= t <= c.txs@.len(),
                        succs == c.txs@.subrange(1, c.txs@.len() as int),
                        producer == c.txs@[0],
                        state_of(actions@, queued) == star_fold(st1, producer, succs, t - 1, c.loc),
                    decreases c.txs.len() - t,
                {
                    let x = c.txs[t];
                    assert(succs[t - 1] == x);
                    if !queue_contains(&queued, x) {
                        actions.push(AdmitAction::Consumer { succ: x, pred: producer, on: Some(c.loc) });
                        queue_insert(&mut queued, x);
                    }
                    t = t + 1;
                }
            },
            CohortKind::CallWaw => {
                note_predecessor_chain(&mut actions, &c.txs, c.loc, &mut queued, false);
            },
            CohortKind::EmptyTo => {
                note_probe_star(&mut actions, &c.txs, c.loc, &mut queued, false);
            },
            CohortKind::SameFrom => {
                actions.push(AdmitAction::RawProducer { loc: c.loc, producer: c.txs[0] });
                note_predecessor_chain(&mut actions, &c.txs, c.loc, &mut queued, false);
            },
        }
        j = j + 1;
    }
    let edges = count_edges(&actions);
    AdmitPlan { actions, edges, demoted: cands.len() - kept }
}

fn count_edges(actions: &Vec<AdmitAction>) -> (r: usize)
    ensures
        r == edge_count(actions@),
{
    let mut n: usize = 0;
    let mut i: usize = 0;
    while i < actions.len()
        invariant
            i <= actions@.len(),
            n == edge_count(actions@.take(i as int)),
            n <= i,
        decreases actions.len() - i,
    {
        assert(actions@.take(i + 1).drop_last() =~= actions@.take(i as int));
        if let AdmitAction::Consumer { .. } = actions[i] {
            n = n + 1;
        }
        i = i + 1;
    }
    assert(actions@.take(actions@.len() as int) =~= actions@);
    n
}

/// A discovered producer strengthens a known consumer: the producer's read
/// location, a ready edge, and a reserved stage. Nothing happens unless the
/// producer comes first.
pub fn admit_seed_on_abort(consumer: TxIdx, producer: TxIdx, location: MemoryLocationHash) -> (r: Vec<AdmitAction>)
    ensures
        r@ == (if producer >= consumer {
            Seq::<AdmitAction>::empty()
        } else {
            seq![
                AdmitAction::RawProducer { loc: location, producer },
                AdmitAction::Consumer { succ: consumer, pred: producer, on: None },
                AdmitAction::Reserve(producer),
            ]
        }),
{
    let mut r: Vec<AdmitAction> = Vec::new();
    if producer >= consumer {
        return r;
    }
    r.push(AdmitAction::RawProducer { loc: location, producer });
    r.push(AdmitAction::Consumer { succ: consumer, pred: producer, on: None });
    r.push(AdmitAction::Reserve(producer));
    assert(r@ =~= seq![
        AdmitAction::RawProducer { loc: location, producer },
        AdmitAction::Consumer { succ: consumer, pred: producer, on: None },
        AdmitAction::Reserve(producer),
    ]);
    r
}

/// Every ready edge planted points forward: a consumer always waits for an
/// earlier transaction.
pub proof fn law_edges_point_forward(st: PlantState, probe: TxIdx, succs: Seq<TxIdx>, n: int, loc: u64, i: int)
    requires
        0 <= n <= succs.len(),
        forall|j: int| 0 <= j < st.actions.len() ==> (#[trigger] st.actions[j] matches AdmitAction::Consumer { succ, pred, .. } ==> pred < succ),
        0 <= i < probe_fold(st, probe, succs, n, loc).actions.len(),
    ensures
        probe_fold(st, probe, succs, n, loc).actions[i] matches AdmitAction::Consumer { succ, pred, .. } ==> pred < succ,
    decreases n,
{
    if n > 0 {
        let prev = probe_fold(st, probe, succs, n - 1, loc);
        if i < prev.actions.len() {
            law_edges_point_forward(st, probe, succs, n - 1, loc, i);
        }
    }
}

/// Read fan-out floor: this many calls to one contract make a star.
pub const RAW_FANOUT_FLOOR: usize = 16;
/// Short call WAW floor.
pub const CALL_WAW_FLOOR: usize = 2;

/// One step of what a published write set plants.
#[derive(Debug, Clone, Copy, PartialEq, Eq, Structural)]
pub enum WriteSetAction {
    /// `writer` extends the writer order of `loc`.
    LocationWriter { loc: MemoryLocationHash, writer: TxIdx },
    /// `producer` is the read producer of `loc`.
    RawProducer { loc: MemoryLocationHash, producer: TxIdx },
    /// `writer` is the immediate predecessor on `loc`.
    ImmediatePred { loc: MemoryLocationHash, writer: TxIdx },
    /// `succ` waits for `pred` on `on`.
    Consumer { succ: TxIdx, pred: TxIdx, on: Option<MemoryLocationHash> },
    /// `t` leaves the ready-edge queue it was probed into.
    ReleaseConsumer(TxIdx),
    /// The cost policy learns an effective (or not) WAW of this kind.
    EffWaw { kind: CohortKind, effective: bool },
    /// Hand the publish to the short-edge seeding of a thin block: when a
    /// location was written effectively, every written location records
    /// the writer, then each effective one raises its short edges (see
    /// [`short_edge_successors`] and [`short_edges_at`]).
    ShortEdges,
}

/// The writer order recorded for each of `locs`.
pub open spec fn writer_actions(locs: Seq<u64>, w: TxIdx) -> Seq<WriteSetAction>
    decreases locs.len(),
{
    if locs.len() == 0 {
        Seq::empty()
    } else {
        writer_actions(locs.drop_last(), w).push(WriteSetAction::LocationWriter { loc: locs.last(), writer: w })
    }
}

/// Without a recipient: each effective location but the sender's becomes a
/// read producer with `w` its immediate predecessor.
pub open spec fn pair_actions(locs: Seq<u64>, w: TxIdx, from_loc: u64) -> Seq<WriteSetAction>
    decreases locs.len(),
{
    if locs.len() == 0 {
        Seq::empty()
    } else {
        let l = locs.last();
        pair_actions(locs.drop_last(), w, from_loc) + if l != from_loc {
            seq![WriteSetAction::RawProducer { loc: l, producer: w }, WriteSetAction::ImmediatePred { loc: l, writer: w }]
        } else {
            Seq::empty()
        }
    }
}

/// Chain edges of the first `n` pairs of `ordered` on `l`.
pub open spec fn chain_edges(ordered: Seq<TxIdx>, n: int, l: u64) -> Seq<WriteSetAction>
    decreases n,
{
    if n <= 0 {
        Seq::empty()
    } else {
        chain_edges(ordered, n - 1, l) + if ordered[n - 1] < ordered[n] {
            seq![WriteSetAction::Consumer { succ: ordered[n], pred: ordered[n - 1], on: Some(l) }]
        } else {
            Seq::empty()
        }
    }
}

/// The successors those chain edges queue.
pub open spec fn chain_succs(ordered: Seq<TxIdx>, n: int) -> Seq<TxIdx>
    decreases n,
{
    if n <= 0 {
        Seq::empty()
    } else {
        chain_succs(ordered, n - 1) + if ordered[n - 1] < ordered[n] {
            seq![ordered[n]]
        } else {
            Seq::empty()
        }
    }
}

/// The whole chain of `ordered` on `l`, when chaining.
pub open spec fn loc_chain(ordered: Seq<TxIdx>, chain: bool, l: u64) -> Seq<WriteSetAction> {
    if chain {
        chain_edges(ordered, ordered.len() - 1, l)
    } else {
        Seq::empty()
    }
}

/// Each hidden effective location (not the sender's): read producer,
/// writer order, immediate predecessor, then its chain.
pub open spec fn hidden_actions(locs: Seq<u64>, w: TxIdx, from_loc: u64, ordered: Seq<TxIdx>, chain: bool) -> Seq<WriteSetAction>
    decreases locs.len(),
{
    if locs.len() == 0 {
        Seq::empty()
    } else {
        let l = locs.last();
        hidden_actions(locs.drop_last(), w, from_loc, ordered, chain) + if l != from_loc {
            seq![
                WriteSetAction::RawProducer { loc: l, producer: w },
                WriteSetAction::LocationWriter { loc: l, writer: w },
                WriteSetAction::ImmediatePred { loc: l, writer: w },
            ] + loc_chain(ordered, chain, l)
        } else {
            Seq::empty()
        }
    }
}

/// Releases of the entries of `txs` later than `w` and not in `keep`.
pub open spec fn release_actions(txs: Seq<TxIdx>, w: TxIdx, keep: Seq<TxIdx>) -> Seq<WriteSetAction>
    decreases txs.len(),
{
    if txs.len() == 0 {
        Seq::empty()
    } else {
        let t = txs.last();
        release_actions(txs.drop_last(), w, keep) + if t > w && !keep.contains(t) {
            seq![WriteSetAction::ReleaseConsumer(t)]
        } else {
            Seq::empty()
        }
    }
}

/// The entries of `txs` later than `w`, in order.
pub open spec fn later_than(txs: Seq<TxIdx>, w: TxIdx) -> Seq<TxIdx>
    decreases txs.len(),
{
    if txs.len() == 0 {
        Seq::empty()
    } else {
        later_than(txs.drop_last(), w) + if txs.last() > w {
            seq![txs.last()]
        } else {
            Seq::empty()
        }
    }
}

/// Some effective location is not the sender's.
pub open spec fn has_hidden(effective: Seq<u64>, from_loc: u64) -> bool {
    exists|i: int| 0 <= i < effective.len() && effective[i] != from_loc
}

/// What a published write set of `writer` plants (sender account location
/// `from_loc`; the recipient's call count and payees, the sender's
/// transactions, whether they all have empty input; the cost policy's
/// answers when there is a policy; the transactions already queued).
///
/// On an optimistic-majority block a writer that was not queued plants
/// nothing, except that a short storage-shaped call chain (three or four
/// calls to the recipient) goes to the short-edge seeding. Otherwise every
/// written location records the writer (D1). An effective sender location
/// gets a read producer, and an immediate predecessor when the sender has
/// at least three transactions not all empty. Without a recipient every
/// other effective location gets a producer and predecessor. With one:
/// a read fan-out star (sixteen calls or more) plants every hidden
/// effective location; a lazy-only write set releases the later payees it
/// probed, other than the sender's own later transactions (D2), when any
/// later payee was queued; else each hidden effective location is planted
/// and, when a later payee was queued (or without a policy), chains the
/// later payees behind the writer (D3), and a policy that releases probe
/// stars frees the later payees the chain did not keep.
pub open spec fn write_set_plan_spec(
    writer: TxIdx,
    from_loc: u64,
    has_to: bool,
    to_call_n: usize,
    to_txs: Seq<TxIdx>,
    from_txs: Seq<TxIdx>,
    from_all_empty: bool,
    all_write_locs: Seq<u64>,
    effective_locs: Seq<u64>,
    has_policy: bool,
    optimistic_majority: bool,
    release_probe_star: bool,
    writer_queued: bool,
    queued: Seq<TxIdx>,
) -> Seq<WriteSetAction> {
    if has_policy && optimistic_majority && !writer_queued {
        if has_to && 3 <= to_call_n <= 4 {
            seq![WriteSetAction::ShortEdges]
        } else {
            Seq::empty()
        }
    } else {
        let fr = if effective_locs.contains(from_loc) {
            seq![WriteSetAction::RawProducer { loc: from_loc, producer: writer }] + if from_txs.len() >= 3
                && !from_all_empty {
                seq![WriteSetAction::ImmediatePred { loc: from_loc, writer }]
            } else {
                Seq::empty()
            }
        } else {
            Seq::empty()
        };
        let head = writer_actions(all_write_locs, writer) + fr;
        let later = later_than(to_txs, writer);
        let ordered = seq![writer] + later;
        if !has_to {
            head + pair_actions(effective_locs, writer, from_loc)
        } else if to_call_n >= RAW_FANOUT_FLOOR {
            head + hidden_actions(effective_locs, writer, from_loc, ordered, false) + if has_policy {
                seq![WriteSetAction::EffWaw { kind: CohortKind::RawFan, effective: true }]
            } else {
                Seq::empty()
            }
        } else if !has_hidden(effective_locs, from_loc) {
            if !(exists|i: int| 0 <= i < later.len() && queued.contains(later[i])) {
                head
            } else {
                head + (if has_policy {
                    seq![WriteSetAction::EffWaw { kind: CohortKind::EmptyTo, effective: false }]
                } else {
                    Seq::empty()
                }) + release_actions(to_txs, writer, from_txs)
            }
        } else {
            let eff = if has_policy {
                seq![
                    WriteSetAction::EffWaw {
                        kind: if to_call_n >= CALL_WAW_FLOOR {
                            CohortKind::CallWaw
                        } else {
                            CohortKind::EmptyTo
                        },
                        effective: true,
                    },
                ]
            } else {
                Seq::empty()
            };
            let chain = later.len() > 0 && ((exists|i: int| 0 <= i < later.len() && queued.contains(later[i]))
                || !has_policy);
            let succs = if chain {
                chain_succs(ordered, ordered.len() - 1)
            } else {
                Seq::empty()
            };
            let rel = if has_policy && release_probe_star && succs.len() > 0 {
                release_actions(later, writer, succs)
            } else {
                Seq::empty()
            };
            head + eff + hidden_actions(effective_locs, writer, from_loc, ordered, chain) + rel
        }
    }
}

fn contains_tx(v: &Vec<TxIdx>, x: TxIdx) -> (r: bool)
    ensures
        r == v@.contains(x),
{
    let mut i: usize = 0;
    while i < v.len()
        invariant
            i <= v@.len(),
            forall|j: int| 0 <= j < i ==> v@[j] != x,
        decreases v.len() - i,
    {
        if v[i] == x {
            assert(v@[i as int] == x);
            return true;
        }
        i = i + 1;
    }
    false
}

fn contains_loc(v: &Vec<u64>, x: u64) -> (r: bool)
    ensures
        r == v@.contains(x),
{
    let mut i: usize = 0;
    while i < v.len()
        invariant
            i <= v@.len(),
            forall|j: int| 0 <= j < i ==> v@[j] != x,
        decreases v.len() - i,
    {
        if v[i] == x {
            assert(v@[i as int] == x);
            return true;
        }
        i = i + 1;
    }
    false
}

fn extend_actions(out: &mut Vec<WriteSetAction>, v: &Vec<WriteSetAction>)
    ensures
        final(out)@ == old(out)@ + v@,
{
    let ghost o = out@;
    let mut i: usize = 0;
    while i < v.len()
        invariant
            i <= v@.len(),
            out@ == o + v@.take(i as int),
        decreases v.len() - i,
    {
        out.push(v[i]);
        assert(v@.take(i + 1) =~= v@.take(i as int).push(v@[i as int]));
        i = i + 1;
    }
    assert(v@.take(v@.len() as int) =~= v@);
}

fn later_of(txs: &Vec<TxIdx>, w: TxIdx) -> (r: Vec<TxIdx>)
    ensures
        r@ == later_than(txs@, w),
{
    let mut r: Vec<TxIdx> = Vec::new();
    let mut i: usize = 0;
    while i < txs.len()
        invariant
            i <= txs@.len(),
            r@ == later_than(txs@.take(i as int), w),
        decreases txs.len() - i,
    {
        assert(txs@.take(i + 1).drop_last() =~= txs@.take(i as int));
        if txs[i] > w {
            r.push(txs[i]);
        }
        proof {
            let t = txs@.take(i + 1);
            assert(t.last() == txs@[i as int]);
            assert(r@ =~= later_than(t, w));
        }
        i = i + 1;
    }
    assert(txs@.take(txs@.len() as int) =~= txs@);
    r
}

fn chain_of_ordered(ordered: &Vec<TxIdx>, l: u64) -> (r: (Vec<WriteSetAction>, Vec<TxIdx>))
    requires
        ordered@.len() >= 1,
    ensures
        r.0@ == chain_edges(ordered@, ordered@.len() - 1, l),
        r.1@ == chain_succs(ordered@, ordered@.len() - 1),
{
    let mut edges: Vec<WriteSetAction> = Vec::new();
    let mut succs: Vec<TxIdx> = Vec::new();
    let mut i: usize = 0;
    while i < ordered.len() - 1
        invariant
            ordered@.len() >= 1,
            i + 1 <= ordered@.len(),
            edges@ == chain_edges(ordered@, i as int, l),
            succs@ == chain_succs(ordered@, i as int),
        decreases ordered@.len() - i,
    {
        if ordered[i] < ordered[i + 1] {
            edges.push(WriteSetAction::Consumer { succ: ordered[i + 1], pred: ordered[i], on: Some(l) });
            succs.push(ordered[i + 1]);
        }
        proof {
            assert(edges@ =~= chain_edges(ordered@, i + 1, l));
            assert(succs@ =~= chain_succs(ordered@, i + 1));
        }
        i = i + 1;
    }
    (edges, succs)
}

fn release_of(out: &mut Vec<WriteSetAction>, txs: &Vec<TxIdx>, w: TxIdx, keep: &Vec<TxIdx>)
    ensures
        final(out)@ == old(out)@ + release_actions(txs@, w, keep@),
{
    let ghost o = out@;
    let mut i: usize = 0;
    while i < txs.len()
        invariant
            i <= txs@.len(),
            out@ == o + release_actions(txs@.take(i as int), w, keep@),
        decreases txs.len() - i,
    {
        assert(txs@.take(i + 1).drop_last() =~= txs@.take(i as int));
        let t = txs[i];
        if t > w && !contains_tx(keep, t) {
            out.push(WriteSetAction::ReleaseConsumer(t));
        }
        proof {
            let s = txs@.take(i + 1);
            assert(s.last() == t);
            assert(out@ =~= o + release_actions(s, w, keep@));
        }
        i = i + 1;
    }
    assert(txs@.take(txs@.len() as int) =~= txs@);
}

/// What a published write set plants; see `write_set_plan_spec`.
pub fn plan_on_write_set(
    writer: TxIdx,
    from_loc: u64,
    has_to: bool,
    to_call_n: usize,
    to_txs: &Vec<TxIdx>,
    from_txs: &Vec<TxIdx>,
    from_all_empty: bool,
    all_write_locs: &Vec<u64>,
    effective_locs: &Vec<u64>,
    has_policy: bool,
    optimistic_majority: bool,
    release_probe_star: bool,
    writer_queued: bool,
    queued: &Vec<TxIdx>,
) -> (r: Vec<WriteSetAction>)
    ensures
        r@ == write_set_plan_spec(
            writer,
            from_loc,
            has_to,
            to_call_n,
            to_txs@,
            from_txs@,
            from_all_empty,
            all_write_locs@,
            effective_locs@,
            has_policy,
            optimistic_majority,
            release_probe_star,
            writer_queued,
            queued@,
        ),
{
    let mut out: Vec<WriteSetAction> = Vec::new();
    if has_policy && optimistic_majority && !writer_queued {
        if has_to && 3 <= to_call_n && to_call_n <= 4 {
            out.push(WriteSetAction::ShortEdges);
            assert(out@ =~= seq![WriteSetAction::ShortEdges]);
        }
        return out;
    }
    // Every written location records the writer.
    let mut i: usize = 0;
    while i < all_write_locs.len()
        invariant
            i <= all_write_locs@.len(),
            out@ == writer_actions(all_write_locs@.take(i as int), writer),
        decreases all_write_locs.len() - i,
    {
        assert(all_write_locs@.take(i + 1).drop_last() =~= all_write_locs@.take(i as int));
        out.push(WriteSetAction::LocationWriter { loc: all_write_locs[i], writer });
        i = i + 1;
    }
    assert(all_write_locs@.take(all_write_locs@.len() as int) =~= all_write_locs@);
    if contains_loc(effective_locs, from_loc) {
        out.push(WriteSetAction::RawProducer { loc: from_loc, producer: writer });
        if from_txs.len() >= 3 && !from_all_empty {
            out.push(WriteSetAction::ImmediatePred { loc: from_loc, writer });
        }
    }
    let ghost head = out@;
    assert(head =~= writer_actions(all_write_locs@, writer) + (if effective_locs@.contains(from_loc) {
        seq![WriteSetAction::RawProducer { loc: from_loc, producer: writer }] + if from_txs@.len() >= 3
            && !from_all_empty {
            seq![WriteSetAction::ImmediatePred { loc: from_loc, writer }]
        } else {
            Seq::empty()
        }
    } else {
        Seq::empty()
    }));
    let later = later_of(to_txs, writer);
    let mut ordered: Vec<TxIdx> = Vec::new();
    ordered.push(writer);
    extend_tx(&mut ordered, &later);
    assert(ordered@ =~= seq![writer] + later@);
    if !has_to {
        let mut i: usize = 0;
        while i < effective_locs.len()
            invariant
                i <= effective_locs@.len(),
                out@ == head + pair_actions(effective_locs@.take(i as int), writer, from_loc),
            decreases effective_locs.len() - i,
        {
            assert(effective_locs@.take(i + 1).drop_last() =~= effective_locs@.take(i as int));
            let l = effective_locs[i];
            if l != from_loc {
                out.push(WriteSetAction::RawProducer { loc: l, producer: writer });
                out.push(WriteSetAction::ImmediatePred { loc: l, writer });
            }
            proof {
                let s = effective_locs@.take(i + 1);
                assert(s.last() == l);
                assert(out@ =~= head + pair_actions(s, writer, from_loc));
            }
            i = i + 1;
        }
        assert(effective_locs@.take(effective_locs@.len() as int) =~= effective_locs@);
        return out;
    }
    // Whether some effective location is hidden, and whether a later payee is queued.
    let mut hidden = false;
    let mut k: usize = 0;
    while k < effective_locs.len()
        invariant
            k <= effective_locs@.len(),
            hidden == exists|j: int| 0 <= j < k && effective_locs@[j] != from_loc,
        decreases effective_locs.len() - k,
    {
        if effective_locs[k] != from_loc {
            hidden = true;
        }
        k = k + 1;
    }
    let mut probed = false;
    let mut k: usize = 0;
    while k < later.len()
        invariant
            k <= later@.len(),
            probed == exists|j: int| 0 <= j < k && queued@.contains(later@[j]),
        decreases later.len() - k,
    {
        if contains_tx(queued, later[k]) {
            probed = true;
        }
        k = k + 1;
    }
    let fan = to_call_n >= RAW_FANOUT_FLOOR;
    let chain = !fan && hidden && later.len() > 0 && (probed || !has_policy);
    if !fan && !hidden {
        if !probed {
            return out;
        }
        if has_policy {
            out.push(WriteSetAction::EffWaw { kind: CohortKind::EmptyTo, effective: false });
        }
        release_of(&mut out, to_txs, writer, from_txs);
        return out;
    }
    if !fan && has_policy {
        let kind = if to_call_n >= CALL_WAW_FLOOR {
            CohortKind::CallWaw
        } else {
            CohortKind::EmptyTo
        };
        out.push(WriteSetAction::EffWaw { kind, effective: true });
    }
    let ghost mid = out@;
    let mut succs: Vec<TxIdx> = Vec::new();
    let mut i: usize = 0;
    while i < effective_locs.len()
        invariant
            i <= effective_locs@.len(),
            ordered@ == seq![writer] + later@,
            ordered@.len() >= 1,
            out@ == mid + hidden_actions(effective_locs@.take(i as int), writer, from_loc, ordered@, chain),
            succs@ == (if chain && exists|j: int| 0 <= j < i && effective_locs@[j] != from_loc {
                chain_succs(ordered@, ordered@.len() - 1)
            } else {
                Seq::empty()
            }),
        decreases effective_locs.len() - i,
    {
        assert(effective_locs@.take(i + 1).drop_last() =~= effective_locs@.take(i as int));
        let l = effective_locs[i];
        if l != from_loc {
            out.push(WriteSetAction::RawProducer { loc: l, producer: writer });
            out.push(WriteSetAction::LocationWriter { loc: l, writer });
            out.push(WriteSetAction::ImmediatePred { loc: l, writer });
            if chain {
                let (edges, ss) = chain_of_ordered(&ordered, l);
                extend_actions(&mut out, &edges);
                succs = ss;
            }
        }
        proof {
            let s = effective_locs@.take(i + 1);
            assert(s.last() == l);
            assert(out@ =~= mid + hidden_actions(s, writer, from_loc, ordered@, chain));
            if chain && l != from_loc {
                assert(effective_locs@[i as int] != from_loc);
            }
        }
        i = i + 1;
    }
    assert(effective_locs@.take(effective_locs@.len() as int) =~= effective_locs@);
    if fan {
        if has_policy {
            out.push(WriteSetAction::EffWaw { kind: CohortKind::RawFan, effective: true });
        }
        return out;
    }
    if has_policy && release_probe_star && succs.len() > 0 {
        release_of(&mut out, &later, writer, &succs);
    }
    out
}

fn extend_tx(out: &mut Vec<TxIdx>, v: &Vec<TxIdx>)
    ensures
        final(out)@ == old(out)@ + v@,
{
    let ghost o = out@;
    let mut i: usize = 0;
    while i < v.len()
        invariant
            i <= v@.len(),
            out@ == o + v@.take(i as int),
        decreases v.len() - i,
    {
        out.push(v[i]);
        assert(v@.take(i + 1) =~= v@.take(i as int).push(v@[i as int]));
        i = i + 1;
    }
    assert(v@.take(v@.len() as int) =~= v@);
}

/// The later transactions that must follow `writer` on `location`: the
/// later senders when it is the sender's account, the later recipients when
/// it is the recipient's account, and otherwise the later callers of the
/// recipient when they form a short write-after-write chain (two to seven
/// of them). A wide fan or a create (no recipient) gives none.
pub open spec fn successors_spec(
    location: u64,
    writer: TxIdx,
    from_loc: u64,
    from_txs: Seq<TxIdx>,
    to_loc: Option<u64>,
    to_txs: Seq<TxIdx>,
    call_to_txs: Seq<TxIdx>,
) -> Seq<TxIdx> {
    if location == from_loc {
        later_than(from_txs, writer)
    } else {
        match to_loc {
            None => Seq::empty(),
            Some(tl) => if location == tl {
                later_than(to_txs, writer)
            } else if call_to_txs.len() >= RAW_FANOUT_FLOOR || call_to_txs.len() >= 8 {
                Seq::empty()
            } else if call_to_txs.len() >= CALL_WAW_FLOOR {
                later_than(call_to_txs, writer)
            } else {
                Seq::empty()
            },
        }
    }
}

/// The later transactions that must follow `writer` on `location` (see
/// [`successors_spec`]). `from_loc` and `to_loc` are the locations of the
/// sender's and the recipient's accounts; the three lists are the
/// transactions that send from, send to and call the same accounts.
pub fn location_successors(
    location: u64,
    writer: TxIdx,
    from_loc: u64,
    from_txs: &Vec<TxIdx>,
    to_loc: Option<u64>,
    to_txs: &Vec<TxIdx>,
    call_to_txs: &Vec<TxIdx>,
) -> (r: Vec<TxIdx>)
    ensures
        r@ == successors_spec(location, writer, from_loc, from_txs@, to_loc, to_txs@, call_to_txs@),
{
    if location == from_loc {
        return later_of(from_txs, writer);
    }
    let tl = match to_loc {
        None => {
            return Vec::new();
        },
        Some(tl) => tl,
    };
    if location == tl {
        return later_of(to_txs, writer);
    }
    let call_n = call_to_txs.len();
    if call_n >= RAW_FANOUT_FLOOR || call_n >= 8 {
        return Vec::new();
    }
    if call_n >= CALL_WAW_FLOOR {
        return later_of(call_to_txs, writer);
    }
    Vec::new()
}

/// One step of the short-edge seeding after an effective publish.
#[derive(Debug, Clone, Copy, PartialEq, Eq, Structural)]
pub enum ShortEdgeAction {
    /// The cost policy promotes `loc` to a short edge.
    Promote { loc: MemoryLocationHash },
    /// The cost policy learns the pair `pred` then `succ` on `loc`.
    ShortPair { loc: MemoryLocationHash, pred: TxIdx, succ: TxIdx },
    /// `consumer` waits for `producer` on `loc` unless it already started.
    ConsumerIfIdle { consumer: TxIdx, producer: TxIdx, loc: MemoryLocationHash },
    /// `consumer` waits for `producer` on `loc`.
    ConsumerOn { consumer: TxIdx, producer: TxIdx, loc: MemoryLocationHash },
    /// The cost policy learns how many pairs `loc` offered for planting.
    NoteHops { loc: MemoryLocationHash, n: usize },
}

/// The later transactions of the recipient's envelope: its callers when
/// they form a call chain, else those that pay it.
pub open spec fn envelope_later(has_to: bool, call_to_txs: Seq<TxIdx>, to_txs: Seq<TxIdx>, writer: TxIdx) -> Seq<TxIdx> {
    if !has_to {
        Seq::empty()
    } else if call_to_txs.len() >= CALL_WAW_FLOOR {
        later_than(call_to_txs, writer)
    } else {
        later_than(to_txs, writer)
    }
}

/// The later senders, when the sender's account was written effectively
/// and at least three transactions send from it, not all of them empty.
pub open spec fn from_later(
    from_loc: u64,
    effective: Seq<u64>,
    from_txs: Seq<TxIdx>,
    from_all_empty: bool,
    writer: TxIdx,
) -> Seq<TxIdx> {
    if !effective.contains(from_loc) || from_txs.len() < 3 || from_all_empty {
        Seq::empty()
    } else {
        later_than(from_txs, writer)
    }
}

/// The envelope stands for one location: a short call chain, or with no
/// such chain a short run of payments.
pub open spec fn envelope_is_loc(has_to: bool, call_n: nat, pay_n: nat) -> bool {
    has_to && ((call_n >= CALL_WAW_FLOOR && call_n < 8) || (call_n < CALL_WAW_FLOOR && pay_n >= 2 && pay_n < 8))
}

/// The successors a short edge on `loc` may follow: the later senders on
/// the sender's account, the envelope's on a location it stands for, else
/// none.
pub open spec fn short_later_spec(
    loc: u64,
    writer: TxIdx,
    from_loc: u64,
    effective: Seq<u64>,
    from_txs: Seq<TxIdx>,
    from_all_empty: bool,
    has_to: bool,
    call_to_txs: Seq<TxIdx>,
    to_txs: Seq<TxIdx>,
) -> Seq<TxIdx> {
    if loc == from_loc {
        from_later(from_loc, effective, from_txs, from_all_empty, writer)
    } else if envelope_is_loc(has_to, call_to_txs.len(), to_txs.len()) {
        envelope_later(has_to, call_to_txs, to_txs, writer)
    } else {
        Seq::empty()
    }
}

/// The successors a short edge on `loc` may follow (see
/// [`short_later_spec`]).
pub fn short_edge_successors(
    loc: u64,
    writer: TxIdx,
    from_loc: u64,
    effective_locs: &Vec<u64>,
    from_txs: &Vec<TxIdx>,
    from_all_empty: bool,
    has_to: bool,
    call_to_txs: &Vec<TxIdx>,
    to_txs: &Vec<TxIdx>,
) -> (r: Vec<TxIdx>)
    ensures
        r@ == short_later_spec(loc, writer, from_loc, effective_locs@, from_txs@, from_all_empty, has_to, call_to_txs@, to_txs@),
{
    if loc == from_loc {
        if !contains_loc(effective_locs, from_loc) || from_txs.len() < 3 || from_all_empty {
            return Vec::new();
        }
        return later_of(from_txs, writer);
    }
    let call_n = call_to_txs.len();
    let pay_n = to_txs.len();
    let is_loc = has_to && ((call_n >= CALL_WAW_FLOOR && call_n < 8) || (call_n < CALL_WAW_FLOOR && pay_n >= 2 && pay_n < 8));
    if !is_loc {
        return Vec::new();
    }
    if call_n >= CALL_WAW_FLOOR {
        later_of(call_to_txs, writer)
    } else {
        later_of(to_txs, writer)
    }
}

/// The cost policy's answers on one location: whether to gate a short
/// edge there, and whether a long spine of pairs there already lost.
#[derive(Debug, Clone, Copy, PartialEq, Eq, Structural)]
pub struct ShortPolicyAnswer {
    pub gate: bool,
    pub long_spine_lost: bool,
}

/// The short edges raised on one effectively written `loc` of `writer`:
/// `later` are its possible successors and `earlier` the closest earlier
/// writer of `loc`. Without a policy a location gates when it has an
/// earlier writer or at least two successors. A gated location orders the
/// writer after its earlier writer and its first successor after it; a
/// policy also promotes it and learns those pairs.
pub open spec fn short_edges_spec(
    loc: u64,
    writer: TxIdx,
    later: Seq<TxIdx>,
    earlier: Option<TxIdx>,
    policy: Option<ShortPolicyAnswer>,
) -> Seq<ShortEdgeAction> {
    let gate = match policy {
        Some(p) => p.gate,
        None => earlier is Some || later.len() >= 2,
    };
    let lost = match policy {
        Some(p) => p.long_spine_lost,
        None => false,
    };
    if !gate || lost {
        Seq::empty()
    } else {
        let succ_pair: Seq<ShortEdgeAction> = if later.len() > 0 {
            seq![ShortEdgeAction::ShortPair { loc, pred: writer, succ: later[0] }]
        } else {
            Seq::empty()
        };
        let pred_pair: Seq<ShortEdgeAction> = match earlier {
            Some(pred) => seq![ShortEdgeAction::ShortPair { loc, pred, succ: writer }],
            None => Seq::empty(),
        };
        let learned: Seq<ShortEdgeAction> = if policy is Some {
            seq![ShortEdgeAction::Promote { loc }] + succ_pair + pred_pair
        } else {
            Seq::empty()
        };
        let wait_pred: Seq<ShortEdgeAction> = match earlier {
            Some(pred) => seq![ShortEdgeAction::ConsumerIfIdle { consumer: writer, producer: pred, loc }],
            None => Seq::empty(),
        };
        let wait_succ: Seq<ShortEdgeAction> = if later.len() > 0 {
            seq![ShortEdgeAction::ConsumerIfIdle { consumer: later[0], producer: writer, loc }]
        } else {
            Seq::empty()
        };
        learned + wait_pred + wait_succ
    }
}

/// The short edges raised on one effectively written location (see
/// [`short_edges_spec`]).
pub fn short_edges_at(
    loc: u64,
    writer: TxIdx,
    later: &Vec<TxIdx>,
    earlier: Option<TxIdx>,
    policy: Option<ShortPolicyAnswer>,
) -> (r: Vec<ShortEdgeAction>)
    ensures
        r@ == short_edges_spec(loc, writer, later@, earlier, policy),
{
    let gate = match policy {
        Some(p) => p.gate,
        None => earlier.is_some() || later.len() >= 2,
    };
    let lost = match policy {
        Some(p) => p.long_spine_lost,
        None => false,
    };
    let mut out: Vec<ShortEdgeAction> = Vec::new();
    if !gate || lost {
        return out;
    }
    if policy.is_some() {
        out.push(ShortEdgeAction::Promote { loc });
        if later.len() > 0 {
            out.push(ShortEdgeAction::ShortPair { loc, pred: writer, succ: later[0] });
        }
        if let Some(pred) = earlier {
            out.push(ShortEdgeAction::ShortPair { loc, pred, succ: writer });
        }
    }
    if let Some(pred) = earlier {
        out.push(ShortEdgeAction::ConsumerIfIdle { consumer: writer, producer: pred, loc });
    }
    if later.len() > 0 {
        out.push(ShortEdgeAction::ConsumerIfIdle { consumer: later[0], producer: writer, loc });
    }
    proof {
        let succ_pair: Seq<ShortEdgeAction> = if later@.len() > 0 {
            seq![ShortEdgeAction::ShortPair { loc, pred: writer, succ: later@[0] }]
        } else {
            Seq::empty()
        };
        let pred_pair: Seq<ShortEdgeAction> = match earlier {
            Some(pred) => seq![ShortEdgeAction::ShortPair { loc, pred, succ: writer }],
            None => Seq::empty(),
        };
        let learned: Seq<ShortEdgeAction> = if policy is Some {
            seq![ShortEdgeAction::Promote { loc }] + succ_pair + pred_pair
        } else {
            Seq::empty()
        };
        let wait_pred: Seq<ShortEdgeAction> = match earlier {
            Some(pred) => seq![ShortEdgeAction::ConsumerIfIdle { consumer: writer, producer: pred, loc }],
            None => Seq::empty(),
        };
        let wait_succ: Seq<ShortEdgeAction> = if later@.len() > 0 {
            seq![ShortEdgeAction::ConsumerIfIdle { consumer: later@[0], producer: writer, loc }]
        } else {
            Seq::empty()
        };
        assert(out@ =~= learned + wait_pred + wait_succ);
    }
    out
}

/// An account that receives calls, as a thin block start sees it: its
/// address, the location that stands for it, the transactions that call it
/// in block order, and whether the cost policy gates a short edge there.
#[derive(Debug)]
pub struct HintCallee {
    pub addr: Addr,
    pub loc: MemoryLocationHash,
    pub txs: Vec<TxIdx>,
    pub gate: bool,
}

/// Address order: by the big-endian limbs.
pub open spec fn addr_below(a: Addr, b: Addr) -> bool {
    a.hi < b.hi || (a.hi == b.hi && (a.mid < b.mid || (a.mid == b.mid && a.lo < b.lo)))
}

fn addr_below_exec(a: Addr, b: Addr) -> (r: bool)
    ensures
        r == addr_below(a, b),
{
    a.hi < b.hi || (a.hi == b.hi && (a.mid < b.mid || (a.mid == b.mid && a.lo < b.lo)))
}

/// `a` ranks before `b`: more callers, then the lower address.
pub open spec fn callee_before(a: HintCallee, b: HintCallee) -> bool {
    a.txs@.len() > b.txs@.len() || (a.txs@.len() == b.txs@.len() && addr_below(a.addr, b.addr))
}

fn callee_before_exec(a: &HintCallee, b: &HintCallee) -> (r: bool)
    ensures
        r == callee_before(*a, *b),
{
    let na = a.txs.len();
    let nb = b.txs.len();
    na > nb || (na == nb && addr_below_exec(a.addr, b.addr))
}

/// A callee takes part: three or four callers (a storage trio).
pub open spec fn hint_eligible(c: HintCallee) -> bool {
    3 <= c.txs@.len() <= 4
}

/// Where callee `i` goes in `order`: after the last one it does not rank
/// before.
pub open spec fn hint_pos(order: Seq<usize>, cs: Seq<HintCallee>, i: usize) -> int
    decreases order.len(),
{
    if order.len() == 0 {
        0
    } else if !callee_before(cs[i as int], cs[order.last() as int]) {
        order.len() as int
    } else {
        hint_pos(order.drop_last(), cs, i)
    }
}

/// The eligible callees among the first `n`, hottest first.
pub open spec fn hint_rank(cs: Seq<HintCallee>, n: int) -> Seq<usize>
    decreases n,
{
    if n <= 0 {
        Seq::<usize>::empty()
    } else {
        let prev = hint_rank(cs, n - 1);
        if hint_eligible(cs[n - 1]) {
            prev.insert(hint_pos(prev, cs, (n - 1) as usize), (n - 1) as usize)
        } else {
            prev
        }
    }
}

/// The edges along the first `n` consecutive pairs of `txs` on `loc`: each
/// increasing pair orders its second behind its first, and the policy
/// learns the pair.
pub open spec fn pair_plants(txs: Seq<TxIdx>, loc: u64, n: int) -> Seq<ShortEdgeAction>
    decreases n,
{
    if n <= 0 {
        Seq::empty()
    } else {
        pair_plants(txs, loc, n - 1) + if txs[n - 1] < txs[n] {
            seq![
                ShortEdgeAction::ConsumerOn { consumer: txs[n], producer: txs[n - 1], loc },
                ShortEdgeAction::ShortPair { loc, pred: txs[n - 1], succ: txs[n] },
            ]
        } else {
            Seq::empty()
        }
    }
}

/// The edges of one callee's whole chain.
pub open spec fn callee_plants(c: HintCallee) -> Seq<ShortEdgeAction> {
    pair_plants(c.txs@, c.loc, c.txs@.len() - 1)
}

/// The first `n` ranked callees planted, at most `cap` of them with an
/// edge: the actions and the number of callees used.
pub open spec fn hint_fold(cs: Seq<HintCallee>, order: Seq<usize>, n: int, cap: nat) -> (Seq<ShortEdgeAction>, nat)
    decreases n,
{
    if n <= 0 {
        (Seq::empty(), 0)
    } else {
        let prev = hint_fold(cs, order, n - 1, cap);
        let c = cs[order[n - 1] as int];
        let plants = callee_plants(c);
        if prev.1 >= cap || !c.gate || plants.len() == 0 {
            prev
        } else {
            (prev.0 + plants + seq![ShortEdgeAction::Promote { loc: c.loc }], prev.1 + 1)
        }
    }
}

/// The short edges a thin block start plants from the callers of each
/// account: accounts with three or four callers, hottest first (ties by
/// the lower address), up to `cap` accounts with an edge; each gated one
/// orders every caller behind the previous one and is promoted.
pub open spec fn hint_short_edges_spec(cs: Seq<HintCallee>, cap: nat) -> Seq<ShortEdgeAction> {
    let order = hint_rank(cs, cs.len() as int);
    hint_fold(cs, order, order.len() as int, cap).0
}

fn hint_rank_exec(cs: &Vec<HintCallee>) -> (r: Vec<usize>)
    ensures
        r@ == hint_rank(cs@, cs@.len() as int),
        forall|j: int| 0 <= j < r@.len() ==> r@[j] < cs@.len(),
{
    let mut order: Vec<usize> = Vec::new();
    let mut i: usize = 0;
    while i < cs.len()
        invariant
            i <= cs@.len(),
            order@ == hint_rank(cs@, i as int),
            forall|j: int| 0 <= j < order@.len() ==> order@[j] < i,
        decreases cs.len() - i,
    {
        let n = cs[i].txs.len();
        if 3 <= n && n <= 4 {
            let mut p: usize = order.len();
            assert(order@.take(order@.len() as int) =~= order@);
            while p > 0 && callee_before_exec(&cs[i], &cs[order[p - 1]])
                invariant
                    p <= order@.len(),
                    i < cs@.len(),
                    n == cs@[i as int].txs@.len(),
                    forall|j: int| 0 <= j < order@.len() ==> order@[j] < i,
                    hint_pos(order@, cs@, i) == hint_pos(order@.take(p as int), cs@, i),
                decreases p,
            {
                assert(order@.take(p as int).drop_last() =~= order@.take(p - 1));
                assert(order@.take(p as int).last() == order@[p - 1]);
                p = p - 1;
            }
            proof {
                if p > 0 {
                    assert(order@.take(p as int).last() == order@[p - 1]);
                } else {
                    assert(order@.take(0) =~= Seq::<usize>::empty());
                }
            }
            order.insert(p, i);
        }
        proof {
            assert forall|j: int| 0 <= j < order@.len() implies order@[j] < i + 1 by {}
        }
        i = i + 1;
    }
    order
}

fn callee_plants_exec(c: &HintCallee) -> (r: Vec<ShortEdgeAction>)
    ensures
        r@ == callee_plants(*c),
{
    let txs = &c.txs;
    let mut out: Vec<ShortEdgeAction> = Vec::new();
    if txs.len() == 0 {
        return out;
    }
    let mut k: usize = 1;
    while k < txs.len()
        invariant
            1 <= k <= txs@.len(),
            txs@ == c.txs@,
            out@ == pair_plants(txs@, c.loc, k - 1),
        decreases txs.len() - k,
    {
        let pred = txs[k - 1];
        let succ = txs[k];
        if pred < succ {
            out.push(ShortEdgeAction::ConsumerOn { consumer: succ, producer: pred, loc: c.loc });
            out.push(ShortEdgeAction::ShortPair { loc: c.loc, pred, succ });
        }
        proof {
            let step: Seq<ShortEdgeAction> = if txs@[k - 1] < txs@[k as int] {
                seq![
                    ShortEdgeAction::ConsumerOn { consumer: txs@[k as int], producer: txs@[k - 1], loc: c.loc },
                    ShortEdgeAction::ShortPair { loc: c.loc, pred: txs@[k - 1], succ: txs@[k as int] },
                ]
            } else {
                Seq::empty()
            };
            assert(pair_plants(txs@, c.loc, k as int) == pair_plants(txs@, c.loc, k - 1) + step);
            assert(out@ =~= pair_plants(txs@, c.loc, k - 1) + step);
        }
        k = k + 1;
    }
    out
}

/// The short edges a thin block start plants from the callers of each
/// account (see [`hint_short_edges_spec`]); `cap` is the policy's limit on
/// ordered locations.
pub fn plan_hint_short_edges(callees: &Vec<HintCallee>, cap: usize) -> (r: Vec<ShortEdgeAction>)
    ensures
        r@ == hint_short_edges_spec(callees@, cap as nat),
{
    let order = hint_rank_exec(callees);
    let ghost cs = callees@;
    let mut out: Vec<ShortEdgeAction> = Vec::new();
    let mut used: usize = 0;
    let mut j: usize = 0;
    while j < order.len()
        invariant
            j <= order@.len(),
            cs == callees@,
            order@ == hint_rank(cs, cs.len() as int),
            forall|t: int| 0 <= t < order@.len() ==> order@[t] < cs.len(),
            (out@, used as nat) == hint_fold(cs, order@, j as int, cap as nat),
            used <= j,
        decreases order.len() - j,
    {
        let c = &callees[order[j]];
        if used < cap && c.gate {
            let plants = callee_plants_exec(c);
            if plants.len() > 0 {
                let mut q: usize = 0;
                let ghost before = out@;
                while q < plants.len()
                    invariant
                        q <= plants@.len(),
                        out@ == before + plants@.take(q as int),
                    decreases plants.len() - q,
                {
                    out.push(plants[q]);
                    proof {
                        assert(plants@.take(q + 1) =~= plants@.take(q as int).push(plants@[q as int]));
                    }
                    q = q + 1;
                }
                assert(plants@.take(plants@.len() as int) =~= plants@);
                out.push(ShortEdgeAction::Promote { loc: c.loc });
                used = used + 1;
            }
        }
        j = j + 1;
    }
    out
}

/// One account as the block's hints see it: its address and account
/// location, the transactions it sends (and whether every one of them has
/// empty input), those paying it with empty input, those calling it with
/// input, and whether it held code before the block.
#[derive(Debug)]
pub struct HintAccount {
    pub addr: Addr,
    pub loc: MemoryLocationHash,
    pub from_txs: Vec<TxIdx>,
    pub from_all_empty: bool,
    pub to_txs: Vec<TxIdx>,
    pub call_to_txs: Vec<TxIdx>,
    pub is_contract: bool,
}

/// A cohort the cost policy is asked about at the start of a block.
#[derive(Debug)]
pub struct CandQuery {
    pub kind: CohortKind,
    pub addr: Addr,
    pub loc: MemoryLocationHash,
    pub is_contract: bool,
    pub txs: Vec<TxIdx>,
}

pub open spec fn query_view(q: CandQuery) -> (CohortKind, Addr, u64, bool, Seq<TxIdx>) {
    (q.kind, q.addr, q.loc, q.is_contract, q.txs@)
}

/// Account `a` forms a cohort of `kind`: many calls make a read star, a
/// few calls a write chain, two or more empty-input payments (with no call
/// chain) a payee probe, and two or more sends with some input a sender
/// chain. The beneficiary forms none.
pub open spec fn cand_pass(a: HintAccount, kind: CohortKind, beneficiary: Addr) -> bool {
    a.addr != beneficiary && match kind {
        CohortKind::RawFan => a.call_to_txs@.len() >= RAW_FANOUT_FLOOR,
        CohortKind::CallWaw => CALL_WAW_FLOOR <= a.call_to_txs@.len() < RAW_FANOUT_FLOOR,
        CohortKind::EmptyTo => a.call_to_txs@.len() < CALL_WAW_FLOOR && a.to_txs@.len() >= 2,
        CohortKind::SameFrom => a.from_txs@.len() >= 2 && !a.from_all_empty,
    }
}

/// The cohort of `kind` that account `a` forms.
pub open spec fn cand_of(a: HintAccount, kind: CohortKind) -> (CohortKind, Addr, u64, bool, Seq<TxIdx>) {
    match kind {
        CohortKind::RawFan => (kind, a.addr, a.loc, true, a.call_to_txs@),
        CohortKind::CallWaw => (kind, a.addr, a.loc, true, a.call_to_txs@),
        CohortKind::EmptyTo => (kind, a.addr, a.loc, a.is_contract, a.to_txs@),
        CohortKind::SameFrom => (kind, a.addr, a.loc, false, a.from_txs@),
    }
}

/// The cohorts of `kind` among `accts`, in their order.
pub open spec fn cands_of_kind(accts: Seq<HintAccount>, kind: CohortKind, beneficiary: Addr) -> Seq<(CohortKind, Addr, u64, bool, Seq<TxIdx>)>
    decreases accts.len(),
{
    if accts.len() == 0 {
        Seq::empty()
    } else {
        cands_of_kind(accts.drop_last(), kind, beneficiary) + if cand_pass(accts.last(), kind, beneficiary) {
            seq![cand_of(accts.last(), kind)]
        } else {
            Seq::empty()
        }
    }
}

/// The cohorts of a block start, read stars first, then call chains, payee
/// probes and sender chains.
pub open spec fn admit_candidates_spec(accts: Seq<HintAccount>, beneficiary: Addr) -> Seq<(CohortKind, Addr, u64, bool, Seq<TxIdx>)> {
    cands_of_kind(accts, CohortKind::RawFan, beneficiary) + cands_of_kind(accts, CohortKind::CallWaw, beneficiary)
        + cands_of_kind(accts, CohortKind::EmptyTo, beneficiary) + cands_of_kind(accts, CohortKind::SameFrom, beneficiary)
}

fn push_kind(out: &mut Vec<CandQuery>, accts: &Vec<HintAccount>, kind: CohortKind, beneficiary: Addr)
    ensures
        final(out)@.map_values(|q: CandQuery| query_view(q)) == old(out)@.map_values(|q: CandQuery| query_view(q))
            + cands_of_kind(accts@, kind, beneficiary),
{
    let ghost o = old(out)@.map_values(|q: CandQuery| query_view(q));
    let mut i: usize = 0;
    while i < accts.len()
        invariant
            i <= accts@.len(),
            out@.map_values(|q: CandQuery| query_view(q)) == o + cands_of_kind(accts@.take(i as int), kind, beneficiary),
        decreases accts.len() - i,
    {
        let a = &accts[i];
        proof {
            assert(accts@.take(i + 1).drop_last() =~= accts@.take(i as int));
            assert(accts@.take(i + 1).last() == *a);
        }
        let n_call = a.call_to_txs.len();
        let pass = a.addr != beneficiary && match kind {
            CohortKind::RawFan => n_call >= RAW_FANOUT_FLOOR,
            CohortKind::CallWaw => CALL_WAW_FLOOR <= n_call && n_call < RAW_FANOUT_FLOOR,
            CohortKind::EmptyTo => n_call < CALL_WAW_FLOOR && a.to_txs.len() >= 2,
            CohortKind::SameFrom => a.from_txs.len() >= 2 && !a.from_all_empty,
        };
        let ghost before = out@;
        if pass {
            let mut txs: Vec<TxIdx> = Vec::new();
            let is_contract = match kind {
                CohortKind::RawFan | CohortKind::CallWaw => {
                    extend_tx(&mut txs, &a.call_to_txs);
                    true
                },
                CohortKind::EmptyTo => {
                    extend_tx(&mut txs, &a.to_txs);
                    a.is_contract
                },
                CohortKind::SameFrom => {
                    extend_tx(&mut txs, &a.from_txs);
                    false
                },
            };
            out.push(CandQuery { kind, addr: a.addr, loc: a.loc, is_contract, txs });
            proof {
                assert(out@.map_values(|q: CandQuery| query_view(q)) =~= before.map_values(|q: CandQuery| query_view(q)).push(cand_of(*a, kind)));
            }
        }
        i = i + 1;
    }
    assert(accts@.take(accts@.len() as int) =~= accts@);
}

/// The cohorts the cost policy is asked about at the start of a block (see
/// [`admit_candidates_spec`]); the caller keeps those the policy accepts,
/// with the policy's score, as the candidates of [`plan_begin_block`].
pub fn admit_candidates(accts: &Vec<HintAccount>, beneficiary: Addr) -> (r: Vec<CandQuery>)
    ensures
        r@.map_values(|q: CandQuery| query_view(q)) == admit_candidates_spec(accts@, beneficiary),
{
    let mut out: Vec<CandQuery> = Vec::new();
    assert(out@.map_values(|q: CandQuery| query_view(q)) =~= Seq::<(CohortKind, Addr, u64, bool, Seq<TxIdx>)>::empty());
    push_kind(&mut out, accts, CohortKind::RawFan, beneficiary);
    push_kind(&mut out, accts, CohortKind::CallWaw, beneficiary);
    push_kind(&mut out, accts, CohortKind::EmptyTo, beneficiary);
    push_kind(&mut out, accts, CohortKind::SameFrom, beneficiary);
    out
}

/// The hints show a fan: some account other than the beneficiary sends or
/// is called at least `RAW_FANOUT_FLOOR` times.
pub open spec fn hint_fan_spec(accts: Seq<HintAccount>, beneficiary: Addr) -> bool {
    exists|i: int|
        0 <= i < accts.len() && (#[trigger] accts[i]).addr != beneficiary && (accts[i].from_txs@.len()
            >= RAW_FANOUT_FLOOR || accts[i].call_to_txs@.len() >= RAW_FANOUT_FLOOR)
}

/// Whether the hints show a fan (see [`hint_fan_spec`]).
pub fn hint_fan(accts: &Vec<HintAccount>, beneficiary: Addr) -> (r: bool)
    ensures
        r == hint_fan_spec(accts@, beneficiary),
{
    let mut i: usize = 0;
    while i < accts.len()
        invariant
            i <= accts@.len(),
            forall|j: int|
                0 <= j < i ==> !((#[trigger] accts@[j]).addr != beneficiary && (accts@[j].from_txs@.len()
                    >= RAW_FANOUT_FLOOR || accts@[j].call_to_txs@.len() >= RAW_FANOUT_FLOOR)),
        decreases accts.len() - i,
    {
        let a = &accts[i];
        if a.addr != beneficiary && (a.from_txs.len() >= RAW_FANOUT_FLOOR || a.call_to_txs.len() >= RAW_FANOUT_FLOOR) {
            assert(accts@[i as int] == *a);
            return true;
        }
        i = i + 1;
    }
    false
}

/// Every entry of `w` is in `t`.
pub open spec fn all_in(w: Seq<TxIdx>, t: Seq<TxIdx>) -> bool {
    forall|j: int| 0 <= j < w.len() ==> t.contains(#[trigger] w[j])
}

fn all_in_exec(w: &Vec<TxIdx>, t: &Vec<TxIdx>) -> (r: bool)
    ensures
        r == all_in(w@, t@),
{
    let mut j: usize = 0;
    while j < w.len()
        invariant
            j <= w@.len(),
            forall|k: int| 0 <= k < j ==> t@.contains(#[trigger] w@[k]),
        decreases w.len() - j,
    {
        if !contains_tx(t, w[j]) {
            return false;
        }
        j = j + 1;
    }
    true
}

/// `writers` is a wide envelope, not one location's writers: at least eight
/// of them, all among the payees of an account with eight or more payees,
/// or all among the callers of an account with a read fan of callers.
pub open spec fn wide_envelope_spec(accts: Seq<HintAccount>, writers: Seq<TxIdx>) -> bool {
    writers.len() >= 8 && exists|i: int|
        0 <= i < accts.len() && {
            ||| (#[trigger] accts[i]).to_txs@.len() >= 8 && all_in(writers, accts[i].to_txs@)
            ||| accts[i].call_to_txs@.len() >= RAW_FANOUT_FLOOR && all_in(writers, accts[i].call_to_txs@)
        }
}

/// Whether `writers` is a wide envelope (see [`wide_envelope_spec`]).
pub fn is_wide_envelope_writer_set(accts: &Vec<HintAccount>, writers: &Vec<TxIdx>) -> (r: bool)
    ensures
        r == wide_envelope_spec(accts@, writers@),
{
    if writers.len() < 8 {
        return false;
    }
    let mut i: usize = 0;
    while i < accts.len()
        invariant
            i <= accts@.len(),
            writers@.len() >= 8,
            forall|j: int|
                0 <= j < i ==> !({
                    ||| (#[trigger] accts@[j]).to_txs@.len() >= 8 && all_in(writers@, accts@[j].to_txs@)
                    ||| accts@[j].call_to_txs@.len() >= RAW_FANOUT_FLOOR && all_in(writers@, accts@[j].call_to_txs@)
                }),
        decreases accts.len() - i,
    {
        let a = &accts[i];
        let hit = (a.to_txs.len() >= 8 && all_in_exec(writers, &a.to_txs)) || (a.call_to_txs.len() >= RAW_FANOUT_FLOOR
            && all_in_exec(writers, &a.call_to_txs));
        if hit {
            assert(accts@[i as int] == *a);
            return true;
        }
        i = i + 1;
    }
    false
}

/// What an effective write-after-write abort teaches the cost policy.
#[derive(Debug, Clone, Copy, PartialEq, Eq, Structural)]
pub enum PersistAction {
    /// The policy keeps the pair `pred` then `succ` on `loc`.
    ShortPair { loc: MemoryLocationHash, pred: TxIdx, succ: TxIdx },
    /// The aborted consumer gets an ordered retry behind its producer.
    QueueIdle { loc: MemoryLocationHash, pred: TxIdx, succ: TxIdx },
}

/// The chain pairs `pred`, then each of `later` behind the one before.
pub open spec fn chain_pairs_from(loc: u64, pred: TxIdx, later: Seq<TxIdx>) -> Seq<PersistAction>
    decreases later.len(),
{
    if later.len() == 0 {
        Seq::empty()
    } else {
        let prev = if later.len() == 1 { pred } else { later[later.len() - 2] };
        chain_pairs_from(loc, pred, later.drop_last()) + seq![PersistAction::ShortPair { loc, pred: prev, succ: later.last() }]
    }
}

/// After `consumer` aborted on `location` behind `producer`: an earlier
/// producer gives the pair and an ordered retry; unless the policy already
/// holds a long spine there, the consumer's own successors on the location
/// (`later`, see [`location_successors`]) follow it pair by pair.
pub open spec fn persist_spec(consumer: TxIdx, producer: TxIdx, location: u64, long_spine: bool, later: Seq<TxIdx>) -> Seq<PersistAction> {
    let head: Seq<PersistAction> = if producer < consumer {
        seq![
            PersistAction::ShortPair { loc: location, pred: producer, succ: consumer },
            PersistAction::QueueIdle { loc: location, pred: producer, succ: consumer },
        ]
    } else {
        Seq::empty()
    };
    if long_spine {
        head
    } else {
        head + chain_pairs_from(location, consumer, later)
    }
}

/// What an effective write-after-write abort teaches the cost policy (see
/// [`persist_spec`]). `long_spine` is the policy's answer whether it holds
/// more pairs on the location than its order window.
pub fn persist_short_chain_after_abort(
    consumer: TxIdx,
    producer: TxIdx,
    location: MemoryLocationHash,
    long_spine: bool,
    later: &Vec<TxIdx>,
) -> (r: Vec<PersistAction>)
    ensures
        r@ == persist_spec(consumer, producer, location, long_spine, later@),
{
    let mut out: Vec<PersistAction> = Vec::new();
    if producer < consumer {
        out.push(PersistAction::ShortPair { loc: location, pred: producer, succ: consumer });
        out.push(PersistAction::QueueIdle { loc: location, pred: producer, succ: consumer });
    }
    if long_spine {
        return out;
    }
    let ghost head = out@;
    let mut pred = consumer;
    let mut i: usize = 0;
    while i < later.len()
        invariant
            i <= later@.len(),
            out@ == head + chain_pairs_from(location, consumer, later@.take(i as int)),
            pred == (if i == 0 { consumer } else { later@[i - 1] }),
        decreases later.len() - i,
    {
        let succ = later[i];
        out.push(PersistAction::ShortPair { loc: location, pred, succ });
        proof {
            let t = later@.take(i + 1);
            assert(t.drop_last() =~= later@.take(i as int));
            assert(t.last() == succ);
            if i > 0 {
                assert(t[t.len() - 2] == later@[i - 1]);
            }
            assert(out@ =~= head + chain_pairs_from(location, consumer, t));
        }
        pred = succ;
        i = i + 1;
    }
    assert(later@.take(later@.len() as int) =~= later@);
    out
}

/// A pair the policy keeps on a promoted location: its predecessor comes
/// first, and its location is promoted.
pub open spec fn pair_kept(p: (u64, TxIdx, TxIdx), promoted: Seq<u64>) -> bool {
    p.1 < p.2 && promoted.contains(p.0)
}

/// The locations of the kept pairs, in order of first appearance.
pub open spec fn group_locs(ps: Seq<(u64, TxIdx, TxIdx)>, promoted: Seq<u64>) -> Seq<u64>
    decreases ps.len(),
{
    if ps.len() == 0 {
        Seq::empty()
    } else {
        let g = group_locs(ps.drop_last(), promoted);
        let p = ps.last();
        if pair_kept(p, promoted) && !g.contains(p.0) {
            g.push(p.0)
        } else {
            g
        }
    }
}

/// The kept pairs on `loc`, in order.
pub open spec fn pairs_on(ps: Seq<(u64, TxIdx, TxIdx)>, promoted: Seq<u64>, loc: u64) -> Seq<(TxIdx, TxIdx)>
    decreases ps.len(),
{
    if ps.len() == 0 {
        Seq::empty()
    } else {
        let q = pairs_on(ps.drop_last(), promoted, loc);
        let p = ps.last();
        if pair_kept(p, promoted) && p.0 == loc {
            q.push((p.1, p.2))
        } else {
            q
        }
    }
}

/// The pairs of one promoted location.
#[derive(Debug)]
pub struct PairGroup {
    pub loc: MemoryLocationHash,
    pub pairs: Vec<(TxIdx, TxIdx)>,
}

/// The policy's promoted pairs grouped by location (see [`group_locs`] and
/// [`pairs_on`]); `promoted` are the locations the policy holds promoted.
pub fn group_promoted_pairs(ps: &Vec<(u64, TxIdx, TxIdx)>, promoted: &Vec<u64>) -> (r: Vec<PairGroup>)
    ensures
        r@.len() == group_locs(ps@, promoted@).len(),
        forall|i: int|
            0 <= i < r@.len() ==> (#[trigger] r@[i]).loc == group_locs(ps@, promoted@)[i] && r@[i].pairs@
                == pairs_on(ps@, promoted@, group_locs(ps@, promoted@)[i]),
{
    let mut locs: Vec<u64> = Vec::new();
    let mut i: usize = 0;
    while i < ps.len()
        invariant
            i <= ps@.len(),
            locs@ == group_locs(ps@.take(i as int), promoted@),
        decreases ps.len() - i,
    {
        let p = ps[i];
        proof {
            assert(ps@.take(i + 1).drop_last() =~= ps@.take(i as int));
            assert(ps@.take(i + 1).last() == p);
        }
        if p.1 < p.2 && contains_loc(promoted, p.0) && !contains_loc(&locs, p.0) {
            locs.push(p.0);
        }
        i = i + 1;
    }
    assert(ps@.take(ps@.len() as int) =~= ps@);
    let mut out: Vec<PairGroup> = Vec::new();
    let mut j: usize = 0;
    while j < locs.len()
        invariant
            j <= locs@.len(),
            locs@ == group_locs(ps@, promoted@),
            out@.len() == j,
            forall|t: int|
                0 <= t < j ==> (#[trigger] out@[t]).loc == locs@[t] && out@[t].pairs@ == pairs_on(ps@, promoted@, locs@[t]),
        decreases locs.len() - j,
    {
        let loc = locs[j];
        let mut pairs: Vec<(TxIdx, TxIdx)> = Vec::new();
        let mut k: usize = 0;
        while k < ps.len()
            invariant
                k <= ps@.len(),
                pairs@ == pairs_on(ps@.take(k as int), promoted@, loc),
            decreases ps.len() - k,
        {
            let p = ps[k];
            proof {
                assert(ps@.take(k + 1).drop_last() =~= ps@.take(k as int));
                assert(ps@.take(k + 1).last() == p);
            }
            if p.1 < p.2 && p.0 == loc && contains_loc(promoted, p.0) {
                pairs.push((p.1, p.2));
            }
            k = k + 1;
        }
        assert(ps@.take(ps@.len() as int) =~= ps@);
        out.push(PairGroup { loc, pairs });
        j = j + 1;
    }
    out
}

/// `x` inserted after the last entry of `sorted` whose predecessor is at
/// most its own.
pub open spec fn ins_pred(sorted: Seq<(TxIdx, TxIdx)>, x: (TxIdx, TxIdx)) -> Seq<(TxIdx, TxIdx)>
    decreases sorted.len(),
{
    if sorted.len() == 0 {
        seq![x]
    } else if sorted.last().0 <= x.0 {
        sorted.push(x)
    } else {
        ins_pred(sorted.drop_last(), x).push(sorted.last())
    }
}

/// The pairs ordered by predecessor, ties kept in order.
pub open spec fn sort_by_pred(ps: Seq<(TxIdx, TxIdx)>) -> Seq<(TxIdx, TxIdx)>
    decreases ps.len(),
{
    if ps.len() == 0 {
        Seq::empty()
    } else {
        ins_pred(sort_by_pred(ps.drop_last()), ps.last())
    }
}

proof fn lemma_ins_pred_len(s: Seq<(TxIdx, TxIdx)>, x: (TxIdx, TxIdx))
    ensures
        ins_pred(s, x).len() == s.len() + 1,
    decreases s.len(),
{
    if s.len() > 0 && s.last().0 > x.0 {
        lemma_ins_pred_len(s.drop_last(), x);
    }
}

fn sort_pairs_by_pred(ps: &Vec<(TxIdx, TxIdx)>) -> (r: Vec<(TxIdx, TxIdx)>)
    ensures
        r@ == sort_by_pred(ps@),
{
    let mut sorted: Vec<(TxIdx, TxIdx)> = Vec::new();
    let mut i: usize = 0;
    while i < ps.len()
        invariant
            i <= ps@.len(),
            sorted@ == sort_by_pred(ps@.take(i as int)),
        decreases ps.len() - i,
    {
        let x = ps[i];
        let ghost s0 = sorted@;
        let mut p: usize = sorted.len();
        assert(s0.take(s0.len() as int) =~= s0);
        assert(s0.subrange(s0.len() as int, s0.len() as int) =~= Seq::<(TxIdx, TxIdx)>::empty());
        while p > 0 && sorted[p - 1].0 > x.0
            invariant
                p <= s0.len(),
                sorted@ == s0,
                ins_pred(s0, x) == ins_pred(s0.take(p as int), x) + s0.subrange(p as int, s0.len() as int),
            decreases p,
        {
            let ghost t = s0.take(p as int);
            assert(t.drop_last() =~= s0.take(p - 1));
            assert(t.last() == s0[p - 1]);
            assert(ins_pred(t, x) == ins_pred(s0.take(p - 1), x).push(s0[p - 1]));
            assert(s0.subrange(p - 1, s0.len() as int) =~= seq![s0[p - 1]] + s0.subrange(p as int, s0.len() as int));
            assert(ins_pred(s0.take(p - 1), x).push(s0[p - 1]) + s0.subrange(p as int, s0.len() as int)
                =~= ins_pred(s0.take(p - 1), x) + s0.subrange(p - 1, s0.len() as int));
            p = p - 1;
        }
        proof {
            let t = s0.take(p as int);
            if p > 0 {
                assert(t.last() == s0[p - 1]);
                assert(ins_pred(t, x) == t.push(x));
            } else {
                assert(t =~= Seq::<(TxIdx, TxIdx)>::empty());
                assert(ins_pred(t, x) == seq![x]);
            }
        }
        sorted.insert(p, x);
        proof {
            assert(sorted@ =~= s0.take(p as int).push(x) + s0.subrange(p as int, s0.len() as int));
            assert(ps@.take(i + 1).drop_last() =~= ps@.take(i as int));
            assert(ps@.take(i + 1).last() == x);
        }
        i = i + 1;
    }
    assert(ps@.take(ps@.len() as int) =~= ps@);
    sorted
}

/// The distinct transactions of `ps`, in order of first appearance.
pub open spec fn txs_of_pairs(ps: Seq<(TxIdx, TxIdx)>) -> Seq<TxIdx>
    decreases ps.len(),
{
    if ps.len() == 0 {
        Seq::empty()
    } else {
        let t = txs_of_pairs(ps.drop_last());
        let (a, b) = ps.last();
        let t1 = if t.contains(a) { t } else { t.push(a) };
        if t1.contains(b) { t1 } else { t1.push(b) }
    }
}

fn txs_of_pairs_exec(ps: &Vec<(TxIdx, TxIdx)>) -> (r: Vec<TxIdx>)
    ensures
        r@ == txs_of_pairs(ps@),
{
    let mut t: Vec<TxIdx> = Vec::new();
    let mut i: usize = 0;
    while i < ps.len()
        invariant
            i <= ps@.len(),
            t@ == txs_of_pairs(ps@.take(i as int)),
        decreases ps.len() - i,
    {
        let (a, b) = ps[i];
        proof {
            assert(ps@.take(i + 1).drop_last() =~= ps@.take(i as int));
            assert(ps@.take(i + 1).last() == (a, b));
        }
        if !contains_tx(&t, a) {
            t.push(a);
        }
        if !contains_tx(&t, b) {
            t.push(b);
        }
        i = i + 1;
    }
    assert(ps@.take(ps@.len() as int) =~= ps@);
    t
}

/// One promoted location at a thin block start, with the policy's number
/// of hops to plant for its pair count.
#[derive(Debug)]
pub struct PromotedGroup {
    pub loc: MemoryLocationHash,
    pub pairs: Vec<(TxIdx, TxIdx)>,
    pub hops: usize,
}

/// `a` ranks before `b`: more pairs, then the lower location.
pub open spec fn group_before(a: PromotedGroup, b: PromotedGroup) -> bool {
    a.pairs@.len() > b.pairs@.len() || (a.pairs@.len() == b.pairs@.len() && a.loc < b.loc)
}

/// A location is planted: its writers are not a wide envelope of the
/// hints, and the policy gives it at least one hop.
pub open spec fn group_eligible(g: PromotedGroup, accts: Seq<HintAccount>) -> bool {
    !wide_envelope_spec(accts, txs_of_pairs(g.pairs@)) && g.hops > 0
}

pub open spec fn group_pos(order: Seq<usize>, gs: Seq<PromotedGroup>, i: usize) -> int
    decreases order.len(),
{
    if order.len() == 0 {
        0
    } else if !group_before(gs[i as int], gs[order.last() as int]) {
        order.len() as int
    } else {
        group_pos(order.drop_last(), gs, i)
    }
}

/// The eligible locations among the first `n`, longest first.
pub open spec fn group_rank(gs: Seq<PromotedGroup>, accts: Seq<HintAccount>, n: int) -> Seq<usize>
    decreases n,
{
    if n <= 0 {
        Seq::<usize>::empty()
    } else {
        let prev = group_rank(gs, accts, n - 1);
        if group_eligible(gs[n - 1], accts) {
            prev.insert(group_pos(prev, gs, (n - 1) as usize), (n - 1) as usize)
        } else {
            prev
        }
    }
}

/// The edges of one planted location: the policy learns its pair count,
/// then its first `hops` pairs by predecessor each order their second
/// behind their first.
pub open spec fn group_plants(g: PromotedGroup) -> Seq<ShortEdgeAction> {
    let sorted = sort_by_pred(g.pairs@);
    let kept = if sorted.len() > g.hops { sorted.take(g.hops as int) } else { sorted };
    seq![ShortEdgeAction::NoteHops { loc: g.loc, n: g.pairs@.len() as usize }] + kept.map_values(
        |p: (TxIdx, TxIdx)| ShortEdgeAction::ConsumerOn { consumer: p.1, producer: p.0, loc: g.loc },
    )
}

pub open spec fn groups_fold(gs: Seq<PromotedGroup>, order: Seq<usize>, n: int) -> Seq<ShortEdgeAction>
    decreases n,
{
    if n <= 0 {
        Seq::empty()
    } else {
        groups_fold(gs, order, n - 1) + group_plants(gs[order[n - 1] as int])
    }
}

/// The short edges a thin block start plants on the policy's promoted
/// locations: those not a wide envelope and with a hop, longest first
/// (ties by the lower location), at most `cap` of them when the block runs
/// optimistic by majority.
pub open spec fn promoted_short_edges_spec(gs: Seq<PromotedGroup>, accts: Seq<HintAccount>, majority: bool, cap: nat) -> Seq<ShortEdgeAction> {
    let order = group_rank(gs, accts, gs.len() as int);
    let n = if majority && order.len() > cap { cap as int } else { order.len() as int };
    groups_fold(gs, order, n)
}

fn group_before_exec(a: &PromotedGroup, b: &PromotedGroup) -> (r: bool)
    ensures
        r == group_before(*a, *b),
{
    let na = a.pairs.len();
    let nb = b.pairs.len();
    na > nb || (na == nb && a.loc < b.loc)
}

fn group_rank_exec(gs: &Vec<PromotedGroup>, accts: &Vec<HintAccount>) -> (r: Vec<usize>)
    ensures
        r@ == group_rank(gs@, accts@, gs@.len() as int),
        forall|j: int| 0 <= j < r@.len() ==> r@[j] < gs@.len(),
{
    let mut order: Vec<usize> = Vec::new();
    let mut i: usize = 0;
    while i < gs.len()
        invariant
            i <= gs@.len(),
            order@ == group_rank(gs@, accts@, i as int),
            forall|j: int| 0 <= j < order@.len() ==> order@[j] < i,
        decreases gs.len() - i,
    {
        let txs = txs_of_pairs_exec(&gs[i].pairs);
        let wide = is_wide_envelope_writer_set(accts, &txs);
        if !wide && gs[i].hops > 0 {
            let mut p: usize = order.len();
            assert(order@.take(order@.len() as int) =~= order@);
            while p > 0 && group_before_exec(&gs[i], &gs[order[p - 1]])
                invariant
                    p <= order@.len(),
                    i < gs@.len(),
                    forall|j: int| 0 <= j < order@.len() ==> order@[j] < i,
                    group_pos(order@, gs@, i) == group_pos(order@.take(p as int), gs@, i),
                decreases p,
            {
                assert(order@.take(p as int).drop_last() =~= order@.take(p - 1));
                assert(order@.take(p as int).last() == order@[p - 1]);
                p = p - 1;
            }
            proof {
                if p > 0 {
                    assert(order@.take(p as int).last() == order@[p - 1]);
                } else {
                    assert(order@.take(0) =~= Seq::<usize>::empty());
                }
            }
            order.insert(p, i);
        }
        proof {
            assert forall|j: int| 0 <= j < order@.len() implies order@[j] < i + 1 by {}
        }
        i = i + 1;
    }
    order
}

fn group_plants_exec(g: &PromotedGroup) -> (r: Vec<ShortEdgeAction>)
    ensures
        r@ == group_plants(*g),
{
    let sorted = sort_pairs_by_pred(&g.pairs);
    proof {
        lemma_sort_len(g.pairs@);
    }
    let keep: usize = if sorted.len() > g.hops { g.hops } else { sorted.len() };
    let ghost kept = if sorted@.len() > g.hops { sorted@.take(g.hops as int) } else { sorted@ };
    assert(kept.len() == keep);
    let mut out: Vec<ShortEdgeAction> = Vec::new();
    out.push(ShortEdgeAction::NoteHops { loc: g.loc, n: g.pairs.len() });
    let mut k: usize = 0;
    while k < keep
        invariant
            k <= keep,
            keep <= sorted@.len(),
            kept.len() == keep,
            forall|t: int| 0 <= t < keep ==> kept[t] == sorted@[t],
            out@ == seq![ShortEdgeAction::NoteHops { loc: g.loc, n: g.pairs@.len() as usize }] + kept.take(k as int).map_values(
                |p: (TxIdx, TxIdx)| ShortEdgeAction::ConsumerOn { consumer: p.1, producer: p.0, loc: g.loc },
            ),
        decreases keep - k,
    {
        let (pred, succ) = sorted[k];
        out.push(ShortEdgeAction::ConsumerOn { consumer: succ, producer: pred, loc: g.loc });
        proof {
            assert(kept.take(k + 1) =~= kept.take(k as int).push(kept[k as int]));
            assert(kept.take(k + 1).map_values(
                |p: (TxIdx, TxIdx)| ShortEdgeAction::ConsumerOn { consumer: p.1, producer: p.0, loc: g.loc },
            ) =~= kept.take(k as int).map_values(
                |p: (TxIdx, TxIdx)| ShortEdgeAction::ConsumerOn { consumer: p.1, producer: p.0, loc: g.loc },
            ).push(ShortEdgeAction::ConsumerOn { consumer: succ, producer: pred, loc: g.loc }));
        }
        k = k + 1;
    }
    assert(kept.take(keep as int) =~= kept);
    out
}

proof fn lemma_sort_len(ps: Seq<(TxIdx, TxIdx)>)
    ensures
        sort_by_pred(ps).len() == ps.len(),
    decreases ps.len(),
{
    if ps.len() > 0 {
        lemma_sort_len(ps.drop_last());
        lemma_ins_pred_len(sort_by_pred(ps.drop_last()), ps.last());
    }
}

/// The short edges a thin block start plants on the policy's promoted
/// locations (see [`promoted_short_edges_spec`]).
pub fn plan_promoted_short_edges(
    groups: &Vec<PromotedGroup>,
    accts: &Vec<HintAccount>,
    majority: bool,
    cap: usize,
) -> (r: Vec<ShortEdgeAction>)
    ensures
        r@ == promoted_short_edges_spec(groups@, accts@, majority, cap as nat),
{
    let order = group_rank_exec(groups, accts);
    let n: usize = if majority && order.len() > cap { cap } else { order.len() };
    let mut out: Vec<ShortEdgeAction> = Vec::new();
    let mut j: usize = 0;
    while j < n
        invariant
            j <= n,
            n <= order@.len(),
            order@ == group_rank(groups@, accts@, groups@.len() as int),
            forall|t: int| 0 <= t < order@.len() ==> order@[t] < groups@.len(),
            out@ == groups_fold(groups@, order@, j as int),
        decreases n - j,
    {
        let plants = group_plants_exec(&groups[order[j]]);
        let ghost before = out@;
        let mut q: usize = 0;
        while q < plants.len()
            invariant
                q <= plants@.len(),
                out@ == before + plants@.take(q as int),
            decreases plants.len() - q,
        {
            out.push(plants[q]);
            proof {
                assert(plants@.take(q + 1) =~= plants@.take(q as int).push(plants@[q as int]));
            }
            q = q + 1;
        }
        assert(plants@.take(plants@.len() as int) =~= plants@);
        j = j + 1;
    }
    out
}

/// Pair order: by predecessor, then successor.
pub open spec fn pair_lt(a: (TxIdx, TxIdx), b: (TxIdx, TxIdx)) -> bool {
    a.0 < b.0 || (a.0 == b.0 && a.1 < b.1)
}

/// `x` placed into the ascending, duplicate-free `sorted`; dropped when
/// already there.
pub open spec fn ins_lex(sorted: Seq<(TxIdx, TxIdx)>, x: (TxIdx, TxIdx)) -> Seq<(TxIdx, TxIdx)>
    decreases sorted.len(),
{
    if sorted.len() == 0 {
        seq![x]
    } else if pair_lt(sorted.last(), x) {
        sorted.push(x)
    } else if sorted.last() == x {
        sorted
    } else {
        ins_lex(sorted.drop_last(), x).push(sorted.last())
    }
}

/// The pairs sorted ascending, each once.
pub open spec fn sort_dedup(ps: Seq<(TxIdx, TxIdx)>) -> Seq<(TxIdx, TxIdx)>
    decreases ps.len(),
{
    if ps.len() == 0 {
        Seq::empty()
    } else {
        ins_lex(sort_dedup(ps.drop_last()), ps.last())
    }
}

fn sort_dedup_exec(ps: &Vec<(TxIdx, TxIdx)>) -> (r: Vec<(TxIdx, TxIdx)>)
    ensures
        r@ == sort_dedup(ps@),
{
    let mut sorted: Vec<(TxIdx, TxIdx)> = Vec::new();
    let mut i: usize = 0;
    while i < ps.len()
        invariant
            i <= ps@.len(),
            sorted@ == sort_dedup(ps@.take(i as int)),
        decreases ps.len() - i,
    {
        let x = ps[i];
        let ghost s0 = sorted@;
        let mut p: usize = sorted.len();
        assert(s0.take(s0.len() as int) =~= s0);
        assert(s0.subrange(s0.len() as int, s0.len() as int) =~= Seq::<(TxIdx, TxIdx)>::empty());
        while p > 0 && (x.0 < sorted[p - 1].0 || (x.0 == sorted[p - 1].0 && x.1 < sorted[p - 1].1))
            invariant
                p <= s0.len(),
                sorted@ == s0,
                ins_lex(s0, x) == ins_lex(s0.take(p as int), x) + s0.subrange(p as int, s0.len() as int),
            decreases p,
        {
            let ghost t = s0.take(p as int);
            assert(t.drop_last() =~= s0.take(p - 1));
            assert(t.last() == s0[p - 1]);
            assert(ins_lex(t, x) == ins_lex(s0.take(p - 1), x).push(s0[p - 1]));
            assert(s0.subrange(p - 1, s0.len() as int) =~= seq![s0[p - 1]] + s0.subrange(p as int, s0.len() as int));
            assert(ins_lex(s0.take(p - 1), x).push(s0[p - 1]) + s0.subrange(p as int, s0.len() as int)
                =~= ins_lex(s0.take(p - 1), x) + s0.subrange(p - 1, s0.len() as int));
            p = p - 1;
        }
        let dup = p > 0 && sorted[p - 1].0 == x.0 && sorted[p - 1].1 == x.1;
        proof {
            let t = s0.take(p as int);
            if p > 0 {
                assert(t.last() == s0[p - 1]);
                if dup {
                    assert(s0[p - 1] == x);
                    assert(ins_lex(t, x) == t);
                } else {
                    assert(pair_lt(s0[p - 1], x));
                    assert(ins_lex(t, x) == t.push(x));
                }
            } else {
                assert(t =~= Seq::<(TxIdx, TxIdx)>::empty());
                assert(ins_lex(t, x) == seq![x]);
            }
        }
        if !dup {
            sorted.insert(p, x);
            proof {
                assert(sorted@ =~= s0.take(p as int).push(x) + s0.subrange(p as int, s0.len() as int));
            }
        } else {
            proof {
                assert(s0 =~= s0.take(p as int) + s0.subrange(p as int, s0.len() as int));
            }
        }
        proof {
            assert(ps@.take(i + 1).drop_last() =~= ps@.take(i as int));
            assert(ps@.take(i + 1).last() == x);
        }
        i = i + 1;
    }
    assert(ps@.take(ps@.len() as int) =~= ps@);
    sorted
}

/// The locations of the pending pairs.
pub open spec fn pending_locs(ps: Seq<(u64, TxIdx, TxIdx)>) -> Seq<u64> {
    ps.map_values(|p: (u64, TxIdx, TxIdx)| p.0)
}

/// The idle edges of one location: its pairs ascending and once each, at
/// most the first two (the retry and one successor hop).
pub open spec fn idle_plants(loc: u64, pairs: Seq<(TxIdx, TxIdx)>) -> Seq<ShortEdgeAction> {
    let sd = sort_dedup(pairs);
    let kept = if sd.len() > 2 { sd.take(2) } else { sd };
    kept.map_values(|p: (TxIdx, TxIdx)| ShortEdgeAction::ConsumerIfIdle { consumer: p.1, producer: p.0, loc })
}

pub open spec fn idle_fold(ps: Seq<(u64, TxIdx, TxIdx)>, locs: Seq<u64>, n: int) -> Seq<ShortEdgeAction>
    decreases n,
{
    if n <= 0 {
        Seq::empty()
    } else {
        idle_fold(ps, locs, n - 1) + idle_plants(locs[n - 1], pairs_on(ps, pending_locs(ps), locs[n - 1]))
    }
}

/// The queued idle hops planted at once: by location (in order of first
/// appearance), each location's pairs with the predecessor first, ascending
/// and once each, at most two; each consumer waits unless it already
/// started.
pub open spec fn flush_idle_spec(ps: Seq<(u64, TxIdx, TxIdx)>) -> Seq<ShortEdgeAction> {
    let locs = group_locs(ps, pending_locs(ps));
    idle_fold(ps, locs, locs.len() as int)
}

/// The queued idle hops planted (see [`flush_idle_spec`]).
pub fn flush_pending_idle_edges(pending: &Vec<(u64, TxIdx, TxIdx)>) -> (r: Vec<ShortEdgeAction>)
    ensures
        r@ == flush_idle_spec(pending@),
{
    let mut all_locs: Vec<u64> = Vec::new();
    let mut i: usize = 0;
    while i < pending.len()
        invariant
            i <= pending@.len(),
            all_locs@ == pending_locs(pending@).take(i as int),
        decreases pending.len() - i,
    {
        all_locs.push(pending[i].0);
        proof {
            assert(pending_locs(pending@).take(i + 1) =~= pending_locs(pending@).take(i as int).push(pending@[i as int].0));
        }
        i = i + 1;
    }
    assert(pending_locs(pending@).take(pending@.len() as int) =~= pending_locs(pending@));
    let groups = group_promoted_pairs(pending, &all_locs);
    let ghost locs = group_locs(pending@, pending_locs(pending@));
    let mut out: Vec<ShortEdgeAction> = Vec::new();
    let mut j: usize = 0;
    while j < groups.len()
        invariant
            j <= groups@.len(),
            groups@.len() == locs.len(),
            forall|t: int|
                0 <= t < groups@.len() ==> (#[trigger] groups@[t]).loc == locs[t] && groups@[t].pairs@
                    == pairs_on(pending@, pending_locs(pending@), locs[t]),
            out@ == idle_fold(pending@, locs, j as int),
        decreases groups.len() - j,
    {
        let g = &groups[j];
        let sd = sort_dedup_exec(&g.pairs);
        let keep: usize = if sd.len() > 2 { 2 } else { sd.len() };
        let ghost kept = if sd@.len() > 2 { sd@.take(2) } else { sd@ };
        let ghost before = out@;
        let mut k: usize = 0;
        while k < keep
            invariant
                k <= keep,
                keep <= sd@.len(),
                kept.len() == keep,
                forall|t: int| 0 <= t < keep ==> kept[t] == sd@[t],
                out@ == before + kept.take(k as int).map_values(
                    |p: (TxIdx, TxIdx)| ShortEdgeAction::ConsumerIfIdle { consumer: p.1, producer: p.0, loc: g.loc },
                ),
            decreases keep - k,
        {
            let (pred, succ) = sd[k];
            out.push(ShortEdgeAction::ConsumerIfIdle { consumer: succ, producer: pred, loc: g.loc });
            proof {
                assert(kept.take(k + 1) =~= kept.take(k as int).push(kept[k as int]));
                assert(kept.take(k + 1).map_values(
                    |p: (TxIdx, TxIdx)| ShortEdgeAction::ConsumerIfIdle { consumer: p.1, producer: p.0, loc: g.loc },
                ) =~= kept.take(k as int).map_values(
                    |p: (TxIdx, TxIdx)| ShortEdgeAction::ConsumerIfIdle { consumer: p.1, producer: p.0, loc: g.loc },
                ).push(ShortEdgeAction::ConsumerIfIdle { consumer: succ, producer: pred, loc: g.loc }));
            }
            k = k + 1;
        }
        assert(kept.take(keep as int) =~= kept);
        j = j + 1;
    }
    out
}

} // verus!
