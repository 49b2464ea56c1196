//! Decision-field contingency tables: for every per-access decision, the
//! verb is counted against each feature of the access, so that features
//! can be scored as useful, redundant or harmful. Measurement only.

use vstd::prelude::*;
use super::busy_stall::wadd;
use super::edge::k_class_spec;

verus! {

/// Verb class of a decision.
#[derive(Debug, Clone, Copy, PartialEq, Eq, Structural)]
pub enum DecisionVerb {
    Bind,
    WaitFor,
    Unfenced,
}

/// Column of a verb: `Bind` 0, `WaitFor` 1, `Unfenced` 2.
pub open spec fn verb_col(v: DecisionVerb) -> int {
    match v {
        DecisionVerb::Bind => 0,
        DecisionVerb::WaitFor => 1,
        DecisionVerb::Unfenced => 2,
    }
}

fn verb_index(v: DecisionVerb) -> (r: usize)
    ensures
        r == verb_col(v),
{
    match v {
        DecisionVerb::Bind => 0,
        DecisionVerb::WaitFor => 1,
        DecisionVerb::Unfenced => 2,
    }
}

/// Features of one decision.
#[derive(Debug, Clone, Copy)]
pub struct DecisionFeat {
    pub verb: DecisionVerb,
    pub access_k: u32,
    pub depth: u8,
    pub incarnation: usize,
    pub is_program: bool,
    pub writer_published: bool,
    pub writer_validated: bool,
    pub writer_executing: bool,
    pub writer_ready: bool,
    pub writer_present: bool,
    pub avoid_broadcast: bool,
    pub canary_ok: bool,
    pub independence_certified: bool,
    pub essential_antidep: bool,
    pub force_prefix: bool,
    pub clique_gated: bool,
    pub in_hot_set: bool,
    pub prior_warm: bool,
    pub mode_read: bool,
}

/// Number of binary feature rows (the last one is reserved and never counted).
pub const FEATURES: usize = 16;

/// Binary feature `i` of a decision, in table order.
pub open spec fn feat_bit(f: DecisionFeat, i: int) -> bool {
    if i == 0 {
        f.is_program
    } else if i == 1 {
        f.writer_published
    } else if i == 2 {
        f.writer_validated
    } else if i == 3 {
        f.writer_executing
    } else if i == 4 {
        f.writer_ready
    } else if i == 5 {
        f.writer_present
    } else if i == 6 {
        f.avoid_broadcast
    } else if i == 7 {
        f.canary_ok
    } else if i == 8 {
        f.independence_certified
    } else if i == 9 {
        f.essential_antidep
    } else if i == 10 {
        f.force_prefix
    } else if i == 11 {
        f.clique_gated
    } else if i == 12 {
        f.in_hot_set
    } else if i == 13 {
        f.prior_warm
    } else {
        f.mode_read
    }
}

/// Depth bucket: `0`, `1..=3`, `4..=7`, `8..`.
pub open spec fn depth_bucket_of(d: u8) -> int {
    if d == 0 {
        0
    } else if d <= 3 {
        1
    } else if d <= 7 {
        2
    } else {
        3
    }
}

/// Incarnation bucket: `0`, `1`, `2..`.
pub open spec fn inc_bucket_of(i: usize) -> int {
    if i == 0 {
        0
    } else if i == 1 {
        1
    } else {
        2
    }
}

/// Writer status: none, ready, executing, validated, other.
pub open spec fn writer_status_of(f: DecisionFeat) -> int {
    if !f.writer_present {
        0
    } else if f.writer_validated {
        3
    } else if f.writer_executing {
        2
    } else if f.writer_ready {
        1
    } else {
        4
    }
}

/// Histogram of the three verbs.
#[derive(Debug, Clone, Copy, PartialEq, Eq, Structural)]
pub struct VerbHist {
    pub bind: u64,
    pub wait_for: u64,
    pub unfenced: u64,
}

impl Default for VerbHist {
    fn default() -> (r: Self)
        ensures
            r == (VerbHist { bind: 0, wait_for: 0, unfenced: 0 }),
    {
        VerbHist { bind: 0, wait_for: 0, unfenced: 0 }
    }
}

/// Correlational quality proxies.
#[derive(Debug, Clone, Copy, PartialEq, Eq, Structural)]
pub struct QualityProxies {
    pub missed_avoid: u64,
    pub false_fence_wait: u64,
    pub wait_no_writer: u64,
    pub bind_no_publish: u64,
    pub unfenced_essential: u64,
}

impl Default for QualityProxies {
    fn default() -> (r: Self)
        ensures
            r == (QualityProxies {
                missed_avoid: 0,
                false_fence_wait: 0,
                wait_no_writer: 0,
                bind_no_publish: 0,
                unfenced_essential: 0,
            }),
    {
        QualityProxies {
            missed_avoid: 0,
            false_fence_wait: 0,
            wait_no_writer: 0,
            bind_no_publish: 0,
            unfenced_essential: 0,
        }
    }
}

/// Counts of one block. Rows are laid out flat, three verb columns each;
/// a binary feature row holds the `false` columns then the `true` columns.
pub struct DecisionFieldAgg {
    total: u64,
    verb: Vec<u64>,
    bin: Vec<u64>,
    k_bucket: Vec<u64>,
    depth_bucket: Vec<u64>,
    inc_bucket: Vec<u64>,
    writer_status: Vec<u64>,
    edge_kind_wr: Vec<u64>,
    missed_avoid: u64,
    false_fence_wait: u64,
    wait_no_writer: u64,
    bind_no_publish: u64,
    unfenced_essential: u64,
}

/// `s` with entry `i` bumped by one (wrapping).
pub open spec fn bump_at(s: Seq<u64>, i: int) -> Seq<u64> {
    s.update(i, wadd(s[i], 1))
}

/// `c` bumped by one when `cond`.
pub open spec fn bump_if(c: u64, cond: bool) -> u64 {
    if cond {
        wadd(c, 1)
    } else {
        c
    }
}

/// The binary table after one decision: in each of the first fifteen
/// rows, the column of the verb on the side of the feature's value.
pub open spec fn bin_after(s: Seq<u64>, f: DecisionFeat) -> Seq<u64> {
    bin_rows_after(s, f, 15)
}

/// `bin_after` restricted to the rows below `n`.
pub open spec fn bin_rows_after(s: Seq<u64>, f: DecisionFeat, n: int) -> Seq<u64> {
    Seq::new(
        s.len(),
        |j: int|
            if j / 6 < n && j % 6 == (if feat_bit(f, j / 6) {
                3int
            } else {
                0int
            }) + verb_col(f.verb) {
                wadd(s[j], 1)
            } else {
                s[j]
            },
    )
}

fn bump_vec(v: &mut Vec<u64>, i: usize)
    requires
        i < old(v)@.len(),
    ensures
        final(v)@ == bump_at(old(v)@, i as int),
{
    let c = v[i];
    v.set(i, c.wrapping_add(1));
}

fn feat_bit_exec(f: &DecisionFeat, i: usize) -> (r: bool)
    ensures
        r == feat_bit(*f, i as int),
{
    match i {
        0 => f.is_program,
        1 => f.writer_published,
        2 => f.writer_validated,
        3 => f.writer_executing,
        4 => f.writer_ready,
        5 => f.writer_present,
        6 => f.avoid_broadcast,
        7 => f.canary_ok,
        8 => f.independence_certified,
        9 => f.essential_antidep,
        10 => f.force_prefix,
        11 => f.clique_gated,
        12 => f.in_hot_set,
        13 => f.prior_warm,
        _ => f.mode_read,
    }
}

fn bump_bins(bin: &mut Vec<u64>, f: &DecisionFeat)
    requires
        old(bin)@.len() == FEATURES * 6,
    ensures
        final(bin)@ == bin_after(old(bin)@, *f),
{
    let v = verb_index(f.verb);
    let mut row: usize = 0;
    while row < 15
        invariant
            row <= 15,
            v == verb_col(f.verb),
            bin@.len() == FEATURES * 6,
            bin@ == bin_rows_after(old(bin)@, *f, row as int),
        decreases 15 - row,
    {
        let base: usize = if feat_bit_exec(f, row) {
            3
        } else {
            0
        };
        let ghost before = bin@;
        bump_vec(bin, row * 6 + base + v);
        proof {
            assert(bin@ =~= bin_rows_after(old(bin)@, *f, row as int + 1));
        }
        row = row + 1;
    }
}

impl DecisionFieldAgg {
    pub closed spec fn wf(self) -> bool {
        &&& self.verb@.len() == 3
        &&& self.bin@.len() == FEATURES * 6
        &&& self.k_bucket@.len() == 15
        &&& self.depth_bucket@.len() == 12
        &&& self.inc_bucket@.len() == 9
        &&& self.writer_status@.len() == 15
        &&& self.edge_kind_wr@.len() == 3
    }

    /// The counters, flat: total, verbs, binary rows, buckets and proxies.
    pub closed spec fn total_count(self) -> u64 {
        self.total
    }

    pub closed spec fn verb_counts(self) -> Seq<u64> {
        self.verb@
    }

    pub closed spec fn bin_counts(self) -> Seq<u64> {
        self.bin@
    }

    pub closed spec fn k_counts(self) -> Seq<u64> {
        self.k_bucket@
    }

    pub closed spec fn depth_counts(self) -> Seq<u64> {
        self.depth_bucket@
    }

    pub closed spec fn inc_counts(self) -> Seq<u64> {
        self.inc_bucket@
    }

    pub closed spec fn writer_counts(self) -> Seq<u64> {
        self.writer_status@
    }

    pub closed spec fn edge_counts(self) -> Seq<u64> {
        self.edge_kind_wr@
    }

    pub closed spec fn quality(self) -> QualityProxies {
        QualityProxies {
            missed_avoid: self.missed_avoid,
            false_fence_wait: self.false_fence_wait,
            wait_no_writer: self.wait_no_writer,
            bind_no_publish: self.bind_no_publish,
            unfenced_essential: self.unfenced_essential,
        }
    }

    /// All counters zero.
    pub fn new() -> (r: Self)
        ensures
            r.wf(),
            r.total_count() == 0,
            r.verb_counts() == Seq::new(3, |i: int| 0u64),
            r.bin_counts() == Seq::new((FEATURES * 6) as nat, |i: int| 0u64),
            r.k_counts() == Seq::new(15, |i: int| 0u64),
            r.depth_counts() == Seq::new(12, |i: int| 0u64),
            r.inc_counts() == Seq::new(9, |i: int| 0u64),
            r.writer_counts() == Seq::new(15, |i: int| 0u64),
            r.edge_counts() == Seq::new(3, |i: int| 0u64),
            r.quality() == QualityProxies::default_spec(),
    {
        let r = DecisionFieldAgg {
            total: 0,
            verb: zero_vec(3),
            bin: zero_vec(FEATURES * 6),
            k_bucket: zero_vec(15),
            depth_bucket: zero_vec(12),
            inc_bucket: zero_vec(9),
            writer_status: zero_vec(15),
            edge_kind_wr: zero_vec(3),
            missed_avoid: 0,
            false_fence_wait: 0,
            wait_no_writer: 0,
            bind_no_publish: 0,
            unfenced_essential: 0,
        };
        r
    }

    /// Count one decision.
    pub fn record(&mut self, f: DecisionFeat)
        requires
            old(self).wf(),
        ensures
            final(self).wf(),
            ({
                let v = verb_col(f.verb);
                let o = *old(self);
                let n = *final(self);
                let should_fence = f.essential_antidep || f.avoid_broadcast || f.force_prefix;
                let missed = f.verb == DecisionVerb::Unfenced && should_fence;
                &&& n.total_count() == wadd(o.total_count(), 1)
                &&& n.verb_counts() == bump_at(o.verb_counts(), v)
                &&& n.edge_counts() == bump_at(o.edge_counts(), v)
                &&& n.bin_counts() == bin_after(o.bin_counts(), f)
                &&& n.k_counts() == bump_at(o.k_counts(), k_class_spec(f.access_k) * 3 + v)
                &&& n.depth_counts() == bump_at(o.depth_counts(), depth_bucket_of(f.depth) * 3 + v)
                &&& n.inc_counts() == bump_at(o.inc_counts(), inc_bucket_of(f.incarnation) * 3 + v)
                &&& n.writer_counts() == bump_at(o.writer_counts(), writer_status_of(f) * 3 + v)
                &&& n.quality().missed_avoid == bump_if(o.quality().missed_avoid, missed)
                &&& n.quality().unfenced_essential == bump_if(o.quality().unfenced_essential, missed)
                &&& n.quality().false_fence_wait == bump_if(
                    o.quality().false_fence_wait,
                    f.verb == DecisionVerb::WaitFor && f.writer_published,
                )
                &&& n.quality().wait_no_writer == bump_if(
                    o.quality().wait_no_writer,
                    f.verb == DecisionVerb::WaitFor && !f.writer_present,
                )
                &&& n.quality().bind_no_publish == bump_if(
                    o.quality().bind_no_publish,
                    f.verb == DecisionVerb::Bind && !f.writer_published,
                )
            }),
    {
        let v = verb_index(f.verb);
        self.total = self.total.wrapping_add(1);
        bump_vec(&mut self.verb, v);
        bump_vec(&mut self.edge_kind_wr, v);
        bump_bins(&mut self.bin, &f);
        let kb: usize = if f.access_k == 0 {
            0
        } else if f.access_k <= 3 {
            1
        } else if f.access_k <= 7 {
            2
        } else if f.access_k <= 15 {
            3
        } else {
            4
        };
        bump_vec(&mut self.k_bucket, kb * 3 + v);
        let db: usize = if f.depth == 0 {
            0
        } else if f.depth <= 3 {
            1
        } else if f.depth <= 7 {
            2
        } else {
            3
        };
        bump_vec(&mut self.depth_bucket, db * 3 + v);
        let ib: usize = if f.incarnation == 0 {
            0
        } else if f.incarnation == 1 {
            1
        } else {
            2
        };
        bump_vec(&mut self.inc_bucket, ib * 3 + v);
        let ws: usize = if !f.writer_present {
            0
        } else if f.writer_validated {
            3
        } else if f.writer_executing {
            2
        } else if f.writer_ready {
            1
        } else {
            4
        };
        bump_vec(&mut self.writer_status, ws * 3 + v);
        let should_fence = f.essential_antidep || f.avoid_broadcast || f.force_prefix;
        let unfenced = match f.verb {
            DecisionVerb::Unfenced => true,
            _ => false,
        };
        let wait = match f.verb {
            DecisionVerb::WaitFor => true,
            _ => false,
        };
        let bind = match f.verb {
            DecisionVerb::Bind => true,
            _ => false,
        };
        if unfenced && should_fence {
            self.missed_avoid = self.missed_avoid.wrapping_add(1);
            self.unfenced_essential = self.unfenced_essential.wrapping_add(1);
        }
        if wait && f.writer_published {
            self.false_fence_wait = self.false_fence_wait.wrapping_add(1);
        }
        if wait && !f.writer_present {
            self.wait_no_writer = self.wait_no_writer.wrapping_add(1);
        }
        if bind && !f.writer_published {
            self.bind_no_publish = self.bind_no_publish.wrapping_add(1);
        }
    }
}

impl QualityProxies {
    pub open spec fn default_spec() -> QualityProxies {
        QualityProxies {
            missed_avoid: 0,
            false_fence_wait: 0,
            wait_no_writer: 0,
            bind_no_publish: 0,
            unfenced_essential: 0,
        }
    }
}

fn zero_vec(n: usize) -> (r: Vec<u64>)
    ensures
        r@ == Seq::new(n as nat, |i: int| 0u64),
{
    let mut v: Vec<u64> = Vec::new();
    while v.len() < n
        invariant
            v@.len() <= n,
            forall|i: int| 0 <= i < v@.len() ==> #[trigger] v@[i] == 0,
        decreases n - v.len(),
    {
        v.push(0);
    }
    assert(v@ =~= Seq::new(n as nat, |i: int| 0u64));
    v
}


/// Verb histogram of the three columns of `s` starting at `base`.
pub open spec fn hist_of(s: Seq<u64>, base: int) -> VerbHist {
    VerbHist { bind: s[base], wait_for: s[base + 1], unfenced: s[base + 2] }
}

fn hist_at(s: &Vec<u64>, base: usize) -> (r: VerbHist)
    requires
        base + 3 <= s@.len(),
        s@.len() <= FEATURES * 6,
    ensures
        r == hist_of(s@, base as int),
{
    VerbHist { bind: s[base], wait_for: s[base + 1], unfenced: s[base + 2] }
}

pub open spec fn zero_hist() -> VerbHist {
    VerbHist { bind: 0, wait_for: 0, unfenced: 0 }
}

/// Column-wise sum of two histograms.
pub open spec fn hist_sum(a: VerbHist, b: VerbHist) -> VerbHist {
    VerbHist {
        bind: (a.bind + b.bind) as u64,
        wait_for: (a.wait_for + b.wait_for) as u64,
        unfenced: (a.unfenced + b.unfenced) as u64,
    }
}

/// The column-wise sum of `a` and `b` fits in 64 bits.
pub open spec fn hist_fits(a: VerbHist, b: VerbHist) -> bool {
    &&& a.bind + b.bind <= u64::MAX
    &&& a.wait_for + b.wait_for <= u64::MAX
    &&& a.unfenced + b.unfenced <= u64::MAX
}

/// One keyed slot after a merge: a key present in `b` is added to the
/// slot of `a` (a missing slot counts as zero); other keys stay.
pub open spec fn slot_merge(a: Option<VerbHist>, b: Option<VerbHist>) -> Option<VerbHist> {
    match b {
        None => a,
        Some(y) => Some(
            hist_sum(
                match a {
                    Some(x) => x,
                    None => zero_hist(),
                },
                y,
            ),
        ),
    }
}

pub open spec fn slot_fits(a: Option<VerbHist>, b: Option<VerbHist>) -> bool {
    b is Some ==> hist_fits(
        match a {
            Some(x) => x,
            None => zero_hist(),
        },
        b->0,
    )
}

pub open spec fn slots_merge(a: Seq<Option<VerbHist>>, b: Seq<Option<VerbHist>>) -> Seq<
    Option<VerbHist>,
> {
    Seq::new(a.len(), |i: int| slot_merge(a[i], b[i]))
}

pub open spec fn slots_fit(a: Seq<Option<VerbHist>>, b: Seq<Option<VerbHist>>) -> bool {
    forall|i: int| 0 <= i < a.len() ==> slot_fits(#[trigger] a[i], b[i])
}

/// A binary row with both sides absent.
pub open spec fn empty_row() -> Seq<Option<VerbHist>> {
    seq![None, None]
}

/// One binary row after a merge.
pub open spec fn row_merge(a: Option<Seq<Option<VerbHist>>>, b: Option<Seq<Option<VerbHist>>>) -> Option<
    Seq<Option<VerbHist>>,
> {
    match b {
        None => a,
        Some(y) => Some(
            slots_merge(
                match a {
                    Some(x) => x,
                    None => empty_row(),
                },
                y,
            ),
        ),
    }
}

pub open spec fn row_fits(a: Option<Seq<Option<VerbHist>>>, b: Option<Seq<Option<VerbHist>>>) -> bool {
    b is Some ==> slots_fit(
        match a {
            Some(x) => x,
            None => empty_row(),
        },
        b->0,
    )
}


/// The histogram a slot stands for; an absent slot counts as zero.
pub open spec fn slot_hist(a: Option<VerbHist>) -> VerbHist {
    match a {
        Some(x) => x,
        None => zero_hist(),
    }
}

/// The column sums of three slots fit in 64 bits.
pub open spec fn slots3_fit(a: Option<VerbHist>, b: Option<VerbHist>, c: Option<VerbHist>) -> bool {
    let (x, y, z) = (slot_hist(a), slot_hist(b), slot_hist(c));
    &&& x.bind + y.bind + z.bind <= u64::MAX
    &&& x.wait_for + y.wait_for + z.wait_for <= u64::MAX
    &&& x.unfenced + y.unfenced + z.unfenced <= u64::MAX
}

/// An absent slot is the identity of a slot merge, on either side.
pub proof fn law_slot_merge_identity(a: Option<VerbHist>)
    ensures
        slot_merge(a, None) == a,
        slot_merge(None, a) == a,
{
}

/// Merging two slots does not depend on their order.
pub proof fn law_slot_merge_commutes(a: Option<VerbHist>, b: Option<VerbHist>)
    ensures
        slot_merge(a, b) == slot_merge(b, a),
{
}

/// Merging three slots does not depend on the grouping, when the column
/// sums fit.
pub proof fn law_slot_merge_associates(a: Option<VerbHist>, b: Option<VerbHist>, c: Option<VerbHist>)
    requires
        slots3_fit(a, b, c),
    ensures
        slot_merge(slot_merge(a, b), c) == slot_merge(a, slot_merge(b, c)),
{
}

/// A table of absent slots.
pub open spec fn no_slots(n: nat) -> Seq<Option<VerbHist>> {
    Seq::new(n, |i: int| None)
}

/// Merging keyed tables (the bucket tables, and each side pair of a binary
/// row): an empty table is the identity, the merge commutes, and it
/// associates when the column sums fit.
pub proof fn law_slots_merge_algebra(a: Seq<Option<VerbHist>>, b: Seq<Option<VerbHist>>, c: Seq<Option<VerbHist>>)
    requires
        a.len() == b.len(),
        b.len() == c.len(),
        forall|i: int| 0 <= i < a.len() ==> slots3_fit(#[trigger] a[i], b[i], c[i]),
    ensures
        slots_merge(a, no_slots(a.len())) == a,
        slots_merge(no_slots(a.len()), a) == a,
        slots_merge(a, b) == slots_merge(b, a),
        slots_merge(slots_merge(a, b), c) == slots_merge(a, slots_merge(b, c)),
{
    assert(slots_merge(a, no_slots(a.len())) =~= a);
    assert(slots_merge(no_slots(a.len()), a) =~= a);
    assert(slots_merge(a, b) =~= slots_merge(b, a));
    assert forall|i: int| 0 <= i < a.len() implies #[trigger] slots_merge(slots_merge(a, b), c)[i] == slots_merge(a, slots_merge(b, c))[i] by {
        law_slot_merge_associates(a[i], b[i], c[i]);
    }
    assert(slots_merge(slots_merge(a, b), c) =~= slots_merge(a, slots_merge(b, c)));
}

/// Merging binary rows (two sides each): an absent row is the identity,
/// the merge commutes, and it associates when the column sums fit.
pub proof fn law_row_merge_algebra(
    a: Option<Seq<Option<VerbHist>>>,
    b: Option<Seq<Option<VerbHist>>>,
    c: Option<Seq<Option<VerbHist>>>,
)
    requires
        a is Some ==> a->0.len() == 2,
        b is Some ==> b->0.len() == 2,
        c is Some ==> c->0.len() == 2,
        forall|i: int| 0 <= i < 2 ==> slots3_fit(
            #[trigger] row_side(a, i),
            row_side(b, i),
            row_side(c, i),
        ),
    ensures
        row_merge(a, None) == a,
        row_merge(None, a) == a,
        row_merge(a, b) == row_merge(b, a),
        row_merge(row_merge(a, b), c) == row_merge(a, row_merge(b, c)),
{
    let ra = row_or_empty(a);
    let rb = row_or_empty(b);
    let rc = row_or_empty(c);
    assert forall|i: int| 0 <= i < 2 implies slots3_fit(#[trigger] ra[i], rb[i], rc[i]) by {
        assert(row_side(a, i) == ra[i]);
    }
    law_slots_merge_algebra(ra, rb, rc);
    if a is Some {
        assert(slots_merge(empty_row(), a->0) =~= a->0);
    }
    if b is Some {
        assert(slots_merge(empty_row(), b->0) =~= b->0);
    }
    if c is Some {
        assert(slots_merge(empty_row(), c->0) =~= c->0);
    }
    assert(slots_merge(empty_row(), empty_row()) =~= empty_row());
    if a is Some && b is Some {
        assert(slots_merge(a->0, b->0) == slots_merge(b->0, a->0));
    }
    if a is Some && b is None {
        assert(row_merge(b, a) == Some(slots_merge(empty_row(), a->0)));
    }
    assert(no_slots(2) =~= empty_row());
}

/// The sides of a row; an absent row has two absent sides.
pub open spec fn row_or_empty(r: Option<Seq<Option<VerbHist>>>) -> Seq<Option<VerbHist>> {
    match r {
        Some(x) => x,
        None => empty_row(),
    }
}

/// Side `i` of a row.
pub open spec fn row_side(r: Option<Seq<Option<VerbHist>>>, i: int) -> Option<VerbHist> {
    row_or_empty(r)[i]
}

/// Histograms of one block, keyed by bucket or feature index.
pub struct DecisionFieldSnap {
    pub n_decisions: u64,
    pub verb: VerbHist,
    /// Rows by feature index; a present row holds its `false` and `true` sides.
    pub binary: Vec<Option<Vec<Option<VerbHist>>>>,
    pub k_bucket: Vec<Option<VerbHist>>,
    pub depth_bucket: Vec<Option<VerbHist>>,
    pub inc_bucket: Vec<Option<VerbHist>>,
    pub writer_status: Vec<Option<VerbHist>>,
    pub edge_kind_wr: VerbHist,
    pub quality: QualityProxies,
}

/// The binary rows as sequences.
pub open spec fn rows_view(rows: Seq<Option<Vec<Option<VerbHist>>>>) -> Seq<Option<Seq<Option<VerbHist>>>> {
    Seq::new(
        rows.len(),
        |i: int|
            match rows[i] {
                Some(v) => Some(v@),
                None => None,
            },
    )
}

impl DecisionFieldSnap {
    /// Every table has its fixed number of keys; present rows have two sides.
    pub open spec fn wf(self) -> bool {
        &&& self.binary@.len() == FEATURES
        &&& forall|i: int|
            0 <= i < FEATURES && #[trigger] self.binary@[i] is Some ==> self.binary@[i]->0@.len()
                == 2
        &&& self.k_bucket@.len() == 5
        &&& self.depth_bucket@.len() == 4
        &&& self.inc_bucket@.len() == 3
        &&& self.writer_status@.len() == 5
    }

    /// Every column of `self` plus `other` fits in 64 bits.
    pub open spec fn merge_fits(self, other: Self) -> bool {
        &&& self.n_decisions + other.n_decisions <= u64::MAX
        &&& hist_fits(self.verb, other.verb)
        &&& hist_fits(self.edge_kind_wr, other.edge_kind_wr)
        &&& self.quality.missed_avoid + other.quality.missed_avoid <= u64::MAX
        &&& self.quality.false_fence_wait + other.quality.false_fence_wait <= u64::MAX
        &&& self.quality.wait_no_writer + other.quality.wait_no_writer <= u64::MAX
        &&& self.quality.bind_no_publish + other.quality.bind_no_publish <= u64::MAX
        &&& self.quality.unfenced_essential + other.quality.unfenced_essential <= u64::MAX
        &&& forall|i: int|
            0 <= i < FEATURES ==> row_fits(
                #[trigger] rows_view(self.binary@)[i],
                rows_view(other.binary@)[i],
            )
        &&& slots_fit(self.k_bucket@, other.k_bucket@)
        &&& slots_fit(self.depth_bucket@, other.depth_bucket@)
        &&& slots_fit(self.inc_bucket@, other.inc_bucket@)
        &&& slots_fit(self.writer_status@, other.writer_status@)
    }

    /// An empty snapshot: zero counts, no keys.
    pub fn empty() -> (r: Self)
        ensures
            r.wf(),
            r.n_decisions == 0,
            r.verb == zero_hist(),
            r.edge_kind_wr == zero_hist(),
            r.quality == QualityProxies::default_spec(),
            forall|i: int| 0 <= i < FEATURES ==> #[trigger] r.binary@[i] is None,
            r.k_bucket@ == Seq::new(5, |i: int| None::<VerbHist>),
            r.depth_bucket@ == Seq::new(4, |i: int| None::<VerbHist>),
            r.inc_bucket@ == Seq::new(3, |i: int| None::<VerbHist>),
            r.writer_status@ == Seq::new(5, |i: int| None::<VerbHist>),
            r.snap_view() == empty_snap(),
    {
        let mut binary: Vec<Option<Vec<Option<VerbHist>>>> = Vec::new();
        while binary.len() < FEATURES
            invariant
                binary@.len() <= FEATURES,
                forall|i: int| 0 <= i < binary@.len() ==> #[trigger] binary@[i] is None,
            decreases FEATURES - binary.len(),
        {
            binary.push(None);
        }
        let r = DecisionFieldSnap {
            n_decisions: 0,
            verb: VerbHist { bind: 0, wait_for: 0, unfenced: 0 },
            binary,
            k_bucket: none_slots(5),
            depth_bucket: none_slots(4),
            inc_bucket: none_slots(3),
            writer_status: none_slots(5),
            edge_kind_wr: VerbHist { bind: 0, wait_for: 0, unfenced: 0 },
            quality: QualityProxies {
                missed_avoid: 0,
                false_fence_wait: 0,
                wait_no_writer: 0,
                bind_no_publish: 0,
                unfenced_essential: 0,
            },
        };
        proof {
            assert(rows_view(r.binary@) =~= Seq::new(FEATURES as nat, |i: int| None::<Seq<Option<VerbHist>>>));
        }
        r
    }

    /// Add `other` into `self`: every count is summed, keys present only in
    /// `other` appear in `self`, keys only in `self` stay.
    pub fn merge_from(&mut self, other: &Self)
        requires
            old(self).wf(),
            other.wf(),
            old(self).merge_fits(*other),
        ensures
            final(self).wf(),
            final(self).n_decisions == old(self).n_decisions + other.n_decisions,
            final(self).verb == hist_sum(old(self).verb, other.verb),
            final(self).edge_kind_wr == hist_sum(old(self).edge_kind_wr, other.edge_kind_wr),
            final(self).quality.missed_avoid == old(self).quality.missed_avoid
                + other.quality.missed_avoid,
            final(self).quality.false_fence_wait == old(self).quality.false_fence_wait
                + other.quality.false_fence_wait,
            final(self).quality.wait_no_writer == old(self).quality.wait_no_writer
                + other.quality.wait_no_writer,
            final(self).quality.bind_no_publish == old(self).quality.bind_no_publish
                + other.quality.bind_no_publish,
            final(self).quality.unfenced_essential == old(self).quality.unfenced_essential
                + other.quality.unfenced_essential,
            rows_view(final(self).binary@) == Seq::new(
                FEATURES as nat,
                |i: int| row_merge(rows_view(old(self).binary@)[i], rows_view(other.binary@)[i]),
            ),
            final(self).k_bucket@ == slots_merge(old(self).k_bucket@, other.k_bucket@),
            final(self).depth_bucket@ == slots_merge(old(self).depth_bucket@, other.depth_bucket@),
            final(self).inc_bucket@ == slots_merge(old(self).inc_bucket@, other.inc_bucket@),
            final(self).writer_status@ == slots_merge(
                old(self).writer_status@,
                other.writer_status@,
            ),
            final(self).snap_view() == snap_merge(old(self).snap_view(), other.snap_view()),
    {
        self.n_decisions = self.n_decisions + other.n_decisions;
        self.verb = add_hist(&self.verb, &other.verb);
        self.edge_kind_wr = add_hist(&self.edge_kind_wr, &other.edge_kind_wr);
        self.quality.missed_avoid = self.quality.missed_avoid + other.quality.missed_avoid;
        self.quality.false_fence_wait = self.quality.false_fence_wait
            + other.quality.false_fence_wait;
        self.quality.wait_no_writer = self.quality.wait_no_writer + other.quality.wait_no_writer;
        self.quality.bind_no_publish = self.quality.bind_no_publish
            + other.quality.bind_no_publish;
        self.quality.unfenced_essential = self.quality.unfenced_essential
            + other.quality.unfenced_essential;
        let mut binary: Vec<Option<Vec<Option<VerbHist>>>> = Vec::new();
        let mut i: usize = 0;
        while i < FEATURES
            invariant
                i <= FEATURES,
                self.binary@.len() == FEATURES,
                other.binary@.len() == FEATURES,
                forall|t: int|
                    0 <= t < FEATURES && #[trigger] self.binary@[t] is Some ==> self.binary@[t]->0@.len()
                        == 2,
                forall|t: int|
                    0 <= t < FEATURES && #[trigger] other.binary@[t] is Some
                        ==> other.binary@[t]->0@.len() == 2,
                forall|t: int|
                    0 <= t < FEATURES ==> row_fits(
                        #[trigger] rows_view(self.binary@)[t],
                        rows_view(other.binary@)[t],
                    ),
                binary@.len() == i,
                forall|t: int|
                    0 <= t < i ==> #[trigger] rows_view(binary@)[t] == row_merge(
                        rows_view(self.binary@)[t],
                        rows_view(other.binary@)[t],
                    ),
                forall|t: int| 0 <= t < i && #[trigger] binary@[t] is Some ==> binary@[t]->0@.len() == 2,
            decreases FEATURES - i,
        {
            let row: Option<Vec<Option<VerbHist>>> = match &other.binary[i] {
                None => match &self.binary[i] {
                    None => None,
                    Some(mine) => Some(copy_slots(mine)),
                },
                Some(theirs) => {
                    let base: Vec<Option<VerbHist>> = match &self.binary[i] {
                        None => none_slots(2),
                        Some(mine) => copy_slots(mine),
                    };
                    proof {
                        assert(base@ == (match rows_view(self.binary@)[i as int] {
                            Some(x) => x,
                            None => empty_row(),
                        })) by {
                            if self.binary@[i as int] is None {
                                assert(base@ =~= empty_row());
                            }
                        }
                        assert(rows_view(other.binary@)[i as int] == Some(theirs@));
                    }
                    Some(merge_slots(&base, theirs))
                },
            };
            let ghost prev = binary@;
            binary.push(row);
            proof {
                assert forall|t: int|
                    0 <= t < i + 1 implies #[trigger] rows_view(binary@)[t] == row_merge(
                    rows_view(self.binary@)[t],
                    rows_view(other.binary@)[t],
                ) by {
                    if t < i {
                        assert(binary@[t] == prev[t]);
                        assert(rows_view(prev)[t] == row_merge(
                            rows_view(self.binary@)[t],
                            rows_view(other.binary@)[t],
                        ));
                    }
                }
            }
            i = i + 1;
        }
        proof {
            assert(rows_view(binary@) =~= Seq::new(
                FEATURES as nat,
                |i: int| row_merge(rows_view(old(self).binary@)[i], rows_view(other.binary@)[i]),
            ));
        }
        self.binary = binary;
        self.k_bucket = merge_slots(&self.k_bucket, &other.k_bucket);
        self.depth_bucket = merge_slots(&self.depth_bucket, &other.depth_bucket);
        self.inc_bucket = merge_slots(&self.inc_bucket, &other.inc_bucket);
        self.writer_status = merge_slots(&self.writer_status, &other.writer_status);
        proof {
            assert(rows_merge(rows_view(old(self).binary@), rows_view(other.binary@)) =~= rows_view(self.binary@));
        }
    }
}

fn add_hist(a: &VerbHist, b: &VerbHist) -> (r: VerbHist)
    requires
        hist_fits(*a, *b),
    ensures
        r == hist_sum(*a, *b),
{
    VerbHist {
        bind: a.bind + b.bind,
        wait_for: a.wait_for + b.wait_for,
        unfenced: a.unfenced + b.unfenced,
    }
}

fn none_slots(n: usize) -> (r: Vec<Option<VerbHist>>)
    ensures
        r@ == Seq::new(n as nat, |i: int| None::<VerbHist>),
{
    let mut v: Vec<Option<VerbHist>> = Vec::new();
    while v.len() < n
        invariant
            v@.len() <= n,
            forall|i: int| 0 <= i < v@.len() ==> #[trigger] v@[i] is None,
        decreases n - v.len(),
    {
        v.push(None);
    }
    assert(v@ =~= Seq::new(n as nat, |i: int| None::<VerbHist>));
    v
}

fn copy_slots(a: &Vec<Option<VerbHist>>) -> (r: Vec<Option<VerbHist>>)
    ensures
        r@ == a@,
{
    let mut v: Vec<Option<VerbHist>> = Vec::new();
    let mut i: usize = 0;
    while i < a.len()
        invariant
            i <= a@.len(),
            v@ == a@.take(i as int),
        decreases a.len() - i,
    {
        let x: Option<VerbHist> = match &a[i] {
            Some(h) => Some(*h),
            None => None,
        };
        v.push(x);
        proof {
            assert(a@.take(i as int + 1) =~= a@.take(i as int).push(a@[i as int]));
        }
        i = i + 1;
    }
    assert(a@.take(a@.len() as int) =~= a@);
    v
}

fn merge_slots(a: &Vec<Option<VerbHist>>, b: &Vec<Option<VerbHist>>) -> (r: Vec<Option<VerbHist>>)
    requires
        a@.len() == b@.len(),
        slots_fit(a@, b@),
    ensures
        r@ == slots_merge(a@, b@),
{
    let mut v: Vec<Option<VerbHist>> = Vec::new();
    let mut i: usize = 0;
    while i < a.len()
        invariant
            i <= a@.len(),
            a@.len() == b@.len(),
            slots_fit(a@, b@),
            v@.len() == i,
            forall|t: int| 0 <= t < i ==> #[trigger] v@[t] == slot_merge(a@[t], b@[t]),
        decreases a.len() - i,
    {
        let x: Option<VerbHist> = match &b[i] {
            None => match &a[i] {
                Some(h) => Some(*h),
                None => None,
            },
            Some(y) => {
                let base = match &a[i] {
                    Some(h) => *h,
                    None => VerbHist { bind: 0, wait_for: 0, unfenced: 0 },
                };
                proof {
                    assert(slot_fits(a@[i as int], b@[i as int]));
                }
                Some(add_hist(&base, y))
            },
        };
        v.push(x);
        i = i + 1;
    }
    assert(v@ =~= slots_merge(a@, b@));
    v
}

impl DecisionFieldAgg {
    /// Histograms of the counts: every key is present.
    pub fn snapshot(&self) -> (r: DecisionFieldSnap)
        requires
            self.wf(),
        ensures
            r.wf(),
            r.n_decisions == self.total_count(),
            r.verb == hist_of(self.verb_counts(), 0),
            r.edge_kind_wr == hist_of(self.edge_counts(), 0),
            r.quality == self.quality(),
            forall|i: int|
                0 <= i < FEATURES ==> #[trigger] rows_view(r.binary@)[i] == Some(
                    seq![
                        Some(hist_of(self.bin_counts(), i * 6)),
                        Some(hist_of(self.bin_counts(), i * 6 + 3)),
                    ],
                ),
            forall|i: int|
                0 <= i < 5 ==> #[trigger] r.k_bucket@[i] == Some(hist_of(self.k_counts(), i * 3)),
            forall|i: int|
                0 <= i < 4 ==> #[trigger] r.depth_bucket@[i] == Some(
                    hist_of(self.depth_counts(), i * 3),
                ),
            forall|i: int|
                0 <= i < 3 ==> #[trigger] r.inc_bucket@[i] == Some(hist_of(self.inc_counts(), i * 3)),
            forall|i: int|
                0 <= i < 5 ==> #[trigger] r.writer_status@[i] == Some(
                    hist_of(self.writer_counts(), i * 3),
                ),
    {
        let mut binary: Vec<Option<Vec<Option<VerbHist>>>> = Vec::new();
        let mut i: usize = 0;
        while i < FEATURES
            invariant
                self.wf(),
                i <= FEATURES,
                binary@.len() == i,
                forall|t: int|
                    0 <= t < i ==> #[trigger] rows_view(binary@)[t] == Some(
                        seq![
                            Some(hist_of(self.bin@, t * 6)),
                            Some(hist_of(self.bin@, t * 6 + 3)),
                        ],
                    ),
                forall|t: int| 0 <= t < i ==> #[trigger] binary@[t] is Some && binary@[t]->0@.len() == 2,
            decreases FEATURES - i,
        {
            let mut row: Vec<Option<VerbHist>> = Vec::new();
            row.push(Some(hist_at(&self.bin, i * 6)));
            row.push(Some(hist_at(&self.bin, i * 6 + 3)));
            proof {
                assert(row@ =~= seq![
                    Some(hist_of(self.bin@, i * 6)),
                    Some(hist_of(self.bin@, i * 6 + 3)),
                ]);
            }
            let ghost prev = binary@;
            binary.push(Some(row));
            proof {
                assert forall|t: int| 0 <= t < i + 1 implies #[trigger] rows_view(binary@)[t] == Some(
                    seq![
                        Some(hist_of(self.bin@, t * 6)),
                        Some(hist_of(self.bin@, t * 6 + 3)),
                    ],
                ) by {
                    if t < i {
                        assert(binary@[t] == prev[t]);
                        assert(rows_view(prev)[t] == Some(
                            seq![
                                Some(hist_of(self.bin@, t * 6)),
                                Some(hist_of(self.bin@, t * 6 + 3)),
                            ],
                        ));
                    }
                }
            }
            i = i + 1;
        }
        DecisionFieldSnap {
            n_decisions: self.total,
            verb: hist_at(&self.verb, 0),
            binary,
            k_bucket: hist_slots(&self.k_bucket, 5),
            depth_bucket: hist_slots(&self.depth_bucket, 4),
            inc_bucket: hist_slots(&self.inc_bucket, 3),
            writer_status: hist_slots(&self.writer_status, 5),
            edge_kind_wr: hist_at(&self.edge_kind_wr, 0),
            quality: QualityProxies {
                missed_avoid: self.missed_avoid,
                false_fence_wait: self.false_fence_wait,
                wait_no_writer: self.wait_no_writer,
                bind_no_publish: self.bind_no_publish,
                unfenced_essential: self.unfenced_essential,
            },
        }
    }
}

fn hist_slots(s: &Vec<u64>, n: usize) -> (r: Vec<Option<VerbHist>>)
    requires
        s@.len() == n * 3,
        n <= 5,
    ensures
        r@.len() == n,
        forall|i: int| 0 <= i < n ==> #[trigger] r@[i] == Some(hist_of(s@, i * 3)),
{
    let mut v: Vec<Option<VerbHist>> = Vec::new();
    let mut i: usize = 0;
    while i < n
        invariant
            i <= n,
            n <= 5,
            s@.len() == n * 3,
            v@.len() == i,
            forall|t: int| 0 <= t < i ==> #[trigger] v@[t] == Some(hist_of(s@, t * 3)),
        decreases n - i,
    {
        v.push(Some(hist_at(s, i * 3)));
        i = i + 1;
    }
    v
}

/// Row name of binary feature `i`; `"reserved"` past the known features.
pub open spec fn feature_name_spec(i: usize) -> Seq<char> {
    if i == 0 {
        "is_program"@
    } else if i == 1 {
        "writer_published"@
    } else if i == 2 {
        "writer_validated"@
    } else if i == 3 {
        "writer_executing"@
    } else if i == 4 {
        "writer_ready"@
    } else if i == 5 {
        "writer_present"@
    } else if i == 6 {
        "avoid_broadcast"@
    } else if i == 7 {
        "canary_ok"@
    } else if i == 8 {
        "independence_certified"@
    } else if i == 9 {
        "essential_antidep"@
    } else if i == 10 {
        "force_prefix"@
    } else if i == 11 {
        "clique_gated"@
    } else if i == 12 {
        "in_hot_set_H"@
    } else if i == 13 {
        "prior_warm"@
    } else if i == 14 {
        "mode_read"@
    } else {
        "reserved"@
    }
}

/// Key name of access-ordinal bucket `i`.
pub open spec fn k_bucket_name_spec(i: usize) -> Seq<char> {
    if i == 0 {
        "k0"@
    } else if i == 1 {
        "k1_3"@
    } else if i == 2 {
        "k4_7"@
    } else if i == 3 {
        "k8_15"@
    } else {
        "k16p"@
    }
}

/// Key name of depth bucket `i`.
pub open spec fn depth_bucket_name_spec(i: usize) -> Seq<char> {
    if i == 0 {
        "d0"@
    } else if i == 1 {
        "d1_3"@
    } else if i == 2 {
        "d4_7"@
    } else {
        "d8p"@
    }
}

/// Key name of incarnation bucket `i`.
pub open spec fn inc_bucket_name_spec(i: usize) -> Seq<char> {
    if i == 0 {
        "inc0"@
    } else if i == 1 {
        "inc1"@
    } else {
        "inc2p"@
    }
}

/// Key name of writer-status bucket `i`.
pub open spec fn writer_status_name_spec(i: usize) -> Seq<char> {
    if i == 0 {
        "none"@
    } else if i == 1 {
        "ready"@
    } else if i == 2 {
        "executing"@
    } else if i == 3 {
        "validated"@
    } else {
        "other"@
    }
}

/// Row names of the binary table, by feature index.
pub fn feature_name(i: usize) -> (r: &'static str)
    requires
        i < FEATURES,
    ensures
        r@ == feature_name_spec(i),
{
    match i {
        0 => "is_program",
        1 => "writer_published",
        2 => "writer_validated",
        3 => "writer_executing",
        4 => "writer_ready",
        5 => "writer_present",
        6 => "avoid_broadcast",
        7 => "canary_ok",
        8 => "independence_certified",
        9 => "essential_antidep",
        10 => "force_prefix",
        11 => "clique_gated",
        12 => "in_hot_set_H",
        13 => "prior_warm",
        14 => "mode_read",
        _ => "reserved",
    }
}

/// Key names of the access-ordinal buckets.
pub fn k_bucket_name(i: usize) -> (r: &'static str)
    requires
        i < 5,
    ensures
        r@ == k_bucket_name_spec(i),
{
    match i {
        0 => "k0",
        1 => "k1_3",
        2 => "k4_7",
        3 => "k8_15",
        _ => "k16p",
    }
}

/// Key names of the depth buckets.
pub fn depth_bucket_name(i: usize) -> (r: &'static str)
    requires
        i < 4,
    ensures
        r@ == depth_bucket_name_spec(i),
{
    match i {
        0 => "d0",
        1 => "d1_3",
        2 => "d4_7",
        _ => "d8p",
    }
}

/// Key names of the incarnation buckets.
pub fn inc_bucket_name(i: usize) -> (r: &'static str)
    requires
        i < 3,
    ensures
        r@ == inc_bucket_name_spec(i),
{
    match i {
        0 => "inc0",
        1 => "inc1",
        _ => "inc2p",
    }
}

/// Key names of the writer-status buckets.
pub fn writer_status_name(i: usize) -> (r: &'static str)
    requires
        i < 5,
    ensures
        r@ == writer_status_name_spec(i),
{
    match i {
        0 => "none",
        1 => "ready",
        2 => "executing",
        3 => "validated",
        _ => "other",
    }
}

/// A snapshot as plain values: its counts, histograms, binary rows and
/// bucket tables.
pub struct SnapView {
    pub n_decisions: u64,
    pub verb: VerbHist,
    pub edge_kind_wr: VerbHist,
    pub quality: QualityProxies,
    pub binary: Seq<Option<Seq<Option<VerbHist>>>>,
    pub k_bucket: Seq<Option<VerbHist>>,
    pub depth_bucket: Seq<Option<VerbHist>>,
    pub inc_bucket: Seq<Option<VerbHist>>,
    pub writer_status: Seq<Option<VerbHist>>,
}

impl DecisionFieldSnap {
    pub open spec fn snap_view(self) -> SnapView {
        SnapView {
            n_decisions: self.n_decisions,
            verb: self.verb,
            edge_kind_wr: self.edge_kind_wr,
            quality: self.quality,
            binary: rows_view(self.binary@),
            k_bucket: self.k_bucket@,
            depth_bucket: self.depth_bucket@,
            inc_bucket: self.inc_bucket@,
            writer_status: self.writer_status@,
        }
    }
}

/// Field-wise sum of two sets of quality proxies.
pub open spec fn quality_sum(a: QualityProxies, b: QualityProxies) -> QualityProxies {
    QualityProxies {
        missed_avoid: (a.missed_avoid + b.missed_avoid) as u64,
        false_fence_wait: (a.false_fence_wait + b.false_fence_wait) as u64,
        wait_no_writer: (a.wait_no_writer + b.wait_no_writer) as u64,
        bind_no_publish: (a.bind_no_publish + b.bind_no_publish) as u64,
        unfenced_essential: (a.unfenced_essential + b.unfenced_essential) as u64,
    }
}

/// Row-wise merge of two sets of binary rows.
pub open spec fn rows_merge(a: Seq<Option<Seq<Option<VerbHist>>>>, b: Seq<Option<Seq<Option<VerbHist>>>>) -> Seq<Option<Seq<Option<VerbHist>>>> {
    Seq::new(a.len(), |i: int| row_merge(a[i], b[i]))
}

/// What `merge_from` makes of `a` with `b` merged in.
pub open spec fn snap_merge(a: SnapView, b: SnapView) -> SnapView {
    SnapView {
        n_decisions: (a.n_decisions + b.n_decisions) as u64,
        verb: hist_sum(a.verb, b.verb),
        edge_kind_wr: hist_sum(a.edge_kind_wr, b.edge_kind_wr),
        quality: quality_sum(a.quality, b.quality),
        binary: rows_merge(a.binary, b.binary),
        k_bucket: slots_merge(a.k_bucket, b.k_bucket),
        depth_bucket: slots_merge(a.depth_bucket, b.depth_bucket),
        inc_bucket: slots_merge(a.inc_bucket, b.inc_bucket),
        writer_status: slots_merge(a.writer_status, b.writer_status),
    }
}

/// The default (empty) snapshot.
pub open spec fn empty_snap() -> SnapView {
    SnapView {
        n_decisions: 0,
        verb: zero_hist(),
        edge_kind_wr: zero_hist(),
        quality: QualityProxies::default_spec(),
        binary: Seq::new(FEATURES as nat, |i: int| None::<Seq<Option<VerbHist>>>),
        k_bucket: Seq::new(5, |i: int| None::<VerbHist>),
        depth_bucket: Seq::new(4, |i: int| None::<VerbHist>),
        inc_bucket: Seq::new(3, |i: int| None::<VerbHist>),
        writer_status: Seq::new(5, |i: int| None::<VerbHist>),
    }
}

/// The tables have their fixed number of keys; present rows have two sides.
pub open spec fn snap_shaped(a: SnapView) -> bool {
    &&& a.binary.len() == FEATURES
    &&& forall|i: int| 0 <= i < FEATURES && #[trigger] a.binary[i] is Some ==> a.binary[i]->0.len() == 2
    &&& a.k_bucket.len() == 5
    &&& a.depth_bucket.len() == 4
    &&& a.inc_bucket.len() == 3
    &&& a.writer_status.len() == 5
}

pub open spec fn hists3_fit(a: VerbHist, b: VerbHist, c: VerbHist) -> bool {
    slots3_fit(Some(a), Some(b), Some(c))
}

pub open spec fn tables3_fit(a: Seq<Option<VerbHist>>, b: Seq<Option<VerbHist>>, c: Seq<Option<VerbHist>>) -> bool {
    forall|i: int| 0 <= i < a.len() ==> slots3_fit(#[trigger] a[i], b[i], c[i])
}

/// Every column of the three snapshots summed fits in 64 bits.
pub open spec fn snaps3_fit(a: SnapView, b: SnapView, c: SnapView) -> bool {
    &&& a.n_decisions + b.n_decisions + c.n_decisions <= u64::MAX
    &&& hists3_fit(a.verb, b.verb, c.verb)
    &&& hists3_fit(a.edge_kind_wr, b.edge_kind_wr, c.edge_kind_wr)
    &&& a.quality.missed_avoid + b.quality.missed_avoid + c.quality.missed_avoid <= u64::MAX
    &&& a.quality.false_fence_wait + b.quality.false_fence_wait + c.quality.false_fence_wait <= u64::MAX
    &&& a.quality.wait_no_writer + b.quality.wait_no_writer + c.quality.wait_no_writer <= u64::MAX
    &&& a.quality.bind_no_publish + b.quality.bind_no_publish + c.quality.bind_no_publish <= u64::MAX
    &&& a.quality.unfenced_essential + b.quality.unfenced_essential + c.quality.unfenced_essential <= u64::MAX
    &&& forall|i: int, k: int| 0 <= i < FEATURES && 0 <= k < 2 ==> slots3_fit(
        #[trigger] row_side(a.binary[i], k),
        row_side(b.binary[i], k),
        row_side(c.binary[i], k),
    )
    &&& tables3_fit(a.k_bucket, b.k_bucket, c.k_bucket)
    &&& tables3_fit(a.depth_bucket, b.depth_bucket, c.depth_bucket)
    &&& tables3_fit(a.inc_bucket, b.inc_bucket, c.inc_bucket)
    &&& tables3_fit(a.writer_status, b.writer_status, c.writer_status)
}

proof fn lemma_rows_algebra(
    a: Seq<Option<Seq<Option<VerbHist>>>>,
    b: Seq<Option<Seq<Option<VerbHist>>>>,
    c: Seq<Option<Seq<Option<VerbHist>>>>,
)
    requires
        a.len() == FEATURES,
        b.len() == FEATURES,
        c.len() == FEATURES,
        forall|i: int| 0 <= i < FEATURES && #[trigger] a[i] is Some ==> a[i]->0.len() == 2,
        forall|i: int| 0 <= i < FEATURES && #[trigger] b[i] is Some ==> b[i]->0.len() == 2,
        forall|i: int| 0 <= i < FEATURES && #[trigger] c[i] is Some ==> c[i]->0.len() == 2,
        forall|i: int, k: int| 0 <= i < FEATURES && 0 <= k < 2 ==> slots3_fit(
            #[trigger] row_side(a[i], k),
            row_side(b[i], k),
            row_side(c[i], k),
        ),
    ensures
        rows_merge(a, Seq::new(FEATURES as nat, |i: int| None::<Seq<Option<VerbHist>>>)) == a,
        rows_merge(Seq::new(FEATURES as nat, |i: int| None::<Seq<Option<VerbHist>>>), a) == a,
        rows_merge(a, b) == rows_merge(b, a),
        rows_merge(rows_merge(a, b), c) == rows_merge(a, rows_merge(b, c)),
{
    let none = Seq::new(FEATURES as nat, |i: int| None::<Seq<Option<VerbHist>>>);
    assert forall|i: int| 0 <= i < FEATURES implies {
        &&& #[trigger] row_merge(a[i], none[i]) == a[i]
        &&& row_merge(none[i], a[i]) == a[i]
        &&& row_merge(a[i], b[i]) == row_merge(b[i], a[i])
        &&& row_merge(row_merge(a[i], b[i]), c[i]) == row_merge(a[i], row_merge(b[i], c[i]))
    } by {
        assert forall|k: int| 0 <= k < 2 implies slots3_fit(#[trigger] row_side(a[i], k), row_side(b[i], k), row_side(c[i], k)) by {}
        law_row_merge_algebra(a[i], b[i], c[i]);
    }
    assert(rows_merge(a, none) =~= a);
    assert(rows_merge(none, a) =~= a);
    assert(rows_merge(a, b) =~= rows_merge(b, a));
    assert(rows_merge(rows_merge(a, b), c) =~= rows_merge(a, rows_merge(b, c)));
}

/// Merging whole snapshots: the default snapshot is the identity on either
/// side, the merge commutes, and it associates when every column of the
/// three summed fits in 64 bits.
pub proof fn law_snap_merge_algebra(a: SnapView, b: SnapView, c: SnapView)
    requires
        snap_shaped(a),
        snap_shaped(b),
        snap_shaped(c),
        snaps3_fit(a, b, c),
    ensures
        snap_merge(a, empty_snap()) == a,
        snap_merge(empty_snap(), a) == a,
        snap_merge(a, b) == snap_merge(b, a),
        snap_merge(snap_merge(a, b), c) == snap_merge(a, snap_merge(b, c)),
{
    lemma_rows_algebra(a.binary, b.binary, c.binary);
    law_slots_merge_algebra(a.k_bucket, b.k_bucket, c.k_bucket);
    law_slots_merge_algebra(a.depth_bucket, b.depth_bucket, c.depth_bucket);
    law_slots_merge_algebra(a.inc_bucket, b.inc_bucket, c.inc_bucket);
    law_slots_merge_algebra(a.writer_status, b.writer_status, c.writer_status);
    assert(no_slots(5) =~= Seq::new(5, |i: int| None::<VerbHist>));
    assert(no_slots(4) =~= Seq::new(4, |i: int| None::<VerbHist>));
    assert(no_slots(3) =~= Seq::new(3, |i: int| None::<VerbHist>));
    law_slot_merge_associates(Some(a.verb), Some(b.verb), Some(c.verb));
    law_slot_merge_associates(Some(a.edge_kind_wr), Some(b.edge_kind_wr), Some(c.edge_kind_wr));
    law_slot_merge_commutes(Some(a.verb), Some(b.verb));
    law_slot_merge_commutes(Some(a.edge_kind_wr), Some(b.edge_kind_wr));
}

} // verus!
