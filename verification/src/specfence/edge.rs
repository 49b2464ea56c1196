//! Per-access fencing: classify one access against the visibility of its
//! writer, then pick exactly one protocol verb (Bind, WaitFor or Unfenced).
//!
//! Only the live fields of an [`EdgeView`] (reader, writer identity, the
//! published version, the essential prediction and the independence
//! certificate) reach the verb. Every other field is observed and dropped.

use vstd::prelude::*;
use dashmap::DashMap;
use rustc_hash::FxBuildHasher;
use crate::types::{wrap_inc, wrapping_inc, MemoryLocationHash, TxIdx, TxVersion};

verus! {

/// Typed anti-dependency in preset order.
#[derive(Debug, Clone, Copy, PartialEq, Eq, Structural)]
pub enum EdgeKind {
    /// Writer then reader.
    Wr,
    /// Reader then writer.
    Rw,
    /// Writer then writer.
    Ww,
}

/// Version visibility on an edge.
#[derive(Debug, Clone, Copy, PartialEq, Eq, Structural)]
pub enum EdgeState {
    Unpublished,
    PublishedUncommitted,
    Validated,
}

/// Identity of one access: location, reader, access ordinal and frame depth.
/// The incarnation is deliberately not part of it.
#[derive(Debug, Clone, Copy, PartialEq, Eq, Structural)]
pub struct EdgeKey {
    pub location: MemoryLocationHash,
    pub reader: TxIdx,
    pub access_k: u32,
    pub depth: u8,
}

/// One typed edge recorded on an access.
#[derive(Debug, Clone, Copy, PartialEq, Eq, Structural)]
pub struct EdgeRec {
    pub writer: Option<TxIdx>,
    pub kind: EdgeKind,
    pub state: EdgeState,
}

/// Protocol verb for one access.
#[derive(Debug, Clone, Copy, PartialEq, Eq, Structural)]
pub enum EdgeAction {
    /// Install a published version. The writer need not be validated.
    Bind(TxVersion),
    /// Wait for an unpublished, predicted-essential, earlier writer.
    WaitFor(TxIdx),
    /// No barrier: the access runs optimistically.
    Unfenced,
}

/// Everything known about one access at decision time.
#[derive(Debug, Clone, Copy)]
pub struct EdgeView {
    pub location: MemoryLocationHash,
    pub reader: TxIdx,
    pub access_k: u32,
    pub access_depth: u8,
    pub writer: Option<TxIdx>,
    pub bind_version: Option<TxVersion>,
    /// The multi-version map holds data (not an estimate) for this writer.
    pub writer_published: bool,
    /// Observed only; never a condition of Bind.
    pub writer_validated: bool,
    pub is_program: bool,
    /// Observed only; never a wait door.
    pub in_hot_set: bool,
    /// Observed only; location-wide flag.
    pub avoid_broadcast: bool,
    /// Observed only.
    pub canary_ok: bool,
    /// Certificate that this access is independent.
    pub independence_certified: bool,
    /// The prediction: this access is predicted essential.
    pub predicted_essential: bool,
    /// Alias of `predicted_essential`.
    pub essential_antidep: bool,
    /// Observed only.
    pub force_prefix: bool,
    /// Observed only.
    pub clique_gated: bool,
    /// Observed only.
    pub writer_executing: bool,
    /// Observed only.
    pub writer_ready: bool,
}

/// Version-visibility class of an access.
#[derive(Debug, Clone, Copy, PartialEq, Eq, Structural)]
pub enum EdgeVisibility {
    /// Published data: bind it.
    PublishedData { version: TxVersion },
    /// Predicted essential, a known earlier writer, nothing published yet.
    UnpublishedEssential { writer: TxIdx },
    /// A serial-lane predecessor with a real writer identity.
    SerialLane { pred: TxIdx },
    Independent,
    Cold,
}

/// Bucket of an access ordinal: `0`, `1..=3`, `4..=7`, `8..=15`, `16..`.
pub open spec fn k_class_spec(k: u32) -> u8 {
    if k == 0 {
        0
    } else if k <= 3 {
        1
    } else if k <= 7 {
        2
    } else if k <= 15 {
        3
    } else {
        4
    }
}

/// Access-class bucket used by the predicted-essential table.
pub fn access_k_class(k: u32) -> (r: u8)
    ensures
        r == k_class_spec(k),
{
    if k == 0 {
        0
    } else if k <= 3 {
        1
    } else if k <= 7 {
        2
    } else if k <= 15 {
        3
    } else {
        4
    }
}

/// This access is predicted essential: the one door into a fence. is predicted essential.
pub open spec fn essential(v: EdgeView) -> bool {
    v.predicted_essential || v.essential_antidep
}

/// The classification table.
///
/// Under the prediction: a bind version wins; otherwise published data of a known
/// writer binds at incarnation 0; otherwise an earlier known writer is
/// waited for. Without the prediction, or with an independence certificate, the
/// access is independent; the rest is cold.
pub open spec fn classify_spec(v: EdgeView) -> EdgeVisibility {
    if essential(v) && v.bind_version is Some {
        EdgeVisibility::PublishedData { version: v.bind_version->0 }
    } else if essential(v) && v.writer_published && v.writer is Some {
        EdgeVisibility::PublishedData {
            version: TxVersion { tx_idx: v.writer->0, tx_incarnation: 0 },
        }
    } else if essential(v) && v.writer is Some && v.writer->0 < v.reader {
        EdgeVisibility::UnpublishedEssential { writer: v.writer->0 }
    } else if v.independence_certified || !essential(v) {
        EdgeVisibility::Independent
    } else {
        EdgeVisibility::Cold
    }
}

/// Verb of a visibility class.
pub open spec fn verb_of(vis: EdgeVisibility) -> EdgeAction {
    match vis {
        EdgeVisibility::PublishedData { version } => EdgeAction::Bind(version),
        EdgeVisibility::UnpublishedEssential { writer } => EdgeAction::WaitFor(writer),
        EdgeVisibility::SerialLane { pred } => EdgeAction::WaitFor(pred),
        EdgeVisibility::Independent => EdgeAction::Unfenced,
        EdgeVisibility::Cold => EdgeAction::Unfenced,
    }
}

/// Classify an access into its version-visibility class.
pub fn classify_edge(v: &EdgeView) -> (r: EdgeVisibility)
    ensures
        r == classify_spec(*v),
{
    let predicted = v.predicted_essential || v.essential_antidep;
    if predicted {
        if let Some(version) = v.bind_version {
            return EdgeVisibility::PublishedData { version };
        }
        if v.writer_published {
            if let Some(w) = v.writer {
                return EdgeVisibility::PublishedData {
                    version: TxVersion { tx_idx: w, tx_incarnation: 0 },
                };
            }
        }
        if let Some(w) = v.writer {
            if w < v.reader {
                return EdgeVisibility::UnpublishedEssential { writer: w };
            }
        }
    }
    if v.independence_certified || !predicted {
        return EdgeVisibility::Independent;
    }
    EdgeVisibility::Cold
}

/// Choose the protocol verb of an access.
pub fn choose_edge_action(v: &EdgeView) -> (r: EdgeAction)
    ensures
        r == verb_of(classify_spec(*v)),
{
    match classify_edge(v) {
        EdgeVisibility::PublishedData { version } => EdgeAction::Bind(version),
        EdgeVisibility::UnpublishedEssential { writer } => EdgeAction::WaitFor(writer),
        EdgeVisibility::SerialLane { pred } => EdgeAction::WaitFor(pred),
        EdgeVisibility::Independent => EdgeAction::Unfenced,
        EdgeVisibility::Cold => EdgeAction::Unfenced,
    }
}

/// Two views that agree on the live fields.
pub open spec fn same_live_fields(a: EdgeView, b: EdgeView) -> bool {
    &&& a.reader == b.reader
    &&& a.writer == b.writer
    &&& a.bind_version == b.bind_version
    &&& a.writer_published == b.writer_published
    &&& a.independence_certified == b.independence_certified
    &&& a.predicted_essential == b.predicted_essential
    &&& a.essential_antidep == b.essential_antidep
}

/// Observed-only fields never change the verb: two views that agree on the
/// reader, the writer, the bind version, publication, the prediction and the
/// independence certificate are classified alike, whatever their location,
/// ordinal, depth, validation, heat, broadcast, canary, prefix, clique or
/// writer-status fields say.
pub proof fn law_observed_fields_never_fence(a: EdgeView, b: EdgeView)
    requires
        same_live_fields(a, b),
    ensures
        classify_spec(a) == classify_spec(b),
        verb_of(classify_spec(a)) == verb_of(classify_spec(b)),
{
}

/// Without the essential prediction an access is never fenced.
pub proof fn law_ungated_is_unfenced(v: EdgeView)
    requires
        !essential(v),
    ensures
        classify_spec(v) == EdgeVisibility::Independent,
        verb_of(classify_spec(v)) == EdgeAction::Unfenced,
{
}

/// A wait always names a real writer that comes strictly before the reader,
/// that is not published, and only under the prediction.
pub proof fn law_wait_only_for_earlier_known_writer(v: EdgeView, w: TxIdx)
    requires
        verb_of(classify_spec(v)) == EdgeAction::WaitFor(w),
    ensures
        v.writer == Some(w),
        w < v.reader,
        essential(v),
        !v.writer_published,
        v.bind_version is None,
{
}

/// A bind happens only under the prediction, and binds either the given version
/// or the published writer at incarnation 0.
pub proof fn law_bind_only_published_when_essential(v: EdgeView, ver: TxVersion)
    requires
        verb_of(classify_spec(v)) == EdgeAction::Bind(ver),
    ensures
        essential(v),
        v.bind_version == Some(ver) || (v.bind_version is None && v.writer_published
            && v.writer == Some(ver.tx_idx) && ver.tx_incarnation == 0),
{
}

/// The classifier never invents a serial-lane predecessor.
pub proof fn law_no_ghost_serial_lane(v: EdgeView)
    ensures
        !(classify_spec(v) is SerialLane),
{
}

/// A predicted-essential access with an earlier unpublished writer is never
/// left unfenced.
pub proof fn law_essential_with_earlier_writer_is_fenced(v: EdgeView)
    requires
        essential(v),
        v.writer is Some,
        v.writer->0 < v.reader,
    ensures
        verb_of(classify_spec(v)) != EdgeAction::Unfenced,
{
}


/// The key the edge table files an access under.
pub open spec fn key_of(k: EdgeKey) -> (u64, usize, u32, u8) {
    (k.location, k.reader, k.access_k, k.depth)
}

/// The access a table key stands for.
pub open spec fn key_from(t: (u64, usize, u32, u8)) -> EdgeKey {
    EdgeKey { location: t.0, reader: t.1, access_k: t.2, depth: t.3 }
}

/// The records an edge map holds, by access key.
pub uninterp spec fn edge_entries(m: DashMap<(u64, usize, u32, u8), EdgeRec, FxBuildHasher>) -> Map<
    (u64, usize, u32, u8),
    EdgeRec,
>;

/// The locations an avoid map holds.
pub uninterp spec fn avoid_locs(m: DashMap<u64, (), FxBuildHasher>) -> Set<u64>;

/// `DashMap::with_hasher(FxBuildHasher)`: an empty edge map.
#[verifier::external_body]
fn edges_new() -> (r: DashMap<(u64, usize, u32, u8), EdgeRec, FxBuildHasher>)
    ensures
        edge_entries(r).dom().len() == 0,
        edge_entries(r).dom().finite(),
{
    DashMap::with_hasher(FxBuildHasher)
}

/// `DashMap::insert`: the record of `k` becomes `v`; `true` when `k` was new.
#[verifier::external_body]
fn edges_insert(
    m: &mut DashMap<(u64, usize, u32, u8), EdgeRec, FxBuildHasher>,
    k: (u64, usize, u32, u8),
    v: EdgeRec,
) -> (r: bool)
    ensures
        edge_entries(*final(m)) == edge_entries(*old(m)).insert(k, v),
        r == !edge_entries(*old(m)).dom().contains(k),
{
    m.insert(k, v).is_none()
}

/// `DashMap::get`, copying the record found.
#[verifier::external_body]
fn edges_get(m: &DashMap<(u64, usize, u32, u8), EdgeRec, FxBuildHasher>, k: (u64, usize, u32, u8)) -> (r:
    Option<EdgeRec>)
    ensures
        match r {
            Some(rec) => edge_entries(*m).dom().contains(k) && rec == edge_entries(*m)[k],
            None => !edge_entries(*m).dom().contains(k),
        },
{
    m.get(&k).map(|e| *e)
}

/// `DashMap::iter`: every entry once, in an order the map does not promise.
#[verifier::external_body]
fn edges_all(m: &DashMap<(u64, usize, u32, u8), EdgeRec, FxBuildHasher>) -> (r: Vec<((u64, usize, u32, u8), EdgeRec)>)
    ensures
        r@.map_values(|e: ((u64, usize, u32, u8), EdgeRec)| e.0).no_duplicates(),
        r@.map_values(|e: ((u64, usize, u32, u8), EdgeRec)| e.0).to_set() == edge_entries(*m).dom(),
        forall|i: int| 0 <= i < r@.len() ==> #[trigger] edge_entries(*m)[r@[i].0] == r@[i].1,
{
    m.iter().map(|e| (*e.key(), *e.value())).collect()
}

/// `DashMap::with_hasher(FxBuildHasher)`: an empty avoid map.
#[verifier::external_body]
fn avoid_new() -> (r: DashMap<u64, (), FxBuildHasher>)
    ensures
        avoid_locs(r).len() == 0,
        avoid_locs(r).finite(),
{
    DashMap::with_hasher(FxBuildHasher)
}

/// `DashMap::insert`: `true` when the location was new.
#[verifier::external_body]
fn avoid_insert(m: &mut DashMap<u64, (), FxBuildHasher>, k: u64) -> (r: bool)
    ensures
        avoid_locs(*final(m)) == avoid_locs(*old(m)).insert(k),
        r == !avoid_locs(*old(m)).contains(k),
{
    m.insert(k, ()).is_none()
}

/// `DashMap::contains_key`.
#[verifier::external_body]
fn avoid_contains(m: &DashMap<u64, (), FxBuildHasher>, k: u64) -> (r: bool)
    ensures
        r == avoid_locs(*m).contains(k),
{
    m.contains_key(&k)
}

/// The edge table as a mathematical value.
pub struct EdgeTableView {
    pub edges: Map<(u64, usize, u32, u8), EdgeRec>,
    pub avoid: Set<u64>,
    pub access_count: nat,
    pub avoid_count: nat,
    pub wr_count: nat,
    pub ww_count: nat,
}

/// Multi-touch edge table: one record per access `(location, reader,
/// ordinal, depth)`, never flattened to `(location, reader)`, and the
/// locations whose first confirmed publish broadcast an avoid verb.
pub struct EdgeTable {
    edges: DashMap<(u64, usize, u32, u8), EdgeRec, FxBuildHasher>,
    avoid: DashMap<u64, (), FxBuildHasher>,
    access_count: usize,
    avoid_count: usize,
    wr_count: usize,
    ww_count: usize,
}

impl View for EdgeTable {
    type V = EdgeTableView;

    closed spec fn view(&self) -> EdgeTableView {
        EdgeTableView {
            edges: edge_entries(self.edges),
            avoid: avoid_locs(self.avoid),
            access_count: self.access_count as nat,
            avoid_count: self.avoid_count as nat,
            wr_count: self.wr_count as nat,
            ww_count: self.ww_count as nat,
        }
    }
}

/// The keys of `v` that belong to `reader` on `location`.
pub open spec fn is_touch_of(t: (u64, usize, u32, u8), location: u64, reader: TxIdx) -> bool {
    t.0 == location && t.1 == reader
}

/// The table's recorded accesses of `reader` on a location of `invalid`.
pub open spec fn invalid_touch(v: EdgeTableView, t: (u64, usize, u32, u8), reader: TxIdx, invalid: Seq<u64>) -> bool {
    v.edges.dom().contains(t) && t.1 == reader && invalid.contains(t.0)
}

impl EdgeTable {
    /// The table's own invariant: its maps are finite.
    pub closed spec fn wf(&self) -> bool {
        self@.edges.dom().finite() && self@.avoid.finite()
    }

    pub fn new() -> (r: Self)
        ensures
            r.wf(),
            r@.edges == Map::<(u64, usize, u32, u8), EdgeRec>::empty(),
            r@.avoid == Set::<u64>::empty(),
            r@.access_count == 0,
            r@.avoid_count == 0,
            r@.wr_count == 0,
            r@.ww_count == 0,
    {
        let r = EdgeTable {
            edges: edges_new(),
            avoid: avoid_new(),
            access_count: 0,
            avoid_count: 0,
            wr_count: 0,
            ww_count: 0,
        };
        assert(r@.edges =~= Map::<(u64, usize, u32, u8), EdgeRec>::empty());
        assert(r@.avoid =~= Set::<u64>::empty());
        r
    }

    /// Record one typed edge on an access (a later record of the same
    /// access replaces it). A new access is counted, and so is every
    /// read-after-write and write-after-write edge.
    pub fn record(&mut self, key: EdgeKey, writer: Option<TxIdx>, kind: EdgeKind, state: EdgeState)
        requires
            old(self).wf(),
        ensures
            final(self).wf(),
            final(self)@ == (EdgeTableView {
                edges: old(self)@.edges.insert(key_of(key), EdgeRec { writer, kind, state }),
                access_count: if old(self)@.edges.dom().contains(key_of(key)) {
                    old(self)@.access_count
                } else {
                    wrap_inc(old(self)@.access_count)
                },
                wr_count: if kind == EdgeKind::Wr {
                    wrap_inc(old(self)@.wr_count)
                } else {
                    old(self)@.wr_count
                },
                ww_count: if kind == EdgeKind::Ww {
                    wrap_inc(old(self)@.ww_count)
                } else {
                    old(self)@.ww_count
                },
                ..old(self)@
            }),
    {
        let rec = EdgeRec { writer, kind, state };
        let fresh = edges_insert(
            &mut self.edges,
            (key.location, key.reader, key.access_k, key.depth),
            rec,
        );
        if fresh {
            self.access_count = wrapping_inc(self.access_count);
        }
        match kind {
            EdgeKind::Wr => {
                self.wr_count = wrapping_inc(self.wr_count);
            },
            EdgeKind::Ww => {
                self.ww_count = wrapping_inc(self.ww_count);
            },
            EdgeKind::Rw => {},
        }
    }

    /// The first confirmed publish on `location` broadcasts an avoid verb
    /// to its later readers; `true` only the first time.
    pub fn broadcast_avoid(&mut self, location: MemoryLocationHash) -> (r: bool)
        requires
            old(self).wf(),
        ensures
            final(self).wf(),
            r == !old(self)@.avoid.contains(location),
            final(self)@ == (EdgeTableView {
                avoid: old(self)@.avoid.insert(location),
                avoid_count: if r {
                    wrap_inc(old(self)@.avoid_count)
                } else {
                    old(self)@.avoid_count
                },
                ..old(self)@
            }),
    {
        if avoid_insert(&mut self.avoid, location) {
            self.avoid_count = wrapping_inc(self.avoid_count);
            true
        } else {
            false
        }
    }

    /// An avoid verb was broadcast on `location`.
    pub fn avoid_broadcast(&self, location: MemoryLocationHash) -> (r: bool)
        ensures
            r == self@.avoid.contains(location),
    {
        avoid_contains(&self.avoid, location)
    }

    /// Change the visibility of a recorded access; an unknown one stays unknown.
    pub fn set_state(&mut self, key: &EdgeKey, state: EdgeState)
        requires
            old(self).wf(),
        ensures
            final(self).wf(),
            final(self)@ == (if old(self)@.edges.dom().contains(key_of(*key)) {
                EdgeTableView {
                    edges: old(self)@.edges.insert(
                        key_of(*key),
                        EdgeRec { state, ..old(self)@.edges[key_of(*key)] },
                    ),
                    ..old(self)@
                }
            } else {
                old(self)@
            }),
    {
        let k = (key.location, key.reader, key.access_k, key.depth);
        if let Some(e) = edges_get(&self.edges, k) {
            let _ = edges_insert(&mut self.edges, k, EdgeRec { state, ..e });
        }
    }

    /// Every recorded access of `reader` on `location` (each once, in no
    /// promised order), with its record.
    pub fn accesses_of(&self, location: MemoryLocationHash, reader: TxIdx) -> (r: Vec<(EdgeKey, EdgeRec)>)
        ensures
            r@.map_values(|e: (EdgeKey, EdgeRec)| key_of(e.0)).no_duplicates(),
            r@.map_values(|e: (EdgeKey, EdgeRec)| key_of(e.0)).to_set() == self@.edges.dom().filter(
                |t: (u64, usize, u32, u8)| is_touch_of(t, location, reader),
            ),
            forall|i: int| 0 <= i < r@.len() ==> #[trigger] self@.edges[key_of(r@[i].0)] == r@[i].1,
    {
        let all = edges_all(&self.edges);
        let ghost ks = all@.map_values(|e: ((u64, usize, u32, u8), EdgeRec)| e.0);
        let mut out: Vec<(EdgeKey, EdgeRec)> = Vec::new();
        let ghost mut taken: Seq<int> = Seq::empty();
        let mut i: usize = 0;
        while i < all.len()
            invariant
                i <= all@.len(),
                ks == all@.map_values(|e: ((u64, usize, u32, u8), EdgeRec)| e.0),
                ks.no_duplicates(),
                ks.to_set() == self@.edges.dom(),
                forall|j: int| 0 <= j < all@.len() ==> #[trigger] self@.edges[all@[j].0] == all@[j].1,
                out@.len() == taken.len(),
                forall|q: int| 0 <= q < taken.len() ==> 0 <= #[trigger] taken[q] < i,
                forall|q: int, p: int| 0 <= q < p < taken.len() ==> taken[q] < taken[p],
                forall|q: int| 0 <= q < taken.len() ==> key_of(#[trigger] out@[q].0) == all@[taken[q]].0
                    && out@[q].1 == all@[taken[q]].1,
                forall|j: int| 0 <= j < i && is_touch_of(#[trigger] all@[j].0, location, reader) ==> taken.contains(j),
                forall|q: int| 0 <= q < taken.len() ==> is_touch_of(all@[#[trigger] taken[q]].0, location, reader),
            decreases all.len() - i,
        {
            let (t, rec) = all[i];
            if t.0 == location && t.1 == reader {
                out.push((EdgeKey { location: t.0, reader: t.1, access_k: t.2, depth: t.3 }, rec));
                proof {
                    let old_taken = taken;
                    taken = taken.push(i as int);
                    assert forall|j: int| 0 <= j <= i && is_touch_of(#[trigger] all@[j].0, location, reader) implies taken.contains(j) by {
                        if j == i {
                            assert(taken[taken.len() - 1] == j);
                        } else {
                            let q = choose|q: int| 0 <= q < old_taken.len() && old_taken[q] == j;
                            assert(taken[q] == j);
                        }
                    }
                }
            }
            i = i + 1;
        }
        proof {
            let outk = out@.map_values(|e: (EdgeKey, EdgeRec)| key_of(e.0));
            assert forall|q: int, p: int| 0 <= q < outk.len() && 0 <= p < outk.len() && q != p implies outk[q] != outk[p] by {
                assert(outk[q] == ks[taken[q]]);
                assert(outk[p] == ks[taken[p]]);
                if q < p {
                    assert(taken[q] < taken[p]);
                } else {
                    assert(taken[p] < taken[q]);
                }
            }
            let want = self@.edges.dom().filter(|t: (u64, usize, u32, u8)| is_touch_of(t, location, reader));
            assert forall|t: (u64, usize, u32, u8)| outk.to_set().contains(t) <==> want.contains(t) by {
                if outk.to_set().contains(t) {
                    let q = choose|q: int| 0 <= q < outk.len() && outk[q] == t;
                    assert(outk[q] == ks[taken[q]]);
                    assert(ks.to_set().contains(ks[taken[q]]));
                }
                if want.contains(t) {
                    assert(ks.to_set().contains(t));
                    let j = choose|j: int| 0 <= j < ks.len() && ks[j] == t;
                    assert(all@[j].0 == t);
                    assert(taken.contains(j));
                    let q = choose|q: int| 0 <= q < taken.len() && taken[q] == j;
                    assert(outk[q] == t);
                }
            }
            assert(outk.to_set() =~= want);
            assert forall|q: int| 0 <= q < out@.len() implies #[trigger] self@.edges[key_of(out@[q].0)] == out@[q].1 by {
                assert(self@.edges[all@[taken[q]].0] == all@[taken[q]].1);
            }
        }
        out
    }

    /// The smallest access ordinal that `reader` recorded on any location
    /// of `invalid`; `None` when it recorded none there.
    pub fn min_k_of_invalid(&self, reader: TxIdx, invalid: &[MemoryLocationHash]) -> (r: Option<usize>)
        ensures
            match r {
                None => forall|t: (u64, usize, u32, u8)| !invalid_touch(self@, t, reader, invalid@),
                Some(m) => {
                    &&& exists|t: (u64, usize, u32, u8)| #[trigger] invalid_touch(self@, t, reader, invalid@) && t.2 == m
                    &&& forall|t: (u64, usize, u32, u8)| #[trigger] invalid_touch(self@, t, reader, invalid@) ==> m <= t.2
                },
            },
    {
        let mut min_k: Option<u32> = None;
        let ghost mut seen: Set<(u64, usize, u32, u8)> = Set::empty();
        let mut i: usize = 0;
        while i < invalid.len()
            invariant
                i <= invalid@.len(),
                forall|t: (u64, usize, u32, u8)| #[trigger] seen.contains(t) ==> invalid_touch(self@, t, reader, invalid@),
                forall|t: (u64, usize, u32, u8)|
                    invalid_touch(self@, t, reader, invalid@) && invalid@.take(i as int).contains(t.0) ==> #[trigger] seen.contains(t),
                min_k is None <==> seen == Set::<(u64, usize, u32, u8)>::empty(),
                min_k matches Some(m) ==> (exists|t: (u64, usize, u32, u8)| #[trigger] seen.contains(t) && t.2 == m),
                min_k matches Some(m) ==> (forall|t: (u64, usize, u32, u8)| #[trigger] seen.contains(t) ==> m <= t.2),
            decreases invalid.len() - i,
        {
            let loc = invalid[i];
            let acc = self.accesses_of(loc, reader);
            let ghost ak = acc@.map_values(|e: (EdgeKey, EdgeRec)| key_of(e.0));
            let mut j: usize = 0;
            while j < acc.len()
                invariant
                    i < invalid@.len(),
                    loc == invalid@[i as int],
                    j <= acc@.len(),
                    ak == acc@.map_values(|e: (EdgeKey, EdgeRec)| key_of(e.0)),
                    ak.to_set() == self@.edges.dom().filter(|t: (u64, usize, u32, u8)| is_touch_of(t, loc, reader)),
                    forall|t: (u64, usize, u32, u8)| #[trigger] seen.contains(t) ==> invalid_touch(self@, t, reader, invalid@),
                    forall|t: (u64, usize, u32, u8)|
                        invalid_touch(self@, t, reader, invalid@) && invalid@.take(i as int).contains(t.0) ==> #[trigger] seen.contains(t),
                    forall|q: int| 0 <= q < j ==> seen.contains(#[trigger] ak[q]),
                    min_k is None <==> seen == Set::<(u64, usize, u32, u8)>::empty(),
                    min_k matches Some(m) ==> (exists|t: (u64, usize, u32, u8)| #[trigger] seen.contains(t) && t.2 == m),
                    min_k matches Some(m) ==> (forall|t: (u64, usize, u32, u8)| #[trigger] seen.contains(t) ==> m <= t.2),
                decreases acc.len() - j,
            {
                let k = acc[j].0.access_k;
                let ghost t = ak[j as int];
                proof {
                    assert(ak.to_set().contains(t));
                    assert(self@.edges.dom().contains(t) && is_touch_of(t, loc, reader));
                    assert(invalid@.contains(loc));
                    assert(t.2 == k);
                }
                min_k = match min_k {
                    None => Some(k),
                    Some(m) => Some(if k < m { k } else { m }),
                };
                proof {
                    let old_seen = seen;
                    seen = seen.insert(t);
                    assert(seen != Set::<(u64, usize, u32, u8)>::empty()) by {
                        assert(seen.contains(t));
                    }
                    let m = min_k->0;
                    if m == k {
                        assert(seen.contains(t) && t.2 == m);
                    } else {
                        let w = choose|w: (u64, usize, u32, u8)| #[trigger] old_seen.contains(w) && w.2 == m;
                        assert(seen.contains(w) && w.2 == m);
                    }
                }
                j = j + 1;
            }
            proof {
                assert forall|t: (u64, usize, u32, u8)|
                    invalid_touch(self@, t, reader, invalid@) && invalid@.take(i + 1).contains(t.0) implies #[trigger] seen.contains(t) by {
                    let q = choose|q: int| 0 <= q < i + 1 && #[trigger] invalid@.take(i + 1)[q] == t.0;
                    if q < i {
                        assert(invalid@.take(i as int)[q] == t.0);
                        assert(invalid@.take(i as int).contains(t.0));
                    } else {
                        assert(t.0 == loc);
                        assert(self@.edges.dom().filter(|u: (u64, usize, u32, u8)| is_touch_of(u, loc, reader)).contains(t));
                        assert(ak.to_set().contains(t));
                        let p = choose|p: int| 0 <= p < ak.len() && ak[p] == t;
                        assert(seen.contains(ak[p]));
                    }
                }
            }
            i = i + 1;
        }
        proof {
            assert(invalid@.take(invalid@.len() as int) =~= invalid@);
            if min_k is None {
                assert forall|t: (u64, usize, u32, u8)| !invalid_touch(self@, t, reader, invalid@) by {
                    if invalid_touch(self@, t, reader, invalid@) {
                        assert(invalid@.take(invalid@.len() as int).contains(t.0));
                        assert(seen.contains(t));
                    }
                }
            }
        }
        match min_k {
            None => {
                assert(forall|t: (u64, usize, u32, u8)| !invalid_touch(self@, t, reader, invalid@));
                None
            },
            Some(k) => {
                proof {
                    let w = choose|w: (u64, usize, u32, u8)| #[trigger] seen.contains(w) && w.2 == k;
                    assert(invalid_touch(self@, w, reader, invalid@) && w.2 == k as usize);
                    assert forall|t: (u64, usize, u32, u8)| #[trigger] invalid_touch(self@, t, reader, invalid@) implies k as usize <= t.2 by {
                        assert(invalid@.take(invalid@.len() as int).contains(t.0));
                        assert(seen.contains(t));
                    }
                }
                Some(k as usize)
            },
        }
    }

    /// How many later frames `reader` recorded on `location` after the
    /// access ordinal `access_k`.
    pub fn later_touches(&self, location: MemoryLocationHash, reader: TxIdx, access_k: u32) -> (r: usize)
        requires
            self.wf(),
        ensures
            r == self@.edges.dom().filter(
                |t: (u64, usize, u32, u8)| is_touch_of(t, location, reader) && t.2 > access_k,
            ).len(),
    {
        let acc = self.accesses_of(location, reader);
        let ghost ak = acc@.map_values(|e: (EdgeKey, EdgeRec)| key_of(e.0));
        let ghost mut matched: Set<(u64, usize, u32, u8)> = Set::empty();
        let mut count: usize = 0;
        let mut j: usize = 0;
        while j < acc.len()
            invariant
                j <= acc@.len(),
                ak == acc@.map_values(|e: (EdgeKey, EdgeRec)| key_of(e.0)),
                ak.no_duplicates(),
                matched.finite(),
                count == matched.len(),
                count <= j,
                forall|t: (u64, usize, u32, u8)| #[trigger] matched.contains(t) <==> (exists|q: int| 0 <= q < j && #[trigger] ak[q] == t && t.2 > access_k),
            decreases acc.len() - j,
        {
            let ghost t = ak[j as int];
            if acc[j].0.access_k > access_k {
                proof {
                    assert(!matched.contains(t)) by {
                        if matched.contains(t) {
                            let q = choose|q: int| 0 <= q < j && #[trigger] ak[q] == t && t.2 > access_k;
                            assert(ak[q] == ak[j as int]);
                        }
                    }
                    matched = matched.insert(t);
                    assert forall|u: (u64, usize, u32, u8)| #[trigger] matched.contains(u) <==> (exists|q: int| 0 <= q < j + 1 && #[trigger] ak[q] == u && u.2 > access_k) by {
                        if u == t {
                            assert(ak[j as int] == u);
                        }
                    }
                }
                count = count + 1;
            } else {
                proof {
                    assert forall|u: (u64, usize, u32, u8)| #[trigger] matched.contains(u) <==> (exists|q: int| 0 <= q < j + 1 && #[trigger] ak[q] == u && u.2 > access_k) by {
                        if exists|q: int| 0 <= q < j + 1 && #[trigger] ak[q] == u && u.2 > access_k {
                            let q = choose|q: int| 0 <= q < j + 1 && #[trigger] ak[q] == u && u.2 > access_k;
                            if q == j {
                                assert(ak[j as int].2 == acc@[j as int].0.access_k);
                            }
                        }
                    }
                }
            }
            j = j + 1;
        }
        proof {
            let want = self@.edges.dom().filter(
                |t: (u64, usize, u32, u8)| is_touch_of(t, location, reader) && t.2 > access_k,
            );
            assert forall|t: (u64, usize, u32, u8)| matched.contains(t) <==> want.contains(t) by {
                if matched.contains(t) {
                    let q = choose|q: int| 0 <= q < j && #[trigger] ak[q] == t && t.2 > access_k;
                    assert(ak.to_set().contains(t));
                }
                if want.contains(t) {
                    assert(self@.edges.dom().filter(|u: (u64, usize, u32, u8)| is_touch_of(u, location, reader)).contains(t));
                    assert(ak.to_set().contains(t));
                    let q = choose|q: int| 0 <= q < ak.len() && ak[q] == t;
                    assert(matched.contains(ak[q]));
                }
            }
            assert(matched =~= want);
        }
        count
    }

    /// Number of distinct accesses recorded.
    pub fn access_count(&self) -> (r: usize)
        ensures
            r == self@.access_count,
    {
        self.access_count
    }

    /// Number of avoid broadcasts.
    pub fn avoid_count(&self) -> (r: usize)
        ensures
            r == self@.avoid_count,
    {
        self.avoid_count
    }

    /// Number of read-after-write records.
    pub fn wr_count(&self) -> (r: usize)
        ensures
            r == self@.wr_count,
    {
        self.wr_count
    }

    /// Number of write-after-write records.
    pub fn ww_count(&self) -> (r: usize)
        ensures
            r == self@.ww_count,
    {
        self.ww_count
    }
}

} // verus!
