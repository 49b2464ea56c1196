//! Unfinished-writer count of an access: only writers that are not done are
//! counted, so a done multi-version tip never holds a reader back.

use vstd::prelude::*;
use crate::types::TxIdx;

verus! {

/// `w` is done by the scheduler's done flags; a transaction beyond them
/// (outside the block) counts as done.
pub open spec fn flag_done(done_flags: Seq<bool>, w: TxIdx) -> bool {
    w >= done_flags.len() || done_flags[w as int]
}

pub(crate) fn flag_done_exec(done_flags: &Vec<bool>, w: TxIdx) -> (r: bool)
    ensures
        r == flag_done(done_flags@, w),
{
    w >= done_flags.len() || done_flags[w]
}

/// The sketch writers that still count: before the reader and not done.
pub open spec fn live_sketch(sketch: Seq<TxIdx>, reader: TxIdx, done_flags: Seq<bool>) -> Seq<TxIdx> {
    sketch.filter(|w: TxIdx| w < reader && !flag_done(done_flags, w))
}

/// First multi-version tip among `mv_writer`, `residual`, `force`.
pub open spec fn first_tip(
    mv_writer: Option<TxIdx>,
    residual: Option<TxIdx>,
    force: Option<TxIdx>,
) -> Option<TxIdx> {
    if mv_writer is Some {
        mv_writer
    } else if residual is Some {
        residual
    } else {
        force
    }
}

/// `m` is the least element of `s`.
pub open spec fn is_min_of(s: Seq<TxIdx>, m: TxIdx) -> bool {
    s.contains(m) && forall|i: int| 0 <= i < s.len() ==> m <= #[trigger] s[i]
}

/// Compose the writer identity of an access and the number of unfinished
/// writers before `reader`, by the scheduler's done flags.
///
/// The writer is the first of `mv_writer`, `residual`, `force` when it comes
/// before the reader, else the least live sketch writer. The count is the
/// number of live sketch writers, plus one when the chosen writer is not
/// done and not already among them.
pub fn compose_unfinished(
    sketch: Vec<TxIdx>,
    mv_writer: Option<TxIdx>,
    residual: Option<TxIdx>,
    force: Option<TxIdx>,
    reader: TxIdx,
    done_flags: &Vec<bool>,
) -> (r: (Option<TxIdx>, usize))
    requires
        sketch@.len() < usize::MAX,
    ensures
        ({
            let live = live_sketch(sketch@, reader, done_flags@);
            let first = first_tip(mv_writer, residual, force);
            let from_mv = first is Some && first->0 < reader;
            &&& from_mv ==> r.0 == first
            &&& !from_mv && live.len() == 0 ==> r.0 is None
            &&& !from_mv && live.len() > 0 ==> r.0 is Some && is_min_of(live, r.0->0)
            &&& r.1 == live.len() + (if from_mv && !flag_done(done_flags@, first->0) && !live.contains(
                first->0,
            ) {
                1nat
            } else {
                0nat
            })
        }),
{
    let ghost live = live_sketch(sketch@, reader, done_flags@);
    let mut kept: Vec<TxIdx> = Vec::new();
    let mut i: usize = 0;
    while i < sketch.len()
        invariant
            i <= sketch.len(),
            kept@ == live_sketch(sketch@.take(i as int), reader, done_flags@),
            kept@.len() <= i,
        decreases sketch.len() - i,
    {
        let w = sketch[i];
        proof {
            reveal_with_fuel(Seq::<_>::filter, 1);
            assert(sketch@.take(i as int + 1).drop_last() =~= sketch@.take(i as int));
            assert(sketch@.take(i as int + 1).last() == w);
        }
        if w < reader {
            let d = flag_done_exec(done_flags, w);
            if !d {
                kept.push(w);
            }
        }
        i = i + 1;
    }
    proof {
        assert(sketch@.take(sketch.len() as int) =~= sketch@);
    }
    let first = match mv_writer {
        Some(w) => Some(w),
        None => match residual {
            Some(w) => Some(w),
            None => force,
        },
    };
    let tip = match first {
        Some(w) if w < reader => Some(w),
        _ => {
            if kept.len() == 0 {
                None
            } else {
                let mut m = kept[0];
                let mut j: usize = 1;
                while j < kept.len()
                    invariant
                        1 <= j <= kept.len(),
                        kept@.contains(m),
                        forall|t: int| 0 <= t < j ==> m <= #[trigger] kept@[t],
                    decreases kept.len() - j,
                {
                    if kept[j] < m {
                        m = kept[j];
                    }
                    j = j + 1;
                }
                Some(m)
            }
        },
    };
    assert(kept@.len() <= sketch@.len());
    let mut n = kept.len();
    if let Some(w) = tip {
        let d = flag_done_exec(done_flags, w);
        if !d {
            let mut found = false;
            let mut j: usize = 0;
            while j < kept.len()
                invariant
                    j <= kept.len(),
                    found == (exists|t: int| 0 <= t < j && kept@[t] == w),
                decreases kept.len() - j,
            {
                if kept[j] == w {
                    found = true;
                }
                j = j + 1;
            }
            if !found {
                proof {
                    assert(!kept@.contains(w));
                }
                n = n + 1;
            }
        }
    }
    (tip, n)
}

} // verus!
