//! The avoid decision of one access: wait for a single executing writer,
//! order behind a multi-writer lane, bind published data (rarely), or stay
//! unfenced and read optimistically.
//!
//! The decision reads what the live learner and the Bayesian region model
//! answer for this access; those answers are its inputs here.

use vstd::prelude::*;
use crate::types::TxIdx;

verus! {

/// Visibility and learning features gathered on a predicted-essential hit.
#[derive(Debug, Clone, Copy, PartialEq, Eq, Structural)]
pub struct AccessVis {
    pub published_data: bool,
    pub writer: Option<TxIdx>,
    pub writer_executing: bool,
    pub unfinished: usize,
    pub in_serial_lane: bool,
    pub hot: bool,
    pub ws_hat: bool,
    /// A stale prediction may unfence when independence is certified.
    pub independence_certified: bool,
    /// The multi-version tip is the predicted read-after-write producer.
    pub tip_is_conflict_producer: bool,
}

/// Live verb of one access.
#[derive(Debug, Clone, Copy, PartialEq, Eq, Structural)]
pub enum AccessDecision {
    /// Read optimistically (no fence body).
    UnfencedOcc { predicted: bool, roi_skip: bool },
    /// Bind the published data for this access.
    Bind,
    /// Wait for a single executing writer.
    WaitFor { writer: TxIdx },
    /// Order behind a multi-writer lane.
    SerialLane { writer: TxIdx },
}

/// What the live learner answers for this access (location and ordinal).
#[derive(Debug, Clone, Copy, PartialEq, Eq, Structural)]
pub struct LearnerAnswers {
    /// Some location is predicted essential this block.
    pub has_any_predicted: bool,
    /// This access is predicted essential.
    pub predicted: bool,
    /// It is predicted essential from this block's own aborts.
    pub predicted_intra: bool,
    /// The block morph is dominated by read fan-out.
    pub dominant_fan_out: bool,
    /// Fences are off on a quiet morph.
    pub quiet_fence_off: bool,
    /// A fired prior prediction wins on this visibility.
    pub prior_pe_fire_wins: bool,
    /// Binding costs more than it saves this block.
    pub bind_tax_losing: bool,
}

/// What the Bayesian region model answers for this access.
#[derive(Debug, Clone, Copy, PartialEq, Eq, Structural)]
pub struct BayesAnswers {
    pub known_star: bool,
    pub quiet_cold: bool,
    pub ev_pin_beats_abort: bool,
    /// The conflict sits at least half-way down the writer's execution.
    pub deep_enough: bool,
    pub ev_bind_beats_b0: bool,
}

pub open spec fn unfenced(predicted: bool, roi_skip: bool) -> AccessDecision {
    AccessDecision::UnfencedOcc { predicted, roi_skip }
}

/// The decision, as the access-avoid policy states it.
pub open spec fn decide_spec(
    l: LearnerAnswers,
    vis: Option<AccessVis>,
    bayes: Option<BayesAnswers>,
) -> AccessDecision {
    if !l.has_any_predicted || !l.predicted {
        unfenced(false, false)
    } else if vis is None {
        unfenced(true, true)
    } else {
        let v = vis->0;
        if v.independence_certified && v.unfinished == 0 && !l.predicted_intra {
            unfenced(true, true)
        } else {
            let known_star = bayes matches Some(q) && q.known_star && !q.quiet_cold;
            let ev_adapter = !l.quiet_fence_off && (l.predicted_intra || (l.dominant_fan_out
                && l.prior_pe_fire_wins));
            let ev_pin = match bayes {
                Some(q) => if l.quiet_fence_off && !known_star {
                    false
                } else {
                    q.ev_pin_beats_abort || q.deep_enough || known_star
                },
                None => known_star || ev_adapter,
            };
            let bind_ev = match bayes {
                Some(q) => (q.ev_bind_beats_b0 || q.known_star) && (!l.quiet_fence_off
                    || known_star),
                None => ev_adapter,
            };
            if v.unfinished == 1 && v.writer_executing && v.writer is Some && ev_pin {
                AccessDecision::WaitFor { writer: v.writer->0 }
            } else if (v.unfinished > 1 || (v.in_serial_lane && v.unfinished > 0)) && ev_pin
                && v.writer_executing && v.writer is Some {
                AccessDecision::SerialLane { writer: v.writer->0 }
            } else if v.unfinished == 0 && v.published_data && v.tip_is_conflict_producer
                && bind_ev && !l.bind_tax_losing {
                AccessDecision::Bind
            } else {
                unfenced(true, true)
            }
        }
    }
}

/// The avoid decision with the Bayesian answers, when the region model
/// was queried.
pub fn decide_queried(
    l: &LearnerAnswers,
    vis: Option<&AccessVis>,
    bayes: Option<BayesAnswers>,
) -> (r: AccessDecision)
    ensures
        r == decide_spec(
            *l,
            match vis {
                Some(v) => Some(*v),
                None => None,
            },
            bayes,
        ),
{
    if !l.has_any_predicted {
        return AccessDecision::UnfencedOcc { predicted: false, roi_skip: false };
    }
    if !l.predicted {
        return AccessDecision::UnfencedOcc { predicted: false, roi_skip: false };
    }
    let vis = match vis {
        None => {
            return AccessDecision::UnfencedOcc { predicted: true, roi_skip: true };
        },
        Some(v) => v,
    };
    if vis.independence_certified && vis.unfinished == 0 && !l.predicted_intra {
        return AccessDecision::UnfencedOcc { predicted: true, roi_skip: true };
    }
    let intra = l.predicted_intra;
    let fan = l.dominant_fan_out;
    let quiet_off = l.quiet_fence_off;
    let known_star = match bayes {
        Some(q) => q.known_star && !q.quiet_cold,
        None => false,
    };
    let ev_adapter = !quiet_off && (intra || (fan && l.prior_pe_fire_wins));
    let ev_pin = match bayes {
        Some(q) => {
            if quiet_off && !known_star {
                false
            } else {
                q.ev_pin_beats_abort || q.deep_enough || known_star
            }
        },
        None => known_star || ev_adapter,
    };
    let bind_ev = match bayes {
        Some(q) => (q.ev_bind_beats_b0 || q.known_star) && (!quiet_off || known_star),
        None => ev_adapter,
    };
    if vis.unfinished == 1 && vis.writer_executing && ev_pin {
        if let Some(w) = vis.writer {
            return AccessDecision::WaitFor { writer: w };
        }
    }
    if vis.unfinished > 1 || (vis.in_serial_lane && vis.unfinished > 0) {
        if ev_pin && vis.writer_executing {
            if let Some(w) = vis.writer {
                return AccessDecision::SerialLane { writer: w };
            }
        }
    }
    if vis.unfinished == 0 && vis.published_data && vis.tip_is_conflict_producer && bind_ev
        && !l.bind_tax_losing {
        return AccessDecision::Bind;
    }
    AccessDecision::UnfencedOcc { predicted: true, roi_skip: true }
}

/// The avoid decision without a Bayesian query.
pub fn decide(l: &LearnerAnswers, vis: Option<&AccessVis>) -> (r: AccessDecision)
    ensures
        r == decide_spec(
            *l,
            match vis {
                Some(v) => Some(*v),
                None => None,
            },
            None,
        ),
{
    decide_queried(l, vis, None)
}

/// An access that is not predicted essential is never fenced, and one
/// without gathered visibility is never fenced either.
pub proof fn law_no_prediction_no_fence(
    l: LearnerAnswers,
    vis: Option<AccessVis>,
    bayes: Option<BayesAnswers>,
)
    ensures
        !l.has_any_predicted || !l.predicted ==> decide_spec(l, vis, bayes) == unfenced(false, false),
        l.has_any_predicted && l.predicted && vis is None ==> decide_spec(l, vis, bayes) == unfenced(
            true,
            true,
        ),
{
}

/// The fences keep their promises: a wait or a lane always names the
/// visible writer, which is executing; binding needs published data from
/// the conflict producer with no writer unfinished.
pub proof fn law_fence_targets_visible_writer(
    l: LearnerAnswers,
    vis: AccessVis,
    bayes: Option<BayesAnswers>,
)
    ensures
        decide_spec(l, Some(vis), bayes) matches AccessDecision::WaitFor { writer } ==> vis.writer
            == Some(writer) && vis.writer_executing && vis.unfinished == 1,
        decide_spec(l, Some(vis), bayes) matches AccessDecision::SerialLane { writer } ==> vis.writer
            == Some(writer) && vis.writer_executing && vis.unfinished > 0,
        decide_spec(l, Some(vis), bayes) == AccessDecision::Bind ==> vis.unfinished == 0
            && vis.published_data && vis.tip_is_conflict_producer && !l.bind_tax_losing,
{
}

/// Hot-set and write-set-estimate marks are priors, not doors: they never
/// change the decision.
pub proof fn law_hot_marks_do_not_decide(
    l: LearnerAnswers,
    vis: AccessVis,
    bayes: Option<BayesAnswers>,
    hot: bool,
    ws_hat: bool,
)
    ensures
        decide_spec(l, Some(vis), bayes) == decide_spec(
            l,
            Some(AccessVis { hot, ws_hat, ..vis }),
            bayes,
        ),
{
}

/// On a quiet morph, without a known-star posterior, no access is pinned
/// to a writer.
pub proof fn law_quiet_without_star_never_waits(
    l: LearnerAnswers,
    vis: AccessVis,
    q: BayesAnswers,
)
    requires
        l.quiet_fence_off,
        !(q.known_star && !q.quiet_cold),
    ensures
        !(decide_spec(l, Some(vis), Some(q)) is WaitFor),
        !(decide_spec(l, Some(vis), Some(q)) is SerialLane),
        !(decide_spec(l, Some(vis), Some(q)) is Bind),
{
}

} // verus!
