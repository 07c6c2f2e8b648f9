//! The data carried by the engine: elements under sort, the closed set of
//! visualization events, and the pacing policy that assigns a pause to each
//! kind of event.

use vstd::prelude::*;

verus! {

/// The role an element currently plays in the algorithm. Phases are opaque
/// tags: the engine never branches on them, and mapping a phase to a visual
/// representation is entirely the consumer's concern.
#[derive(Clone, Copy, PartialEq, Eq, Structural, Debug)]
pub enum Phase {
    /// At rest; also the state every index is returned to when a merge level
    /// completes and by the unconditional final pass.
    Neutral,
    /// Inside a sub-range that is about to be split.
    Dividing,
    /// Inside the left sorted run of a merge.
    LeftMergeCandidate,
    /// Inside the right sorted run of a merge.
    RightMergeCandidate,
    /// Just written to its slot from the left run.
    PlacedFromLeft,
    /// Just written to its slot from the right run.
    PlacedFromRight,
}

/// One position of the sequence being sorted: an orderable value plus a
/// purely advisory presentation tag. The engine compares values only and
/// copies whole elements, so equal-valued elements stay distinguishable.
#[derive(Clone, Copy, PartialEq, Eq, Structural, Debug)]
pub struct Element {
    pub value: u64,
    pub phase: Phase,
}

/// One visualization-relevant event, self-contained and immutable. Every
/// index it carries lies within the original sequence, and every `Overwrite`
/// snapshot is a full copy of an element that existed in the sequence when
/// the event was recorded.
#[derive(Clone, Copy, PartialEq, Eq, Structural, Debug)]
pub enum Operation {
    /// The element at the index changed role; its value is untouched.
    SetPhase(usize, Phase),
    /// The two indices were just compared; no outcome is carried.
    Compare(usize, usize),
    /// The slot at the index now holds the given element snapshot.
    Overwrite(usize, Element),
}

/// An operation together with the pause, in milliseconds, that the engine
/// asks the host to observe after delivering it. Pacing is data, not
/// behavior: the engine never sleeps itself, so a host may honor, scale or
/// ignore the pauses without touching the algorithm.
#[derive(Clone, Copy, PartialEq, Eq, Structural, Debug)]
pub struct TimedOp {
    pub op: Operation,
    pub pause_after_millis: u64,
}

/// The pause assigned to each instrumentation point. Injecting a `Pacing`
/// keeps the engine's timing behavior swappable independently of its
/// algorithmic behavior: tests run with [`Pacing::zero`], a human-facing
/// host with [`Pacing::standard`].
#[derive(Clone, Copy, PartialEq, Eq, Structural, Debug)]
pub struct Pacing {
    /// After marking a sub-range `Dividing`.
    pub divide_millis: u64,
    /// After marking both runs of a merge as candidates.
    pub merge_mark_millis: u64,
    /// After each comparison.
    pub compare_millis: u64,
    /// After each placement decided by a comparison.
    pub place_millis: u64,
    /// After each placement made while draining an exhausted merge.
    pub drain_millis: u64,
    /// After resetting a merged sub-range to `Neutral`.
    pub reset_millis: u64,
}

impl Pacing {
    /// The human-perceivable pacing the engine was designed around.
    pub open spec fn standard_spec() -> Pacing {
        Pacing {
            divide_millis: 100,
            merge_mark_millis: 100,
            compare_millis: 80,
            place_millis: 60,
            drain_millis: 40,
            reset_millis: 50,
        }
    }

    /// The human-perceivable pacing the engine was designed around.
    pub fn standard() -> (p: Pacing)
        ensures
            p == Pacing::standard_spec(),
    {
        Pacing {
            divide_millis: 100,
            merge_mark_millis: 100,
            compare_millis: 80,
            place_millis: 60,
            drain_millis: 40,
            reset_millis: 50,
        }
    }

    /// No pauses at all, for hosts and tests that want the raw trace.
    pub open spec fn zero_spec() -> Pacing {
        Pacing {
            divide_millis: 0,
            merge_mark_millis: 0,
            compare_millis: 0,
            place_millis: 0,
            drain_millis: 0,
            reset_millis: 0,
        }
    }

    /// No pauses at all, for hosts and tests that want the raw trace.
    pub fn zero() -> (p: Pacing)
        ensures
            p == Pacing::zero_spec(),
    {
        Pacing {
            divide_millis: 0,
            merge_mark_millis: 0,
            compare_millis: 0,
            place_millis: 0,
            drain_millis: 0,
            reset_millis: 0,
        }
    }
}

/// Builds a [`TimedOp`]; the spec-level counterpart of the engine's emission.
pub open spec fn timed(op: Operation, pause_after_millis: u64) -> TimedOp {
    TimedOp { op, pause_after_millis }
}

} // verus!
