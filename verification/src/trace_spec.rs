//! The mathematical model of the emitted stream: for a given input and
//! pacing, exactly which operations the engine records, in which order, and
//! with which pauses. The engine's trace is pinned to these functions, so the
//! stream is deterministic by construction.

use vstd::prelude::*;
use crate::model::{Element, Operation, Pacing, Phase, TimedOp, timed};
use crate::sort_spec::{left_run_len, merge_seq, sort_seq};

verus! {

/// One `SetPhase(i, phase)` per index of `[lo, hi]`, in index order, pausing
/// only after the last mark; empty when the range is.
pub open spec fn phase_marks(lo: int, hi: int, phase: Phase, last_pause: u64) -> Seq<TimedOp> {
    Seq::new(
        if hi >= lo {
            (hi - lo + 1) as nat
        } else {
            0
        },
        |k: int|
            timed(
                Operation::SetPhase((lo + k) as usize, phase),
                if lo + k == hi {
                    last_pause
                } else {
                    0
                },
            ),
    )
}

/// The walk of a merge: `a` and `b` are the unconsumed suffixes of the two
/// snapshot buffers, `ai` and `bj` the original indices of their heads, and
/// `k` the next destination slot. While both runs have elements a comparison
/// is recorded before each placement; once one run is exhausted the other is
/// drained without comparisons, with the shorter drain pause.
pub open spec fn merge_walk(
    a: Seq<Element>,
    b: Seq<Element>,
    ai: int,
    bj: int,
    k: int,
    p: Pacing,
) -> Seq<TimedOp>
    decreases a.len() + b.len(),
{
    if a.len() == 0 && b.len() == 0 {
        Seq::empty()
    } else if b.len() == 0 {
        seq![
            timed(Operation::Overwrite(k as usize, a[0]), 0),
            timed(Operation::SetPhase(k as usize, Phase::PlacedFromLeft), p.drain_millis),
        ] + merge_walk(a.drop_first(), b, ai + 1, bj, k + 1, p)
    } else if a.len() == 0 {
        seq![
            timed(Operation::Overwrite(k as usize, b[0]), 0),
            timed(Operation::SetPhase(k as usize, Phase::PlacedFromRight), p.drain_millis),
        ] + merge_walk(a, b.drop_first(), ai, bj + 1, k + 1, p)
    } else if a[0].value <= b[0].value {
        seq![
            timed(Operation::Compare(ai as usize, bj as usize), p.compare_millis),
            timed(Operation::Overwrite(k as usize, a[0]), 0),
            timed(Operation::SetPhase(k as usize, Phase::PlacedFromLeft), p.place_millis),
        ] + merge_walk(a.drop_first(), b, ai + 1, bj, k + 1, p)
    } else {
        seq![
            timed(Operation::Compare(ai as usize, bj as usize), p.compare_millis),
            timed(Operation::Overwrite(k as usize, b[0]), 0),
            timed(Operation::SetPhase(k as usize, Phase::PlacedFromRight), p.place_millis),
        ] + merge_walk(a, b.drop_first(), ai, bj + 1, k + 1, p)
    }
}

/// Everything a merge of `[left, mid]` with `[mid+1, right]` records, given
/// the whole array `s` as it stands when the merge starts: candidate marks
/// for both runs, the walk, and the reset of the merged range to `Neutral`.
pub open spec fn merge_ops(s: Seq<Element>, left: int, mid: int, right: int, p: Pacing) -> Seq<
    TimedOp,
> {
    phase_marks(left, mid, Phase::LeftMergeCandidate, 0) + phase_marks(
        mid + 1,
        right,
        Phase::RightMergeCandidate,
        p.merge_mark_millis,
    ) + merge_walk(
        s.subrange(left, mid + 1),
        s.subrange(mid + 1, right + 1),
        left,
        mid + 1,
        left,
        p,
    ) + phase_marks(left, right, Phase::Neutral, p.reset_millis)
}

/// The whole array after the engine has sorted `[left, right]` in place:
/// that sub-range sorted, everything else untouched.
pub open spec fn sort_range(s: Seq<Element>, left: int, right: int) -> Seq<Element> {
    s.take(left) + sort_seq(s.subrange(left, right + 1)) + s.skip(right + 1)
}

/// Everything the recursive sort of `[left, right]` records, given the whole
/// array `s` as it stands when the call starts: divide marks, the left
/// recursion, the right recursion over the array the left one produced, and
/// the merge over the array both produced. A range of one element records
/// nothing.
pub open spec fn sort_range_trace(s: Seq<Element>, left: int, right: int, p: Pacing) -> Seq<
    TimedOp,
>
    decreases right - left,
{
    if left >= right {
        Seq::empty()
    } else {
        let mid = left + (right - left) / 2;
        let s1 = sort_range(s, left, mid);
        let s2 = sort_range(s1, mid + 1, right);
        phase_marks(left, right, Phase::Dividing, p.divide_millis) + sort_range_trace(
            s,
            left,
            mid,
            p,
        ) + sort_range_trace(s1, mid + 1, right, p) + merge_ops(s2, left, mid, right, p)
    }
}

/// The unconditional final pass: every index of the sequence set `Neutral`
/// exactly once, in index order, whatever sub-range resets came before.
pub open spec fn final_pass(len: int) -> Seq<TimedOp> {
    phase_marks(0, len - 1, Phase::Neutral, 0)
}

/// The complete stream of one run on input `s` with pacing `p`: the sort's
/// trace (empty for sequences of length zero or one, where no recursive step
/// executes) followed by the final pass.
pub open spec fn run_trace(s: Seq<Element>, p: Pacing) -> Seq<TimedOp> {
    (if s.len() > 1 {
        sort_range_trace(s, 0, s.len() - 1, p)
    } else {
        Seq::empty()
    }) + final_pass(s.len() as int)
}

} // verus!
