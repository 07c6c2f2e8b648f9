//! The instrumented merge sort. The engine owns the sequence for the whole
//! run, records every visualization-relevant step in a trace pinned to
//! [`crate::trace_spec`], and forwards each operation, best effort, over the
//! transport. It never sleeps: each recorded operation carries the pause the
//! pacing policy assigns, and the host observes the pauses.

use vstd::prelude::*;
use vstd::pervasive::VecAdditionalExecFns;
use crate::model::{Element, Operation, Pacing, Phase, TimedOp, timed};
use crate::sort_spec::{
    left_run_len, lemma_sort_seq_sorted, lemma_sort_seq_stable, merge_seq, of_value,
    sort_seq, sorted_by_value,
};
use crate::trace_spec::{
    final_pass, merge_ops, merge_walk, phase_marks, run_trace, sort_range, sort_range_trace,
};
use crate::transport::{Delivery, send_operation};

verus! {

/// What one run produced besides the sorted sequence: the full ordered trace
/// and whether every operation also reached the consumer. Sends fail only
/// when the receiver is gone; the engine records that and runs to
/// completion regardless of whether anyone is listening.
pub struct RunReport {
    pub trace: Vec<TimedOp>,
    pub all_delivered: bool,
}

/// The recording half of the engine: every step is appended to the trace
/// and, when a sender is present, forwarded to the consumer in the same
/// order.
struct Emitter<'a> {
    trace: Vec<TimedOp>,
    tx: Option<&'a std::sync::mpsc::Sender<Operation>>,
    all_delivered: bool,
}

impl<'a> Emitter<'a> {
    /// Record one step and forward it; a failed send is noted, never fatal.
    fn emit(&mut self, op: Operation, pause: u64)
        ensures
            final(self).trace@ == old(self).trace@.push(timed(op, pause)),
            final(self).tx == old(self).tx,
            old(self).tx is None ==> final(self).all_delivered == old(self).all_delivered,
    {
        self.trace.push(TimedOp { op, pause_after_millis: pause });
        if let Some(s) = self.tx {
            if matches!(send_operation(s, op), Delivery::Skipped) {
                self.all_delivered = false;
            }
        }
    }
}

/// Mark every index of `[lo, hi]` with `phase`, pausing only after the last.
fn emit_phase_range(em: &mut Emitter, lo: usize, hi: usize, phase: Phase, last_pause: u64)
    requires
        lo <= hi,
        hi < usize::MAX,
    ensures
        final(em).trace@ == old(em).trace@ + phase_marks(lo as int, hi as int, phase, last_pause),
        final(em).tx == old(em).tx,
        old(em).tx is None ==> final(em).all_delivered == old(em).all_delivered,
{
    let ghost t0 = em.trace@;
    let ghost full = phase_marks(lo as int, hi as int, phase, last_pause);
    let mut i: usize = lo;
    while i <= hi
        invariant
            lo <= i <= hi + 1,
            hi < usize::MAX,
            full == phase_marks(lo as int, hi as int, phase, last_pause),
            em.trace@ == t0 + full.take(i - lo),
            em.tx == old(em).tx,
            old(em).tx is None ==> em.all_delivered == old(em).all_delivered,
        decreases hi + 1 - i,
    {
        let pause = if i == hi {
            last_pause
        } else {
            0
        };
        em.emit(Operation::SetPhase(i, phase), pause);
        proof {
            assert(full[i - lo] == timed(Operation::SetPhase(i, phase), pause));
            assert(full.take(i - lo + 1) =~= full.take(i - lo).push(full[i - lo]));
            assert((t0 + full.take(i - lo)).push(full[i - lo]) =~= t0 + full.take(i - lo + 1));
        }
        i += 1;
    }
    proof {
        assert(full.take(hi + 1 - lo) =~= full);
    }
}

/// Merge the two sorted adjacent runs `[left, mid]` and `[mid+1, right]` in
/// place, recording candidate marks, every comparison and placement, and the
/// closing reset of the merged range.
#[verifier::rlimit(100)]
fn merge_visual(
    bars: &mut Vec<Element>,
    left: usize,
    mid: usize,
    right: usize,
    em: &mut Emitter,
    p: Pacing,
)
    requires
        left <= mid < right < old(bars)@.len(),
    ensures
        final(bars)@ == old(bars)@.take(left as int) + merge_seq(
            old(bars)@.subrange(left as int, mid as int + 1),
            old(bars)@.subrange(mid as int + 1, right as int + 1),
        ) + old(bars)@.skip(right as int + 1),
        final(em).trace@ == old(em).trace@ + merge_ops(
            old(bars)@,
            left as int,
            mid as int,
            right as int,
            p,
        ),
        final(em).tx == old(em).tx,
        old(em).tx is None ==> final(em).all_delivered == old(em).all_delivered,
{
    let n = bars.len();
    let ghost s0 = bars@;
    let ghost t0 = em.trace@;
    let ghost a = s0.subrange(left as int, mid as int + 1);
    let ghost b = s0.subrange(mid as int + 1, right as int + 1);

    // Snapshot both runs: the destination overlaps the sources, so the walk
    // must read copies, never the live array.
    let mut left_arr: Vec<Element> = Vec::new();
    let mut idx: usize = left;
    while idx <= mid
        invariant
            left <= idx <= mid + 1,
            mid < right < s0.len() <= usize::MAX,
            bars@ == s0,
            a == s0.subrange(left as int, mid as int + 1),
            left_arr@ == a.take(idx - left),
        decreases mid + 1 - idx,
    {
        left_arr.push(bars[idx]);
        proof {
            assert(a[idx - left] == s0[idx as int]);
            assert(a.take(idx - left + 1) =~= a.take(idx - left).push(a[idx - left]));
        }
        idx += 1;
    }
    proof {
        assert(a.take(mid + 1 - left) =~= a);
    }
    let mut right_arr: Vec<Element> = Vec::new();
    let mut idx2: usize = mid + 1;
    while idx2 <= right
        invariant
            mid + 1 <= idx2 <= right + 1,
            mid < right < s0.len() <= usize::MAX,
            bars@ == s0,
            b == s0.subrange(mid as int + 1, right as int + 1),
            right_arr@ == b.take(idx2 - (mid + 1)),
        decreases right + 1 - idx2,
    {
        right_arr.push(bars[idx2]);
        proof {
            assert(b[idx2 - (mid + 1)] == s0[idx2 as int]);
            assert(b.take(idx2 - (mid + 1) + 1) =~= b.take(idx2 - (mid + 1)).push(
                b[idx2 - (mid + 1)],
            ));
        }
        idx2 += 1;
    }
    proof {
        assert(b.take(right - mid) =~= b);
    }

    emit_phase_range(em, left, mid, Phase::LeftMergeCandidate, 0);
    emit_phase_range(em, mid + 1, right, Phase::RightMergeCandidate, p.merge_mark_millis);
    let ghost t1 = em.trace@;
    let ghost walk = merge_walk(a, b, left as int, mid as int + 1, left as int, p);

    let mut i: usize = 0;
    let mut j: usize = 0;
    let mut k: usize = left;
    while i < left_arr.len() && j < right_arr.len()
        invariant
            left_arr@ == a,
            right_arr@ == b,
            a.len() == mid + 1 - left,
            b.len() == right - mid,
            left <= mid < right < s0.len() <= usize::MAX,
            i <= a.len(),
            j <= b.len(),
            k == left + i + j,
            bars@.len() == s0.len(),
            forall|t: int| 0 <= t < left ==> bars@[t] == s0[t],
            forall|t: int| right < t < s0.len() ==> bars@[t] == s0[t],
            bars@.subrange(left as int, k as int) + merge_seq(a.skip(i as int), b.skip(j as int))
                == merge_seq(a, b),
            em.trace@ + merge_walk(
                a.skip(i as int),
                b.skip(j as int),
                left + i,
                mid + 1 + j,
                k as int,
                p,
            ) == t1 + walk,
            walk == merge_walk(a, b, left as int, mid as int + 1, left as int, p),
            em.tx == old(em).tx,
            old(em).tx is None ==> em.all_delivered == old(em).all_delivered,
        decreases a.len() + b.len() - i - j,
    {
        let ghost em_pre = em.trace@;
        let ghost bars_pre = bars@;
        let ghost sa = a.skip(i as int);
        let ghost sb = b.skip(j as int);
        let cmp_l = left + i;
        let cmp_r = mid + 1 + j;
        em.emit(Operation::Compare(cmp_l, cmp_r), p.compare_millis);
        let lv = left_arr[i];
        let rv = right_arr[j];
        proof {
            assert(sa[0] == a[i as int]);
            assert(sb[0] == b[j as int]);
            assert(sa.drop_first() =~= a.skip(i + 1));
            assert(sb.drop_first() =~= b.skip(j + 1));
        }
        if lv.value <= rv.value {
            bars.set(k, lv);
            em.emit(Operation::Overwrite(k, lv), 0);
            em.emit(Operation::SetPhase(k, Phase::PlacedFromLeft), p.place_millis);
            proof {
                let step = seq![
                    timed(Operation::Compare(cmp_l, cmp_r), p.compare_millis),
                    timed(Operation::Overwrite(k, lv), 0),
                    timed(Operation::SetPhase(k, Phase::PlacedFromLeft), p.place_millis),
                ];
                let walk_rest = merge_walk(a.skip(i + 1), sb, left + i + 1, mid + 1 + j, k + 1, p);
                assert(merge_walk(sa, sb, left + i, mid + 1 + j, k as int, p) == step
                    + walk_rest);
                assert(em.trace@ =~= em_pre + step) by {
                    assert(em.trace@ =~= em_pre.push(step[0]).push(step[1]).push(step[2]));
                }
                assert(em.trace@ + walk_rest =~= t1 + walk) by {
                    assert((em_pre + step) + walk_rest =~= em_pre + (step
                        + walk_rest));
                }
                assert(bars@.subrange(left as int, k as int + 1) =~= bars_pre.subrange(left as int, k as int).push(lv));
                assert(merge_seq(sa, sb) == seq![sa[0]] + merge_seq(a.skip(i + 1), sb));
                assert(bars@.subrange(left as int, k as int + 1) + merge_seq(a.skip(i + 1), sb)
                    =~= merge_seq(a, b)) by {
                    assert((bars_pre.subrange(left as int, k as int).push(lv)) + merge_seq(
                        a.skip(i + 1),
                        sb,
                    ) =~= bars_pre.subrange(left as int, k as int) + (seq![lv] + merge_seq(
                        a.skip(i + 1),
                        sb,
                    )));
                }
            }
            i += 1;
        } else {
            bars.set(k, rv);
            em.emit(Operation::Overwrite(k, rv), 0);
            em.emit(Operation::SetPhase(k, Phase::PlacedFromRight), p.place_millis);
            proof {
                let step = seq![
                    timed(Operation::Compare(cmp_l, cmp_r), p.compare_millis),
                    timed(Operation::Overwrite(k, rv), 0),
                    timed(Operation::SetPhase(k, Phase::PlacedFromRight), p.place_millis),
                ];
                let walk_rest = merge_walk(sa, b.skip(j + 1), left + i, mid + 1 + j + 1, k + 1, p);
                assert(merge_walk(sa, sb, left + i, mid + 1 + j, k as int, p) == step
                    + walk_rest);
                assert(em.trace@ =~= em_pre + step) by {
                    assert(em.trace@ =~= em_pre.push(step[0]).push(step[1]).push(step[2]));
                }
                assert(em.trace@ + walk_rest =~= t1 + walk) by {
                    assert((em_pre + step) + walk_rest =~= em_pre + (step
                        + walk_rest));
                }
                assert(bars@.subrange(left as int, k as int + 1) =~= bars_pre.subrange(left as int, k as int).push(rv));
                assert(merge_seq(sa, sb) == seq![sb[0]] + merge_seq(sa, b.skip(j + 1)));
                assert(bars@.subrange(left as int, k as int + 1) + merge_seq(sa, b.skip(j + 1))
                    =~= merge_seq(a, b)) by {
                    assert((bars_pre.subrange(left as int, k as int).push(rv)) + merge_seq(
                        sa,
                        b.skip(j + 1),
                    ) =~= bars_pre.subrange(left as int, k as int) + (seq![rv] + merge_seq(
                        sa,
                        b.skip(j + 1),
                    )));
                }
            }
            j += 1;
        }
        k += 1;
    }

    // Drain whichever run still has elements; no comparison is recorded,
    // since there is nothing left to compare against.
    while i < left_arr.len()
        invariant
            left_arr@ == a,
            a.len() == mid + 1 - left,
            b.len() == right - mid,
            left <= mid < right < s0.len() <= usize::MAX,
            i <= a.len(),
            i < a.len() ==> j == b.len(),
            j <= b.len(),
            k == left + i + j,
            bars@.len() == s0.len(),
            forall|t: int| 0 <= t < left ==> bars@[t] == s0[t],
            forall|t: int| right < t < s0.len() ==> bars@[t] == s0[t],
            bars@.subrange(left as int, k as int) + merge_seq(a.skip(i as int), b.skip(j as int))
                == merge_seq(a, b),
            em.trace@ + merge_walk(
                a.skip(i as int),
                b.skip(j as int),
                left + i,
                mid + 1 + j,
                k as int,
                p,
            ) == t1 + walk,
            walk == merge_walk(a, b, left as int, mid as int + 1, left as int, p),
            em.tx == old(em).tx,
            old(em).tx is None ==> em.all_delivered == old(em).all_delivered,
        decreases a.len() - i,
    {
        let ghost em_pre = em.trace@;
        let ghost bars_pre = bars@;
        let ghost sa = a.skip(i as int);
        let ghost sb = b.skip(j as int);
        let lv = left_arr[i];
        bars.set(k, lv);
        em.emit(Operation::Overwrite(k, lv), 0);
        em.emit(Operation::SetPhase(k, Phase::PlacedFromLeft), p.drain_millis);
        proof {
            assert(sa[0] == a[i as int]);
            assert(sa.drop_first() =~= a.skip(i + 1));
            assert(sb.len() == 0);
            let step = seq![
                timed(Operation::Overwrite(k, lv), 0),
                timed(Operation::SetPhase(k, Phase::PlacedFromLeft), p.drain_millis),
            ];
            let walk_rest = merge_walk(a.skip(i + 1), sb, left + i + 1, mid + 1 + j, k + 1, p);
            assert(merge_walk(sa, sb, left + i, mid + 1 + j, k as int, p) == step + walk_rest);
            assert(em.trace@ =~= em_pre + step) by {
                assert(em.trace@ =~= em_pre.push(step[0]).push(step[1]));
            }
            assert(em.trace@ + walk_rest =~= t1 + walk) by {
                assert((em_pre + step) + walk_rest =~= em_pre + (step
                    + walk_rest));
            }
            assert(bars@.subrange(left as int, k as int + 1) =~= bars_pre.subrange(left as int, k as int).push(lv));
            assert(merge_seq(sa, sb) == seq![sa[0]] + merge_seq(a.skip(i + 1), sb));
            assert(bars@.subrange(left as int, k as int + 1) + merge_seq(a.skip(i + 1), sb)
                =~= merge_seq(a, b)) by {
                assert((bars_pre.subrange(left as int, k as int).push(lv)) + merge_seq(
                    a.skip(i + 1),
                    sb,
                ) =~= bars_pre.subrange(left as int, k as int) + (seq![lv] + merge_seq(
                    a.skip(i + 1),
                    sb,
                )));
            }
        }
        i += 1;
        k += 1;
    }

    while j < right_arr.len()
        invariant
            right_arr@ == b,
            a.len() == mid + 1 - left,
            b.len() == right - mid,
            left <= mid < right < s0.len() <= usize::MAX,
            i == a.len(),
            j <= b.len(),
            k == left + i + j,
            bars@.len() == s0.len(),
            forall|t: int| 0 <= t < left ==> bars@[t] == s0[t],
            forall|t: int| right < t < s0.len() ==> bars@[t] == s0[t],
            bars@.subrange(left as int, k as int) + merge_seq(a.skip(i as int), b.skip(j as int))
                == merge_seq(a, b),
            em.trace@ + merge_walk(
                a.skip(i as int),
                b.skip(j as int),
                left + i,
                mid + 1 + j,
                k as int,
                p,
            ) == t1 + walk,
            walk == merge_walk(a, b, left as int, mid as int + 1, left as int, p),
            em.tx == old(em).tx,
            old(em).tx is None ==> em.all_delivered == old(em).all_delivered,
        decreases b.len() - j,
    {
        let ghost em_pre = em.trace@;
        let ghost bars_pre = bars@;
        let ghost sa = a.skip(i as int);
        let ghost sb = b.skip(j as int);
        let rv = right_arr[j];
        bars.set(k, rv);
        em.emit(Operation::Overwrite(k, rv), 0);
        em.emit(Operation::SetPhase(k, Phase::PlacedFromRight), p.drain_millis);
        proof {
            assert(sb[0] == b[j as int]);
            assert(sb.drop_first() =~= b.skip(j + 1));
            assert(sa.len() == 0);
            let step = seq![
                timed(Operation::Overwrite(k, rv), 0),
                timed(Operation::SetPhase(k, Phase::PlacedFromRight), p.drain_millis),
            ];
            let walk_rest = merge_walk(sa, b.skip(j + 1), left + i, mid + 1 + j + 1, k + 1, p);
            assert(merge_walk(sa, sb, left + i, mid + 1 + j, k as int, p) == step + walk_rest);
            assert(em.trace@ =~= em_pre + step) by {
                assert(em.trace@ =~= em_pre.push(step[0]).push(step[1]));
            }
            assert(em.trace@ + walk_rest =~= t1 + walk) by {
                assert((em_pre + step) + walk_rest =~= em_pre + (step
                    + walk_rest));
            }
            assert(bars@.subrange(left as int, k as int + 1) =~= bars_pre.subrange(left as int, k as int).push(rv));
            assert(merge_seq(sa, sb) == seq![sb[0]] + merge_seq(sa, b.skip(j + 1)));
            assert(bars@.subrange(left as int, k as int + 1) + merge_seq(sa, b.skip(j + 1))
                =~= merge_seq(a, b)) by {
                assert((bars_pre.subrange(left as int, k as int).push(rv)) + merge_seq(
                    sa,
                    b.skip(j + 1),
                ) =~= bars_pre.subrange(left as int, k as int) + (seq![rv] + merge_seq(
                    sa,
                    b.skip(j + 1),
                )));
            }
        }
        j += 1;
        k += 1;
    }

    proof {
        assert(a.skip(a.len() as int) =~= Seq::<Element>::empty());
        assert(b.skip(b.len() as int) =~= Seq::<Element>::empty());
        assert(merge_seq(Seq::<Element>::empty(), Seq::<Element>::empty()) =~= Seq::<
            Element,
        >::empty());
        assert(bars@.subrange(left as int, k as int) + Seq::<Element>::empty() =~= bars@.subrange(
            left as int,
            k as int,
        ));
        assert(bars@.subrange(left as int, right as int + 1) == merge_seq(a, b));
        assert(em.trace@ + Seq::<TimedOp>::empty() =~= em.trace@);
        assert(em.trace@ == t1 + walk);
    }
    let ghost s_merged = bars@;

    emit_phase_range(em, left, right, Phase::Neutral, p.reset_millis);

    proof {
        let target = s0.take(left as int) + merge_seq(a, b) + s0.skip(right as int + 1);
        assert(merge_seq(a, b).len() == right + 1 - left);
        assert forall|t: int| 0 <= t < s_merged.len() implies s_merged[t] == target[t] by {
            if t < left {
            } else if t <= right {
                assert(s_merged.subrange(left as int, right as int + 1)[t - left] == s_merged[t]);
            }
        }
        assert(s_merged =~= target);
        assert(em.trace@ =~= t0 + merge_ops(s0, left as int, mid as int, right as int, p)) by {
            let pm1 = phase_marks(left as int, mid as int, Phase::LeftMergeCandidate, 0);
            let pm2 = phase_marks(
                mid as int + 1,
                right as int,
                Phase::RightMergeCandidate,
                p.merge_mark_millis,
            );
            let pm3 = phase_marks(left as int, right as int, Phase::Neutral, p.reset_millis);
            assert(t1 =~= (t0 + pm1) + pm2);
            assert(em.trace@ =~= (((t0 + pm1) + pm2) + walk) + pm3);
            assert((((t0 + pm1) + pm2) + walk) + pm3 =~= t0 + (pm1 + pm2 + walk + pm3));
        }
    }
}

/// Sort `[left, right]` in place: mark the range as dividing, recurse on the
/// two halves split at the left-biased midpoint, then merge them. A range of
/// one element — or a degenerate empty one, with `left` past `right` —
/// records nothing and changes nothing.
#[verifier::rlimit(100)]
fn merge_sort_recursive(
    bars: &mut Vec<Element>,
    left: usize,
    right: usize,
    em: &mut Emitter,
    p: Pacing,
)
    requires
        left <= right ==> right < old(bars)@.len(),
    ensures
        final(bars)@.len() == old(bars)@.len(),
        left <= right ==> final(bars)@ == sort_range(old(bars)@, left as int, right as int),
        left <= right ==> final(em).trace@ == old(em).trace@ + sort_range_trace(
            old(bars)@,
            left as int,
            right as int,
            p,
        ),
        left > right ==> final(bars)@ == old(bars)@ && final(em).trace@ == old(em).trace@,
        final(em).tx == old(em).tx,
        old(em).tx is None ==> final(em).all_delivered == old(em).all_delivered,
    decreases
            if left <= right {
                right - left
            } else {
                0
            },
{
    let n = bars.len();
    let ghost s0 = bars@;
    let ghost t0 = em.trace@;
    if left < right {
        let mid = left + (right - left) / 2;
        emit_phase_range(em, left, right, Phase::Dividing, p.divide_millis);
        merge_sort_recursive(bars, left, mid, em, p);
        let ghost s1 = bars@;
        merge_sort_recursive(bars, mid + 1, right, em, p);
        let ghost s2 = bars@;
        merge_visual(bars, left, mid, right, em, p);
        proof {
            let l = left as int;
            let m = mid as int;
            let r = right as int;
            let aa = s0.subrange(l, m + 1);
            let bb = s0.subrange(m + 1, r + 1);
            let u = s0.subrange(l, r + 1);
            lemma_sort_seq_sorted(aa);
            lemma_sort_seq_sorted(bb);
            lemma_sort_seq_sorted(u);
            assert(s1 == sort_range(s0, l, m));
            assert(s1.len() == s0.len());
            assert(s1.subrange(m + 1, r + 1) =~= bb) by {
                assert forall|t: int| 0 <= t < r - m implies s1.subrange(m + 1, r + 1)[t] == bb[t]
                    by {
                    assert(s1[m + 1 + t] == s0.skip(m + 1)[t]);
                }
            }
            assert(s2 == sort_range(s1, m + 1, r));
            assert(s2.len() == s0.len());
            assert(s2.subrange(l, m + 1) =~= sort_seq(aa)) by {
                assert forall|t: int| 0 <= t < m + 1 - l implies s2.subrange(l, m + 1)[t]
                    == sort_seq(aa)[t] by {
                    assert(s2[l + t] == s1.take(m + 1)[l + t]);
                    assert(s1[l + t] == (s0.take(l) + sort_seq(aa) + s0.skip(m + 1))[l + t]);
                }
            }
            assert(s2.subrange(m + 1, r + 1) =~= sort_seq(bb));
            assert(s2.take(l) =~= s0.take(l)) by {
                assert forall|t: int| 0 <= t < l implies s2[t] == s0[t] by {
                    assert(s2[t] == s1.take(m + 1)[t]);
                    assert(s1[t] == (s0.take(l) + sort_seq(aa) + s0.skip(m + 1))[t]);
                }
            }
            assert(s2.skip(r + 1) =~= s0.skip(r + 1)) by {
                assert forall|t: int| r + 1 <= t < s0.len() implies s2[t] == s0[t] by {
                    assert(s2[t] == s1.skip(r + 1)[t - r - 1]);
                    assert(s1[t] == (s0.take(l) + sort_seq(aa) + s0.skip(m + 1))[t]);
                }
            }
            assert(u.len() == r + 1 - l);
            assert(left_run_len(u.len() as int) == m + 1 - l);
            assert(u.take(m + 1 - l) =~= aa);
            assert(u.skip(m + 1 - l) =~= bb);
            assert(sort_seq(u) == merge_seq(sort_seq(aa), sort_seq(bb)));
            assert(bars@ =~= sort_range(s0, l, r));
            let dm = phase_marks(l, r, Phase::Dividing, p.divide_millis);
            let tr1 = sort_range_trace(s0, l, m, p);
            let tr2 = sort_range_trace(s1, m + 1, r, p);
            let mo = merge_ops(s2, l, m, r, p);
            assert(sort_range_trace(s0, l, r, p) == dm + tr1 + tr2 + mo);
            assert(em.trace@ =~= (((t0 + dm) + tr1) + tr2) + mo);
            assert((((t0 + dm) + tr1) + tr2) + mo =~= t0 + (dm + tr1 + tr2 + mo));
        }
    } else {
        proof {
            if left == right {
                let u = s0.subrange(left as int, right as int + 1);
                assert(u.len() == 1);
                assert(sort_seq(u) == u);
                assert(sort_range(s0, left as int, right as int) =~= s0);
                assert(sort_range_trace(s0, left as int, right as int, p) == Seq::<
                    TimedOp,
                >::empty());
                assert(t0 + Seq::<TimedOp>::empty() =~= t0);
            }
        }
    }
}

/// Run the instrumented sort: sort `bars` ascending by value, stably and in
/// place, record the complete operation trace for the given pacing, and,
/// when a sender is present, forward every operation to the consumer in
/// emission order, best effort. The unconditional final pass closes the
/// stream with one `Neutral` mark per index.
pub fn run(
    bars: &mut Vec<Element>,
    tx: Option<&std::sync::mpsc::Sender<Operation>>,
    pacing: Pacing,
) -> (r: RunReport)
    ensures
        final(bars)@ == sort_seq(old(bars)@),
        sorted_by_value(final(bars)@),
        final(bars)@.to_multiset() == old(bars)@.to_multiset(),
        forall|v: u64| of_value(final(bars)@, v) == of_value(old(bars)@, v),
        r.trace@ == run_trace(old(bars)@, pacing),
        tx is None ==> r.all_delivered,
{
    let ghost s0 = bars@;
    proof {
        lemma_sort_seq_sorted(s0);
        assert forall|v: u64| of_value(sort_seq(s0), v) == of_value(s0, v) by {
            lemma_sort_seq_stable(s0, v);
        }
    }
    let mut em = Emitter { trace: Vec::new(), tx, all_delivered: true };
    let len = bars.len();
    if len > 1 {
        merge_sort_recursive(bars, 0, len - 1, &mut em, pacing);
        proof {
            assert(s0.subrange(0, s0.len() as int) =~= s0);
            assert(s0.take(0) =~= Seq::<Element>::empty());
            assert(s0.skip(s0.len() as int) =~= Seq::<Element>::empty());
            assert(bars@ =~= sort_seq(s0));
            assert(em.trace@ =~= sort_range_trace(s0, 0, s0.len() - 1, pacing));
        }
    }
    if len > 0 {
        emit_phase_range(&mut em, 0, len - 1, Phase::Neutral, 0);
    }
    proof {
        if s0.len() == 0 {
            assert(final_pass(s0.len() as int) == Seq::<TimedOp>::empty());
            assert(em.trace@ =~= run_trace(s0, pacing));
        } else if s0.len() == 1 {
            assert(em.trace@ =~= Seq::<TimedOp>::empty() + final_pass(s0.len() as int));
        } else {
            assert(em.trace@ =~= sort_range_trace(s0, 0, s0.len() - 1, pacing) + final_pass(
                s0.len() as int,
            ));
        }
    }
    RunReport { trace: em.trace, all_delivered: em.all_delivered }
}

/// The host's main entry surface: sort the sequence and stream the
/// operations through the given producer, paced for human perception.
pub fn merge_sort_visual(bars: &mut Vec<Element>, tx: &std::sync::mpsc::Sender<Operation>) -> (r:
    RunReport)
    ensures
        final(bars)@ == sort_seq(old(bars)@),
        sorted_by_value(final(bars)@),
        final(bars)@.to_multiset() == old(bars)@.to_multiset(),
        forall|v: u64| of_value(final(bars)@, v) == of_value(old(bars)@, v),
        r.trace@ == run_trace(old(bars)@, Pacing::standard_spec()),
{
    run(bars, Some(tx), Pacing::standard())
}

/// Sort and record without any transport: for hosts and tests that only
/// want the trace, with whatever pacing they choose.
pub fn merge_sort_traced(bars: &mut Vec<Element>, pacing: Pacing) -> (t: Vec<TimedOp>)
    ensures
        final(bars)@ == sort_seq(old(bars)@),
        sorted_by_value(final(bars)@),
        final(bars)@.to_multiset() == old(bars)@.to_multiset(),
        forall|v: u64| of_value(final(bars)@, v) == of_value(old(bars)@, v),
        t@ == run_trace(old(bars)@, pacing),
{
    let report = run(bars, None, pacing);
    report.trace
}

} // verus!
