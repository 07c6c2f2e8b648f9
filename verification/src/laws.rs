//! The behavioral laws of the engine, each proved over the specifications
//! that the engine's contracts are pinned to: determinism of the run, the
//! all-neutral tail of the stream, and reconstruction of the result by
//! replaying the trace.

use vstd::prelude::*;
use crate::mirror::{apply_op_spec, replay};
use crate::model::{Element, Operation, Pacing, Phase, TimedOp};
use crate::sort_spec::{left_run_len, lemma_merge_seq_len, lemma_sort_seq_sorted, merge_seq, sort_seq};
use crate::trace_spec::{
    final_pass, merge_ops, merge_walk, phase_marks, run_trace, sort_range, sort_range_trace,
};

verus! {

/// The operations of a trace, stripped of pacing.
pub open spec fn ops_of(t: Seq<TimedOp>) -> Seq<Operation> {
    t.map_values(|x: TimedOp| x.op)
}

/// The `SetPhase` events of a trace, in emission order, with comparisons
/// and overwrites ignored.
pub open spec fn phase_events(t: Seq<TimedOp>) -> Seq<Operation> {
    ops_of(t).filter(|op: Operation| op is SetPhase)
}

/// A sequence all of whose elements match the predicate filters to itself.
proof fn lemma_filter_all_true<A>(s: Seq<A>, pred: spec_fn(A) -> bool)
    requires
        forall|i: int| 0 <= i < s.len() ==> pred(s[i]),
    ensures
        s.filter(pred) == s,
    decreases s.len(),
{
    reveal(Seq::filter);
    if s.len() > 0 {
        lemma_filter_all_true(s.drop_last(), pred);
        assert(s.filter(pred) =~= s);
    }
}

/// Determinism: the final sequence and the complete trace, pauses included,
/// are functions of the input and the pacing alone. Two runs on copies of
/// one input can differ only in wall-clock timing and in delivery outcomes,
/// never in what they sort or record.
pub proof fn lemma_determinism(s1: Seq<Element>, s2: Seq<Element>, p1: Pacing, p2: Pacing)
    requires
        s1 == s2,
        p1 == p2,
    ensures
        sort_seq(s1) == sort_seq(s2),
        run_trace(s1, p1) == run_trace(s2, p2),
{
}

/// Phase termination: ignoring interleaved comparisons and overwrites, the
/// stream always ends with the unconditional final pass — one `Neutral`
/// mark per index, each index exactly once, in index order.
pub proof fn lemma_phase_termination(s: Seq<Element>, p: Pacing)
    ensures
        ({
            let evs = phase_events(run_trace(s, p));
            &&& evs.len() >= s.len()
            &&& evs.skip(evs.len() - s.len()) == Seq::new(
                s.len(),
                |i: int| Operation::SetPhase(i as usize, Phase::Neutral),
            )
        }),
{
    let pred = |op: Operation| op is SetPhase;
    let pre = if s.len() > 1 {
        sort_range_trace(s, 0, s.len() - 1, p)
    } else {
        Seq::<TimedOp>::empty()
    };
    let fin = final_pass(s.len() as int);
    assert(run_trace(s, p) == pre + fin);
    assert(ops_of(pre + fin) =~= ops_of(pre) + ops_of(fin));
    Seq::filter_distributes_over_add(ops_of(pre), ops_of(fin), pred);
    let fe = ops_of(fin);
    assert(fe.len() == s.len());
    assert(forall|q: int| 0 <= q < fe.len() ==> pred(#[trigger] fe[q]));
    lemma_filter_all_true(fe, pred);
    let evs = phase_events(run_trace(s, p));
    assert(evs =~= ops_of(pre).filter(pred) + fe);
    assert(evs.skip(evs.len() - s.len()) =~= fe);
    assert(fe =~= Seq::new(s.len(), |i: int| Operation::SetPhase(i as usize, Phase::Neutral)));
}

/// Every index the operation carries lies within a sequence of the given
/// length.
pub open spec fn op_indices_ok(op: Operation, len: int) -> bool {
    match op {
        Operation::SetPhase(i, _) => i < len,
        Operation::Compare(i, j) => i < len && j < len,
        Operation::Overwrite(i, _) => i < len,
    }
}

/// Every operation of the trace stays within a sequence of the given length.
pub open spec fn trace_indices_ok(t: Seq<TimedOp>, len: int) -> bool {
    forall|q: int| 0 <= q < t.len() ==> op_indices_ok(#[trigger] t[q].op, len)
}

proof fn lemma_indices_phase_marks(lo: int, hi: int, ph: Phase, pause: u64, len: int)
    requires
        0 <= lo,
        hi < len <= usize::MAX,
    ensures
        trace_indices_ok(phase_marks(lo, hi, ph, pause), len),
{
}

proof fn lemma_indices_merge_walk(
    a: Seq<Element>,
    b: Seq<Element>,
    ai: int,
    bj: int,
    k: int,
    p: Pacing,
    len: int,
)
    requires
        0 <= ai,
        0 <= bj,
        0 <= k,
        ai + a.len() <= len,
        bj + b.len() <= len,
        k + a.len() + b.len() <= len,
        len <= usize::MAX,
    ensures
        trace_indices_ok(merge_walk(a, b, ai, bj, k, p), len),
    decreases a.len() + b.len(),
{
    let w = merge_walk(a, b, ai, bj, k, p);
    if a.len() == 0 && b.len() == 0 {
    } else if b.len() == 0 {
        lemma_indices_merge_walk(a.drop_first(), b, ai + 1, bj, k + 1, p, len);
        assert forall|q: int| 0 <= q < w.len() implies op_indices_ok(#[trigger] w[q].op, len) by {
            if q >= 2 {
                let rest = merge_walk(a.drop_first(), b, ai + 1, bj, k + 1, p);
                assert(w[q] == rest[q - 2]);
            }
        }
    } else if a.len() == 0 {
        lemma_indices_merge_walk(a, b.drop_first(), ai, bj + 1, k + 1, p, len);
        assert forall|q: int| 0 <= q < w.len() implies op_indices_ok(#[trigger] w[q].op, len) by {
            if q >= 2 {
                let rest = merge_walk(a, b.drop_first(), ai, bj + 1, k + 1, p);
                assert(w[q] == rest[q - 2]);
            }
        }
    } else if a[0].value <= b[0].value {
        lemma_indices_merge_walk(a.drop_first(), b, ai + 1, bj, k + 1, p, len);
        assert forall|q: int| 0 <= q < w.len() implies op_indices_ok(#[trigger] w[q].op, len) by {
            if q >= 3 {
                let rest = merge_walk(a.drop_first(), b, ai + 1, bj, k + 1, p);
                assert(w[q] == rest[q - 3]);
            }
        }
    } else {
        lemma_indices_merge_walk(a, b.drop_first(), ai, bj + 1, k + 1, p, len);
        assert forall|q: int| 0 <= q < w.len() implies op_indices_ok(#[trigger] w[q].op, len) by {
            if q >= 3 {
                let rest = merge_walk(a, b.drop_first(), ai, bj + 1, k + 1, p);
                assert(w[q] == rest[q - 3]);
            }
        }
    }
}

proof fn lemma_indices_concat(t1: Seq<TimedOp>, t2: Seq<TimedOp>, len: int)
    requires
        trace_indices_ok(t1, len),
        trace_indices_ok(t2, len),
    ensures
        trace_indices_ok(t1 + t2, len),
{
    assert forall|q: int| 0 <= q < (t1 + t2).len() implies op_indices_ok(
        #[trigger] (t1 + t2)[q].op,
        len,
    ) by {
        if q < t1.len() {
            assert((t1 + t2)[q] == t1[q]);
        } else {
            assert((t1 + t2)[q] == t2[q - t1.len()]);
        }
    }
}

proof fn lemma_indices_sort_range(s: Seq<Element>, l: int, r: int, p: Pacing)
    requires
        0 <= l <= r < s.len() <= usize::MAX,
    ensures
        trace_indices_ok(sort_range_trace(s, l, r, p), s.len() as int),
    decreases r - l,
{
    let len = s.len() as int;
    if l < r {
        let mid = l + (r - l) / 2;
        let s1 = sort_range(s, l, mid);
        let s2 = sort_range(s1, mid + 1, r);
        lemma_split_merge(s, l, mid, r);
        lemma_indices_phase_marks(l, r, Phase::Dividing, p.divide_millis, len);
        lemma_indices_sort_range(s, l, mid, p);
        lemma_indices_sort_range(s1, mid + 1, r, p);
        lemma_indices_phase_marks(l, mid, Phase::LeftMergeCandidate, 0, len);
        lemma_indices_phase_marks(
            mid + 1,
            r,
            Phase::RightMergeCandidate,
            p.merge_mark_millis,
            len,
        );
        lemma_indices_merge_walk(
            s2.subrange(l, mid + 1),
            s2.subrange(mid + 1, r + 1),
            l,
            mid + 1,
            l,
            p,
            len,
        );
        lemma_indices_phase_marks(l, r, Phase::Neutral, p.reset_millis, len);
        lemma_indices_concat(
            phase_marks(l, mid, Phase::LeftMergeCandidate, 0),
            phase_marks(mid + 1, r, Phase::RightMergeCandidate, p.merge_mark_millis),
            len,
        );
        lemma_indices_concat(
            phase_marks(l, mid, Phase::LeftMergeCandidate, 0) + phase_marks(
                mid + 1,
                r,
                Phase::RightMergeCandidate,
                p.merge_mark_millis,
            ),
            merge_walk(s2.subrange(l, mid + 1), s2.subrange(mid + 1, r + 1), l, mid + 1, l, p),
            len,
        );
        lemma_indices_concat(
            phase_marks(l, mid, Phase::LeftMergeCandidate, 0) + phase_marks(
                mid + 1,
                r,
                Phase::RightMergeCandidate,
                p.merge_mark_millis,
            ) + merge_walk(
                s2.subrange(l, mid + 1),
                s2.subrange(mid + 1, r + 1),
                l,
                mid + 1,
                l,
                p,
            ),
            phase_marks(l, r, Phase::Neutral, p.reset_millis),
            len,
        );
        assert(trace_indices_ok(merge_ops(s2, l, mid, r, p), len));
        lemma_indices_concat(phase_marks(l, r, Phase::Dividing, p.divide_millis), sort_range_trace(s, l, mid, p), len);
        lemma_indices_concat(
            phase_marks(l, r, Phase::Dividing, p.divide_millis) + sort_range_trace(s, l, mid, p),
            sort_range_trace(s1, mid + 1, r, p),
            len,
        );
        lemma_indices_concat(
            phase_marks(l, r, Phase::Dividing, p.divide_millis) + sort_range_trace(s, l, mid, p)
                + sort_range_trace(s1, mid + 1, r, p),
            merge_ops(s2, l, mid, r, p),
            len,
        );
    }
}

/// Index soundness: every index any operation of the stream carries lies
/// within the original sequence, so the consumer's mirror is never asked to
/// step outside itself.
pub proof fn lemma_trace_indices_in_range(s: Seq<Element>, p: Pacing)
    requires
        s.len() <= usize::MAX,
    ensures
        trace_indices_ok(run_trace(s, p), s.len() as int),
{
    let len = s.len() as int;
    let fin = final_pass(len);
    lemma_indices_phase_marks(0, len - 1, Phase::Neutral, 0, if len > 0 { len } else { 1 });
    assert(trace_indices_ok(fin, len));
    if s.len() > 1 {
        lemma_indices_sort_range(s, 0, len - 1, p);
        lemma_indices_concat(sort_range_trace(s, 0, len - 1, p), fin, len);
    } else {
        lemma_indices_concat(Seq::<TimedOp>::empty(), fin, len);
    }
}

/// Replaying a concatenation is replaying its parts in order.
pub proof fn lemma_replay_concat(s: Seq<Element>, t1: Seq<TimedOp>, t2: Seq<TimedOp>)
    ensures
        replay(s, t1 + t2) == replay(replay(s, t1), t2),
    decreases t1.len(),
{
    if t1.len() == 0 {
        assert(t1 + t2 =~= t2);
    } else {
        assert((t1 + t2)[0] == t1[0]);
        assert((t1 + t2).drop_first() =~= t1.drop_first() + t2);
        lemma_replay_concat(apply_op_spec(s, t1[0].op), t1.drop_first(), t2);
    }
}

/// Replaying two operations is applying them in order.
proof fn lemma_replay_step2(s: Seq<Element>, t: Seq<TimedOp>)
    requires
        t.len() == 2,
    ensures
        replay(s, t) == apply_op_spec(apply_op_spec(s, t[0].op), t[1].op),
{
    reveal_with_fuel(crate::mirror::replay, 3);
    assert(t.drop_first()[0] == t[1]);
    assert(t.drop_first().drop_first() =~= Seq::<TimedOp>::empty());
}

/// Replaying three operations is applying them in order.
proof fn lemma_replay_step3(s: Seq<Element>, t: Seq<TimedOp>)
    requires
        t.len() == 3,
    ensures
        replay(s, t) == apply_op_spec(
            apply_op_spec(apply_op_spec(s, t[0].op), t[1].op),
            t[2].op,
        ),
{
    reveal_with_fuel(crate::mirror::replay, 4);
    assert(t.drop_first()[0] == t[1]);
    assert(t.drop_first().drop_first()[0] == t[2]);
    assert(t.drop_first().drop_first().drop_first() =~= Seq::<TimedOp>::empty());
}

/// Replaying a range of marks changes only the phases of `[lo, hi]`.
proof fn lemma_replay_phase_marks(m: Seq<Element>, lo: int, hi: int, ph: Phase, q: u64)
    requires
        0 <= lo,
        hi < m.len() <= usize::MAX,
    ensures
        replay(m, phase_marks(lo, hi, ph, q)).len() == m.len(),
        forall|t: int|
            0 <= t < m.len() && !(lo <= t <= hi) ==> replay(m, phase_marks(lo, hi, ph, q))[t]
                == m[t],
        forall|t: int|
            lo <= t <= hi ==> replay(m, phase_marks(lo, hi, ph, q))[t] == (Element {
                value: m[t].value,
                phase: ph,
            }),
    decreases
            if hi >= lo {
                hi - lo + 1
            } else {
                0
            },
{
    let marks = phase_marks(lo, hi, ph, q);
    if lo > hi {
        assert(marks.len() == 0);
    } else {
        assert(marks[0] == crate::model::timed(
            Operation::SetPhase(lo as usize, ph),
            if lo == hi {
                q
            } else {
                0
            },
        ));
        let m1 = apply_op_spec(m, marks[0].op);
        assert(m1 == m.update(lo, Element { value: m[lo].value, phase: ph }));
        assert(marks.drop_first() =~= phase_marks(lo + 1, hi, ph, q));
        lemma_replay_phase_marks(m1, lo + 1, hi, ph, q);
    }
}

/// Replaying a merge walk leaves everything outside the destination window
/// untouched and fills the window with the merge's values, in order.
proof fn lemma_replay_merge_walk(
    m: Seq<Element>,
    a: Seq<Element>,
    b: Seq<Element>,
    ai: int,
    bj: int,
    k: int,
    p: Pacing,
)
    requires
        0 <= k,
        k + a.len() + b.len() <= m.len() <= usize::MAX,
    ensures
        replay(m, merge_walk(a, b, ai, bj, k, p)).len() == m.len(),
        forall|t: int|
            0 <= t < m.len() && !(k <= t < k + a.len() + b.len()) ==> replay(
                m,
                merge_walk(a, b, ai, bj, k, p),
            )[t] == m[t],
        forall|t: int|
            k <= t < k + a.len() + b.len() ==> replay(m, merge_walk(a, b, ai, bj, k, p))[t].value
                == merge_seq(a, b)[t - k].value,
    decreases a.len() + b.len(),
{
    lemma_merge_seq_len(a, b);
    if a.len() == 0 && b.len() == 0 {
    } else if b.len() == 0 {
        let w = merge_walk(a, b, ai, bj, k, p);
        let step = w.take(2);
        let rest = merge_walk(a.drop_first(), b, ai + 1, bj, k + 1, p);
        assert(w =~= step + rest);
        lemma_replay_concat(m, step, rest);
        let m2 = replay(m, step);
        lemma_replay_step2(m, step);
        assert(m2 == m.update(k, a[0]).update(
            k,
            Element { value: a[0].value, phase: Phase::PlacedFromLeft },
        ));
        lemma_replay_merge_walk(m2, a.drop_first(), b, ai + 1, bj, k + 1, p);
        lemma_merge_seq_len(a.drop_first(), b);
        assert(merge_seq(a, b) == a);
        assert(merge_seq(a.drop_first(), b) == a.drop_first());
        assert(merge_seq(a, b)[0] == a[0]);
        assert forall|t: int|
            k <= t < k + a.len() + b.len() implies replay(m, w)[t].value == merge_seq(a, b)[t
            - k].value by {
            if t == k {
                assert(replay(m2, rest)[t] == m2[k]);
            } else {
                assert(replay(m2, rest)[t].value == merge_seq(a.drop_first(), b)[t - k - 1].value);
                assert(merge_seq(a, b)[t - k] == a[t - k]);
                assert(merge_seq(a.drop_first(), b)[t - k - 1] == a[t - k]);
            }
        }
        assert forall|t: int|
            0 <= t < m.len() && !(k <= t < k + a.len() + b.len()) implies replay(m, w)[t]
            == m[t] by {
            assert(replay(m2, rest)[t] == m2[t]);
        }
    } else if a.len() == 0 {
        let w = merge_walk(a, b, ai, bj, k, p);
        let step = w.take(2);
        let rest = merge_walk(a, b.drop_first(), ai, bj + 1, k + 1, p);
        assert(w =~= step + rest);
        lemma_replay_concat(m, step, rest);
        let m2 = replay(m, step);
        lemma_replay_step2(m, step);
        assert(m2 == m.update(k, b[0]).update(
            k,
            Element { value: b[0].value, phase: Phase::PlacedFromRight },
        ));
        lemma_replay_merge_walk(m2, a, b.drop_first(), ai, bj + 1, k + 1, p);
        lemma_merge_seq_len(a, b.drop_first());
        assert(merge_seq(a, b) == b);
        assert(merge_seq(a, b.drop_first()) == b.drop_first());
        assert(merge_seq(a, b)[0] == b[0]);
        assert forall|t: int|
            k <= t < k + a.len() + b.len() implies replay(m, w)[t].value == merge_seq(a, b)[t
            - k].value by {
            if t == k {
                assert(replay(m2, rest)[t] == m2[k]);
            } else {
                assert(replay(m2, rest)[t].value == merge_seq(a, b.drop_first())[t - k - 1].value);
                assert(merge_seq(a, b)[t - k] == b[t - k]);
                assert(merge_seq(a, b.drop_first())[t - k - 1] == b[t - k]);
            }
        }
        assert forall|t: int|
            0 <= t < m.len() && !(k <= t < k + a.len() + b.len()) implies replay(m, w)[t]
            == m[t] by {
            assert(replay(m2, rest)[t] == m2[t]);
        }
    } else if a[0].value <= b[0].value {
        let w = merge_walk(a, b, ai, bj, k, p);
        let step = w.take(3);
        let rest = merge_walk(a.drop_first(), b, ai + 1, bj, k + 1, p);
        assert(w =~= step + rest);
        lemma_replay_concat(m, step, rest);
        let m2 = replay(m, step);
        lemma_replay_step3(m, step);
        assert(m2 == m.update(k, a[0]).update(
            k,
            Element { value: a[0].value, phase: Phase::PlacedFromLeft },
        ));
        lemma_replay_merge_walk(m2, a.drop_first(), b, ai + 1, bj, k + 1, p);
        lemma_merge_seq_len(a.drop_first(), b);
        assert(merge_seq(a, b) == seq![a[0]] + merge_seq(a.drop_first(), b));
        assert(merge_seq(a, b)[0] == a[0]);
        assert forall|t: int|
            k <= t < k + a.len() + b.len() implies replay(m, w)[t].value == merge_seq(a, b)[t
            - k].value by {
            if t == k {
                assert(replay(m2, rest)[t] == m2[k]);
            } else {
                assert(replay(m2, rest)[t].value == merge_seq(a.drop_first(), b)[t - k - 1].value);
                assert(merge_seq(a, b)[t - k] == merge_seq(a.drop_first(), b)[t - k - 1]);
            }
        }
        assert forall|t: int|
            0 <= t < m.len() && !(k <= t < k + a.len() + b.len()) implies replay(m, w)[t]
            == m[t] by {
            assert(replay(m2, rest)[t] == m2[t]);
        }
    } else {
        let w = merge_walk(a, b, ai, bj, k, p);
        let step = w.take(3);
        let rest = merge_walk(a, b.drop_first(), ai, bj + 1, k + 1, p);
        assert(w =~= step + rest);
        lemma_replay_concat(m, step, rest);
        let m2 = replay(m, step);
        lemma_replay_step3(m, step);
        assert(m2 == m.update(k, b[0]).update(
            k,
            Element { value: b[0].value, phase: Phase::PlacedFromRight },
        ));
        lemma_replay_merge_walk(m2, a, b.drop_first(), ai, bj + 1, k + 1, p);
        lemma_merge_seq_len(a, b.drop_first());
        assert(merge_seq(a, b) == seq![b[0]] + merge_seq(a, b.drop_first()));
        assert(merge_seq(a, b)[0] == b[0]);
        assert forall|t: int|
            k <= t < k + a.len() + b.len() implies replay(m, w)[t].value == merge_seq(a, b)[t
            - k].value by {
            if t == k {
                assert(replay(m2, rest)[t] == m2[k]);
            } else {
                assert(replay(m2, rest)[t].value == merge_seq(a, b.drop_first())[t - k - 1].value);
                assert(merge_seq(a, b)[t - k] == merge_seq(a, b.drop_first())[t - k - 1]);
            }
        }
        assert forall|t: int|
            0 <= t < m.len() && !(k <= t < k + a.len() + b.len()) implies replay(m, w)[t]
            == m[t] by {
            assert(replay(m2, rest)[t] == m2[t]);
        }
    }
}

/// Replaying one merge's events rewrites exactly `[l, r]`: its values become
/// the merge of the engine array's two runs and its phases end `Neutral`,
/// whatever the mirror held there before.
proof fn lemma_replay_merge_ops(
    m: Seq<Element>,
    s: Seq<Element>,
    l: int,
    mid: int,
    r: int,
    p: Pacing,
)
    requires
        0 <= l <= mid < r < s.len(),
        m.len() == s.len() <= usize::MAX,
    ensures
        replay(m, merge_ops(s, l, mid, r, p)).len() == m.len(),
        forall|t: int|
            0 <= t < m.len() && !(l <= t <= r) ==> replay(m, merge_ops(s, l, mid, r, p))[t]
                == m[t],
        forall|t: int|
            l <= t <= r ==> replay(m, merge_ops(s, l, mid, r, p))[t] == (Element {
                value: merge_seq(s.subrange(l, mid + 1), s.subrange(mid + 1, r + 1))[t - l].value,
                phase: Phase::Neutral,
            }),
{
    let a = s.subrange(l, mid + 1);
    let b = s.subrange(mid + 1, r + 1);
    let pm1 = phase_marks(l, mid, Phase::LeftMergeCandidate, 0);
    let pm2 = phase_marks(mid + 1, r, Phase::RightMergeCandidate, p.merge_mark_millis);
    let walk = merge_walk(a, b, l, mid + 1, l, p);
    let pm3 = phase_marks(l, r, Phase::Neutral, p.reset_millis);
    lemma_merge_seq_len(a, b);
    lemma_replay_concat(m, pm1 + pm2 + walk, pm3);
    lemma_replay_concat(m, pm1 + pm2, walk);
    lemma_replay_concat(m, pm1, pm2);
    let m1 = replay(m, pm1);
    lemma_replay_phase_marks(m, l, mid, Phase::LeftMergeCandidate, 0);
    let m2 = replay(m1, pm2);
    lemma_replay_phase_marks(m1, mid + 1, r, Phase::RightMergeCandidate, p.merge_mark_millis);
    let m3 = replay(m2, walk);
    lemma_replay_merge_walk(m2, a, b, l, mid + 1, l, p);
    lemma_replay_phase_marks(m3, l, r, Phase::Neutral, p.reset_millis);
}

/// What the engine's array and the divide point look like one level down:
/// the merged runs of the two recursively sorted halves are exactly the
/// sorted whole range.
proof fn lemma_split_merge(s: Seq<Element>, l: int, mid: int, r: int)
    requires
        0 <= l <= mid < r < s.len(),
        mid == l + (r - l) / 2,
    ensures
        ({
            let s1 = sort_range(s, l, mid);
            let s2 = sort_range(s1, mid + 1, r);
            &&& s1.len() == s.len()
            &&& s2.len() == s.len()
            &&& merge_seq(s2.subrange(l, mid + 1), s2.subrange(mid + 1, r + 1)) == sort_seq(
                s.subrange(l, r + 1),
            )
        }),
{
    let aa = s.subrange(l, mid + 1);
    let bb = s.subrange(mid + 1, r + 1);
    let u = s.subrange(l, r + 1);
    lemma_sort_seq_sorted(aa);
    lemma_sort_seq_sorted(bb);
    lemma_sort_seq_sorted(u);
    let s1 = sort_range(s, l, mid);
    let s2 = sort_range(s1, mid + 1, r);
    assert(s1.len() == s.len());
    assert(s1.subrange(mid + 1, r + 1) =~= bb) by {
        assert forall|t: int| 0 <= t < r - mid implies s1.subrange(mid + 1, r + 1)[t] == bb[t] by {
            assert(s1[mid + 1 + t] == s.skip(mid + 1)[t]);
        }
    }
    assert(s2.len() == s.len());
    assert(s2.subrange(l, mid + 1) =~= sort_seq(aa)) by {
        assert forall|t: int| 0 <= t < mid + 1 - l implies s2.subrange(l, mid + 1)[t] == sort_seq(
            aa,
        )[t] by {
            assert(s2[l + t] == s1.take(mid + 1)[l + t]);
            assert(s1[l + t] == (s.take(l) + sort_seq(aa) + s.skip(mid + 1))[l + t]);
        }
    }
    assert(s2.subrange(mid + 1, r + 1) =~= sort_seq(bb));
    assert(u.len() == r + 1 - l);
    assert(left_run_len(u.len() as int) == mid + 1 - l);
    assert(u.take(mid + 1 - l) =~= aa);
    assert(u.skip(mid + 1 - l) =~= bb);
    assert(sort_seq(u) == merge_seq(sort_seq(aa), sort_seq(bb)));
}

/// Replaying the trace of a recursive sort of `[l, r]` rewrites exactly that
/// range of the mirror: values become the range's sorted values, phases end
/// `Neutral`; a one-element range records nothing and changes nothing.
proof fn lemma_replay_sort_range(m: Seq<Element>, s: Seq<Element>, l: int, r: int, p: Pacing)
    requires
        0 <= l <= r < s.len(),
        m.len() == s.len() <= usize::MAX,
    ensures
        replay(m, sort_range_trace(s, l, r, p)).len() == m.len(),
        forall|t: int|
            0 <= t < m.len() && !(l <= t <= r) ==> replay(m, sort_range_trace(s, l, r, p))[t]
                == m[t],
        l < r ==> forall|t: int|
            l <= t <= r ==> replay(m, sort_range_trace(s, l, r, p))[t] == (Element {
                value: sort_range(s, l, r)[t].value,
                phase: Phase::Neutral,
            }),
    decreases r - l,
{
    if l < r {
        let mid = l + (r - l) / 2;
        let s1 = sort_range(s, l, mid);
        let s2 = sort_range(s1, mid + 1, r);
        lemma_split_merge(s, l, mid, r);
        let dm = phase_marks(l, r, Phase::Dividing, p.divide_millis);
        let tr1 = sort_range_trace(s, l, mid, p);
        let tr2 = sort_range_trace(s1, mid + 1, r, p);
        let mo = merge_ops(s2, l, mid, r, p);
        assert(sort_range_trace(s, l, r, p) == dm + tr1 + tr2 + mo);
        lemma_replay_concat(m, dm + tr1 + tr2, mo);
        lemma_replay_concat(m, dm + tr1, tr2);
        lemma_replay_concat(m, dm, tr1);
        let m1 = replay(m, dm);
        lemma_replay_phase_marks(m, l, r, Phase::Dividing, p.divide_millis);
        let m2 = replay(m1, tr1);
        lemma_replay_sort_range(m1, s, l, mid, p);
        let m3 = replay(m2, tr2);
        lemma_replay_sort_range(m2, s1, mid + 1, r, p);
        lemma_replay_merge_ops(m3, s2, l, mid, r, p);
        let u = s.subrange(l, r + 1);
        lemma_sort_seq_sorted(u);
        assert forall|t: int| l <= t <= r implies sort_range(s, l, r)[t] == sort_seq(u)[t - l] by {
            assert(sort_range(s, l, r)[t] == (s.take(l) + sort_seq(u) + s.skip(r + 1))[t]);
        }
    }
}

/// Trace conservation: replaying the whole stream against a mirror of the
/// original input reconstructs the engine's final state exactly — the
/// sorted values, every phase `Neutral`. In particular the last `Overwrite`
/// recorded for each index carries that index's final sorted value.
pub proof fn lemma_trace_conservation(s: Seq<Element>, p: Pacing)
    requires
        s.len() <= usize::MAX,
    ensures
        replay(s, run_trace(s, p)) == Seq::new(
            s.len(),
            |i: int| Element { value: sort_seq(s)[i].value, phase: Phase::Neutral },
        ),
{
    let target = Seq::new(
        s.len(),
        |i: int| Element { value: sort_seq(s)[i].value, phase: Phase::Neutral },
    );
    let fin = final_pass(s.len() as int);
    if s.len() > 1 {
        let pre = sort_range_trace(s, 0, s.len() - 1, p);
        assert(run_trace(s, p) == pre + fin);
        lemma_replay_concat(s, pre, fin);
        let m1 = replay(s, pre);
        lemma_replay_sort_range(s, s, 0, s.len() - 1, p);
        lemma_sort_seq_sorted(s.subrange(0, s.len() as int));
        assert(s.subrange(0, s.len() as int) =~= s);
        assert forall|t: int| 0 <= t < s.len() implies sort_range(s, 0, s.len() - 1)[t]
            == sort_seq(s)[t] by {
            assert(sort_range(s, 0, s.len() - 1)[t] == (s.take(0) + sort_seq(
                s.subrange(0, s.len() as int),
            ) + s.skip(s.len() as int))[t]);
        }
        lemma_replay_phase_marks(m1, 0, s.len() - 1, Phase::Neutral, 0);
        assert(replay(s, run_trace(s, p)) =~= target);
    } else {
        assert(run_trace(s, p) =~= fin) by {
            assert(Seq::<TimedOp>::empty() + fin =~= fin);
        }
        lemma_replay_phase_marks(s, 0, s.len() - 1, Phase::Neutral, 0);
        assert(replay(s, run_trace(s, p)) =~= target);
    }
}

} // verus!
