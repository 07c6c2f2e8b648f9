//! The mathematical model of the sort: a recursive, stable merge sort over
//! sequences of elements, together with the laws the engine's result obeys.

use vstd::prelude::*;
use vstd::multiset::Multiset;
use vstd::seq_lib::lemma_multiset_commutative;
use crate::model::Element;

verus! {

/// Ascending by value: the order the engine establishes.
pub open spec fn sorted_by_value(s: Seq<Element>) -> bool {
    forall|i: int, j: int| 0 <= i <= j < s.len() ==> s[i].value <= s[j].value
}

/// The stable merge of two runs: when heads tie, the left run wins, so
/// equal-valued elements keep their left-to-right order.
pub open spec fn merge_seq(a: Seq<Element>, b: Seq<Element>) -> Seq<Element>
    decreases a.len() + b.len(),
{
    if a.len() == 0 {
        b
    } else if b.len() == 0 {
        a
    } else if a[0].value <= b[0].value {
        seq![a[0]] + merge_seq(a.drop_first(), b)
    } else {
        seq![b[0]] + merge_seq(a, b.drop_first())
    }
}

/// How many elements the divide step sends left: the left-biased midpoint
/// `left + (right - left) / 2` keeps `ceil(n / 2)` elements in the left run.
pub open spec fn left_run_len(n: int) -> int {
    (n + 1) / 2
}

/// Top-down merge sort of a whole sequence, splitting at the left-biased
/// midpoint. This is the engine's authoritative result.
pub open spec fn sort_seq(s: Seq<Element>) -> Seq<Element>
    decreases s.len(),
{
    if s.len() <= 1 {
        s
    } else {
        let cl = left_run_len(s.len() as int);
        merge_seq(sort_seq(s.take(cl)), sort_seq(s.skip(cl)))
    }
}

/// Merging sorted runs yields a sorted run of their combined length and
/// contents, and it starts with one of the two heads.
pub proof fn lemma_merge_seq_sorted(a: Seq<Element>, b: Seq<Element>)
    requires
        sorted_by_value(a),
        sorted_by_value(b),
    ensures
        sorted_by_value(merge_seq(a, b)),
        merge_seq(a, b).len() == a.len() + b.len(),
        merge_seq(a, b).to_multiset() == a.to_multiset().add(b.to_multiset()),
        a.len() > 0 && b.len() > 0 ==> merge_seq(a, b)[0] == a[0] || merge_seq(a, b)[0] == b[0],
        a.len() > 0 && b.len() == 0 ==> merge_seq(a, b)[0] == a[0],
        a.len() == 0 && b.len() > 0 ==> merge_seq(a, b)[0] == b[0],
    decreases a.len() + b.len(),
{
    broadcast use vstd::seq_lib::group_to_multiset_ensures;

    if a.len() == 0 {
        assert(a.to_multiset() =~= Multiset::empty());
        assert(merge_seq(a, b).to_multiset() =~= a.to_multiset().add(b.to_multiset()));
    } else if b.len() == 0 {
        assert(b.to_multiset() =~= Multiset::empty());
        assert(merge_seq(a, b).to_multiset() =~= a.to_multiset().add(b.to_multiset()));
    } else if a[0].value <= b[0].value {
        let rest = merge_seq(a.drop_first(), b);
        assert(sorted_by_value(a.drop_first()));
        lemma_merge_seq_sorted(a.drop_first(), b);
        let m = seq![a[0]] + rest;
        assert forall|i: int, j: int| 0 <= i <= j < m.len() implies m[i].value <= m[j].value by {
            if i == 0 && j > 0 {
                if rest.len() > 0 {
                    assert(rest[0] == a.drop_first()[0] || rest[0] == b[0] || (a.drop_first().len()
                        == 0 && rest[0] == b[0]));
                    assert(a[0].value <= rest[0].value);
                    assert(rest[0].value <= rest[j - 1].value);
                }
            }
        }
        lemma_multiset_commutative(seq![a[0]], rest);
        assert(seq![a[0]] + a.drop_first() =~= a);
        lemma_multiset_commutative(seq![a[0]], a.drop_first());
        assert(m.to_multiset() =~= a.to_multiset().add(b.to_multiset()));
    } else {
        let rest = merge_seq(a, b.drop_first());
        assert(sorted_by_value(b.drop_first()));
        lemma_merge_seq_sorted(a, b.drop_first());
        let m = seq![b[0]] + rest;
        assert forall|i: int, j: int| 0 <= i <= j < m.len() implies m[i].value <= m[j].value by {
            if i == 0 && j > 0 {
                if rest.len() > 0 {
                    assert(b[0].value <= rest[0].value);
                    assert(rest[0].value <= rest[j - 1].value);
                }
            }
        }
        lemma_multiset_commutative(seq![b[0]], rest);
        assert(seq![b[0]] + b.drop_first() =~= b);
        lemma_multiset_commutative(seq![b[0]], b.drop_first());
        assert(m.to_multiset() =~= a.to_multiset().add(b.to_multiset()));
    }
}

/// A merge is as long as its two runs together, sorted or not.
pub proof fn lemma_merge_seq_len(a: Seq<Element>, b: Seq<Element>)
    ensures
        merge_seq(a, b).len() == a.len() + b.len(),
    decreases a.len() + b.len(),
{
    if a.len() == 0 {
    } else if b.len() == 0 {
    } else if a[0].value <= b[0].value {
        lemma_merge_seq_len(a.drop_first(), b);
    } else {
        lemma_merge_seq_len(a, b.drop_first());
    }
}

/// The elements of a given value, as a subsequence.
pub open spec fn of_value(s: Seq<Element>, v: u64) -> Seq<Element> {
    s.filter(|e: Element| e.value == v)
}

/// A sequence none of whose elements match the predicate filters to nothing.
proof fn lemma_filter_all_false<A>(s: Seq<A>, pred: spec_fn(A) -> bool)
    requires
        forall|i: int| 0 <= i < s.len() ==> !pred(s[i]),
    ensures
        s.filter(pred) == Seq::<A>::empty(),
    decreases s.len(),
{
    reveal(Seq::filter);
    if s.len() > 0 {
        lemma_filter_all_false(s.drop_last(), pred);
    }
}

/// A singleton filters to itself or to nothing.
proof fn lemma_filter_singleton<A>(x: A, pred: spec_fn(A) -> bool)
    ensures
        pred(x) ==> seq![x].filter(pred) == seq![x],
        !pred(x) ==> seq![x].filter(pred) == Seq::<A>::empty(),
{
    reveal(Seq::filter);
    assert(seq![x].drop_last() =~= Seq::<A>::empty());
    if pred(x) {
        assert(seq![x].filter(pred) =~= seq![x]);
    } else {
        assert(Seq::<A>::empty().filter(pred) =~= Seq::<A>::empty());
        assert(seq![x].filter(pred) =~= Seq::<A>::empty());
    }
}

/// Stability of the merge: because ties go to the left run, the merged
/// subsequence of any given value is the left run's occurrences followed by
/// the right run's, in their original orders.
pub proof fn lemma_merge_seq_stable(a: Seq<Element>, b: Seq<Element>, v: u64)
    requires
        sorted_by_value(a),
        sorted_by_value(b),
    ensures
        of_value(merge_seq(a, b), v) == of_value(a, v) + of_value(b, v),
    decreases a.len() + b.len(),
{
    broadcast use vstd::seq_lib::group_seq_properties;

    let pred = |e: Element| e.value == v;
    if a.len() == 0 {
        lemma_filter_all_false(a, pred);
        assert(of_value(a, v) + of_value(b, v) =~= of_value(b, v));
    } else if b.len() == 0 {
        lemma_filter_all_false(b, pred);
        assert(of_value(a, v) + of_value(b, v) =~= of_value(a, v));
    } else if a[0].value <= b[0].value {
        let rest = merge_seq(a.drop_first(), b);
        assert(sorted_by_value(a.drop_first()));
        lemma_merge_seq_stable(a.drop_first(), b, v);
        Seq::filter_distributes_over_add(seq![a[0]], rest, pred);
        lemma_filter_singleton(a[0], pred);
        assert(seq![a[0]] + a.drop_first() =~= a);
        Seq::filter_distributes_over_add(seq![a[0]], a.drop_first(), pred);
        assert(of_value(merge_seq(a, b), v) =~= of_value(a, v) + of_value(b, v));
    } else {
        let rest = merge_seq(a, b.drop_first());
        assert(sorted_by_value(b.drop_first()));
        lemma_merge_seq_stable(a, b.drop_first(), v);
        Seq::filter_distributes_over_add(seq![b[0]], rest, pred);
        lemma_filter_singleton(b[0], pred);
        assert(seq![b[0]] + b.drop_first() =~= b);
        Seq::filter_distributes_over_add(seq![b[0]], b.drop_first(), pred);
        if b[0].value == v {
            // The right head is strictly below the left head, so below every
            // element of the sorted left run: nothing in `a` has this value.
            assert forall|i: int| 0 <= i < a.len() implies !pred(a[i]) by {
                assert(a[0].value <= a[i].value);
            }
            lemma_filter_all_false(a, pred);
            assert(of_value(merge_seq(a, b), v) =~= of_value(a, v) + of_value(b, v));
        } else {
            assert(of_value(merge_seq(a, b), v) =~= of_value(a, v) + of_value(b, v));
        }
    }
}

/// Stability of the sort: for every value, the subsequence of elements
/// carrying that value is exactly the input's, in the input's order.
pub proof fn lemma_sort_seq_stable(s: Seq<Element>, v: u64)
    ensures
        of_value(sort_seq(s), v) == of_value(s, v),
    decreases s.len(),
{
    if s.len() > 1 {
        let cl = left_run_len(s.len() as int);
        let pred = |e: Element| e.value == v;
        lemma_sort_seq_stable(s.take(cl), v);
        lemma_sort_seq_stable(s.skip(cl), v);
        lemma_sort_seq_sorted(s.take(cl));
        lemma_sort_seq_sorted(s.skip(cl));
        lemma_merge_seq_stable(sort_seq(s.take(cl)), sort_seq(s.skip(cl)), v);
        assert(s.take(cl) + s.skip(cl) =~= s);
        Seq::filter_distributes_over_add(s.take(cl), s.skip(cl), pred);
    }
}

/// The sort returns a sequence of the same length and contents, sorted
/// ascending by value.
pub proof fn lemma_sort_seq_sorted(s: Seq<Element>)
    ensures
        sorted_by_value(sort_seq(s)),
        sort_seq(s).len() == s.len(),
        sort_seq(s).to_multiset() == s.to_multiset(),
    decreases s.len(),
{
    if s.len() > 1 {
        let cl = left_run_len(s.len() as int);
        lemma_sort_seq_sorted(s.take(cl));
        lemma_sort_seq_sorted(s.skip(cl));
        lemma_merge_seq_sorted(sort_seq(s.take(cl)), sort_seq(s.skip(cl)));
        assert(s.take(cl) + s.skip(cl) =~= s);
        lemma_multiset_commutative(s.take(cl), s.skip(cl));
    }
}

} // verus!
