//! The laws the pipeline obeys, stated over the mathematical models and
//! proved once and for all: what a range yields, how map and filter
//! reshape a sequence, what folding addition over a range computes, and
//! what a search for the first even element of a range finds.

use vstd::prelude::*;

use vstd::arithmetic::div_mod::lemma_div_is_ordered;
use vstd::arithmetic::div_mod::lemma_hoist_over_denominator;

use crate::funcs::FoldFn;
use crate::funcs::MapFn;
use crate::funcs::PredFn;
use crate::pipeline::filter_model;
use crate::pipeline::map_model;
use crate::pipeline::range_model;
use crate::reducers::find_index;
use crate::reducers::fold_model;

verus! {

/// Whether `a` can be obtained from `b` by deleting elements, keeping the
/// order of the elements that remain.
pub open spec fn is_subsequence(a: Seq<i64>, b: Seq<i64>) -> bool
    decreases b.len(),
{
    if a.len() == 0 {
        true
    } else if b.len() == 0 {
        false
    } else {
        (a[0] == b[0] && is_subsequence(a.drop_first(), b.drop_first())) || is_subsequence(
            a,
            b.drop_first(),
        )
    }
}

/// How many elements of the sequence satisfy the predicate.
pub open spec fn count_matches(m: Seq<i64>, pred: PredFn) -> nat
    decreases m.len(),
{
    if m.len() == 0 {
        0
    } else {
        (if pred.holds_spec(m[0]) {
            1nat
        } else {
            0nat
        }) + count_matches(m.drop_first(), pred)
    }
}

/// Law: for `start <= end`, a range holds exactly `end - start` elements,
/// the element at position `i` is `start + i`, and the elements ascend
/// strictly by 1.
pub proof fn lemma_range_ascending(start: i64, end: i64)
    requires
        start <= end,
    ensures
        range_model(start, end).len() == end - start,
        forall|i: int| 0 <= i < end - start ==> range_model(start, end)[i] == start + i,
        forall|i: int|
            0 <= i < end - start - 1 ==> #[trigger] range_model(start, end)[i + 1] == range_model(
                start,
                end,
            )[i] + 1,
{
}

/// Law: for `start > end`, a range holds no elements at all.
pub proof fn lemma_range_empty(start: i64, end: i64)
    requires
        start > end,
    ensures
        range_model(start, end) == Seq::<i64>::empty(),
{
}

/// Law: a map stage yields exactly as many elements as its upstream, in
/// the same order, with the transformation applied to each one.
pub proof fn lemma_map_elementwise(m: Seq<i64>, f: MapFn)
    ensures
        map_model(m, f).len() == m.len(),
        forall|i: int| 0 <= i < m.len() ==> map_model(m, f)[i] == f.apply_spec(m[i]),
{
}

/// Law: a filter stage yields a subsequence of its upstream, preserving
/// order; every element it yields satisfies the predicate; and it yields
/// one element for each upstream element that satisfies the predicate, so
/// every dropped element fails it.
pub proof fn lemma_filter_subsequence(m: Seq<i64>, pred: PredFn)
    ensures
        is_subsequence(filter_model(m, pred), m),
        forall|i: int|
            0 <= i < filter_model(m, pred).len() ==> pred.holds_spec(filter_model(m, pred)[i]),
        filter_model(m, pred).len() == count_matches(m, pred),
{
    lemma_filter_is_subsequence(m, pred);
    lemma_filter_retains_only_matches(m, pred);
    lemma_filter_counts_matches(m, pred);
}

proof fn lemma_filter_is_subsequence(m: Seq<i64>, pred: PredFn)
    ensures
        is_subsequence(filter_model(m, pred), m),
    decreases m.len(),
{
    if m.len() > 0 {
        lemma_filter_is_subsequence(m.drop_first(), pred);
        let fm = filter_model(m, pred);
        if pred.holds_spec(m[0]) {
            assert(fm[0] == m[0]);
            assert(fm.drop_first() =~= filter_model(m.drop_first(), pred));
        }
    }
}

proof fn lemma_filter_retains_only_matches(m: Seq<i64>, pred: PredFn)
    ensures
        forall|i: int|
            0 <= i < filter_model(m, pred).len() ==> pred.holds_spec(filter_model(m, pred)[i]),
    decreases m.len(),
{
    if m.len() > 0 {
        lemma_filter_retains_only_matches(m.drop_first(), pred);
        let fm = filter_model(m, pred);
        let rest = filter_model(m.drop_first(), pred);
        if pred.holds_spec(m[0]) {
            assert forall|i: int| 0 <= i < fm.len() implies pred.holds_spec(fm[i]) by {
                if i > 0 {
                    assert(fm[i] == rest[i - 1]);
                }
            }
        }
    }
}

proof fn lemma_filter_counts_matches(m: Seq<i64>, pred: PredFn)
    ensures
        filter_model(m, pred).len() == count_matches(m, pred),
    decreases m.len(),
{
    if m.len() > 0 {
        lemma_filter_counts_matches(m.drop_first(), pred);
    }
}

/// Folding one more element on the right combines it into the fold of
/// what came before.
proof fn lemma_fold_model_push(m: Seq<i64>, acc: i64, f: FoldFn, x: i64)
    ensures
        fold_model(m.push(x), acc, f) == f.combine_spec(fold_model(m, acc, f), x),
    decreases m.len(),
{
    let s = m.push(x);
    assert(s.len() == m.len() + 1);
    if m.len() == 0 {
        assert(s[0] == x);
        assert(s.drop_first() =~= Seq::<i64>::empty());
        assert(fold_model(s, acc, f) == fold_model(s.drop_first(), f.combine_spec(acc, s[0]), f));
        assert(fold_model(s.drop_first(), f.combine_spec(acc, x), f) == f.combine_spec(acc, x));
        assert(fold_model(m, acc, f) == acc);
    } else {
        assert(s[0] == m[0]);
        assert(s.drop_first() =~= m.drop_first().push(x));
        assert(fold_model(s, acc, f) == fold_model(s.drop_first(), f.combine_spec(acc, s[0]), f));
        assert(fold_model(m, acc, f) == fold_model(m.drop_first(), f.combine_spec(acc, m[0]), f));
        lemma_fold_model_push(m.drop_first(), f.combine_spec(acc, m[0]), f, x);
    }
}

/// Law: folding addition over the integers `0, 1, ..., n - 1`, starting
/// from 0, yields the triangular number `n * (n - 1) / 2`, for every
/// `n >= 0` whose triangular number the accumulator can hold.
pub proof fn lemma_fold_add_range(n: i64)
    requires
        0 <= n,
        n * (n - 1) / 2 <= i64::MAX,
    ensures
        fold_model(range_model(0, n), 0, FoldFn::Add) == n * (n - 1) / 2,
    decreases n,
{
    if n == 0 {
        assert(range_model(0, 0) =~= Seq::<i64>::empty());
        assert(fold_model(range_model(0, n), 0, FoldFn::Add) == 0);
        assert(n * (n - 1) == 0) by (nonlinear_arith)
            requires
                n == 0,
        ;
        assert(n * (n - 1) / 2 == 0);
    } else {
        let n1 = (n - 1) as i64;
        assert((n - 1) * (n - 2) <= n * (n - 1)) by (nonlinear_arith)
            requires
                n >= 1,
        ;
        assert((n - 1) * (n - 2) >= 0) by (nonlinear_arith)
            requires
                n >= 1,
        ;
        lemma_div_is_ordered((n - 1) * (n - 2), n * (n - 1), 2);
        lemma_div_is_ordered(0, (n - 1) * (n - 2), 2);
        lemma_fold_add_range(n1);
        let t1 = (n - 1) * (n - 2) / 2;
        assert(fold_model(range_model(0, n1), 0, FoldFn::Add) == t1);
        assert(range_model(0, n) =~= range_model(0, n1).push(n1));
        lemma_fold_model_push(range_model(0, n1), 0, FoldFn::Add, n1);
        assert(fold_model(range_model(0, n), 0, FoldFn::Add) == FoldFn::Add.combine_spec(
            fold_model(range_model(0, n1), 0, FoldFn::Add),
            n1,
        ));
        lemma_hoist_over_denominator((n - 1) * (n - 2), n - 1, 2nat);
        assert(t1 + (n - 1) == ((n - 1) * (n - 2) + (n - 1) * 2) / 2);
        assert((n - 1) * (n - 2) + (n - 1) * 2 == n * (n - 1)) by (nonlinear_arith);
        assert(t1 + n1 == n * (n - 1) / 2);
        assert(0 <= t1 + n1 <= i64::MAX);
        assert(FoldFn::Add.combine_spec(fold_model(range_model(0, n1), 0, FoldFn::Add), n1) == t1
            + n1);
        assert(fold_model(range_model(0, n), 0, FoldFn::Add) == n * (n - 1) / 2);
    }
}

/// Law: a search finds the first match and nothing else. A nonnegative
/// position points at an element that satisfies the predicate, with every
/// earlier element failing it; a negative result means no element
/// satisfies it at all.
pub proof fn lemma_find_index_first_match(m: Seq<i64>, pred: PredFn)
    ensures
        find_index(m, pred) >= 0 ==> find_index(m, pred) < m.len() && pred.holds_spec(
            m[find_index(m, pred)],
        ) && (forall|j: int| 0 <= j < find_index(m, pred) ==> !pred.holds_spec(m[j])),
        find_index(m, pred) < 0 ==> (forall|j: int| 0 <= j < m.len() ==> !pred.holds_spec(m[j])),
    decreases m.len(),
{
    if m.len() > 0 && !pred.holds_spec(m[0]) {
        let rest = m.drop_first();
        lemma_find_index_first_match(rest, pred);
        let ri = find_index(rest, pred);
        if ri >= 0 {
            assert(find_index(m, pred) == ri + 1);
            assert(m[ri + 1] == rest[ri]);
            assert forall|j: int| 0 <= j < ri + 1 implies !pred.holds_spec(m[j]) by {
                if j > 0 {
                    assert(m[j] == rest[j - 1]);
                }
            }
        } else {
            assert forall|j: int| 0 <= j < m.len() implies !pred.holds_spec(m[j]) by {
                if j > 0 {
                    assert(m[j] == rest[j - 1]);
                }
            }
        }
    }
}

/// Law: searching a range that starts at 0 for its first even element
/// finds 0 itself, at position 0, whenever the range is nonempty; an
/// empty range holds no match.
pub proof fn lemma_find_first_even_in_range(n: i64)
    requires
        0 <= n,
    ensures
        n > 0 ==> find_index(range_model(0, n), PredFn::IsEven) == 0 && range_model(0, n)[0] == 0,
        n == 0 ==> find_index(range_model(0, n), PredFn::IsEven) == -1,
{
    if n > 0 {
        assert(range_model(0, n)[0] == 0);
        assert(PredFn::IsEven.holds_spec(0));
    } else {
        assert(range_model(0, n).len() == 0);
    }
}

} // verus!
