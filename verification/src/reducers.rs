//! The terminal reducers: they drive a pipeline to completion, or to the
//! first match, and return a concrete value.
//!
//! Each reducer takes the sequence by mutable reference and leaves it
//! exhausted as far as it consumed it: `collect` and `fold` always leave
//! an empty model behind, while `find` stops at the first match and leaves
//! the elements after it. Demanding more of an exhausted sequence yields
//! nothing — in particular, collecting an exhausted sequence returns an
//! empty vector, never a repeated element and never an error.

use vstd::prelude::*;

use crate::funcs::FoldFn;
use crate::funcs::PredFn;
use crate::pipeline::next;
use crate::pipeline::Sequence;

verus! {

/// The left fold of a combining function over the elements, starting from
/// `acc`: each element is combined with the accumulator in order.
pub open spec fn fold_model(m: Seq<i64>, acc: i64, f: FoldFn) -> i64
    decreases m.len(),
{
    if m.len() == 0 {
        acc
    } else {
        fold_model(m.drop_first(), f.combine_spec(acc, m[0]), f)
    }
}

/// The position of the first element satisfying the predicate, or `-1`
/// when no element does.
pub open spec fn find_index(m: Seq<i64>, pred: PredFn) -> int
    decreases m.len(),
{
    if m.len() == 0 {
        -1
    } else if pred.holds_spec(m[0]) {
        0
    } else {
        let r = find_index(m.drop_first(), pred);
        if r < 0 {
            -1
        } else {
            r + 1
        }
    }
}

/// Materializes the whole sequence into a vector, preserving the order of
/// traversal, and leaves the sequence exhausted. On an exhausted sequence
/// it returns an empty vector.
pub fn collect(seq: &mut Sequence) -> (r: Vec<i64>)
    ensures
        r@ == old(seq).model(),
        final(seq).model() == Seq::<i64>::empty(),
{
    let mut s = Sequence::Range { cur: 0, end: 0 };
    core::mem::swap(seq, &mut s);
    let mut out: Vec<i64> = Vec::new();
    loop
        invariant
            out@ + s.model() == old(seq).model(),
        ensures
            out@ + s.model() == old(seq).model(),
            s.model().len() == 0,
        decreases s.model().len(),
    {
        let r = next(&mut s);
        match r {
            Some(x) => {
                out.push(x);
                proof {
                    assert(out@ + s.model() =~= old(seq).model());
                }
            },
            None => {
                break ;
            },
        }
    }
    core::mem::swap(seq, &mut s);
    proof {
        assert(out@ =~= old(seq).model());
        assert(final(seq).model() =~= Seq::<i64>::empty());
    }
    out
}

/// Traverses the whole sequence once, left to right, threading the
/// accumulator through the combining function, and returns the final
/// accumulator. On an exhausted sequence it returns `init` unchanged.
/// The sequence is left exhausted.
pub fn fold(seq: &mut Sequence, init: i64, f: FoldFn) -> (r: i64)
    ensures
        r == fold_model(old(seq).model(), init, f),
        final(seq).model() == Seq::<i64>::empty(),
{
    let mut s = Sequence::Range { cur: 0, end: 0 };
    core::mem::swap(seq, &mut s);
    let mut acc = init;
    loop
        invariant
            fold_model(s.model(), acc, f) == fold_model(old(seq).model(), init, f),
        ensures
            fold_model(s.model(), acc, f) == fold_model(old(seq).model(), init, f),
            s.model().len() == 0,
        decreases s.model().len(),
    {
        let r = next(&mut s);
        match r {
            Some(x) => {
                acc = f.combine(acc, x);
            },
            None => {
                break ;
            },
        }
    }
    core::mem::swap(seq, &mut s);
    acc
}

/// Traverses the sequence in order and returns the first element that
/// satisfies the predicate, or nothing when the sequence is exhausted
/// without a match; absence is not an error. The search short-circuits:
/// nothing past the match is demanded, and the sequence is left holding
/// exactly the elements after the match.
pub fn find(seq: &mut Sequence, pred: PredFn) -> (r: Option<i64>)
    ensures
        ({
            let m = old(seq).model();
            let idx = find_index(m, pred);
            &&& idx >= 0 ==> r == Some(m[idx]) && final(seq).model() == m.skip(idx + 1)
            &&& idx < 0 ==> r is None && final(seq).model() == Seq::<i64>::empty()
        }),
{
    let ghost m = old(seq).model();
    let mut s = Sequence::Range { cur: 0, end: 0 };
    core::mem::swap(seq, &mut s);
    let ghost mut i: int = 0;
    loop
        invariant
            0 <= i <= m.len(),
            s.model() == m.skip(i),
            forall|j: int| 0 <= j < i ==> !pred.holds_spec(m[j]),
            m == old(seq).model(),
        decreases m.len() - i,
    {
        let r = next(&mut s);
        match r {
            None => {
                proof {
                    assert(i == m.len());
                    lemma_find_index_skip(m, pred, i);
                    assert(find_index(m, pred) == -1);
                }
                core::mem::swap(seq, &mut s);
                return None;
            },
            Some(x) => {
                proof {
                    assert(x == m.skip(i)[0]);
                    assert(x == m[i]);
                    assert(s.model() =~= m.skip(i + 1));
                }
                if pred.holds(x) {
                    proof {
                        lemma_find_index_skip(m, pred, i);
                        assert(find_index(m.skip(i), pred) == 0);
                        assert(find_index(m, pred) == i);
                    }
                    core::mem::swap(seq, &mut s);
                    return Some(x);
                }
                proof {
                    i = i + 1;
                }
            },
        }
    }
}

/// Relates the first match in a sequence to the first match past a prefix
/// of elements that all fail the predicate: searching may skip such a
/// prefix without changing what is found.
proof fn lemma_find_index_skip(m: Seq<i64>, pred: PredFn, i: int)
    requires
        0 <= i <= m.len(),
        forall|j: int| 0 <= j < i ==> !pred.holds_spec(m[j]),
    ensures
        find_index(m.skip(i), pred) >= 0 ==> find_index(m, pred) == i + find_index(
            m.skip(i),
            pred,
        ),
        find_index(m.skip(i), pred) < 0 ==> find_index(m, pred) == -1,
    decreases i,
{
    if i == 0 {
        assert(m.skip(0) =~= m);
    } else {
        assert(!pred.holds_spec(m[0]));
        assert(m.len() > 0);
        let rest = m.drop_first();
        assert(forall|j: int| 0 <= j < i - 1 ==> !pred.holds_spec(rest[j]));
        lemma_find_index_skip(rest, pred, i - 1);
        assert(rest.skip(i - 1) =~= m.skip(i));
    }
}

} // verus!
