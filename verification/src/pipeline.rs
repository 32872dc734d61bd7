//! The lazy sequence and its stages.
//!
//! A [`Sequence`] is a pipeline rooted at a range source, with any number
//! of map and filter stages wrapped around it. Nothing is computed when a
//! pipeline is built: elements are produced one at a time, on demand, by
//! [`next`]. The mathematical model of a sequence, [`Sequence::model`], is
//! the ordered list of elements it has still to yield; a sequence whose
//! model is empty is exhausted, and demanding more of it yields nothing.

use vstd::prelude::*;

use crate::funcs::MapFn;
use crate::funcs::PredFn;

verus! {

/// A lazy, ordered, single-consumer producer of integers: a range source,
/// or a stage wrapping an upstream sequence.
pub enum Sequence {
    /// Yields the integers from `cur` (inclusive) to `end` (exclusive),
    /// in ascending order; empty when `cur >= end`.
    Range { cur: i64, end: i64 },
    /// Yields `f` applied to each upstream element, in upstream order.
    Mapped { up: Box<Sequence>, f: MapFn },
    /// Yields the upstream elements that satisfy `pred`, in upstream order.
    Filtered { up: Box<Sequence>, pred: PredFn },
}

/// The elements a range source with counter `cur` and bound `end` has
/// still to yield: `cur, cur + 1, ..., end - 1`, or nothing if `cur >= end`.
pub open spec fn range_model(cur: i64, end: i64) -> Seq<i64> {
    if cur < end {
        Seq::new((end - cur) as nat, |i: int| (cur + i) as i64)
    } else {
        Seq::empty()
    }
}

/// The upstream elements with the transformation applied to each, in order.
pub open spec fn map_model(m: Seq<i64>, f: MapFn) -> Seq<i64> {
    m.map_values(|x: i64| f.apply_spec(x))
}

/// The upstream elements that satisfy the predicate, in order.
pub open spec fn filter_model(m: Seq<i64>, pred: PredFn) -> Seq<i64>
    decreases m.len(),
{
    if m.len() == 0 {
        Seq::empty()
    } else if pred.holds_spec(m[0]) {
        seq![m[0]] + filter_model(m.drop_first(), pred)
    } else {
        filter_model(m.drop_first(), pred)
    }
}

impl Sequence {
    /// The elements this sequence has still to yield, in the order it
    /// will yield them.
    pub open spec fn model(self) -> Seq<i64>
        decreases self,
    {
        match self {
            Sequence::Range { cur, end } => range_model(cur, end),
            Sequence::Mapped { up, f } => map_model(up.model(), f),
            Sequence::Filtered { up, pred } => filter_model(up.model(), pred),
        }
    }

    /// The number of stages wrapped around the range source.
    pub open spec fn depth(self) -> nat
        decreases self,
    {
        match self {
            Sequence::Range { .. } => 0,
            Sequence::Mapped { up, .. } => up.depth() + 1,
            Sequence::Filtered { up, .. } => up.depth() + 1,
        }
    }

    /// The number of elements the upstream of a filter stage has still to
    /// yield; a termination measure for stepping past rejected elements.
    pub open spec fn upstream_len(self) -> nat {
        match self {
            Sequence::Filtered { up, .. } => up.model().len(),
            _ => 0,
        }
    }
}

/// Builds a range source: the sequence of the integers from `start`
/// (inclusive) to `end` (exclusive), in ascending order. When
/// `start >= end` the sequence is empty; that is not an error.
pub fn range(start: i64, end: i64) -> (s: Sequence)
    ensures
        s.model() == range_model(start, end),
{
    Sequence::Range { cur: start, end }
}

/// Wraps a map stage around a sequence: the new sequence lazily yields
/// `f` applied to each element of `seq`, in the same order.
pub fn map(seq: Sequence, f: MapFn) -> (s: Sequence)
    ensures
        s.model() == map_model(seq.model(), f),
{
    Sequence::Mapped { up: Box::new(seq), f }
}

/// Wraps a filter stage around a sequence: the new sequence lazily yields
/// the elements of `seq` that satisfy `pred`, preserving their order.
pub fn filter(seq: Sequence, pred: PredFn) -> (s: Sequence)
    ensures
        s.model() == filter_model(seq.model(), pred),
{
    Sequence::Filtered { up: Box::new(seq), pred }
}

/// Consumes a sequence and yields its first element together with the
/// rest of the sequence, or yields nothing if it is exhausted.
fn step(seq: Sequence) -> (r: (Sequence, Option<i64>))
    ensures
        r.0.depth() == seq.depth(),
        seq.model().len() == 0 ==> r.1 is None && r.0.model() == seq.model(),
        seq.model().len() > 0 ==> r.1 == Some(seq.model()[0]) && r.0.model()
            == seq.model().drop_first(),
    decreases seq.depth(), seq.upstream_len(),
{
    match seq {
        Sequence::Range { cur, end } => {
            if cur < end {
                proof {
                    assert(range_model(cur, end)[0] == cur);
                    assert(range_model((cur + 1) as i64, end) =~= range_model(
                        cur,
                        end,
                    ).drop_first());
                }
                (Sequence::Range { cur: cur + 1, end }, Some(cur))
            } else {
                (Sequence::Range { cur, end }, None)
            }
        },
        Sequence::Mapped { up, f } => {
            let ghost um = up.model();
            let (up2, r) = step(*up);
            match r {
                Some(x) => {
                    let y = f.apply(x);
                    proof {
                        assert(map_model(um, f)[0] == f.apply_spec(um[0]));
                        assert(map_model(um.drop_first(), f) =~= map_model(um, f).drop_first());
                    }
                    (Sequence::Mapped { up: Box::new(up2), f }, Some(y))
                },
                None => {
                    proof {
                        assert(map_model(um, f).len() == um.len());
                    }
                    (Sequence::Mapped { up: Box::new(up2), f }, None)
                },
            }
        },
        Sequence::Filtered { up, pred } => {
            let ghost um = up.model();
            let (up2, r) = step(*up);
            match r {
                None => (Sequence::Filtered { up: Box::new(up2), pred }, None),
                Some(x) => {
                    if pred.holds(x) {
                        proof {
                            assert(filter_model(um, pred) == seq![um[0]] + filter_model(
                                um.drop_first(),
                                pred,
                            ));
                            assert(filter_model(um, pred)[0] == um[0]);
                            assert(filter_model(um, pred).drop_first() =~= filter_model(
                                um.drop_first(),
                                pred,
                            ));
                        }
                        (Sequence::Filtered { up: Box::new(up2), pred }, Some(x))
                    } else {
                        step(Sequence::Filtered { up: Box::new(up2), pred })
                    }
                },
            }
        },
    }
}

/// A filter stage never yields more elements than its upstream holds.
pub proof fn lemma_filter_model_len(m: Seq<i64>, pred: PredFn)
    ensures
        filter_model(m, pred).len() <= m.len(),
    decreases m.len(),
{
    if m.len() > 0 {
        lemma_filter_model_len(m.drop_first(), pred);
    }
}

/// Every sequence is finite: a range source holds fewer than 2^64
/// elements, and no stage adds any.
pub proof fn lemma_model_len_bound(s: Sequence)
    ensures
        s.model().len() <= u64::MAX,
    decreases s,
{
    match s {
        Sequence::Range { .. } => {},
        Sequence::Mapped { up, .. } => {
            lemma_model_len_bound(*up);
        },
        Sequence::Filtered { up, pred } => {
            lemma_model_len_bound(*up);
            lemma_filter_model_len(up.model(), pred);
        },
    }
}

/// Demands one element of the sequence. Yields the first element the
/// sequence had still to produce and advances the sequence past it, or
/// yields nothing and leaves the sequence exhausted. A sequence never
/// repeats an element: each demand consumes what it yields.
pub fn next(seq: &mut Sequence) -> (r: Option<i64>)
    ensures
        old(seq).model().len() == 0 ==> r is None && final(seq).model() == old(seq).model(),
        old(seq).model().len() > 0 ==> r == Some(old(seq).model()[0]) && final(seq).model()
            == old(seq).model().drop_first(),
{
    let mut taken = Sequence::Range { cur: 0, end: 0 };
    core::mem::swap(seq, &mut taken);
    let (rest, r) = step(taken);
    *seq = rest;
    r
}

} // verus!
