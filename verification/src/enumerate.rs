//! The enumerate stage: it pairs each element of a sequence with its
//! zero-based position in that sequence's own traversal.
//!
//! The position counts the elements this stage yields, not the elements of
//! the original source: after a filter, the positions number the surviving
//! elements. An [`Enumerated`] sequence yields pairs, so it has its own
//! demand and collect operations.

use vstd::prelude::*;

use crate::pipeline::lemma_model_len_bound;
use crate::pipeline::next;
use crate::pipeline::Sequence;

verus! {

/// A lazy sequence of pairs: each upstream element together with its
/// zero-based position in this sequence's traversal.
pub struct Enumerated {
    /// The upstream sequence whose elements are being numbered.
    pub up: Sequence,
    /// The position the next yielded element will carry.
    pub index: u64,
}

/// The pairs an enumerate stage built directly on `m` has still to yield:
/// each element of `m` with its position in `m`.
pub open spec fn enumerate_model(m: Seq<i64>) -> Seq<(u64, i64)> {
    Seq::new(m.len(), |i: int| (i as u64, m[i]))
}

impl Enumerated {
    /// The position counter never runs past what `u64` can hold: the
    /// positions of all elements still to be yielded fit.
    pub open spec fn wf(self) -> bool {
        self.index + self.up.model().len() <= u64::MAX
    }

    /// The pairs this sequence has still to yield, in order: the upstream
    /// elements, each with the position it will carry.
    pub open spec fn model(self) -> Seq<(u64, i64)> {
        Seq::new(self.up.model().len(), |i: int| ((self.index + i) as u64, self.up.model()[i]))
    }
}

/// Wraps an enumerate stage around a sequence: the new sequence lazily
/// yields each element of `seq` paired with its zero-based position,
/// starting at 0 and rising by 1 per yielded element.
pub fn enumerate(seq: Sequence) -> (e: Enumerated)
    ensures
        e.wf(),
        e.model() == enumerate_model(seq.model()),
{
    proof {
        lemma_model_len_bound(seq);
    }
    let e = Enumerated { up: seq, index: 0 };
    proof {
        assert(e.model() =~= enumerate_model(e.up.model()));
    }
    e
}

/// Demands one pair of the enumerated sequence. Yields the first pair it
/// had still to produce and advances past it, or yields nothing and
/// leaves the sequence exhausted.
pub fn next_pair(e: &mut Enumerated) -> (r: Option<(u64, i64)>)
    requires
        old(e).wf(),
    ensures
        final(e).wf(),
        old(e).model().len() == 0 ==> r is None && final(e).model() == old(e).model(),
        old(e).model().len() > 0 ==> r == Some(old(e).model()[0]) && final(e).model() == old(
            e,
        ).model().drop_first(),
{
    let r = next(&mut e.up);
    match r {
        Some(x) => {
            let i = e.index;
            e.index = e.index + 1;
            proof {
                assert(final(e).model() =~= old(e).model().drop_first());
            }
            Some((i, x))
        },
        None => None,
    }
}

/// Materializes the whole enumerated sequence into a vector of pairs,
/// preserving the order of traversal, and leaves the sequence exhausted.
/// On an exhausted sequence it returns an empty vector.
pub fn collect_pairs(e: &mut Enumerated) -> (r: Vec<(u64, i64)>)
    requires
        old(e).wf(),
    ensures
        final(e).wf(),
        r@ == old(e).model(),
        final(e).model() == Seq::<(u64, i64)>::empty(),
{
    let mut s = Enumerated { up: Sequence::Range { cur: 0, end: 0 }, index: 0 };
    core::mem::swap(e, &mut s);
    let mut out: Vec<(u64, i64)> = Vec::new();
    loop
        invariant
            s.wf(),
            out@ + s.model() == old(e).model(),
        ensures
            s.wf(),
            out@ + s.model() == old(e).model(),
            s.model().len() == 0,
        decreases s.model().len(),
    {
        let r = next_pair(&mut s);
        match r {
            Some(p) => {
                out.push(p);
                proof {
                    assert(out@ + s.model() =~= old(e).model());
                }
            },
            None => {
                break ;
            },
        }
    }
    core::mem::swap(e, &mut s);
    proof {
        assert(out@ =~= old(e).model());
        assert(final(e).model() =~= Seq::<(u64, i64)>::empty());
    }
    out
}

} // verus!
