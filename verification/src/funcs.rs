//! The transformation, predicate and combining functions that pipeline
//! stages and reducers apply to elements.
//!
//! Each kind of function is a small enum of total functions on `i64`,
//! together with a spec-level counterpart that says exactly what each
//! variant computes. Arithmetic wraps around on overflow, as the
//! `wrapping_*` operations of `i64` do.

use vstd::prelude::*;

verus! {

/// A transformation applied by a map stage to each element.
#[derive(Clone, Copy, PartialEq, Eq, Structural, Debug)]
pub enum MapFn {
    /// Adds the constant to the element, wrapping on overflow.
    AddConst(i64),
    /// Subtracts the constant from the element, wrapping on overflow.
    SubConst(i64),
    /// Multiplies the element by the constant, wrapping on overflow.
    MulConst(i64),
}

impl MapFn {
    /// The value the transformation returns for a given element.
    pub open spec fn apply_spec(self, x: i64) -> i64 {
        match self {
            MapFn::AddConst(c) => vstd::wrapping::i64_specs::wrapping_add(x, c),
            MapFn::SubConst(c) => vstd::wrapping::i64_specs::wrapping_sub(x, c),
            MapFn::MulConst(c) => vstd::wrapping::i64_specs::wrapping_mul(x, c),
        }
    }

    /// Applies the transformation to one element.
    pub fn apply(self, x: i64) -> (r: i64)
        ensures
            r == self.apply_spec(x),
    {
        match self {
            MapFn::AddConst(c) => x.wrapping_add(c),
            MapFn::SubConst(c) => x.wrapping_sub(c),
            MapFn::MulConst(c) => x.wrapping_mul(c),
        }
    }
}

/// A predicate applied by a filter stage, or by the find reducer, to
/// decide whether an element is kept or matches.
#[derive(Clone, Copy, PartialEq, Eq, Structural, Debug)]
pub enum PredFn {
    /// Holds of the even integers.
    IsEven,
    /// Holds of the odd integers.
    IsOdd,
    /// Holds of elements strictly greater than the constant.
    GreaterThan(i64),
    /// Holds of elements strictly less than the constant.
    LessThan(i64),
}

impl PredFn {
    /// Whether the predicate holds of a given element.
    pub open spec fn holds_spec(self, x: i64) -> bool {
        match self {
            PredFn::IsEven => x % 2 == 0,
            PredFn::IsOdd => x % 2 != 0,
            PredFn::GreaterThan(c) => x > c,
            PredFn::LessThan(c) => x < c,
        }
    }

    /// Tests the predicate on one element.
    pub fn holds(self, x: i64) -> (r: bool)
        ensures
            r == self.holds_spec(x),
    {
        match self {
            PredFn::IsEven => x % 2 == 0,
            PredFn::IsOdd => x % 2 != 0,
            PredFn::GreaterThan(c) => x > c,
            PredFn::LessThan(c) => x < c,
        }
    }
}

/// A combining function applied by the fold reducer: it takes the
/// accumulator so far and the next element, and returns the new
/// accumulator.
#[derive(Clone, Copy, PartialEq, Eq, Structural, Debug)]
pub enum FoldFn {
    /// Adds the element to the accumulator, wrapping on overflow.
    Add,
    /// Multiplies the accumulator by the element, wrapping on overflow.
    Mul,
    /// Keeps the larger of the accumulator and the element.
    Max,
    /// Keeps the smaller of the accumulator and the element.
    Min,
}

impl FoldFn {
    /// The new accumulator for a given accumulator and element.
    pub open spec fn combine_spec(self, acc: i64, x: i64) -> i64 {
        match self {
            FoldFn::Add => vstd::wrapping::i64_specs::wrapping_add(acc, x),
            FoldFn::Mul => vstd::wrapping::i64_specs::wrapping_mul(acc, x),
            FoldFn::Max => if x > acc { x } else { acc },
            FoldFn::Min => if x < acc { x } else { acc },
        }
    }

    /// Combines the accumulator with one element.
    pub fn combine(self, acc: i64, x: i64) -> (r: i64)
        ensures
            r == self.combine_spec(acc, x),
    {
        match self {
            FoldFn::Add => acc.wrapping_add(x),
            FoldFn::Mul => acc.wrapping_mul(x),
            FoldFn::Max => if x > acc { x } else { acc },
            FoldFn::Min => if x < acc { x } else { acc },
        }
    }
}

} // verus!
