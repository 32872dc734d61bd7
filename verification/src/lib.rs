//! A lazy sequence pipeline over 64-bit integers.
//!
//! A [`pipeline::Sequence`] produces integers on demand: a range source
//! yields the integers of a half-open interval, and map and filter stages
//! wrap an upstream sequence without materializing it. Terminal reducers
//! (`collect`, `fold`, `find`) drive a pipeline to completion, or to the
//! first match, and leave it exhausted. Every operation carries a contract
//! over the sequence's mathematical model, a `Seq<i64>` of the elements
//! still to be yielded.

pub mod enumerate;
pub mod funcs;
pub mod laws;
pub mod pipeline;
pub mod reducers;
