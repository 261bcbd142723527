//! Projection pushdown over an arena-indexed logical plan, together with the
//! hashing, chunk-addressing and temporal helpers used by the executor that
//! runs the rewritten plan.
use vstd::prelude::*;

pub mod arena;
pub mod cast;
pub mod context;
pub mod delta;
pub mod duration;
pub mod expr;
pub mod fmt;
pub mod hashing;
pub mod index;
pub mod plan;
pub mod prune;
pub mod pushdown;

verus! {

} // verus!
