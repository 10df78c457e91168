//! A 2-D gravitational n-body simulation over fixed-point arithmetic.
//!
//! Scalars are integers in milli-units (one unit is represented by 1000),
//! so every computation has an exact, machine-checked meaning. The library
//! provides two force fields over the same capability: an exact pairwise
//! summation and a Barnes-Hut hierarchical approximation built on a
//! quadtree with verified mass aggregation.

pub mod barneshut;
pub mod environment;
pub mod field;
pub mod force;
pub mod geometry;
pub mod num;
pub mod physics;
pub mod writer;

use vstd::prelude::*;

verus! {

/// The fixed-point scale: one unit of length, mass or time step
/// corresponds to this many stored ticks.
pub const SCALE: i64 = 1000;

} // verus!
