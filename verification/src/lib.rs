//! Verified core of a black-box parameter search over trajectory simulations.
//!
//! All quantities are fixed-point integers scaled by 1000 (milli-units):
//! a position coordinate of `1.5` units is stored as `1500`, a time of
//! `0.1` time units as `100`, and so on. Fitness values carry the same
//! scale. This keeps every computation exact and lets each step of the
//! scoring pipeline be stated and proved as integer arithmetic.

pub mod evaluator;
pub mod geometry;
pub mod state;
pub mod report;
pub mod stats;
pub mod trajectory;
pub mod util;
pub mod worker;
pub mod wrappers;

use vstd::prelude::*;

verus! {

/// The fixed-point scale: all milli-unit quantities carry this factor.
pub const SCALE: i64 = 1000;

} // verus!
