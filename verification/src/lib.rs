//! Branch-prediction trace simulation: a fixed-width trace record codec,
//! a family of prediction strategies, simulation engines that drive a
//! strategy across a recorded trace, and sweep/aggregation helpers that
//! explore configuration grids.

pub mod analysis;
pub mod codec;
pub mod model;
pub mod predictor;
pub mod simulator;
pub mod strategies;

use vstd::prelude::*;

verus! {

} // verus!
