//! The stateless strategy that always predicts taken.

use vstd::prelude::*;

use crate::model::{model_predict, model_step, PredictorModel};
use crate::strategies::BranchPredictionStrategy;

verus! {

#[derive(Debug)]
pub struct AlwaysTaken {}

impl Default for AlwaysTaken {
    fn default() -> (r: Self)
        ensures
            r.wf(),
            r.model() == PredictorModel::Always,
    {
        AlwaysTaken {  }
    }
}

impl BranchPredictionStrategy for AlwaysTaken {
    open spec fn wf(&self) -> bool {
        true
    }

    open spec fn model(&self) -> PredictorModel {
        PredictorModel::Always
    }

    fn predict_and_update(
        &mut self,
        program_counter: u64,
        target_address: u64,
        actual_result: bool,
    ) -> (r: bool) {
        true
    }
}

} // verus!
