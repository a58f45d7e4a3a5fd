//! A thin owner around one prediction strategy.

use vstd::prelude::*;

use crate::model::{model_predict, model_step, PredictorModel};
use crate::strategies::BranchPredictionStrategy;

verus! {

pub struct BranchPredictor<S: BranchPredictionStrategy> {
    pub strategy: S,
}

impl<S: BranchPredictionStrategy> BranchPredictor<S> {
    pub open spec fn wf(&self) -> bool {
        self.strategy.wf()
    }

    pub open spec fn model(&self) -> PredictorModel {
        self.strategy.model()
    }

    pub fn new(strategy: S) -> (r: Self)
        ensures
            r.wf() == strategy.wf(),
            r.model() == strategy.model(),
    {
        BranchPredictor { strategy }
    }

    /// True if the branch is predicted taken; updates the strategy with
    /// the actual outcome.
    pub fn predict_and_update(
        &mut self,
        program_counter: u64,
        target_address: u64,
        actual_result: bool,
    ) -> (r: bool)
        requires
            old(self).wf(),
        ensures
            final(self).wf(),
            r == model_predict(old(self).model(), program_counter),
            final(self).model() == model_step(old(self).model(), program_counter, actual_result),
    {
        self.strategy.predict_and_update(program_counter, target_address, actual_result)
    }
}

} // verus!
