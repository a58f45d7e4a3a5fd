//! The two-bit saturating-counter strategy.

use vstd::prelude::*;

use crate::model::{
    counter_next, counter_predict, counter_table_wf, is_pow2_u64, lemma_table_index_bound,
    model_predict, model_step, table_index, PredictorModel,
};
use crate::strategies::{filled, BranchPredictionStrategy};

verus! {

/// A table of `size` two-bit states indexed by the low program-counter
/// bits; `size` is a power of two.
#[derive(Debug)]
pub struct TwoBit {
    pub size: usize,
    pub states: Vec<u8>,
}

impl TwoBit {
    /// The counter table, all states initially 0 (strongly not-taken).
    pub open spec fn spec_states(&self) -> Seq<u8> {
        self.states@
    }

    pub fn new(size: usize) -> (r: Self)
        requires
            is_pow2_u64(size as u64),
        ensures
            r.wf(),
            r.model() == (PredictorModel::TwoBit {
                states: Seq::new(size as nat, |i: int| 0u8),
            }),
    {
        let states = filled(size, 0u8);
        TwoBit { size, states }
    }
}

impl BranchPredictionStrategy for TwoBit {
    open spec fn wf(&self) -> bool {
        self.size == self.states@.len() && counter_table_wf(self.states@)
    }

    open spec fn model(&self) -> PredictorModel {
        PredictorModel::TwoBit { states: self.states@ }
    }

    fn predict_and_update(
        &mut self,
        program_counter: u64,
        target_address: u64,
        actual_result: bool,
    ) -> (r: bool) {
        proof {
            lemma_table_index_bound(program_counter, self.states@.len());
        }
        let mask = (self.size as u64) - 1;
        let idx = (program_counter & mask) as usize;
        let current = self.states[idx];
        let next: u8 = if actual_result {
            if current == 0 {
                1
            } else if current == 1 {
                2
            } else {
                3
            }
        } else {
            if current == 3 {
                2
            } else if current == 2 {
                1
            } else {
                0
            }
        };
        self.states.set(idx, next);
        proof {
            assert(self.model() =~= model_step(
                old(self).model(),
                program_counter,
                actual_result,
            ));
        }
        current == 2 || current == 3
    }
}

} // verus!
