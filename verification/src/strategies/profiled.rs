//! The trained-static strategy and its trainer.
//!
//! The trainer accumulates a signed counter per index over conditional
//! records; finalization thresholds the counters into an immutable lookup
//! table and consumes the trainer.

use vstd::prelude::*;

use crate::model::{
    is_pow2_u64, lemma_table_index_bound, model_predict, model_step, table_index, PredictorModel,
};
use crate::strategies::{
    filled, finalize_counts, trainer_step, BranchPredictionStrategy, BranchPredictionTrainer,
};

verus! {

/// Read-only table of pre-decided predictions; never updates.
#[derive(Debug)]
pub struct TrainedStaticPredictor {
    pub table: Vec<bool>,
}

/// Accumulates training examples before finalization.
pub struct StaticPredictorTrainer {
    pub table: Vec<i64>,
    pub examples: Ghost<nat>,
}

impl StaticPredictorTrainer {
    pub fn new(tablesize: usize) -> (r: Self)
        requires
            is_pow2_u64(tablesize as u64),
        ensures
            r.wf(),
            r.counts() == Seq::new(tablesize as nat, |i: int| 0int),
            r.examples() == 0,
    {
        let r = StaticPredictorTrainer { table: filled(tablesize, 0i64), examples: Ghost(0) };
        proof {
            assert(r.counts() =~= Seq::new(tablesize as nat, |i: int| 0int));
        }
        r
    }
}

impl BranchPredictionTrainer for StaticPredictorTrainer {
    type Output = TrainedStaticPredictor;

    open spec fn wf(&self) -> bool {
        &&& self.table@.len() <= u64::MAX
        &&& is_pow2_u64(self.table@.len() as u64)
        &&& self.examples@ <= i64::MAX
        &&& forall|i: int|
            0 <= i < self.table@.len() ==> -(self.examples@ as int) <= #[trigger] self.table@[i]
                <= self.examples@ as int
    }

    open spec fn counts(&self) -> Seq<int> {
        Seq::new(self.table@.len(), |i: int| self.table@[i] as int)
    }

    open spec fn examples(&self) -> nat {
        self.examples@
    }

    fn add_example(&mut self, program_counter: u64, target_address: u64, actual_result: bool) {
        proof {
            lemma_table_index_bound(program_counter, self.table@.len());
        }
        let mask = (self.table.len() as u64) - 1;
        let idx = (program_counter & mask) as usize;
        let current = self.table[idx];
        let updated: i64 = if actual_result {
            current + 1
        } else {
            current - 1
        };
        self.table.set(idx, updated);
        proof {
            self.examples@ = self.examples@ + 1;
            assert(self.counts() =~= trainer_step(
                old(self).counts(),
                program_counter,
                actual_result,
            ));
        }
    }

    fn to_predictor(self) -> (r: TrainedStaticPredictor) {
        let n = self.table.len();
        let mut out: Vec<bool> = Vec::new();
        let mut i: usize = 0;
        while i < n
            invariant
                0 <= i <= n,
                n == self.table@.len(),
                out@.len() == i,
                forall|j: int| 0 <= j < i ==> out@[j] == (self.table@[j] >= 0),
            decreases n - i,
        {
            out.push(self.table[i] >= 0);
            i = i + 1;
        }
        let r = TrainedStaticPredictor { table: out };
        proof {
            assert(r.table@ =~= finalize_counts(self.counts()));
        }
        r
    }
}

impl BranchPredictionStrategy for TrainedStaticPredictor {
    open spec fn wf(&self) -> bool {
        self.table@.len() <= u64::MAX && is_pow2_u64(self.table@.len() as u64)
    }

    open spec fn model(&self) -> PredictorModel {
        PredictorModel::Trained { table: self.table@ }
    }

    fn predict_and_update(
        &mut self,
        program_counter: u64,
        target_address: u64,
        actual_result: bool,
    ) -> (r: bool) {
        proof {
            lemma_table_index_bound(program_counter, self.table@.len());
        }
        let mask = (self.table.len() as u64) - 1;
        let idx = (program_counter & mask) as usize;
        self.table[idx]
    }
}

} // verus!
