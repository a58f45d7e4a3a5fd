//! The family of prediction strategies and the trainer protocol.
//!
//! Every strategy implements predict-then-update against the ghost
//! `PredictorModel`; a trainer accumulates per-index counters and finalizes
//! one-way into an immutable trained strategy.

pub mod always;
pub mod gshare;
pub mod profiled;
pub mod twobit;

use vstd::prelude::*;

use crate::model::{model_predict, model_step, table_index, PredictorModel};

verus! {

/// A branch prediction strategy: one predict-then-update step per record.
///
/// `predict_and_update` must be called by a single owner, strictly in
/// record order; its exact behaviour is `model_predict` / `model_step`
/// over the strategy's model.
pub trait BranchPredictionStrategy: Sized {
    spec fn wf(&self) -> bool;

    spec fn model(&self) -> PredictorModel;

    fn predict_and_update(
        &mut self,
        program_counter: u64,
        target_address: u64,
        actual_result: bool,
    ) -> (r: bool)
        requires
            old(self).wf(),
        ensures
            final(self).wf(),
            r == model_predict(old(self).model(), program_counter),
            final(self).model() == model_step(old(self).model(), program_counter, actual_result),
    ;
}

/// Effect of one training example on the per-index counters: +1 on a taken
/// outcome, -1 on a not-taken outcome, at the index selected by the
/// program counter.
pub open spec fn trainer_step(counts: Seq<int>, pc: u64, taken: bool) -> Seq<int> {
    let i = table_index(pc, counts.len());
    counts.update(
        i,
        counts[i] + (if taken {
            1int
        } else {
            -1int
        }),
    )
}

/// Finalization thresholds each counter: predict taken where the counter
/// is non-negative.
pub open spec fn finalize_counts(counts: Seq<int>) -> Seq<bool> {
    Seq::new(counts.len(), |i: int| counts[i] >= 0)
}

/// A trainer accumulates examples and finalizes, one-way, into a strategy.
pub trait BranchPredictionTrainer: Sized {
    type Output: BranchPredictionStrategy;

    spec fn wf(&self) -> bool;

    /// The accumulated signed counter per table index.
    spec fn counts(&self) -> Seq<int>;

    /// How many examples have been accumulated; bounds every counter.
    spec fn examples(&self) -> nat;

    fn add_example(&mut self, program_counter: u64, target_address: u64, actual_result: bool)
        requires
            old(self).wf(),
            old(self).examples() + 1 <= i64::MAX,
        ensures
            final(self).wf(),
            final(self).examples() == old(self).examples() + 1,
            final(self).counts() == trainer_step(
                old(self).counts(),
                program_counter,
                actual_result,
            ),
    ;

    /// Consumes the trainer: no further accumulation is possible afterward.
    fn to_predictor(self) -> (r: Self::Output)
        requires
            self.wf(),
        ensures
            r.wf(),
            r.model() == (PredictorModel::Trained { table: finalize_counts(self.counts()) }),
    ;
}

/// A vector holding `len` copies of `value`.
pub(crate) fn filled<T: Copy>(len: usize, value: T) -> (v: Vec<T>)
    ensures
        v@ == Seq::new(len as nat, |i: int| value),
{
    let mut v: Vec<T> = Vec::new();
    let mut i: usize = 0;
    while i < len
        invariant
            0 <= i <= len,
            v@.len() == i,
            forall|j: int| 0 <= j < i ==> v@[j] == value,
        decreases len - i,
    {
        v.push(value);
        i = i + 1;
    }
    proof {
        assert(v@ =~= Seq::new(len as nat, |i: int| value));
    }
    v
}

} // verus!
