//! Simulation engines: a standard pass over a decoded trace, and a
//! train-then-test split pass.

use vstd::prelude::*;

use crate::codec::{
    decode_record, num_records, rec_at, rec_conditional, rec_pc, rec_taken, sim_ready,
    valid_record, FLAG_SET, IS_CONDITIONAL_OFFSET, LINE_SIZE,
};
use crate::model::{
    gshare_address, is_pow2_u64, lemma_table_index_bound, model_predict, model_step, table_index,
    PredictorModel,
};
use crate::predictor::BranchPredictor;
use crate::strategies::{
    finalize_counts, trainer_step, BranchPredictionStrategy, BranchPredictionTrainer,
};

verus! {

/// Accumulated prediction counts. Accuracy is the derived ratio
/// hits / predictions; with zero predictions it is undefined and left to
/// the caller to represent.
#[derive(Clone, Copy, PartialEq, Eq, Structural, Debug)]
pub struct SimulationResults {
    pub total_predictions: u64,
    pub total_hits: u64,
}

impl Default for SimulationResults {
    fn default() -> (r: Self)
        ensures
            r.total_predictions == 0,
            r.total_hits == 0,
    {
        SimulationResults { total_predictions: 0, total_hits: 0 }
    }
}

/// Ghost state of one simulation in flight: the strategy's model and the
/// exact counts so far.
pub ghost struct SimOutcome {
    pub model: PredictorModel,
    pub preds: nat,
    pub hits: nat,
}

/// Effect of one record on a simulation: non-conditional records are
/// skipped entirely; a conditional record is predicted, counted, and fed
/// back into the strategy.
pub open spec fn sim_step(s: SimOutcome, line: Seq<u8>) -> SimOutcome {
    if rec_conditional(line) {
        let p = model_predict(s.model, rec_pc(line));
        SimOutcome {
            model: model_step(s.model, rec_pc(line), rec_taken(line)),
            preds: s.preds + 1,
            hits: if p == rec_taken(line) {
                s.hits + 1
            } else {
                s.hits
            },
        }
    } else {
        s
    }
}

/// The simulation state after the first `n` records of the trace.
pub open spec fn sim_upto(start: SimOutcome, trace: Seq<u8>, n: int) -> SimOutcome
    decreases n,
{
    if n <= 0 {
        start
    } else {
        sim_step(sim_upto(start, trace, n - 1), rec_at(trace, n - 1))
    }
}

/// The simulation state after a whole trace.
pub open spec fn sim_all(start: SimOutcome, trace: Seq<u8>) -> SimOutcome {
    sim_upto(start, trace, num_records(trace))
}

/// Counts grow by at most one per record, and hits never pass predictions.
pub proof fn lemma_sim_upto_bounds(start: SimOutcome, trace: Seq<u8>, n: int)
    requires
        0 <= n,
        start.hits <= start.preds,
    ensures
        start.preds <= sim_upto(start, trace, n).preds <= start.preds + n,
        sim_upto(start, trace, n).hits <= sim_upto(start, trace, n).preds,
        sim_upto(start, trace, n).hits - start.hits <= sim_upto(start, trace, n).preds
            - start.preds,
        start.hits <= sim_upto(start, trace, n).hits,
    decreases n,
{
    if n > 0 {
        lemma_sim_upto_bounds(start, trace, n - 1);
    }
}

/// The number of predictions depends on the trace alone, never on the
/// strategy: every strategy scores exactly the conditional records. All
/// configurations of a sweep therefore share one denominator, and
/// comparing hit counts compares accuracies.
pub proof fn lemma_preds_count_cond(start: SimOutcome, trace: Seq<u8>, n: int)
    requires
        0 <= n,
    ensures
        sim_upto(start, trace, n).preds == start.preds + count_cond(trace, n),
    decreases n,
{
    if n > 0 {
        lemma_preds_count_cond(start, trace, n - 1);
    }
}

/// Number of conditional records among the first `n` that were taken.
pub open spec fn count_cond_taken(trace: Seq<u8>, n: int) -> nat
    decreases n,
{
    if n <= 0 {
        0
    } else if rec_conditional(rec_at(trace, n - 1)) && rec_taken(rec_at(trace, n - 1)) {
        (count_cond_taken(trace, n - 1) + 1) as nat
    } else {
        count_cond_taken(trace, n - 1)
    }
}

/// The always-taken strategy scores exactly the taken conditional
/// records: over any trace its predictions count the conditional records
/// and its hits count the taken ones, so its accuracy is their ratio.
pub proof fn lemma_always_taken_accuracy(trace: Seq<u8>, n: int)
    requires
        0 <= n,
    ensures
        sim_upto(
            SimOutcome { model: PredictorModel::Always, preds: 0 as nat, hits: 0 as nat },
            trace,
            n,
        ) == (SimOutcome {
            model: PredictorModel::Always,
            preds: count_cond(trace, n),
            hits: count_cond_taken(trace, n),
        }),
    decreases n,
{
    if n > 0 {
        lemma_always_taken_accuracy(trace, n - 1);
    }
}

/// The outcome bits a global history register has absorbed after the
/// first `n` records: shifted left once and ORed with each conditional
/// record's outcome, in record order.
pub open spec fn history_after(history: u64, trace: Seq<u8>, n: int) -> u64
    decreases n,
{
    if n <= 0 {
        history
    } else {
        let h = history_after(history, trace, n - 1);
        if rec_conditional(rec_at(trace, n - 1)) {
            (((h << 1) as u64) | (if rec_taken(rec_at(trace, n - 1)) {
                1u64
            } else {
                0u64
            }))
        } else {
            h
        }
    }
}

/// With zero history bits the history mask is zero and a full address
/// mask keeps the program counter intact, so a GShare table indexes
/// exactly as a bare saturating-counter table of the same size: over any
/// trace the two make the same predictions and counts, from any starting
/// history.
pub proof fn lemma_gshare_zero_history(
    states: Seq<u8>,
    history: u64,
    shift: u64,
    trace: Seq<u8>,
    n: int,
)
    requires
        0 <= n,
    ensures
        ({
            let g = sim_upto(
                SimOutcome {
                    model: PredictorModel::GShare {
                        states,
                        history,
                        shift,
                        hmask: 0,
                        amask: u64::MAX,
                    },
                    preds: 0 as nat,
                    hits: 0 as nat,
                },
                trace,
                n,
            );
            let t = sim_upto(
                SimOutcome { model: PredictorModel::TwoBit { states }, preds: 0 as nat, hits: 0 as nat },
                trace,
                n,
            );
            &&& g.preds == t.preds
            &&& g.hits == t.hits
            &&& t.model matches PredictorModel::TwoBit { states: ts } && g.model
                == (PredictorModel::GShare {
                states: ts,
                history: history_after(history, trace, n),
                shift,
                hmask: 0,
                amask: u64::MAX,
            })
        }),
    decreases n,
{
    if n > 0 {
        lemma_gshare_zero_history(states, history, shift, trace, n - 1);
        let line = rec_at(trace, n - 1);
        let pc = rec_pc(line);
        let h = history_after(history, trace, n - 1);
        assert(gshare_address(pc, h, shift, 0, u64::MAX) == pc) by (bit_vector);
    }
}

/// A trainer that saw a taken outcome for every conditional record
/// mapping to a program counter's table index, finalized, predicts taken
/// for that program counter — whatever the other counters accumulated.
pub proof fn lemma_trained_taken_for_pc(counts: Seq<int>, trace: Seq<u8>, n: int, pc: u64)
    requires
        0 <= n,
        counts.len() <= u64::MAX,
        is_pow2_u64(counts.len() as u64),
        counts[table_index(pc, counts.len())] >= 0,
        forall|i: int|
            0 <= i < n ==> ((rec_conditional(#[trigger] rec_at(trace, i)) && table_index(
                rec_pc(rec_at(trace, i)),
                counts.len(),
            ) == table_index(pc, counts.len())) ==> rec_taken(rec_at(trace, i))),
    ensures
        train_upto(counts, trace, n).len() == counts.len(),
        train_upto(counts, trace, n)[table_index(pc, counts.len())] >= 0,
        model_predict(
            PredictorModel::Trained { table: finalize_counts(train_upto(counts, trace, n)) },
            pc,
        ) == true,
    decreases n,
{
    lemma_table_index_bound(pc, counts.len());
    if n > 0 {
        lemma_trained_taken_for_pc(counts, trace, n - 1, pc);
        let line = rec_at(trace, n - 1);
        if rec_conditional(line) {
            lemma_table_index_bound(rec_pc(line), counts.len());
        }
    }
}

/// Drives one strategy across a trace, accumulating results.
pub trait Simulator: Sized {
    spec fn wf(&self) -> bool;

    /// The results accumulated so far.
    spec fn results(&self) -> SimulationResults;

    /// The exact results `simulate` leaves behind.
    spec fn simulate_spec(&self, trace: Seq<u8>) -> SimulationResults;

    fn simulate(&mut self, trace: &[u8]) -> (r: SimulationResults)
        requires
            old(self).wf(),
            sim_ready(trace@),
            old(self).results().total_predictions + num_records(trace@) <= u64::MAX,
        ensures
            final(self).wf(),
            r == old(self).simulate_spec(trace@),
            final(self).results() == r,
    ;

    fn get_results(&self) -> (r: SimulationResults)
        ensures
            r == self.results(),
    ;
}

pub struct StandardSimulator<S: BranchPredictionStrategy> {
    pub predictor: BranchPredictor<S>,
    pub results: SimulationResults,
}

impl<S: BranchPredictionStrategy> StandardSimulator<S> {
    /// The ghost simulation state this simulator stands at.
    pub open spec fn outcome(&self) -> SimOutcome {
        SimOutcome {
            model: self.predictor.model(),
            preds: self.results.total_predictions as nat,
            hits: self.results.total_hits as nat,
        }
    }

    pub fn new(predictor: BranchPredictor<S>) -> (r: Self)
        ensures
            r.wf() == predictor.wf(),
            r.results() == (SimulationResults { total_predictions: 0, total_hits: 0 }),
            r.outcome() == (SimOutcome {
                model: predictor.model(),
                preds: 0 as nat,
                hits: 0 as nat,
            }),
    {
        StandardSimulator { predictor, results: SimulationResults::default() }
    }
}

impl<S: BranchPredictionStrategy> Simulator for StandardSimulator<S> {
    open spec fn wf(&self) -> bool {
        self.predictor.wf() && self.results.total_hits <= self.results.total_predictions
    }

    open spec fn results(&self) -> SimulationResults {
        self.results
    }

    open spec fn simulate_spec(&self, trace: Seq<u8>) -> SimulationResults {
        let o = sim_all(self.outcome(), trace);
        SimulationResults { total_predictions: o.preds as u64, total_hits: o.hits as u64 }
    }

    #[verifier::loop_isolation(false)]
    fn simulate(&mut self, trace: &[u8]) -> (r: SimulationResults)
        ensures
            final(self).outcome() == sim_all(old(self).outcome(), trace@),
    {
        let ghost start = self.outcome();
        let len = trace.len();
        let n = len / LINE_SIZE;
        proof {
            vstd::arithmetic::div_mod::lemma_fundamental_div_mod(len as int, 42);
        }
        let mut i: usize = 0;
        while i < n
            invariant
                0 <= i <= n,
                self.predictor.wf(),
                sim_upto(start, trace@, i as int) == self.outcome(),
                self.results.total_hits <= self.results.total_predictions,
            decreases n - i,
        {
            proof {
                lemma_sim_upto_bounds(start, trace@, i as int);
            }
            let offset = i * LINE_SIZE;
            let line = vstd::slice::slice_subrange(trace, offset, offset + LINE_SIZE);
            proof {
                assert(line@ == rec_at(trace@, i as int));
            }
            let conditional = *vstd::slice::slice_index_get(line, IS_CONDITIONAL_OFFSET) == FLAG_SET;
            proof {
                assert(conditional == rec_conditional(rec_at(trace@, i as int)));
            }
            if conditional {
                let rec = decode_record(line);
                self.results.total_predictions = self.results.total_predictions + 1;
                let predicted = self.predictor.predict_and_update(
                    rec.program_counter,
                    rec.target_address,
                    rec.taken,
                );
                if predicted == rec.taken {
                    self.results.total_hits = self.results.total_hits + 1;
                }
            }
            i = i + 1;
            proof {
                assert(sim_upto(start, trace@, i as int) == sim_step(
                    sim_upto(start, trace@, i as int - 1),
                    rec_at(trace@, i as int - 1),
                ));
            }
        }
        proof {
            lemma_sim_upto_bounds(start, trace@, n as int);
        }
        self.results
    }

    fn get_results(&self) -> (r: SimulationResults) {
        self.results
    }
}

/// Number of conditional records among the first `n`.
pub open spec fn count_cond(trace: Seq<u8>, n: int) -> nat
    decreases n,
{
    if n <= 0 {
        0
    } else if rec_conditional(rec_at(trace, n - 1)) {
        (count_cond(trace, n - 1) + 1) as nat
    } else {
        count_cond(trace, n - 1)
    }
}

pub proof fn lemma_count_cond_bound(trace: Seq<u8>, n: int)
    requires
        0 <= n,
    ensures
        count_cond(trace, n) <= n,
    decreases n,
{
    if n > 0 {
        lemma_count_cond_bound(trace, n - 1);
    }
}

/// Effect of one record on a trainer: conditional records accumulate one
/// example, others are skipped.
pub open spec fn train_rec(counts: Seq<int>, line: Seq<u8>) -> Seq<int> {
    if rec_conditional(line) {
        trainer_step(counts, rec_pc(line), rec_taken(line))
    } else {
        counts
    }
}

/// The trainer's counters after the first `n` records of the trace.
pub open spec fn train_upto(counts: Seq<int>, trace: Seq<u8>, n: int) -> Seq<int>
    decreases n,
{
    if n <= 0 {
        counts
    } else {
        train_rec(train_upto(counts, trace, n - 1), rec_at(trace, n - 1))
    }
}

/// The byte index that splits a trace at the record boundary nearest to
/// `num/den` of its length, rounded down to a whole record.
pub open spec fn split_point_of(len: nat, num: u64, den: u64) -> int {
    let raw = (len * num) as int / (den as int);
    raw - (raw % 42)
}

/// Records of an aligned prefix are records of the whole trace.
pub proof fn lemma_prefix_records(trace: Seq<u8>, sp: int)
    requires
        0 <= sp <= trace.len(),
        sp % 42 == 0,
    ensures
        num_records(trace.subrange(0, sp)) == sp / 42,
        forall|i: int|
            0 <= i < sp / 42 ==> rec_at(trace.subrange(0, sp), i) == rec_at(trace, i),
{
    vstd::arithmetic::div_mod::lemma_fundamental_div_mod(sp, 42);
    assert forall|i: int| 0 <= i < sp / 42 implies rec_at(trace.subrange(0, sp), i) == rec_at(
        trace,
        i,
    ) by {
        assert(42 * i + 42 <= sp) by (nonlinear_arith)
            requires
                i < sp / 42,
                sp % 42 == 0,
        ;
        assert(rec_at(trace.subrange(0, sp), i) =~= rec_at(trace, i));
    }
}

/// Records of an aligned suffix are the later records of the whole trace.
pub proof fn lemma_suffix_records(trace: Seq<u8>, sp: int)
    requires
        0 <= sp <= trace.len(),
        sp % 42 == 0,
        trace.len() % 42 == 0,
    ensures
        num_records(trace.subrange(sp, trace.len() as int)) == num_records(trace) - sp / 42,
        forall|i: int|
            0 <= i < num_records(trace) - sp / 42 ==> rec_at(
                trace.subrange(sp, trace.len() as int),
                i,
            ) == rec_at(trace, sp / 42 + i),
{
    let len = trace.len() as int;
    vstd::arithmetic::div_mod::lemma_fundamental_div_mod(sp, 42);
    vstd::arithmetic::div_mod::lemma_fundamental_div_mod(len, 42);
    assert((len - sp) / 42 == len / 42 - sp / 42) by (nonlinear_arith)
        requires
            sp % 42 == 0,
            len % 42 == 0,
            sp == 42 * (sp / 42),
            len == 42 * (len / 42),
            0 <= sp <= len,
    ;
    assert forall|i: int| 0 <= i < num_records(trace) - sp / 42 implies rec_at(
        trace.subrange(sp, len),
        i,
    ) == rec_at(trace, sp / 42 + i) by {
        assert(42 * (sp / 42 + i) + 42 <= len) by (nonlinear_arith)
            requires
                i < len / 42 - sp / 42,
                sp == 42 * (sp / 42),
                len == 42 * (len / 42),
        ;
        assert(rec_at(trace.subrange(sp, len), i) =~= rec_at(trace, sp / 42 + i));
    }
}

pub proof fn lemma_prefix_sim_ready(trace: Seq<u8>, sp: int)
    requires
        sim_ready(trace),
        0 <= sp <= trace.len(),
        sp % 42 == 0,
    ensures
        sim_ready(trace.subrange(0, sp)),
{
    lemma_prefix_records(trace, sp);
    vstd::arithmetic::div_mod::lemma_fundamental_div_mod(sp, 42);
    vstd::arithmetic::div_mod::lemma_fundamental_div_mod(trace.len() as int, 42);
    let p = trace.subrange(0, sp);
    assert(num_records(p) <= num_records(trace)) by (nonlinear_arith)
        requires
            num_records(p) == sp / 42,
            sp == 42 * (sp / 42),
            trace.len() == 42 * (trace.len() as int / 42),
            num_records(trace) == trace.len() as int / 42,
            sp <= trace.len(),
    ;
    assert forall|i: int|
        0 <= i < num_records(p) && rec_conditional(#[trigger] rec_at(p, i)) implies valid_record(
        rec_at(p, i),
    ) by {
        assert(rec_at(p, i) == rec_at(trace, i));
    }
}

pub proof fn lemma_suffix_sim_ready(trace: Seq<u8>, sp: int)
    requires
        sim_ready(trace),
        0 <= sp <= trace.len(),
        sp % 42 == 0,
    ensures
        sim_ready(trace.subrange(sp, trace.len() as int)),
{
    lemma_suffix_records(trace, sp);
    let s = trace.subrange(sp, trace.len() as int);
    assert forall|i: int|
        0 <= i < num_records(s) && rec_conditional(#[trigger] rec_at(s, i)) implies valid_record(
        rec_at(s, i),
    ) by {
        assert(rec_at(s, i) == rec_at(trace, sp / 42 + i));
        assert(0 <= sp / 42 + i < num_records(trace));
    }
}

/// Partitions a trace at a record boundary, trains on the prefix, then
/// simulates the finalized strategy over the suffix. The split fraction
/// is the ratio `split_num / split_den`, clamped to one.
pub struct TrainingSplitSimulator<T: BranchPredictionTrainer> {
    pub trainer: T,
    pub split_num: u64,
    pub split_den: u64,
}

impl<T: BranchPredictionTrainer> TrainingSplitSimulator<T> {
    pub open spec fn wf(&self) -> bool {
        self.trainer.wf() && 1 <= self.split_den && self.split_num <= self.split_den
    }

    /// Fractions above one are clamped, not rejected.
    pub fn new(trainer: T, split_num: u64, split_den: u64) -> (r: Self)
        requires
            split_den >= 1,
        ensures
            r.trainer == trainer,
            r.split_den == split_den,
            r.split_num == (if split_num <= split_den {
                split_num
            } else {
                split_den
            }),
    {
        let clamped = if split_num <= split_den {
            split_num
        } else {
            split_den
        };
        TrainingSplitSimulator { trainer, split_num: clamped, split_den }
    }

    /// Accumulates every conditional record of the trace into the trainer.
    #[verifier::loop_isolation(false)]
    pub fn train(&mut self, trace: &[u8])
        requires
            old(self).wf(),
            sim_ready(trace@),
            old(self).trainer.examples() + num_records(trace@) <= i64::MAX,
        ensures
            final(self).wf(),
            final(self).split_num == old(self).split_num,
            final(self).split_den == old(self).split_den,
            final(self).trainer.counts() == train_upto(
                old(self).trainer.counts(),
                trace@,
                num_records(trace@),
            ),
            final(self).trainer.examples() == old(self).trainer.examples() + count_cond(
                trace@,
                num_records(trace@),
            ),
    {
        let ghost counts0 = self.trainer.counts();
        let len = trace.len();
        let n = len / LINE_SIZE;
        proof {
            vstd::arithmetic::div_mod::lemma_fundamental_div_mod(len as int, 42);
        }
        let mut i: usize = 0;
        while i < n
            invariant
                0 <= i <= n,
                self.trainer.wf(),
                self.split_num == old(self).split_num,
                self.split_den == old(self).split_den,
                self.trainer.counts() == train_upto(counts0, trace@, i as int),
                self.trainer.examples() == old(self).trainer.examples() + count_cond(
                    trace@,
                    i as int,
                ),
            decreases n - i,
        {
            proof {
                lemma_count_cond_bound(trace@, i as int);
            }
            let offset = i * LINE_SIZE;
            let line = vstd::slice::slice_subrange(trace, offset, offset + LINE_SIZE);
            proof {
                assert(line@ == rec_at(trace@, i as int));
            }
            let conditional = *vstd::slice::slice_index_get(line, IS_CONDITIONAL_OFFSET) == FLAG_SET;
            if conditional {
                let rec = decode_record(line);
                self.trainer.add_example(rec.program_counter, rec.target_address, rec.taken);
            }
            i = i + 1;
        }
    }

    /// Finalizes the trainer, consuming the simulator: the one-way
    /// trainer-to-predictor transition.
    pub fn get_predictor(self) -> (r: T::Output)
        requires
            self.wf(),
        ensures
            r.wf(),
            r.model() == (PredictorModel::Trained {
                table: finalize_counts(self.trainer.counts()),
            }),
    {
        self.trainer.to_predictor()
    }

    /// The exact results of a split simulation over the given trace.
    pub open spec fn simulate_spec(&self, trace: Seq<u8>) -> SimulationResults {
        let sp = split_point_of(trace.len(), self.split_num, self.split_den);
        let trained = finalize_counts(
            train_upto(self.trainer.counts(), trace.subrange(0, sp), sp / 42),
        );
        let o = sim_all(
            SimOutcome {
                model: PredictorModel::Trained { table: trained },
                preds: 0 as nat,
                hits: 0 as nat,
            },
            trace.subrange(sp, trace.len() as int),
        );
        SimulationResults { total_predictions: o.preds as u64, total_hits: o.hits as u64 }
    }

    /// Trains on the prefix, finalizes, and simulates the suffix.
    /// With a split fraction of one the suffix is empty and the result
    /// holds zero predictions; its accuracy is then undefined.
    pub fn simulate(self, trace: &[u8]) -> (r: SimulationResults)
        requires
            self.wf(),
            sim_ready(trace@),
            self.trainer.examples() + num_records(trace@) <= i64::MAX,
        ensures
            r == self.simulate_spec(trace@),
    {
        let ghost self0 = self;
        let len = trace.len();
        let num = self.split_num;
        let den = self.split_den;
        proof {
            assert(len as int * num as int <= 0xffff_ffff_ffff_ffffint * 0xffff_ffff_ffff_ffffint)
                by (nonlinear_arith)
                requires
                    0 <= len as int <= 0xffff_ffff_ffff_ffffint,
                    0 <= num as int <= 0xffff_ffff_ffff_ffffint,
            ;
        }
        let raw_wide: u128 = (len as u128) * (num as u128) / (den as u128);
        proof {
            assert(len as int * num as int <= len as int * den as int) by (nonlinear_arith)
                requires
                    num <= den,
                    len >= 0,
            ;
            vstd::arithmetic::div_mod::lemma_div_is_ordered(
                len as int * num as int,
                len as int * den as int,
                den as int,
            );
            vstd::arithmetic::div_mod::lemma_div_by_multiple(len as int, den as int);
            assert(len as int * den as int == den as int * len as int) by (nonlinear_arith);
            assert(raw_wide <= len);
        }
        let raw = raw_wide as usize;
        let sp = raw - raw % 42;
        proof {
            vstd::arithmetic::div_mod::lemma_fundamental_div_mod(raw as int, 42);
            vstd::arithmetic::div_mod::lemma_mod_multiples_basic(raw as int / 42, 42);
            assert(sp == split_point_of(trace@.len(), num, den));
            assert(sp % 42 == 0);
            vstd::arithmetic::div_mod::lemma_fundamental_div_mod(len as int, 42);
            lemma_prefix_sim_ready(trace@, sp as int);
            lemma_suffix_sim_ready(trace@, sp as int);
            lemma_prefix_records(trace@, sp as int);
            lemma_suffix_records(trace@, sp as int);
        }
        let prefix = vstd::slice::slice_subrange(trace, 0, sp);
        let suffix = vstd::slice::slice_subrange(trace, sp, len);
        let mut me = self;
        me.train(prefix);
        let predictor = me.get_predictor();
        let mut sim = StandardSimulator::new(BranchPredictor::new(predictor));
        let r = sim.simulate(suffix);
        proof {
            assert(r == self0.simulate_spec(trace@));
        }
        r
    }
}

} // verus!
