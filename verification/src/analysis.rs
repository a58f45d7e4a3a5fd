//! Sweep orchestration: enumerates configuration grids, runs independent
//! simulations in parallel over a shared read-only trace, and reduces the
//! results into tables keyed by grid coordinates, never by completion
//! order. Rows carry exact prediction counts; accuracy ratios are left to
//! the caller.

use vstd::prelude::*;

use rayon::iter::{
    IndexedParallelIterator, IntoParallelIterator, IntoParallelRefIterator, ParallelIterator,
};

use crate::codec::{num_records, sim_ready};
use crate::model::{gshare_init, is_pow2_u64, PredictorModel};
use crate::predictor::BranchPredictor;
use crate::simulator::{
    sim_all, train_upto, SimOutcome, SimulationResults, Simulator, StandardSimulator,
    TrainingSplitSimulator,
};
use crate::strategies::always::AlwaysTaken;
use crate::strategies::finalize_counts;
use crate::strategies::gshare::GShare;
use crate::strategies::profiled::StaticPredictorTrainer;
use crate::strategies::twobit::TwoBit;

verus! {

/// Smallest table-size exponent of the sweep grid.
pub const SWEEP_EXP_LO: usize = 9;

/// Largest table-size exponent of the sweep grid.
pub const SWEEP_EXP_HI: usize = 16;

/// One sweep point: prediction counts of a GShare configuration.
#[derive(Clone, Copy, PartialEq, Eq, Structural, Debug)]
pub struct GShareHistoryRangeResult {
    pub table_size: usize,
    pub history_length: u64,
    pub total_predictions: u64,
    pub total_hits: u64,
}

pub open spec fn fresh_outcome(m: PredictorModel) -> SimOutcome {
    SimOutcome { model: m, preds: 0 as nat, hits: 0 as nat }
}

pub open spec fn always_outcome(trace: Seq<u8>) -> SimOutcome {
    sim_all(fresh_outcome(PredictorModel::Always), trace)
}

pub open spec fn twobit_model(size: u64) -> PredictorModel {
    PredictorModel::TwoBit { states: Seq::new(size as nat, |i: int| 0u8) }
}

pub open spec fn twobit_outcome(size: u64, trace: Seq<u8>) -> SimOutcome {
    sim_all(fresh_outcome(twobit_model(size)), trace)
}

/// The sweeps give GShare the full address: every program-counter bit
/// reaches the index mask.
pub open spec fn gshare_outcome(size: u64, history_bits: u64, trace: Seq<u8>) -> SimOutcome {
    sim_all(fresh_outcome(gshare_init(size, history_bits, 64)), trace)
}

/// A strategy trained over the whole trace from zeroed counters.
pub open spec fn profiled_model(size: u64, trace: Seq<u8>) -> PredictorModel {
    PredictorModel::Trained {
        table: finalize_counts(
            train_upto(Seq::new(size as nat, |i: int| 0int), trace, num_records(trace)),
        ),
    }
}

pub open spec fn profiled_outcome(size: u64, trace: Seq<u8>) -> SimOutcome {
    sim_all(fresh_outcome(profiled_model(size, trace)), trace)
}

/// The row a single GShare sweep point contributes.
pub open spec fn gshare_row_spec(size: usize, history_bits: u64, trace: Seq<u8>)
    -> GShareHistoryRangeResult {
    let o = gshare_outcome(size as u64, history_bits, trace);
    GShareHistoryRangeResult {
        table_size: size,
        history_length: history_bits,
        total_predictions: o.preds as u64,
        total_hits: o.hits as u64,
    }
}

proof fn lemma_records_fit(len: nat)
    requires
        len <= u64::MAX,
    ensures
        len as int / 42 <= u64::MAX,
        len as int / 42 <= i64::MAX,
{
    vstd::arithmetic::div_mod::lemma_div_is_ordered(len as int, u64::MAX as int, 42);
}

/// Runs one GShare configuration across the trace.
pub fn gshare_point(table_size: usize, history_bits: u64, trace: &[u8]) -> (r:
    GShareHistoryRangeResult)
    requires
        is_pow2_u64(table_size as u64),
        sim_ready(trace@),
    ensures
        r == gshare_row_spec(table_size, history_bits, trace@),
{
    let len = trace.len();
    proof {
        lemma_records_fit(trace@.len());
    }
    let strategy = GShare::new(table_size, history_bits, 64);
    let mut sim = StandardSimulator::new(BranchPredictor::new(strategy));
    let results = sim.simulate(trace);
    GShareHistoryRangeResult {
        table_size,
        history_length: history_bits,
        total_predictions: results.total_predictions,
        total_hits: results.total_hits,
    }
}

/// Relies on rayon's indexed parallel iterator: `par_iter().map(f).collect()`
/// applies `f` to every element and collects the results in input order,
/// whatever order the tasks complete in. The closure only calls the
/// verified `gshare_point`, whose contract pins each row.
#[verifier::external_body]
fn par_gshare_points(points: &Vec<(usize, u64)>, trace: &[u8]) -> (r: Vec<
    GShareHistoryRangeResult,
>)
    requires
        sim_ready(trace@),
        forall|i: int| 0 <= i < points@.len() ==> is_pow2_u64((#[trigger] points@[i]).0 as u64),
    ensures
        r@.len() == points@.len(),
        forall|i: int|
            0 <= i < points@.len() ==> r@[i] == gshare_row_spec(
                points@[i].0,
                points@[i].1,
                trace@,
            ),
{
    points.par_iter().map(|p| gshare_point(p.0, p.1, trace)).collect()
}

/// The grid points of one table size: history widths 0 up to `h - 1`.
pub open spec fn ghr_pairs(size: usize, h: int) -> Seq<(usize, u64)>
    decreases h,
{
    if h <= 0 {
        Seq::empty()
    } else {
        ghr_pairs(size, h - 1).push((size, (h - 1) as u64))
    }
}

/// The grid for table-size exponents below `e`: each exponent crossed
/// with history widths 0 up to the exponent itself, inclusive.
pub open spec fn ghr_grid_upto(e: int) -> Seq<(usize, u64)>
    decreases e,
{
    if e <= 9 {
        Seq::empty()
    } else {
        ghr_grid_upto(e - 1) + ghr_pairs((1usize << (e - 1)), e)
    }
}

/// The whole sweep grid, ordered by table size then history width.
pub open spec fn ghr_grid() -> Seq<(usize, u64)> {
    ghr_grid_upto(17)
}

fn pow2_size(e: usize) -> (size: usize)
    requires
        e <= 16,
    ensures
        size == (1usize << e),
        is_pow2_u64(size as u64),
        size >= 1,
{
    let size = 1usize << e;
    proof {
        assert((1usize << e) as u64 > 0 && ((1usize << e) as u64) & ((((1usize << e) as u64)
            - 1) as u64) == 0 && (1usize << e) >= 1) by (bit_vector)
            requires
                e <= 16usize,
        ;
    }
    size
}

#[verifier::loop_isolation(false)]
fn ghr_grid_points() -> (points: Vec<(usize, u64)>)
    ensures
        points@ == ghr_grid(),
        forall|i: int| 0 <= i < points@.len() ==> is_pow2_u64((#[trigger] points@[i]).0 as u64),
{
    let mut points: Vec<(usize, u64)> = Vec::new();
    let mut e: usize = 9;
    proof {
        assert(points@ =~= ghr_grid_upto(9));
    }
    while e <= 16
        invariant
            9 <= e <= 17,
            points@ == ghr_grid_upto(e as int),
            forall|i: int| 0 <= i < points@.len() ==> is_pow2_u64((#[trigger] points@[i]).0 as u64),
        decreases 17 - e,
    {
        let size = pow2_size(e);
        let mut h: u64 = 0;
        proof {
            assert(points@ =~= ghr_grid_upto(e as int) + ghr_pairs(size, 0));
        }
        while h <= e as u64
            invariant
                0 <= h <= e as u64 + 1,
                points@ == ghr_grid_upto(e as int) + ghr_pairs(size, h as int),
                forall|i: int|
                    0 <= i < points@.len() ==> is_pow2_u64((#[trigger] points@[i]).0 as u64),
            decreases e as u64 + 1 - h,
        {
            points.push((size, h));
            proof {
                assert(points@ =~= ghr_grid_upto(e as int) + ghr_pairs(size, h as int + 1));
            }
            h = h + 1;
        }
        e = e + 1;
        proof {
            assert(points@ =~= ghr_grid_upto(e as int));
        }
    }
    points
}

/// Sweeps table sizes 2^9 through 2^16, each crossed with every history
/// width up to the table's index width, over one trace. The table is
/// keyed and ordered by grid coordinates: one row per grid point, each
/// row exactly the counts of its configuration.
pub fn gshare_history_range(trace: &[u8]) -> (r: Vec<GShareHistoryRangeResult>)
    requires
        sim_ready(trace@),
    ensures
        r@.len() == ghr_grid().len(),
        forall|i: int|
            0 <= i < r@.len() ==> r@[i] == gshare_row_spec(
                ghr_grid()[i].0,
                ghr_grid()[i].1,
                trace@,
            ),
{
    let points = ghr_grid_points();
    par_gshare_points(&points, trace)
}

/// The ordering sweep statistics sort by: plain numeric order on counts.
pub open spec fn u64_le() -> spec_fn(u64, u64) -> bool {
    |a: u64, b: u64| a <= b
}

fn sorted_insert(v: &mut Vec<u64>, x: u64)
    requires
        vstd::relations::sorted_by(old(v)@, u64_le()),
    ensures
        vstd::relations::sorted_by(final(v)@, u64_le()),
        final(v)@.to_multiset() == old(v)@.to_multiset().insert(x),
        final(v)@.len() == old(v)@.len() + 1,
{
    let ghost s = v@;
    let n = v.len();
    let mut j: usize = 0;
    while j < n && v[j] <= x
        invariant
            0 <= j <= n,
            n == v@.len(),
            v@ == s,
            forall|k: int| 0 <= k < j ==> v@[k] <= x,
        decreases n - j,
    {
        j = j + 1;
    }
    v.insert(j, x);
    proof {
        assert(v@ == s.insert(j as int, x));
        broadcast use vstd::seq_lib::to_multiset_insert;

        assert forall|a: int, b: int| 0 <= a <= b < v@.len() implies u64_le()(v@[a], v@[b]) by {
            if a < j && b < j {
            } else if a == j && b > j {
                assert(v@[b] == s[b - 1]);
                assert(u64_le()(s[j as int], s[b - 1]));
            } else if a < j && b == j {
            } else if a > j || (a < j && b > j) {
                if a > j {
                    assert(v@[a] == s[a - 1] && v@[b] == s[b - 1]);
                } else {
                    assert(v@[b] == s[b - 1]);
                    if b - 1 == a {
                    } else {
                        assert(u64_le()(s[a], s[b - 1]));
                    }
                }
            }
        }
    }
}

/// Sorts counts ascending; the result is exactly the mathematical
/// `sort_by` of the input.
fn sort_u64(v: &Vec<u64>) -> (out: Vec<u64>)
    ensures
        out@ == v@.sort_by(u64_le()),
{
    let mut out: Vec<u64> = Vec::new();
    let n = v.len();
    let mut i: usize = 0;
    proof {
        broadcast use vstd::seq_lib::group_to_multiset_ensures;

        assert(v@.take(0) =~= Seq::<u64>::empty());
        assert(out@.to_multiset() =~= v@.take(0).to_multiset());
    }
    while i < n
        invariant
            0 <= i <= n,
            n == v@.len(),
            vstd::relations::sorted_by(out@, u64_le()),
            out@.to_multiset() == v@.take(i as int).to_multiset(),
            out@.len() == i,
        decreases n - i,
    {
        sorted_insert(&mut out, v[i]);
        proof {
            broadcast use vstd::seq_lib::group_to_multiset_ensures;

            assert(v@.take(i as int + 1) =~= v@.take(i as int).push(v@[i as int]));
            assert(v@.take(i as int + 1).to_multiset() =~= v@.take(
                i as int,
            ).to_multiset().insert(v@[i as int]));
        }
        i = i + 1;
    }
    proof {
        assert(v@.take(n as int) =~= v@);
        assert(vstd::relations::total_ordering(u64_le()));
        v@.lemma_sort_by_ensures(u64_le());
        vstd::seq_lib::lemma_sorted_unique(out@, v@.sort_by(u64_le()), u64_le());
        assert(out@ =~= v@.sort_by(u64_le()));
    }
    out
}

/// Hits of the GShare configurations with history widths 0 up to `h - 1`.
pub open spec fn gshare_hits_upto(size: u64, trace: Seq<u8>, h: int) -> Seq<u64>
    decreases h,
{
    if h <= 0 {
        Seq::empty()
    } else {
        gshare_hits_upto(size, trace, h - 1).push(
            gshare_outcome(size, (h - 1) as u64, trace).hits as u64,
        )
    }
}

proof fn lemma_gshare_hits_len(size: u64, trace: Seq<u8>, h: int)
    requires
        0 <= h,
    ensures
        gshare_hits_upto(size, trace, h).len() == h,
    decreases h,
{
    if h > 0 {
        lemma_gshare_hits_len(size, trace, h - 1);
    }
}

proof fn lemma_gshare_hits_index(size: u64, trace: Seq<u8>, h: int, i: int)
    requires
        0 <= i < h,
    ensures
        gshare_hits_upto(size, trace, h)[i] == gshare_outcome(size, i as u64, trace).hits as u64,
    decreases h,
{
    lemma_gshare_hits_len(size, trace, h - 1);
    if i < h - 1 {
        lemma_gshare_hits_index(size, trace, h - 1, i);
    }
}

/// Grid points of one table size with history widths 0 up to `count - 1`.
fn range_points(size: usize, count: u64) -> (points: Vec<(usize, u64)>)
    requires
        is_pow2_u64(size as u64),
    ensures
        points@.len() == count,
        forall|i: int| 0 <= i < count ==> points@[i] == (size, i as u64),
        forall|i: int| 0 <= i < points@.len() ==> is_pow2_u64((#[trigger] points@[i]).0 as u64),
{
    let mut points: Vec<(usize, u64)> = Vec::new();
    let mut h: u64 = 0;
    while h < count
        invariant
            0 <= h <= count,
            points@.len() == h,
            forall|i: int| 0 <= i < h ==> points@[i] == (size, i as u64),
            is_pow2_u64(size as u64),
        decreases count - h,
    {
        points.push((size, h));
        h = h + 1;
    }
    points
}

/// One row of the all-predictors sweep: the shared prediction count and
/// each strategy's hits at one table size. The GShare statistics sort
/// the hits of history widths 0 up to the index width, ascending: best
/// is the maximum, worst the minimum, median the middle value.
#[derive(Clone, Copy, PartialEq, Eq, Structural, Debug)]
pub struct AllPredictorsRecord {
    pub table_size: usize,
    pub total_predictions: u64,
    pub always_hits: u64,
    pub twobit_hits: u64,
    pub gshare_max_history_hits: u64,
    pub gshare_best_hits: u64,
    pub gshare_median_hits: u64,
    pub gshare_worst_hits: u64,
    pub profiled_hits: u64,
}

pub open spec fn all_predictors_row_spec(e: usize, trace: Seq<u8>) -> AllPredictorsRecord {
    let size = (1usize << e);
    let sorted = gshare_hits_upto(size as u64, trace, e as int).sort_by(u64_le());
    AllPredictorsRecord {
        table_size: size,
        total_predictions: always_outcome(trace).preds as u64,
        always_hits: always_outcome(trace).hits as u64,
        twobit_hits: twobit_outcome(size as u64, trace).hits as u64,
        gshare_max_history_hits: gshare_outcome(size as u64, e as u64, trace).hits as u64,
        gshare_best_hits: sorted.last(),
        gshare_median_hits: sorted[sorted.len() as int / 2],
        gshare_worst_hits: sorted.first(),
        profiled_hits: profiled_outcome(size as u64, trace).hits as u64,
    }
}

/// Computes one all-predictors row; the GShare points run in parallel.
pub fn all_predictors_row(e: usize, trace: &[u8]) -> (r: AllPredictorsRecord)
    requires
        9 <= e <= 16,
        sim_ready(trace@),
    ensures
        r == all_predictors_row_spec(e, trace@),
{
    let len = trace.len();
    proof {
        lemma_records_fit(trace@.len());
    }
    let size = pow2_size(e);
    let mut always_sim = StandardSimulator::new(BranchPredictor::new(AlwaysTaken::default()));
    let always_results = always_sim.simulate(trace);
    let mut twobit_sim = StandardSimulator::new(BranchPredictor::new(TwoBit::new(size)));
    let twobit_results = twobit_sim.simulate(trace);
    let gshare_max = gshare_point(size, e as u64, trace);

    let points = range_points(size, e as u64);
    let rows = par_gshare_points(&points, trace);
    let mut hits: Vec<u64> = Vec::new();
    let mut i: usize = 0;
    proof {
        assert(hits@ =~= gshare_hits_upto(size as u64, trace@, 0));
    }
    while i < e
        invariant
            0 <= i <= e,
            e <= 16,
            rows@.len() == e,
            size == (1usize << e),
            forall|j: int|
                0 <= j < e ==> rows@[j] == gshare_row_spec(size, j as u64, trace@),
            hits@ == gshare_hits_upto(size as u64, trace@, i as int),
        decreases e - i,
    {
        hits.push(rows[i].total_hits);
        proof {
            lemma_gshare_hits_len(size as u64, trace@, i as int);
        }
        i = i + 1;
    }
    let sorted = sort_u64(&hits);
    proof {
        broadcast use vstd::seq_lib::group_to_multiset_ensures;

        lemma_gshare_hits_len(size as u64, trace@, e as int);
        assert(vstd::relations::total_ordering(u64_le()));
        gshare_hits_upto(size as u64, trace@, e as int).lemma_sort_by_ensures(u64_le());
        assert(sorted@.to_multiset().len() == gshare_hits_upto(
            size as u64,
            trace@,
            e as int,
        ).to_multiset().len());
        assert(sorted@.len() == e);
    }

    let trainer = StaticPredictorTrainer::new(size);
    let mut split = TrainingSplitSimulator::new(trainer, 1, 1);
    split.train(trace);
    let predictor = split.get_predictor();
    let mut profiled_sim = StandardSimulator::new(BranchPredictor::new(predictor));
    let profiled_results = profiled_sim.simulate(trace);

    AllPredictorsRecord {
        table_size: size,
        total_predictions: always_results.total_predictions,
        always_hits: always_results.total_hits,
        twobit_hits: twobit_results.total_hits,
        gshare_max_history_hits: gshare_max.total_hits,
        gshare_best_hits: sorted[sorted.len() - 1],
        gshare_median_hits: sorted[sorted.len() / 2],
        gshare_worst_hits: sorted[0],
        profiled_hits: profiled_results.total_hits,
    }
}

/// Relies on rayon's indexed parallel iterator over the exponent range:
/// `into_par_iter().map(f).collect()` yields one row per exponent, in
/// exponent order, whatever order the tasks complete in. The closure
/// only calls the verified `all_predictors_row`.
#[verifier::external_body]
fn par_all_predictor_rows(trace: &[u8]) -> (r: Vec<AllPredictorsRecord>)
    requires
        sim_ready(trace@),
    ensures
        r@.len() == 8,
        forall|i: int|
            0 <= i < 8 ==> r@[i] == all_predictors_row_spec((9 + i) as usize, trace@),
{
    (9usize..=16usize).into_par_iter().map(|e| all_predictors_row(e, trace)).collect()
}

/// The all-predictors sweep: one row per table size 2^9 through 2^16,
/// computed in parallel, reduced in exponent order.
pub fn run_all_predictors(trace: &[u8]) -> (r: Vec<AllPredictorsRecord>)
    requires
        sim_ready(trace@),
    ensures
        r@.len() == 8,
        forall|i: int|
            0 <= i < 8 ==> r@[i] == all_predictors_row_spec((9 + i) as usize, trace@),
{
    par_all_predictor_rows(trace)
}

/// Any two all-predictors tables carry the same table-size keys in the
/// same order, so combining them row by row is always aligned.
pub proof fn lemma_combined_tables_aligned(
    r1: Seq<AllPredictorsRecord>,
    r2: Seq<AllPredictorsRecord>,
    t1: Seq<u8>,
    t2: Seq<u8>,
)
    requires
        r1.len() == 8,
        forall|i: int| 0 <= i < 8 ==> r1[i] == all_predictors_row_spec((9 + i) as usize, t1),
        r2.len() == 8,
        forall|i: int| 0 <= i < 8 ==> r2[i] == all_predictors_row_spec((9 + i) as usize, t2),
    ensures
        forall|i: int| 0 <= i < 8 ==> r1[i].table_size == r2[i].table_size,
{
}

/// The counts a single GShare sweep point leaves, as plain results.
pub open spec fn row_results(size: usize, history_bits: u64, trace: Seq<u8>) -> SimulationResults {
    let row = gshare_row_spec(size, history_bits, trace);
    SimulationResults {
        total_predictions: row.total_predictions,
        total_hits: row.total_hits,
    }
}

/// The best-by-hits sweep point among history widths 0 up to `h - 1`;
/// the later width wins a tie.
pub open spec fn gshare_best_spec(size: usize, trace: Seq<u8>, h: int) -> SimulationResults
    decreases h,
{
    if h <= 1 {
        row_results(size, 0, trace)
    } else {
        let prev = gshare_best_spec(size, trace, h - 1);
        let cur = row_results(size, (h - 1) as u64, trace);
        if cur.total_hits >= prev.total_hits {
            cur
        } else {
            prev
        }
    }
}

/// Runs GShare at every history width below the table's index width and
/// returns the results of the best-scoring configuration.
pub fn gshare_best(tablesize: usize, trace: &[u8]) -> (r: SimulationResults)
    requires
        is_pow2_u64(tablesize as u64),
        tablesize >= 2,
        sim_ready(trace@),
    ensures
        r == gshare_best_spec(tablesize, trace@, crate::model::log2_u64(tablesize as u64) as int),
{
    let x = crate::strategies::gshare::log2_of_pow2(tablesize as u64);
    proof {
        crate::model::lemma_log2_le63((tablesize as u64) / 2);
        assert(crate::model::log2_u64(tablesize as u64) >= 1);
    }
    let points = range_points(tablesize, x);
    let rows = par_gshare_points(&points, trace);
    let mut best = SimulationResults {
        total_predictions: rows[0].total_predictions,
        total_hits: rows[0].total_hits,
    };
    let mut i: usize = 1;
    while i < rows.len()
        invariant
            1 <= i <= rows@.len(),
            rows@.len() == x,
            x == crate::model::log2_u64(tablesize as u64),
            is_pow2_u64(tablesize as u64),
            forall|j: int|
                0 <= j < x ==> rows@[j] == gshare_row_spec(tablesize, j as u64, trace@),
            best == gshare_best_spec(tablesize, trace@, i as int),
        decreases rows@.len() - i,
    {
        let row = rows[i];
        if row.total_hits >= best.total_hits {
            best = SimulationResults {
                total_predictions: row.total_predictions,
                total_hits: row.total_hits,
            };
        }
        i = i + 1;
    }
    best
}

/// One strategy selection for a per-trace sweep.
#[derive(Clone, Copy, PartialEq, Eq, Structural, Debug)]
pub enum Strategy {
    Always,
    TwoBit,
    GShare,
    Profiled,
}

/// One row of a per-trace sweep: the counts of the chosen strategy at
/// one table size.
#[derive(Clone, Copy, PartialEq, Eq, Structural, Debug)]
pub struct AllTracesResult {
    pub table_size: usize,
    pub total_predictions: u64,
    pub total_hits: u64,
}

pub open spec fn strategy_row_spec(strategy: Strategy, e: usize, trace: Seq<u8>)
    -> AllTracesResult {
    let size = (1usize << e);
    let o = match strategy {
        Strategy::Always => always_outcome(trace),
        Strategy::TwoBit => twobit_outcome(size as u64, trace),
        Strategy::GShare => gshare_outcome(size as u64, e as u64, trace),
        Strategy::Profiled => profiled_outcome(size as u64, trace),
    };
    AllTracesResult {
        table_size: size,
        total_predictions: o.preds as u64,
        total_hits: o.hits as u64,
    }
}

/// Runs the chosen strategy at one table size. GShare takes the table's
/// full index width of history.
pub fn strategy_row(strategy: Strategy, e: usize, trace: &[u8]) -> (r: AllTracesResult)
    requires
        9 <= e <= 16,
        sim_ready(trace@),
    ensures
        r == strategy_row_spec(strategy, e, trace@),
{
    let len = trace.len();
    proof {
        lemma_records_fit(trace@.len());
    }
    let size = pow2_size(e);
    let results = match strategy {
        Strategy::Always => {
            let mut sim = StandardSimulator::new(BranchPredictor::new(AlwaysTaken::default()));
            sim.simulate(trace)
        },
        Strategy::TwoBit => {
            let mut sim = StandardSimulator::new(BranchPredictor::new(TwoBit::new(size)));
            sim.simulate(trace)
        },
        Strategy::GShare => {
            let mut sim = StandardSimulator::new(
                BranchPredictor::new(GShare::new(size, e as u64, 64)),
            );
            sim.simulate(trace)
        },
        Strategy::Profiled => {
            let trainer = StaticPredictorTrainer::new(size);
            let mut split = TrainingSplitSimulator::new(trainer, 1, 1);
            split.train(trace);
            let predictor = split.get_predictor();
            let mut sim = StandardSimulator::new(BranchPredictor::new(predictor));
            sim.simulate(trace)
        },
    };
    AllTracesResult {
        table_size: size,
        total_predictions: results.total_predictions,
        total_hits: results.total_hits,
    }
}

/// Relies on rayon's indexed parallel iterator over the exponent range,
/// as in the all-predictors sweep; the closure only calls the verified
/// `strategy_row`.
#[verifier::external_body]
fn par_strategy_rows(strategy: Strategy, trace: &[u8]) -> (r: Vec<AllTracesResult>)
    requires
        sim_ready(trace@),
    ensures
        r@.len() == 8,
        forall|i: int|
            0 <= i < 8 ==> r@[i] == strategy_row_spec(strategy, (9 + i) as usize, trace@),
{
    (9usize..=16usize).into_par_iter().map(|e| strategy_row(strategy, e, trace)).collect()
}

/// One strategy swept over table sizes 2^9 through 2^16 for one trace.
pub fn strategy_sweep(strategy: Strategy, trace: &[u8]) -> (r: Vec<AllTracesResult>)
    requires
        sim_ready(trace@),
    ensures
        r@.len() == 8,
        forall|i: int|
            0 <= i < 8 ==> r@[i] == strategy_row_spec(strategy, (9 + i) as usize, trace@),
{
    par_strategy_rows(strategy, trace)
}

/// The fatal pre-combination check of the cross-trace aggregator: two
/// tables may only be combined row by row when they carry the same
/// table-size keys in the same order.
pub fn tables_aligned(a: &Vec<AllPredictorsRecord>, b: &Vec<AllPredictorsRecord>) -> (r: bool)
    ensures
        r == (a@.len() == b@.len() && forall|i: int|
            0 <= i < a@.len() ==> a@[i].table_size == b@[i].table_size),
{
    if a.len() != b.len() {
        return false;
    }
    let n = a.len();
    let mut i: usize = 0;
    while i < n
        invariant
            0 <= i <= n,
            n == a@.len() == b@.len(),
            forall|j: int| 0 <= j < i ==> a@[j].table_size == b@[j].table_size,
        decreases n - i,
    {
        if a[i].table_size != b[i].table_size {
            return false;
        }
        i = i + 1;
    }
    true
}

/// Determinism under concurrency: any two sweep tables over the same
/// trace are bit-identical, because every row is a function of its grid
/// coordinates and the trace alone — never of scheduling.
pub proof fn lemma_sweep_deterministic(
    r1: Seq<GShareHistoryRangeResult>,
    r2: Seq<GShareHistoryRangeResult>,
    trace: Seq<u8>,
)
    requires
        r1.len() == ghr_grid().len(),
        forall|i: int|
            0 <= i < r1.len() ==> r1[i] == gshare_row_spec(ghr_grid()[i].0, ghr_grid()[i].1, trace),
        r2.len() == ghr_grid().len(),
        forall|i: int|
            0 <= i < r2.len() ==> r2[i] == gshare_row_spec(ghr_grid()[i].0, ghr_grid()[i].1, trace),
    ensures
        r1 == r2,
{
    assert(r1 =~= r2);
}

} // verus!
