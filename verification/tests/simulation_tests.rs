use branchlib::codec::{encode_record, TraceRecord};
use branchlib::predictor::BranchPredictor;
use branchlib::simulator::{
    SimulationResults, Simulator, StandardSimulator, TrainingSplitSimulator,
};
use branchlib::strategies::always::AlwaysTaken;
use branchlib::strategies::profiled::StaticPredictorTrainer;
use branchlib::strategies::twobit::TwoBit;

fn push_record(trace: &mut Vec<u8>, pc: u64, conditional: bool, taken: bool) {
    let r = TraceRecord {
        program_counter: pc,
        target_address: pc.wrapping_add(4),
        branch_kind: b'C',
        is_direct: true,
        is_conditional: conditional,
        taken,
    };
    trace.extend_from_slice(&encode_record(&r));
}

fn accuracy(r: &SimulationResults) -> f64 {
    r.total_hits as f64 / r.total_predictions as f64
}

#[test]
fn three_record_trace_always_taken() {
    let mut trace = Vec::new();
    for pc in [1u64, 2, 3] {
        push_record(&mut trace, pc, true, true);
    }
    let mut sim = StandardSimulator::new(BranchPredictor::new(AlwaysTaken::default()));
    let results = sim.simulate(&trace);
    assert_eq!(results.total_predictions, 3);
    assert_eq!(results.total_hits, 3);
    assert_eq!(accuracy(&results), 1.0);
}

#[test]
fn always_taken_accuracy_is_taken_fraction() {
    let mut trace = Vec::new();
    push_record(&mut trace, 1, true, true);
    push_record(&mut trace, 2, true, false);
    push_record(&mut trace, 3, true, true);
    push_record(&mut trace, 4, false, true);
    push_record(&mut trace, 5, true, false);
    let mut sim = StandardSimulator::new(BranchPredictor::new(AlwaysTaken::default()));
    let results = sim.simulate(&trace);
    // 4 conditional records, 2 of them taken; the non-conditional record
    // is skipped entirely.
    assert_eq!(results.total_predictions, 4);
    assert_eq!(results.total_hits, 2);
    assert_eq!(accuracy(&results), 0.5);
}

#[test]
fn non_conditional_records_never_reach_the_strategy() {
    let mut trace = Vec::new();
    for _ in 0..5 {
        push_record(&mut trace, 9, false, true);
    }
    let mut sim = StandardSimulator::new(BranchPredictor::new(TwoBit::new(8)));
    let results = sim.simulate(&trace);
    assert_eq!(results.total_predictions, 0);
    assert_eq!(results.total_hits, 0);
}

#[test]
fn empty_trace_yields_zero_counts() {
    let trace: Vec<u8> = Vec::new();
    let mut sim = StandardSimulator::new(BranchPredictor::new(AlwaysTaken::default()));
    let results = sim.simulate(&trace);
    assert_eq!(results.total_predictions, 0);
    assert!(accuracy(&results).is_nan());
}

#[test]
fn simulate_accumulates_across_calls() {
    let mut trace = Vec::new();
    push_record(&mut trace, 1, true, true);
    let mut sim = StandardSimulator::new(BranchPredictor::new(AlwaysTaken::default()));
    sim.simulate(&trace);
    let results = sim.simulate(&trace);
    assert_eq!(results.total_predictions, 2);
    assert_eq!(sim.get_results().total_predictions, 2);
}

#[test]
fn twobit_learns_repeating_branch() {
    let mut trace = Vec::new();
    for _ in 0..10 {
        push_record(&mut trace, 7, true, true);
    }
    let mut sim = StandardSimulator::new(BranchPredictor::new(TwoBit::new(16)));
    let results = sim.simulate(&trace);
    // The counter starts strongly not-taken: the first two predictions
    // miss, the remaining eight hit.
    assert_eq!(results.total_predictions, 10);
    assert_eq!(results.total_hits, 8);
}

#[test]
fn split_one_trains_all_tests_none() {
    let mut trace = Vec::new();
    for pc in [1u64, 2, 3, 4] {
        push_record(&mut trace, pc, true, true);
    }
    let split = TrainingSplitSimulator::new(StaticPredictorTrainer::new(16), 1, 1);
    let results = split.simulate(&trace);
    assert_eq!(results.total_predictions, 0);
    assert_eq!(results.total_hits, 0);
    assert!(accuracy(&results).is_nan());
}

#[test]
fn split_zero_tests_whole_trace() {
    let mut trace = Vec::new();
    for pc in [1u64, 2, 3, 4] {
        push_record(&mut trace, pc, true, true);
    }
    let split = TrainingSplitSimulator::new(StaticPredictorTrainer::new(16), 0, 1);
    let results = split.simulate(&trace);
    // Untrained counters sit at zero, which thresholds to taken: every
    // prediction on this all-taken trace hits.
    assert_eq!(results.total_predictions, 4);
    assert_eq!(results.total_hits, 4);
}

#[test]
fn split_fraction_above_one_is_clamped() {
    let mut trace = Vec::new();
    push_record(&mut trace, 1, true, true);
    let split = TrainingSplitSimulator::new(StaticPredictorTrainer::new(16), 7, 2);
    let results = split.simulate(&trace);
    assert_eq!(results.total_predictions, 0);
}

#[test]
fn split_half_trains_prefix_tests_suffix() {
    let mut trace = Vec::new();
    // Prefix: pc 5 always taken. Suffix: pc 5 again, still taken.
    for _ in 0..4 {
        push_record(&mut trace, 5, true, true);
    }
    let split = TrainingSplitSimulator::new(StaticPredictorTrainer::new(16), 1, 2);
    let results = split.simulate(&trace);
    assert_eq!(results.total_predictions, 2);
    assert_eq!(results.total_hits, 2);
}

#[test]
fn trained_strategy_from_split_trainer() {
    let mut trace = Vec::new();
    for _ in 0..3 {
        push_record(&mut trace, 11, true, false);
    }
    let mut split = TrainingSplitSimulator::new(StaticPredictorTrainer::new(16), 1, 1);
    split.train(&trace);
    let predictor = split.get_predictor();
    let mut sim = StandardSimulator::new(BranchPredictor::new(predictor));
    let results = sim.simulate(&trace);
    // Trained not-taken at pc 11: every record hits.
    assert_eq!(results.total_predictions, 3);
    assert_eq!(results.total_hits, 3);
}

#[test]
fn default_results_are_zero() {
    let r = SimulationResults::default();
    assert_eq!(r.total_predictions, 0);
    assert_eq!(r.total_hits, 0);
}
