use branchlib::predictor::BranchPredictor;
use branchlib::strategies::always::AlwaysTaken;
use branchlib::strategies::gshare::GShare;
use branchlib::strategies::profiled::StaticPredictorTrainer;
use branchlib::strategies::twobit::TwoBit;
use branchlib::strategies::{BranchPredictionStrategy, BranchPredictionTrainer};

#[test]
fn always_taken_predicts_taken() {
    let mut s = AlwaysTaken::default();
    assert!(s.predict_and_update(0, 0, true));
    assert!(s.predict_and_update(17, 4, false));
    assert!(s.predict_and_update(u64::MAX, 0, true));
}

#[test]
fn saturating_counter_transition_table() {
    // One entry, so every branch shares the one counter; the outcome
    // sequence drives the counter through all eight (state, outcome)
    // transitions of the table.
    let mut s = TwoBit::new(1);
    // state 0, taken: predicts not-taken, moves to 1
    assert!(!s.predict_and_update(0, 0, true));
    // state 1, taken: predicts not-taken, moves to 2
    assert!(!s.predict_and_update(0, 0, true));
    // state 2, taken: predicts taken, moves to 3
    assert!(s.predict_and_update(0, 0, true));
    // state 3, taken: predicts taken, stays 3
    assert!(s.predict_and_update(0, 0, true));
    // state 3, not taken: predicts taken, moves to 2
    assert!(s.predict_and_update(0, 0, false));
    // state 2, not taken: predicts taken, moves to 1
    assert!(s.predict_and_update(0, 0, false));
    // state 1, not taken: predicts not-taken, moves to 0
    assert!(!s.predict_and_update(0, 0, false));
    // state 0, not taken: predicts not-taken, stays 0
    assert!(!s.predict_and_update(0, 0, false));
    // back at state 0: taken predicts not-taken again
    assert!(!s.predict_and_update(0, 0, true));
}

#[test]
fn twobit_indexes_by_low_pc_bits() {
    let mut s = TwoBit::new(4);
    // Warm up entry 1 to taken (state 2); entry 3 stays cold.
    assert!(!s.predict_and_update(1, 0, true));
    assert!(!s.predict_and_update(1, 0, true));
    assert!(s.predict_and_update(1, 0, true));
    // pc 5 maps to the same entry as pc 1 (5 & 3 == 1).
    assert!(s.predict_and_update(5, 0, true));
    // pc 3 is untouched: still strongly not-taken.
    assert!(!s.predict_and_update(3, 0, false));
}

#[test]
fn gshare_zero_history_matches_twobit() {
    let mut g = GShare::new(64, 0, 64);
    let mut t = TwoBit::new(64);
    let pcs = [3u64, 17, 3, 65, 3, 17, 99, 3, 65, 17, 3, 3];
    for (i, pc) in pcs.iter().enumerate() {
        let taken = i % 3 != 0;
        assert_eq!(
            g.predict_and_update(*pc, 0, taken),
            t.predict_and_update(*pc, 0, taken),
            "diverged at step {i}"
        );
    }
}

#[test]
fn gshare_history_changes_index() {
    // With history bits, identical program counters can map to different
    // entries depending on the outcomes seen so far; the strategy still
    // warms toward taken for a repeating pattern.
    let mut g = GShare::new(16, 4, 64);
    for _ in 0..32 {
        g.predict_and_update(5, 0, true);
    }
    assert!(g.predict_and_update(5, 0, true));
}

#[test]
fn gshare_clamps_excess_history_bits() {
    // History widths beyond the index width are clamped rather than
    // producing a wrapped mask: construction must not panic and the
    // strategy must still work.
    let mut g = GShare::new(16, 60, 64);
    g.predict_and_update(1, 0, true);
    let mut g2 = GShare::new(16, 4, 200);
    g2.predict_and_update(1, 0, true);
}

#[test]
fn trainer_single_pc_taken_predicts_taken() {
    let mut trainer = StaticPredictorTrainer::new(16);
    for _ in 0..3 {
        trainer.add_example(5, 0, true);
    }
    let mut trained = trainer.to_predictor();
    assert!(trained.predict_and_update(5, 0, false));
    // The outcome argument is ignored after training: still taken.
    assert!(trained.predict_and_update(5, 0, false));
}

#[test]
fn trainer_majority_not_taken_predicts_not_taken() {
    let mut trainer = StaticPredictorTrainer::new(16);
    trainer.add_example(7, 0, true);
    trainer.add_example(7, 0, false);
    trainer.add_example(7, 0, false);
    let mut trained = trainer.to_predictor();
    assert!(!trained.predict_and_update(7, 0, true));
}

#[test]
fn trainer_tie_predicts_taken() {
    // A zero counter thresholds to taken: count >= 0.
    let mut trainer = StaticPredictorTrainer::new(16);
    trainer.add_example(2, 0, true);
    trainer.add_example(2, 0, false);
    let mut trained = trainer.to_predictor();
    assert!(trained.predict_and_update(2, 0, false));
    // An untrained index also predicts taken.
    assert!(trained.predict_and_update(9, 0, false));
}

#[test]
fn branch_predictor_forwards() {
    let mut p = BranchPredictor::new(AlwaysTaken::default());
    assert!(p.predict_and_update(1, 2, false));
}
