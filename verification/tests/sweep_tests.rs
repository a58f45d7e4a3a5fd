use branchlib::analysis::{
    gshare_best, gshare_history_range, run_all_predictors, strategy_sweep, tables_aligned,
    Strategy,
};
use branchlib::codec::{encode_record, TraceRecord};

fn push_record(trace: &mut Vec<u8>, pc: u64, conditional: bool, taken: bool) {
    let r = TraceRecord {
        program_counter: pc,
        target_address: pc.wrapping_add(4),
        branch_kind: b'C',
        is_direct: true,
        is_conditional: conditional,
        taken,
    };
    trace.extend_from_slice(&encode_record(&r));
}

fn small_trace() -> Vec<u8> {
    let mut trace = Vec::new();
    for i in 0..20u64 {
        push_record(&mut trace, i % 3, true, i % 2 == 0);
    }
    push_record(&mut trace, 99, false, true);
    trace
}

#[test]
fn history_range_covers_the_grid() {
    let trace = small_trace();
    let rows = gshare_history_range(&trace);
    // Exponents 9..=16, exponent e contributing e + 1 history widths.
    let expected: usize = (9..=16).map(|e| e + 1).sum();
    assert_eq!(rows.len(), expected);
    let mut k = 0;
    for e in 9..=16u32 {
        for h in 0..=e as u64 {
            assert_eq!(rows[k].table_size, 1usize << e);
            assert_eq!(rows[k].history_length, h);
            assert_eq!(rows[k].total_predictions, 20);
            assert!(rows[k].total_hits <= rows[k].total_predictions);
            k += 1;
        }
    }
}

#[test]
fn sweep_is_deterministic_across_runs() {
    let trace = small_trace();
    let first = gshare_history_range(&trace);
    let second = gshare_history_range(&trace);
    assert_eq!(first, second);
    let a = run_all_predictors(&trace);
    let b = run_all_predictors(&trace);
    assert_eq!(a, b);
}

#[test]
fn all_predictors_rows_are_keyed_by_table_size() {
    let trace = small_trace();
    let rows = run_all_predictors(&trace);
    assert_eq!(rows.len(), 8);
    for (i, row) in rows.iter().enumerate() {
        assert_eq!(row.table_size, 1usize << (9 + i));
        assert_eq!(row.total_predictions, 20);
        assert!(row.gshare_worst_hits <= row.gshare_median_hits);
        assert!(row.gshare_median_hits <= row.gshare_best_hits);
    }
}

#[test]
fn all_predictors_counts_on_uniform_trace() {
    // A single always-taken branch: the always strategy hits every
    // record, and the profiled strategy, trained on the whole trace,
    // does too.
    let mut trace = Vec::new();
    for _ in 0..6 {
        push_record(&mut trace, 5, true, true);
    }
    let rows = run_all_predictors(&trace);
    for row in &rows {
        assert_eq!(row.total_predictions, 6);
        assert_eq!(row.always_hits, 6);
        assert_eq!(row.profiled_hits, 6);
        // The two-bit counter misses its first two predictions.
        assert_eq!(row.twobit_hits, 4);
    }
}

#[test]
fn gshare_best_is_at_least_every_history_width() {
    let trace = small_trace();
    let best = gshare_best(1 << 10, &trace);
    assert_eq!(best.total_predictions, 20);
    let rows = gshare_history_range(&trace);
    for row in rows.iter().filter(|r| r.table_size == 1 << 10 && r.history_length < 10) {
        assert!(best.total_hits >= row.total_hits);
    }
}

#[test]
fn strategy_sweep_always_rows() {
    let trace = small_trace();
    let rows = strategy_sweep(Strategy::Always, &trace);
    assert_eq!(rows.len(), 8);
    for (i, row) in rows.iter().enumerate() {
        assert_eq!(row.table_size, 1usize << (9 + i));
        assert_eq!(row.total_predictions, 20);
        assert_eq!(row.total_hits, 10);
    }
}

#[test]
fn strategy_sweep_profiled_learns_uniform_trace() {
    let mut trace = Vec::new();
    for _ in 0..5 {
        push_record(&mut trace, 3, true, false);
    }
    let rows = strategy_sweep(Strategy::Profiled, &trace);
    for row in &rows {
        assert_eq!(row.total_predictions, 5);
        assert_eq!(row.total_hits, 5);
    }
}

#[test]
fn aligned_tables_combine() {
    let t1 = small_trace();
    let mut t2 = Vec::new();
    for i in 0..4u64 {
        push_record(&mut t2, i, true, true);
    }
    let a = run_all_predictors(&t1);
    let b = run_all_predictors(&t2);
    assert!(tables_aligned(&a, &b));
    let mut c = b.clone();
    c[0].table_size = 7;
    assert!(!tables_aligned(&a, &c));
    let d = b[..7].to_vec();
    assert!(!tables_aligned(&a, &d));
}
