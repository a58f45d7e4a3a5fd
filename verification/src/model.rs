//! Mathematical model of the prediction strategies.
//!
//! Each executable strategy maps to a `PredictorModel`; `model_predict` and
//! `model_step` give the exact predict-then-update semantics that every
//! strategy's `predict_and_update` is proved to implement.

use vstd::prelude::*;

verus! {

/// Ghost state of one prediction strategy.
#[verifier::ext_equal]
pub ghost enum PredictorModel {
    /// Stateless: always predicts taken.
    Always,
    /// A table of 2-bit saturating-counter states indexed by low
    /// program-counter bits.
    TwoBit { states: Seq<u8> },
    /// A saturating-counter table indexed by program-counter bits XORed
    /// with shifted global-history bits.
    GShare { states: Seq<u8>, history: u64, shift: u64, hmask: u64, amask: u64 },
    /// An immutable table of trained booleans; never updates.
    Trained { table: Seq<bool> },
}

pub open spec fn is_pow2_u64(n: u64) -> bool {
    n > 0 && n & ((n - 1) as u64) == 0
}

/// Prediction of one saturating-counter state: taken in states 2 and 3.
pub open spec fn counter_predict(state: u8) -> bool {
    state == 2 || state == 3
}

/// The saturating-counter transition table.
pub open spec fn counter_next(state: u8, taken: bool) -> u8 {
    if taken {
        if state == 0 {
            1
        } else if state == 1 {
            2
        } else {
            3
        }
    } else {
        if state == 3 {
            2
        } else if state == 2 {
            1
        } else {
            0
        }
    }
}

/// Index of the table entry used for an address: the low bits selected by
/// the table size, which is a power of two.
pub open spec fn table_index(address: u64, size: nat) -> int {
    (address & ((size - 1) as u64)) as int
}

/// The table address a GShare configuration derives from a program counter
/// and its global history.
pub open spec fn gshare_address(pc: u64, history: u64, shift: u64, hmask: u64, amask: u64) -> u64 {
    (pc & amask) ^ (((history << shift) as u64) & hmask)
}

pub open spec fn counter_table_step(states: Seq<u8>, address: u64, taken: bool) -> Seq<u8> {
    states.update(
        table_index(address, states.len()),
        counter_next(states[table_index(address, states.len())], taken),
    )
}

/// What `predict_and_update` returns, per model.
pub open spec fn model_predict(m: PredictorModel, pc: u64) -> bool {
    match m {
        PredictorModel::Always => true,
        PredictorModel::TwoBit { states } => counter_predict(
            states[table_index(pc, states.len())],
        ),
        PredictorModel::GShare { states, history, shift, hmask, amask } => counter_predict(
            states[table_index(gshare_address(pc, history, shift, hmask, amask), states.len())],
        ),
        PredictorModel::Trained { table } => table[table_index(pc, table.len())],
    }
}

/// The state `predict_and_update` leaves behind, per model.
pub open spec fn model_step(m: PredictorModel, pc: u64, taken: bool) -> PredictorModel {
    match m {
        PredictorModel::Always => PredictorModel::Always,
        PredictorModel::TwoBit { states } => PredictorModel::TwoBit {
            states: counter_table_step(states, pc, taken),
        },
        PredictorModel::GShare { states, history, shift, hmask, amask } => PredictorModel::GShare {
            states: counter_table_step(
                states,
                gshare_address(pc, history, shift, hmask, amask),
                taken,
            ),
            history: (((history << 1) as u64) | (if taken {
                1u64
            } else {
                0u64
            })),
            shift,
            hmask,
            amask,
        },
        PredictorModel::Trained { table } => PredictorModel::Trained { table },
    }
}

/// Well-formedness of a model: tables are non-empty power-of-two sized,
/// counter states are in range, shift amounts are legal.
pub open spec fn model_wf(m: PredictorModel) -> bool {
    match m {
        PredictorModel::Always => true,
        PredictorModel::TwoBit { states } => counter_table_wf(states),
        PredictorModel::GShare { states, history, shift, hmask, amask } => counter_table_wf(states)
            && shift < 64,
        PredictorModel::Trained { table } => table.len() <= u64::MAX && is_pow2_u64(
            table.len() as u64,
        ),
    }
}

pub open spec fn counter_table_wf(states: Seq<u8>) -> bool {
    states.len() <= u64::MAX && is_pow2_u64(states.len() as u64) && forall|i: int|
        0 <= i < states.len() ==> #[trigger] states[i] < 4
}

/// The saturating-counter finite-state machine, checked at all eight
/// (state, outcome) combinations: states 0 and 1 predict not-taken and
/// states 2 and 3 predict taken; a taken outcome moves 0 to 1, 1 to 2,
/// 2 to 3 and keeps 3; a not-taken outcome moves 3 to 2, 2 to 1, 1 to 0
/// and keeps 0.
pub proof fn lemma_counter_transition_table()
    ensures
        !counter_predict(0),
        counter_next(0, false) == 0,
        counter_next(0, true) == 1,
        !counter_predict(1),
        counter_next(1, false) == 0,
        counter_next(1, true) == 2,
        counter_predict(2),
        counter_next(2, false) == 1,
        counter_next(2, true) == 3,
        counter_predict(3),
        counter_next(3, false) == 2,
        counter_next(3, true) == 3,
{
}

/// Masking by one less than a power of two yields an index into the table.
pub proof fn lemma_table_index_bound(address: u64, size: nat)
    requires
        size <= u64::MAX,
        is_pow2_u64(size as u64),
    ensures
        0 <= table_index(address, size) < size,
{
    let s = size as u64;
    assert(s > 0 && s & ((s - 1) as u64) == 0 ==> (address & ((s - 1) as u64)) < s)
        by (bit_vector);
}

/// The mask selecting the low `bits` bits, saturating at the full word:
/// widths of 64 or more keep every bit.
pub open spec fn mask_of(bits: u64) -> u64 {
    if bits >= 64 {
        u64::MAX
    } else {
        (((1u64 << bits) as u64) - 1) as u64
    }
}

/// Floor of the base-2 logarithm.
pub open spec fn log2_u64(n: u64) -> u64
    decreases n,
{
    if n <= 1 {
        0
    } else {
        (1 + log2_u64(n / 2)) as u64
    }
}

proof fn lemma_log2_lt(n: u64, b: nat)
    requires
        b >= 1,
        n < vstd::arithmetic::power2::pow2(b),
    ensures
        log2_u64(n) < b,
    decreases n,
{
    if n <= 1 {
    } else {
        let p = vstd::arithmetic::power2::pow2((b - 1) as nat);
        assert(vstd::arithmetic::power2::pow2(b) == 2 * p) by {
            vstd::arithmetic::power2::lemma_pow2_unfold(b);
        }
        assert(b >= 2) by {
            if b == 1 {
                vstd::arithmetic::power2::lemma2_to64();
            }
        }
        vstd::arithmetic::div_mod::lemma_fundamental_div_mod(n as int, 2);
        assert(n as int / 2 < p);
        lemma_log2_lt(n / 2, (b - 1) as nat);
    }
}

pub proof fn lemma_log2_le63(n: u64)
    ensures
        log2_u64(n) < 64,
{
    vstd::arithmetic::power2::lemma2_to64_rest();
    lemma_log2_lt(n, 64);
}

/// The initial model of a GShare configuration: a zeroed counter table,
/// empty history, and masks derived from the configured bit widths, the
/// history width clamped to the table's index width.
pub open spec fn gshare_init(size: u64, history_bits: u64, address_bits: u64) -> PredictorModel {
    let e = log2_u64(size);
    let hb = if history_bits <= e {
        history_bits
    } else {
        e
    };
    PredictorModel::GShare {
        states: Seq::new(size as nat, |i: int| 0u8),
        history: 0,
        shift: (e - hb) as u64,
        hmask: mask_of(hb),
        amask: mask_of(address_bits),
    }
}

} // verus!
