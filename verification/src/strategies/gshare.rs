//! The GShare strategy: a saturating-counter table indexed by
//! program-counter bits XORed with shifted global-history bits.

use vstd::prelude::*;

use crate::model::{
    gshare_address, gshare_init, is_pow2_u64, lemma_log2_le63, log2_u64, mask_of, model_predict,
    model_step, PredictorModel,
};
use crate::strategies::twobit::TwoBit;
use crate::strategies::BranchPredictionStrategy;

verus! {

#[derive(Debug)]
pub struct GShare {
    pub twobit: TwoBit,
    pub global_history: u64,
    pub history_shift: u64,
    pub history_mask: u64,
    pub address_mask: u64,
}

pub(crate) fn log2_of_pow2(n: u64) -> (e: u64)
    requires
        n >= 1,
    ensures
        e == log2_u64(n),
        e < 64,
{
    let mut v: u64 = n;
    let mut e: u64 = 0;
    proof {
        lemma_log2_le63(n);
    }
    while v > 1
        invariant
            v >= 1,
            log2_u64(n) == e + log2_u64(v),
            log2_u64(n) < 64,
        decreases v,
    {
        proof {
            lemma_log2_le63(v / 2);
            assert(log2_u64(v) == (1 + log2_u64(v / 2)) as u64);
        }
        v = v / 2;
        e = e + 1;
    }
    e
}

fn mask_of_bits(bits: u64) -> (m: u64)
    ensures
        m == mask_of(bits),
{
    if bits >= 64 {
        u64::MAX
    } else {
        proof {
            assert(bits < 64 ==> (1u64 << bits) >= 1) by (bit_vector);
        }
        (1u64 << bits) - 1
    }
}

impl GShare {
    /// History bits beyond the table's index width, and address widths
    /// beyond the word, are clamped rather than producing a wrapped mask.
    pub fn new(size: usize, history_bits: u64, address_bits: u64) -> (r: Self)
        requires
            is_pow2_u64(size as u64),
        ensures
            r.wf(),
            r.model() == gshare_init(size as u64, history_bits, address_bits),
    {
        let e = log2_of_pow2(size as u64);
        let hb = if history_bits <= e {
            history_bits
        } else {
            e
        };
        let r = GShare {
            twobit: TwoBit::new(size),
            global_history: 0,
            history_shift: e - hb,
            history_mask: mask_of_bits(hb),
            address_mask: mask_of_bits(address_bits),
        };
        proof {
            assert(r.model() =~= gshare_init(size as u64, history_bits, address_bits));
        }
        r
    }
}

impl BranchPredictionStrategy for GShare {
    open spec fn wf(&self) -> bool {
        self.twobit.wf() && self.history_shift < 64
    }

    open spec fn model(&self) -> PredictorModel {
        PredictorModel::GShare {
            states: self.twobit.spec_states(),
            history: self.global_history,
            shift: self.history_shift,
            hmask: self.history_mask,
            amask: self.address_mask,
        }
    }

    fn predict_and_update(
        &mut self,
        program_counter: u64,
        target_address: u64,
        actual_result: bool,
    ) -> (r: bool) {
        let address = (program_counter & self.address_mask) ^ ((self.global_history
            << self.history_shift) & self.history_mask);
        let res = self.twobit.predict_and_update(address, target_address, actual_result);
        self.global_history = self.global_history << 1;
        self.global_history = self.global_history | (if actual_result {
            1
        } else {
            0
        });
        proof {
            assert(self.model() =~= model_step(
                old(self).model(),
                program_counter,
                actual_result,
            ));
        }
        res
    }
}

} // verus!
