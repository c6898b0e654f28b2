//! Min-max calibration: the running minimum and maximum over all batches.
use vstd::prelude::*;

use crate::quant::range::{
    batch_max, batch_min, fold_max, fold_min, is_nan, lemma_fold_max_concat,
    lemma_fold_max_is_greatest, lemma_fold_min_concat, lemma_fold_min_is_least, lemma_concat_same_values,
    lemma_fold_min_same_values, lemma_fold_max_same_values,
    lemma_max_step_of_batch, lemma_min_step_of_batch, max_bits, min_bits, value_rank,
    NEG_INFINITY_BITS, POS_INFINITY_BITS,
};

verus! {

/// Tracks the running minimum and maximum of the batches it is fed, and how
/// many batches it has seen. Values are binary32 bit patterns; NaN values are
/// skipped, as `f32::min` and `f32::max` skip them.
pub struct MinMaxCalibrator {
    min_val: u32,
    max_val: u32,
    num_samples: usize,
}

impl View for MinMaxCalibrator {
    /// (running minimum, running maximum, number of batches)
    type V = (u32, u32, nat);

    closed spec fn view(&self) -> (u32, u32, nat) {
        (self.min_val, self.max_val, self.num_samples as nat)
    }
}

impl MinMaxCalibrator {
    #[verifier::type_invariant]
    closed spec fn inv(self) -> bool {
        !is_nan(self.min_val) && !is_nan(self.max_val)
    }

    /// A calibrator that has seen nothing: minimum `+inf`, maximum `-inf`.
    pub fn new() -> (c: Self)
        ensures
            c@ == (POS_INFINITY_BITS, NEG_INFINITY_BITS, 0nat),
    {
        MinMaxCalibrator { min_val: POS_INFINITY_BITS, max_val: NEG_INFINITY_BITS, num_samples: 0 }
    }

    /// Folds a batch into the running minimum and maximum and counts it.
    pub fn update(&mut self, batch: &Vec<u32>)
        requires
            old(self)@.2 < usize::MAX,
        ensures
            final(self)@.0 == fold_min(old(self)@.0, batch@),
            final(self)@.1 == fold_max(old(self)@.1, batch@),
            final(self)@.2 == old(self)@.2 + 1,
    {
        proof {
            use_type_invariant(&*self);
            lemma_min_step_of_batch(self.min_val, batch@);
            lemma_max_step_of_batch(self.max_val, batch@);
            lemma_fold_min_is_least(self.min_val, batch@);
            lemma_fold_max_is_greatest(self.max_val, batch@);
        }
        let batch_lo = batch_min(batch);
        let batch_hi = batch_max(batch);
        self.min_val = min_bits(self.min_val, batch_lo);
        self.max_val = max_bits(self.max_val, batch_hi);
        self.num_samples = self.num_samples + 1;
    }

    /// The observed minimum.
    pub fn min(&self) -> (r: u32)
        ensures
            r == self@.0,
            !is_nan(r),
    {
        proof {
            use_type_invariant(self);
        }
        self.min_val
    }

    /// The observed maximum.
    pub fn max(&self) -> (r: u32)
        ensures
            r == self@.1,
            !is_nan(r),
    {
        proof {
            use_type_invariant(self);
        }
        self.max_val
    }

    /// The number of batches seen.
    pub fn num_samples(&self) -> (r: usize)
        ensures
            r == self@.2,
    {
        self.num_samples
    }

    /// Forgets everything seen.
    pub fn reset(&mut self)
        ensures
            final(self)@ == (POS_INFINITY_BITS, NEG_INFINITY_BITS, 0nat),
    {
        proof {
            use_type_invariant(&*self);
        }
        self.min_val = POS_INFINITY_BITS;
        self.max_val = NEG_INFINITY_BITS;
        self.num_samples = 0;
    }
}

impl Default for MinMaxCalibrator {
    /// A calibrator that has seen nothing.
    fn default() -> (c: Self)
        ensures
            c@ == (POS_INFINITY_BITS, NEG_INFINITY_BITS, 0nat),
    {
        Self::new()
    }
}

/// Law: feeding batch `a` and then batch `b` leaves the same minimum and
/// maximum as feeding the single batch `a ++ b`.
pub proof fn lemma_batches_concatenate(lo: u32, hi: u32, a: Seq<u32>, b: Seq<u32>)
    ensures
        fold_min(fold_min(lo, a), b) == fold_min(lo, a + b),
        fold_max(fold_max(hi, a), b) == fold_max(hi, a + b),
{
    lemma_fold_min_concat(lo, a, b);
    lemma_fold_max_concat(hi, a, b);
}

/// Law: the order in which two batches are fed does not change the observed
/// minimum and maximum values.
pub proof fn lemma_batch_order_irrelevant(lo: u32, hi: u32, a: Seq<u32>, b: Seq<u32>)
    requires
        !is_nan(lo),
        !is_nan(hi),
    ensures
        value_rank(fold_min(fold_min(lo, a), b)) == value_rank(fold_min(fold_min(lo, b), a)),
        value_rank(fold_max(fold_max(hi, a), b)) == value_rank(fold_max(fold_max(hi, b), a)),
{
    lemma_fold_min_concat(lo, a, b);
    lemma_fold_min_concat(lo, b, a);
    lemma_fold_max_concat(hi, a, b);
    lemma_fold_max_concat(hi, b, a);
    lemma_concat_same_values(a, b);
    lemma_concat_same_values(b, a);
    lemma_fold_min_same_values(lo, a + b, b + a);
    lemma_fold_max_same_values(hi, a + b, b + a);
}

} // verus!
