//! Model conversion settings.
use vstd::prelude::*;

use crate::quant::modes::QuantizationMode;

verus! {

/// How a model's linear layers are quantized.
#[derive(Debug, Clone, Copy, PartialEq, Eq, Structural)]
pub enum QuantizationMethod {
    Symmetric,
    Asymmetric,
    Dynamic,
}

/// Settings of a model conversion. `percentiles`, when given, is a binary32
/// bit pattern.
#[derive(Clone, Copy)]
pub struct QuantizationConfig {
    pub mode: QuantizationMethod,
    pub percentiles: Option<u32>,
}

impl Default for QuantizationConfig {
    /// Asymmetric quantization without percentile clipping.
    fn default() -> (c: Self)
        ensures
            c.mode == QuantizationMethod::Asymmetric,
            c.percentiles is None,
    {
        QuantizationConfig { mode: QuantizationMethod::Asymmetric, percentiles: None }
    }
}

/// The mode in which a linear layer's weights are quantized under `method`:
/// symmetric for the symmetric method, asymmetric otherwise (dynamic
/// quantization quantizes its weights statically and asymmetrically).
pub fn weight_mode(method: QuantizationMethod) -> (m: QuantizationMode)
    ensures
        method == QuantizationMethod::Symmetric ==> m == QuantizationMode::Symmetric,
        method != QuantizationMethod::Symmetric ==> m == QuantizationMode::Asymmetric,
{
    match method {
        QuantizationMethod::Symmetric => QuantizationMode::Symmetric,
        QuantizationMethod::Asymmetric | QuantizationMethod::Dynamic => QuantizationMode::Asymmetric,
    }
}

} // verus!
