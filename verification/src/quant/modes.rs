//! Quantization modes.
use vstd::prelude::*;

verus! {

/// How real values are mapped onto the INT8 codes.
///
/// - `Symmetric`: the range is `[-max, max]` and the zero-point is 0.
/// - `Asymmetric`: the range is `[min, max]` and a zero-point shifts it.
#[derive(Debug, Clone, Copy, PartialEq, Eq, Structural)]
pub enum QuantizationMode {
    Symmetric,
    Asymmetric,
}

} // verus!
