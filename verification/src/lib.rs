//! Integer kernels of an INT8 quantization library.
//!
//! Floating-point values cross the library boundary as their IEEE-754
//! binary32 bit patterns (`u32`, as produced by `f32::to_bits`), so that the
//! ordering, saturation, bookkeeping and order-statistic logic can be stated
//! and proved over plain integers.
pub mod quant;
pub mod calibration;
pub mod pipeline;
pub mod tensor;
