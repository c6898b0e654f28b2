# miniquant

An INT8 quantization library in two parts.

- `src/` is the verified library (Verus). Floating-point values cross its
  boundary as IEEE-754 binary32 bit patterns (`u32` from `f32::to_bits`), so
  the logic on them is stated and proved over integers:
  - `quant::range`: value order of bit patterns, NaN-skipping minimum,
    maximum and largest magnitude of a batch;
  - `quant::quantize`: saturation of rounded values into `[-128, 127]` and the
    exact zero-point offsets used by dequantization;
  - `calibration`: running min-max calibration and percentile order statistics;
  - `pipeline`: tensor and model observers, conversion settings;
  - `tensor`: the quantized array (codes, shape, scale, zero-point) and the
    matrix view of a shape.
- `app/` is the `ndarray`/`f32` side: float scales, rounding, matrix products,
  layers and model conversion, serialization of quantized arrays. It calls
  the library for every integer step.
