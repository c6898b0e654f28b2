use miniquant::calibration::minmax::MinMaxCalibrator;
use miniquant::calibration::percentile::PercentileCalibrator;

fn bits(values: &[f32]) -> Vec<u32> {
    values.iter().map(|v| v.to_bits()).collect()
}

fn val(b: u32) -> f32 {
    f32::from_bits(b)
}

#[test]
fn test_minmax_single_batch() {
    let mut cal = MinMaxCalibrator::new();
    let batch = bits(&[1.0, 2.0, 3.0, 4.0]);

    cal.update(&batch);

    assert_eq!(val(cal.min()), 1.0);
    assert_eq!(val(cal.max()), 4.0);
}

#[test]
fn test_minmax_multiple_batches() {
    let mut cal = MinMaxCalibrator::new();

    cal.update(&bits(&[1.0, 5.0]));
    cal.update(&bits(&[3.0, 7.0]));
    cal.update(&bits(&[2.0, 6.0]));

    assert_eq!(val(cal.min()), 1.0);
    assert_eq!(val(cal.max()), 7.0);
    assert_eq!(cal.num_samples(), 3);
}

#[test]
fn test_minmax_reset() {
    let mut cal = MinMaxCalibrator::new();

    cal.update(&bits(&[1.0, 5.0]));
    assert_eq!(val(cal.min()), 1.0);

    cal.reset();
    assert_eq!(val(cal.min()), f32::INFINITY);
    assert_eq!(cal.num_samples(), 0);
}

#[test]
fn minmax_fresh_is_empty_range() {
    let cal = MinMaxCalibrator::new();
    assert_eq!(val(cal.min()), f32::INFINITY);
    assert_eq!(val(cal.max()), f32::NEG_INFINITY);
    assert_eq!(cal.num_samples(), 0);
}

#[test]
fn minmax_skips_nan_and_handles_negatives() {
    let mut cal = MinMaxCalibrator::new();
    cal.update(&bits(&[f32::NAN, -3.5, 2.0]));
    cal.update(&bits(&[f32::NAN]));
    assert_eq!(val(cal.min()), -3.5);
    assert_eq!(val(cal.max()), 2.0);
    assert_eq!(cal.num_samples(), 2);
}

#[test]
fn minmax_empty_batch_counts_but_keeps_range() {
    let mut cal = MinMaxCalibrator::new();
    cal.update(&bits(&[-1.0, 1.0]));
    cal.update(&Vec::new());
    assert_eq!(val(cal.min()), -1.0);
    assert_eq!(val(cal.max()), 1.0);
    assert_eq!(cal.num_samples(), 2);
}

#[test]
fn minmax_batches_equal_concatenation() {
    let a = [4.0f32, -2.0, 9.5];
    let b = [-7.25f32, 3.0];
    let mut two = MinMaxCalibrator::new();
    two.update(&bits(&a));
    two.update(&bits(&b));
    let mut one = MinMaxCalibrator::new();
    let mut ab = bits(&a);
    ab.extend(bits(&b));
    one.update(&ab);
    assert_eq!(two.min(), one.min());
    assert_eq!(two.max(), one.max());
    let mut swapped = MinMaxCalibrator::new();
    swapped.update(&bits(&b));
    swapped.update(&bits(&a));
    assert_eq!(val(swapped.min()), val(two.min()));
    assert_eq!(val(swapped.max()), val(two.max()));
}

#[test]
fn test_percentile_multiple_batches() {
    let mut cal = PercentileCalibrator::new(95.0f32.to_bits());

    cal.update(&bits(&[1.0, 2.0]));
    cal.update(&bits(&[3.0, 4.0]));
    cal.update(&bits(&[5.0, 6.0]));

    assert_eq!(cal.num_samples(), 6);
}

#[test]
fn test_percentile_reset() {
    let mut cal = PercentileCalibrator::new(99.0f32.to_bits());

    cal.update(&bits(&[1.0, 2.0]));
    assert_eq!(cal.num_samples(), 2);

    cal.reset();
    assert_eq!(cal.num_samples(), 0);
}

#[test]
fn percentile_keeps_its_percentile() {
    let cal = PercentileCalibrator::new(99.5f32.to_bits());
    assert_eq!(val(cal.percentile()), 99.5);
}

#[test]
fn percentile_order_statistics() {
    let mut cal = PercentileCalibrator::new(99.0f32.to_bits());
    cal.update(&bits(&[3.0, -1.0, 1000.0, 0.0, 2.0]));
    assert_eq!(val(cal.value_at(0)), -1.0);
    assert_eq!(val(cal.value_at(1)), 0.0);
    assert_eq!(val(cal.value_at(2)), 2.0);
    assert_eq!(val(cal.value_at(3)), 3.0);
    assert_eq!(val(cal.value_at(4)), 1000.0);
    // positions past the end give the last value
    assert_eq!(val(cal.value_at(5)), 1000.0);
    assert_eq!(val(cal.value_at(usize::MAX)), 1000.0);
}

#[test]
fn percentile_abs_order_statistics() {
    let mut cal = PercentileCalibrator::new(99.9f32.to_bits());
    cal.update(&bits(&[-100.0, -1.0, 0.0, 1.0, 100.0]));
    assert_eq!(val(cal.abs_value_at(0)), 0.0);
    assert_eq!(val(cal.abs_value_at(1)), 1.0);
    assert_eq!(val(cal.abs_value_at(2)), 1.0);
    assert_eq!(val(cal.abs_value_at(3)), 100.0);
    assert_eq!(val(cal.abs_value_at(4)), 100.0);
    assert_eq!(val(cal.abs_value_at(7)), 100.0);
}

#[test]
fn percentile_detects_nan() {
    let mut cal = PercentileCalibrator::new(50.0f32.to_bits());
    cal.update(&bits(&[1.0, 2.0]));
    assert!(!cal.has_nan());
    cal.update(&bits(&[f32::NAN]));
    assert!(cal.has_nan());
    cal.reset();
    assert!(!cal.has_nan());
}

#[test]
fn percentile_extremes_match_minmax() {
    let data = bits(&[5.5, -2.0, 8.25, 0.5]);
    let mut p = PercentileCalibrator::new(100.0f32.to_bits());
    p.update(&data);
    let mut m = MinMaxCalibrator::new();
    m.update(&data);
    assert_eq!(p.value_at(0), m.min());
    assert_eq!(p.value_at(3), m.max());
}

#[test]
fn percentile_signed_zeros_compare_equal() {
    let mut cal = PercentileCalibrator::new(50.0f32.to_bits());
    cal.update(&bits(&[0.0, -0.0, -1.0]));
    assert_eq!(val(cal.value_at(0)), -1.0);
    assert_eq!(val(cal.value_at(1)), 0.0);
    assert_eq!(val(cal.value_at(2)), 0.0);
    assert_eq!(val(cal.abs_value_at(0)), 0.0);
    assert_eq!(val(cal.abs_value_at(2)), 1.0);
}

#[test]
fn minmax_default_is_fresh() {
    let cal = MinMaxCalibrator::default();
    assert_eq!(val(cal.min()), f32::INFINITY);
    assert_eq!(cal.num_samples(), 0);
}
