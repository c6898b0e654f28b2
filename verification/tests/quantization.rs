use miniquant::quant::modes::QuantizationMode;
use miniquant::quant::quantize::{saturate_all_to_i8, saturate_to_i8, zero_point_offsets};
use miniquant::quant::range::{
    abs_bits, batch_max, batch_max_abs, batch_min, is_nan_bits, max_bits, min_bits, order_key,
    NEG_INFINITY_BITS, POS_INFINITY_BITS, ZERO_BITS,
};

fn bits(values: &[f32]) -> Vec<u32> {
    values.iter().map(|v| v.to_bits()).collect()
}

#[test]
fn saturate_clamps_into_int8_range() {
    assert_eq!(saturate_to_i8(300), 127);
    assert_eq!(saturate_to_i8(-300), -128);
    assert_eq!(saturate_to_i8(127), 127);
    assert_eq!(saturate_to_i8(128), 127);
    assert_eq!(saturate_to_i8(-128), -128);
    assert_eq!(saturate_to_i8(-129), -128);
    assert_eq!(saturate_to_i8(0), 0);
    assert_eq!(saturate_to_i8(i64::MAX), 127);
    assert_eq!(saturate_to_i8(i64::MIN), -128);
}

#[test]
fn test_quantize_clamp() {
    let x = [300.0f32, -300.0];
    let scale = 1.0f32;
    let rounded: Vec<i64> = x.iter().map(|&v| (v / scale).round() as i64).collect();
    let result = saturate_all_to_i8(&rounded);
    let expected = vec![127i8, -128];
    assert_eq!(result, expected);
}

#[test]
fn saturate_all_keeps_order_and_length() {
    let q = saturate_all_to_i8(&vec![1, 2, 3, 4, 300, -300]);
    assert_eq!(q, vec![1i8, 2, 3, 4, 127, -128]);
    assert!(saturate_all_to_i8(&Vec::new()).is_empty());
}

#[test]
fn offsets_subtract_zero_point() {
    let d = zero_point_offsets(&vec![-128i8, 0, 127, 10], 10);
    assert_eq!(d, vec![-138i16, -10, 117, 0]);
    let d = zero_point_offsets(&vec![-128i8, 127], -128);
    assert_eq!(d, vec![0i16, 255]);
}

#[test]
fn offset_roundtrip_recovers_codes() {
    for q in -128i8..=127 {
        for zp in [-128i8, -5, 0, 7, 127] {
            let d = zero_point_offsets(&vec![q], zp);
            assert_eq!(saturate_to_i8(d[0] as i64 + zp as i64), q);
        }
    }
}

#[test]
fn modes_are_distinct() {
    assert_ne!(QuantizationMode::Symmetric, QuantizationMode::Asymmetric);
    let m = QuantizationMode::Asymmetric;
    let copy = m;
    assert_eq!(copy, m);
}

#[test]
fn nan_and_abs_bits() {
    assert!(is_nan_bits(f32::NAN.to_bits()));
    assert!(is_nan_bits((-f32::NAN).to_bits()));
    assert!(!is_nan_bits(f32::INFINITY.to_bits()));
    assert!(!is_nan_bits(f32::NEG_INFINITY.to_bits()));
    assert!(!is_nan_bits(0.0f32.to_bits()));
    assert_eq!(abs_bits((-2.5f32).to_bits()), 2.5f32.to_bits());
    assert_eq!(abs_bits((-0.0f32).to_bits()), 0.0f32.to_bits());
    assert_eq!(abs_bits(3.0f32.to_bits()), 3.0f32.to_bits());
    assert_eq!(POS_INFINITY_BITS, f32::INFINITY.to_bits());
    assert_eq!(NEG_INFINITY_BITS, f32::NEG_INFINITY.to_bits());
    assert_eq!(ZERO_BITS, 0.0f32.to_bits());
}

#[test]
fn order_key_follows_value_order() {
    let values = [f32::NEG_INFINITY, -1000.0, -1.5, -1e-30, -0.0, 0.0, 1e-30, 2.0, 1e9, f32::INFINITY];
    for w in values.windows(2) {
        assert!(order_key(w[0].to_bits()) <= order_key(w[1].to_bits()));
    }
    assert_eq!(order_key((-0.0f32).to_bits()), order_key(0.0f32.to_bits()));
    assert!(order_key((-1.5f32).to_bits()) < order_key((-1e-30f32).to_bits()));
}

#[test]
fn min_and_max_bits_skip_nan() {
    let one = 1.0f32.to_bits();
    let two = 2.0f32.to_bits();
    let nan = f32::NAN.to_bits();
    assert_eq!(min_bits(two, one), one);
    assert_eq!(min_bits(one, two), one);
    assert_eq!(min_bits(one, nan), one);
    assert_eq!(max_bits(one, two), two);
    assert_eq!(max_bits(two, nan), two);
}

#[test]
fn batch_extrema() {
    let v = bits(&[3.0, -7.0, f32::NAN, 12.5, 0.0]);
    assert_eq!(f32::from_bits(batch_min(&v)), -7.0);
    assert_eq!(f32::from_bits(batch_max(&v)), 12.5);
    assert_eq!(f32::from_bits(batch_max_abs(&v)), 12.5);
    let w = bits(&[-100.0, 4.0]);
    assert_eq!(f32::from_bits(batch_max_abs(&w)), 100.0);
}

#[test]
fn batch_extrema_of_empty_and_all_nan() {
    let empty: Vec<u32> = Vec::new();
    assert_eq!(batch_min(&empty), POS_INFINITY_BITS);
    assert_eq!(batch_max(&empty), NEG_INFINITY_BITS);
    assert_eq!(batch_max_abs(&empty), ZERO_BITS);
    let nans = bits(&[f32::NAN, f32::NAN]);
    assert_eq!(batch_min(&nans), POS_INFINITY_BITS);
    assert_eq!(batch_max(&nans), NEG_INFINITY_BITS);
    assert_eq!(batch_max_abs(&nans), ZERO_BITS);
}
