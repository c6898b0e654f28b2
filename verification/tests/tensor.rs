use miniquant::quant::quantize::saturate_to_i8;
use miniquant::tensor::quantized_array::QuantizedArray;
use miniquant::tensor::shape::matrix_dims;

fn quantize_codes(values: &[f32], scale: f32, zero_point: i8) -> Vec<i8> {
    values
        .iter()
        .map(|&v| saturate_to_i8((v / scale + zero_point as f32).round() as i64))
        .collect()
}

#[test]
fn test_quantized_array_metadata() {
    let data = quantize_codes(&[1.0, 2.0], 0.5, 10);
    let q = QuantizedArray::from_quantized(data, vec![1, 2], 0.5f32.to_bits(), 10);

    assert_eq!(q.ndim(), 2);
    assert_eq!(q.len(), 2);
    assert!(!q.is_empty());
    assert_eq!(q.as_slice(), &[12i8, 14]);
}

#[test]
fn test_quantized_array_creation() {
    let data = quantize_codes(&[1.0, 2.0, 3.0, 4.0], 1.0, 0);
    let q = QuantizedArray::from_quantized(data, vec![2, 2], 1.0f32.to_bits(), 0);

    assert_eq!(q.shape(), &[2, 2]);
    assert_eq!(f32::from_bits(q.scale()), 1.0);
    assert_eq!(q.zero_point(), 0);
}

#[test]
fn quantized_array_getters() {
    let q = QuantizedArray::from_quantized(vec![1, 2, 3, 4], vec![2, 2], 1.0f32.to_bits(), 0);
    assert_eq!(q.shape(), &[2, 2]);
    assert_eq!(f32::from_bits(q.scale()), 1.0);
    assert_eq!(q.zero_point(), 0);
    let c = q.clone();
    assert_eq!(c.as_slice(), q.as_slice());
    assert_eq!(c.shape(), q.shape());
}

#[test]
fn quantized_array_offsets() {
    let q = QuantizedArray::from_quantized(vec![-128, 0, 127], vec![3], 0.1f32.to_bits(), -128);
    assert_eq!(q.dequantize_offsets(), vec![0i16, 128, 255]);
}

#[test]
fn quantized_array_empty() {
    let q = QuantizedArray::from_quantized(Vec::new(), vec![3, 0], 1.0f32.to_bits(), 0);
    assert!(q.is_empty());
    assert_eq!(q.len(), 0);
    assert_eq!(q.ndim(), 2);
}

#[test]
fn matrix_dims_of_shapes() {
    assert_eq!(matrix_dims(&[3]), (1, 3));
    assert_eq!(matrix_dims(&[2, 5]), (2, 5));
    assert_eq!(matrix_dims(&[2, 3, 4]), (2, 12));
    assert_eq!(matrix_dims(&[4, 0, 7]), (4, 0));
    assert_eq!(matrix_dims(&[0, 2, 3]), (0, 6));
    assert_eq!(matrix_dims(&[1, 1, 1, 1]), (1, 1));
}
