//! A quantized tensor: INT8 codes with their shape, scale and zero-point.
use vstd::prelude::*;

use crate::quant::quantize::zero_point_offsets;
use crate::tensor::shape::shape_product;

verus! {

/// INT8 codes stored flat in row-major order, with the shape they fill, the
/// scale (a binary32 bit pattern) and the zero-point used to dequantize them.
/// The number of codes is always the number of elements of the shape.
#[derive(Debug)]
pub struct QuantizedArray {
    data: Vec<i8>,
    shape: Vec<usize>,
    scale: u32,
    zero_point: i8,
}

impl View for QuantizedArray {
    /// (codes, shape, scale, zero-point)
    type V = (Seq<i8>, Seq<usize>, u32, i8);

    closed spec fn view(&self) -> (Seq<i8>, Seq<usize>, u32, i8) {
        (self.data@, self.shape@, self.scale, self.zero_point)
    }
}

impl QuantizedArray {
    #[verifier::type_invariant]
    closed spec fn inv(self) -> bool {
        self.data@.len() == shape_product(self.shape@)
    }

    /// Wraps codes that are already quantized.
    pub fn from_quantized(data: Vec<i8>, shape: Vec<usize>, scale: u32, zero_point: i8) -> (q:
        Self)
        requires
            data@.len() == shape_product(shape@),
        ensures
            q@ == (data@, shape@, scale, zero_point),
    {
        QuantizedArray { data, shape, scale, zero_point }
    }

    /// The scale factor.
    pub fn scale(&self) -> (r: u32)
        ensures
            r == self@.2,
    {
        self.scale
    }

    /// The zero-point.
    pub fn zero_point(&self) -> (r: i8)
        ensures
            r == self@.3,
    {
        self.zero_point
    }

    /// The shape.
    pub fn shape(&self) -> (r: &[usize])
        ensures
            r@ == self@.1,
    {
        self.shape.as_slice()
    }

    /// The number of dimensions.
    pub fn ndim(&self) -> (r: usize)
        ensures
            r == self@.1.len(),
    {
        self.shape.len()
    }

    /// The total number of elements.
    pub fn len(&self) -> (r: usize)
        ensures
            r == self@.0.len(),
            r == shape_product(self@.1),
    {
        proof {
            use_type_invariant(self);
        }
        self.data.len()
    }

    /// Whether the array has no elements.
    pub fn is_empty(&self) -> (r: bool)
        ensures
            r == (self@.0.len() == 0),
            r == (shape_product(self@.1) == 0),
    {
        proof {
            use_type_invariant(self);
        }
        self.data.len() == 0
    }

    /// The codes as a flat slice.
    pub fn as_slice(&self) -> (r: &[i8])
        ensures
            r@ == self@.0,
    {
        self.data.as_slice()
    }

    /// The exact offsets `code - zero_point` of every element, which
    /// dequantization multiplies by the scale.
    pub fn dequantize_offsets(&self) -> (d: Vec<i16>)
        ensures
            d@.len() == self@.0.len(),
            forall|i: int| 0 <= i < d@.len() ==> d@[i] == #[trigger] self@.0[i] - self@.3,
    {
        zero_point_offsets(&self.data, self.zero_point)
    }
}

impl Clone for QuantizedArray {
    /// A copy of this array.
    fn clone(&self) -> (c: Self)
        ensures
            c@ == self@,
    {
        proof {
            use_type_invariant(self);
        }
        QuantizedArray {
            data: self.data.clone(),
            shape: self.shape.clone(),
            scale: self.scale,
            zero_point: self.zero_point,
        }
    }
}

} // verus!
