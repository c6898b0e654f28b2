//! Integer steps of quantization and dequantization.
//!
//! Quantization computes `q = clamp(round(x / scale + zero_point), -128, 127)`;
//! the rounding happens on the real value, and the saturation into the INT8
//! range is done here on the rounded integer. Dequantization computes
//! `(q - zero_point) * scale`; the offset `q - zero_point` is exact in
//! integers and is computed here.
use vstd::prelude::*;

verus! {

/// Smallest INT8 code.
pub const QMIN: i8 = -128;

/// Largest INT8 code.
pub const QMAX: i8 = 127;

/// `r` clamped into the INT8 range `[-128, 127]`.
pub open spec fn clamp_i8(r: int) -> int {
    if r < QMIN as int {
        QMIN as int
    } else if r > QMAX as int {
        QMAX as int
    } else {
        r
    }
}

/// Saturates one rounded value into the INT8 range.
pub fn saturate_to_i8(r: i64) -> (q: i8)
    ensures
        q == clamp_i8(r as int),
{
    if r < QMIN as i64 {
        QMIN
    } else if r > QMAX as i64 {
        QMAX
    } else {
        r as i8
    }
}

/// Saturates every rounded value into the INT8 range, keeping the order.
pub fn saturate_all_to_i8(rounded: &Vec<i64>) -> (q: Vec<i8>)
    ensures
        q.len() == rounded.len(),
        forall|i: int| 0 <= i < q.len() ==> q[i] == clamp_i8(#[trigger] rounded[i] as int),
{
    let mut q: Vec<i8> = Vec::with_capacity(rounded.len());
    let mut i: usize = 0;
    while i < rounded.len()
        invariant
            i <= rounded.len(),
            q.len() == i,
            forall|j: int| 0 <= j < i ==> q[j] == clamp_i8(#[trigger] rounded[j] as int),
        decreases rounded.len() - i,
    {
        q.push(saturate_to_i8(rounded[i]));
        i = i + 1;
    }
    q
}

/// The offsets `q[i] - zero_point` that dequantization scales.
pub fn zero_point_offsets(q: &Vec<i8>, zero_point: i8) -> (d: Vec<i16>)
    ensures
        d.len() == q.len(),
        forall|i: int| 0 <= i < d.len() ==> d[i] == #[trigger] q[i] - zero_point,
{
    let mut d: Vec<i16> = Vec::with_capacity(q.len());
    let mut i: usize = 0;
    while i < q.len()
        invariant
            i <= q.len(),
            d.len() == i,
            forall|j: int| 0 <= j < i ==> d[j] == #[trigger] q[j] - zero_point,
        decreases q.len() - i,
    {
        d.push(q[i] as i16 - zero_point as i16);
        i = i + 1;
    }
    d
}

/// Law: every saturated code lies in `[-128, 127]`, codes already in range
/// are kept, and saturation preserves order.
pub proof fn lemma_saturation(r1: int, r2: int)
    ensures
        QMIN <= clamp_i8(r1) <= QMAX,
        QMIN <= r1 <= QMAX ==> clamp_i8(r1) == r1,
        r1 <= r2 ==> clamp_i8(r1) <= clamp_i8(r2),
        clamp_i8(clamp_i8(r1)) == clamp_i8(r1),
{
}

/// Law: quantizing the exact dequantized offset of a code with the same
/// zero-point gives the code back.
pub proof fn lemma_offset_roundtrip(q: i8, zero_point: i8)
    ensures
        clamp_i8((q - zero_point) + zero_point) == q,
{
}

} // verus!
