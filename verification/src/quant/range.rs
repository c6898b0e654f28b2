//! Ordering and extrema of binary32 values given by their bit patterns.
//!
//! A non-NaN binary32 pattern `b` is ordered like the sign-magnitude integer
//! `value_rank(b)`: positive patterns grow with their magnitude, negative ones
//! shrink with it, and `+0.0` / `-0.0` share the rank 0. NaN patterns are those
//! whose magnitude exceeds the pattern of `+inf`.
use vstd::prelude::*;

verus! {

/// Bit pattern of `f32::INFINITY`.
pub const POS_INFINITY_BITS: u32 = 0x7F80_0000;

/// Bit pattern of `f32::NEG_INFINITY`.
pub const NEG_INFINITY_BITS: u32 = 0xFF80_0000;

/// Bit pattern of `+0.0`.
pub const ZERO_BITS: u32 = 0;

/// The pattern with its sign bit cleared.
pub open spec fn magnitude(b: u32) -> nat {
    if b >= 0x8000_0000 {
        (b - 0x8000_0000) as nat
    } else {
        b as nat
    }
}

/// The pattern encodes a NaN.
pub open spec fn is_nan(b: u32) -> bool {
    magnitude(b) > 0x7F80_0000
}

/// The sign-magnitude integer that orders non-NaN patterns like the values
/// they encode.
pub open spec fn value_rank(b: u32) -> int {
    if b >= 0x8000_0000 {
        -(b - 0x8000_0000)
    } else {
        b as int
    }
}

/// One step of `f32::min`-style folding: NaN operands are skipped, and on a
/// tie the value already held is kept.
pub open spec fn min_step(cur: u32, v: u32) -> u32 {
    if !is_nan(v) && value_rank(v) < value_rank(cur) {
        v
    } else {
        cur
    }
}

/// One step of `f32::max`-style folding: NaN operands are skipped, and on a
/// tie the value already held is kept.
pub open spec fn max_step(cur: u32, v: u32) -> u32 {
    if !is_nan(v) && value_rank(v) > value_rank(cur) {
        v
    } else {
        cur
    }
}

/// Left fold of `min_step` over `s`, starting from `init`.
pub open spec fn fold_min(init: u32, s: Seq<u32>) -> u32
    decreases s.len(),
{
    if s.len() == 0 {
        init
    } else {
        min_step(fold_min(init, s.drop_last()), s.last())
    }
}

/// Left fold of `max_step` over `s`, starting from `init`.
pub open spec fn fold_max(init: u32, s: Seq<u32>) -> u32
    decreases s.len(),
{
    if s.len() == 0 {
        init
    } else {
        max_step(fold_max(init, s.drop_last()), s.last())
    }
}

/// Left fold of `max_step` over the absolute values of `s`, starting from `init`.
pub open spec fn fold_max_abs(init: u32, s: Seq<u32>) -> u32
    decreases s.len(),
{
    if s.len() == 0 {
        init
    } else {
        max_step(fold_max_abs(init, s.drop_last()), magnitude(s.last()) as u32)
    }
}

/// Whether `b` encodes a NaN.
pub fn is_nan_bits(b: u32) -> (r: bool)
    ensures
        r == is_nan(b),
{
    let m: u32 = if b >= 0x8000_0000 { b - 0x8000_0000 } else { b };
    m > POS_INFINITY_BITS
}

/// Bit pattern of the absolute value (`f32::abs` clears the sign bit).
pub fn abs_bits(b: u32) -> (r: u32)
    ensures
        r == magnitude(b),
        r < 0x8000_0000,
{
    if b >= 0x8000_0000 {
        b - 0x8000_0000
    } else {
        b
    }
}

/// A key whose unsigned order is the order of `value_rank`.
pub fn order_key(b: u32) -> (k: u32)
    ensures
        k == value_rank(b) + 0x7FFF_FFFF,
{
    if b >= 0x8000_0000 {
        0x7FFF_FFFF - (b - 0x8000_0000)
    } else {
        b + 0x7FFF_FFFF
    }
}

/// The smaller of two values in the manner of `f32::min`.
pub fn min_bits(cur: u32, v: u32) -> (r: u32)
    ensures
        r == min_step(cur, v),
{
    if !is_nan_bits(v) && order_key(v) < order_key(cur) {
        v
    } else {
        cur
    }
}

/// The larger of two values in the manner of `f32::max`.
pub fn max_bits(cur: u32, v: u32) -> (r: u32)
    ensures
        r == max_step(cur, v),
{
    if !is_nan_bits(v) && order_key(v) > order_key(cur) {
        v
    } else {
        cur
    }
}

/// Minimum of a batch, folded from `+inf` and skipping NaN values.
pub fn batch_min(values: &Vec<u32>) -> (r: u32)
    ensures
        r == fold_min(POS_INFINITY_BITS, values@),
{
    let mut acc: u32 = POS_INFINITY_BITS;
    let mut i: usize = 0;
    while i < values.len()
        invariant
            i <= values.len(),
            acc == fold_min(POS_INFINITY_BITS, values@.take(i as int)),
        decreases values.len() - i,
    {
        proof {
            assert(values@.take(i + 1).drop_last() =~= values@.take(i as int));
        }
        acc = min_bits(acc, values[i]);
        i = i + 1;
    }
    proof {
        assert(values@.take(values.len() as int) =~= values@);
    }
    acc
}

/// Maximum of a batch, folded from `-inf` and skipping NaN values.
pub fn batch_max(values: &Vec<u32>) -> (r: u32)
    ensures
        r == fold_max(NEG_INFINITY_BITS, values@),
{
    let mut acc: u32 = NEG_INFINITY_BITS;
    let mut i: usize = 0;
    while i < values.len()
        invariant
            i <= values.len(),
            acc == fold_max(NEG_INFINITY_BITS, values@.take(i as int)),
        decreases values.len() - i,
    {
        proof {
            assert(values@.take(i + 1).drop_last() =~= values@.take(i as int));
        }
        acc = max_bits(acc, values[i]);
        i = i + 1;
    }
    proof {
        assert(values@.take(values.len() as int) =~= values@);
    }
    acc
}

/// Largest absolute value of a batch, folded from `+0.0` and skipping NaN values.
pub fn batch_max_abs(values: &Vec<u32>) -> (r: u32)
    ensures
        r == fold_max_abs(ZERO_BITS, values@),
{
    let mut acc: u32 = ZERO_BITS;
    let mut i: usize = 0;
    while i < values.len()
        invariant
            i <= values.len(),
            acc == fold_max_abs(ZERO_BITS, values@.take(i as int)),
        decreases values.len() - i,
    {
        proof {
            assert(values@.take(i + 1).drop_last() =~= values@.take(i as int));
        }
        acc = max_bits(acc, abs_bits(values[i]));
        i = i + 1;
    }
    proof {
        assert(values@.take(values.len() as int) =~= values@);
    }
    acc
}


/// Whether `x` is `init` or one of the values of `s`.
pub open spec fn seen(init: u32, s: Seq<u32>, x: u32) -> bool {
    x == init || exists|i: int| 0 <= i < s.len() && s[i] == x
}

/// Law: the running minimum is never NaN, is no greater than the start value
/// and than any non-NaN value folded in, and is one of those values.
pub proof fn lemma_fold_min_is_least(init: u32, s: Seq<u32>)
    requires
        !is_nan(init),
    ensures
        !is_nan(fold_min(init, s)),
        value_rank(fold_min(init, s)) <= value_rank(init),
        forall|i: int|
            0 <= i < s.len() && !is_nan(s[i]) ==> value_rank(fold_min(init, s)) <= value_rank(
                #[trigger] s[i],
            ),
        fold_min(init, s) == init || exists|i: int| 0 <= i < s.len() && s[i] == fold_min(init, s),
    decreases s.len(),
{
    if s.len() > 0 {
        let p = s.drop_last();
        lemma_fold_min_is_least(init, p);
        let m = fold_min(init, p);
        assert forall|i: int| 0 <= i < s.len() && !is_nan(s[i]) implies value_rank(
            fold_min(init, s),
        ) <= value_rank(#[trigger] s[i]) by {
            if i < s.len() - 1 {
                assert(s[i] == p[i]);
            }
        }
        if fold_min(init, s) != init {
            if fold_min(init, s) == s.last() {
                assert(s[s.len() - 1] == fold_min(init, s));
            } else {
                let j = choose|j: int| 0 <= j < p.len() && p[j] == m;
                assert(s[j] == fold_min(init, s));
            }
        }
    }
}

/// Law: the running maximum is never NaN, is no smaller than the start value
/// and than any non-NaN value folded in, and is one of those values.
pub proof fn lemma_fold_max_is_greatest(init: u32, s: Seq<u32>)
    requires
        !is_nan(init),
    ensures
        !is_nan(fold_max(init, s)),
        value_rank(fold_max(init, s)) >= value_rank(init),
        forall|i: int|
            0 <= i < s.len() && !is_nan(s[i]) ==> value_rank(fold_max(init, s)) >= value_rank(
                #[trigger] s[i],
            ),
        fold_max(init, s) == init || exists|i: int| 0 <= i < s.len() && s[i] == fold_max(init, s),
    decreases s.len(),
{
    if s.len() > 0 {
        let p = s.drop_last();
        lemma_fold_max_is_greatest(init, p);
        let m = fold_max(init, p);
        assert forall|i: int| 0 <= i < s.len() && !is_nan(s[i]) implies value_rank(
            fold_max(init, s),
        ) >= value_rank(#[trigger] s[i]) by {
            if i < s.len() - 1 {
                assert(s[i] == p[i]);
            }
        }
        if fold_max(init, s) != init {
            if fold_max(init, s) == s.last() {
                assert(s[s.len() - 1] == fold_max(init, s));
            } else {
                let j = choose|j: int| 0 <= j < p.len() && p[j] == m;
                assert(s[j] == fold_max(init, s));
            }
        }
    }
}

/// Law: the largest absolute value is a non-negative, non-NaN value no smaller
/// than the start value and than the magnitude of any non-NaN value folded in,
/// and it is the start value or the magnitude of one of them.
pub proof fn lemma_fold_max_abs_is_greatest(init: u32, s: Seq<u32>)
    requires
        !is_nan(init),
        init < 0x8000_0000,
    ensures
        !is_nan(fold_max_abs(init, s)),
        fold_max_abs(init, s) < 0x8000_0000,
        fold_max_abs(init, s) >= init,
        forall|i: int|
            0 <= i < s.len() && !is_nan(s[i]) ==> fold_max_abs(init, s) >= magnitude(
                #[trigger] s[i],
            ),
        fold_max_abs(init, s) == init || exists|i: int|
            0 <= i < s.len() && magnitude(s[i]) == fold_max_abs(init, s),
    decreases s.len(),
{
    if s.len() > 0 {
        let p = s.drop_last();
        lemma_fold_max_abs_is_greatest(init, p);
        let m = fold_max_abs(init, p);
        assert forall|i: int| 0 <= i < s.len() && !is_nan(s[i]) implies fold_max_abs(init, s)
            >= magnitude(#[trigger] s[i]) by {
            if i < s.len() - 1 {
                assert(s[i] == p[i]);
            }
        }
        if fold_max_abs(init, s) != init {
            if fold_max_abs(init, s) == magnitude(s.last()) {
                assert(magnitude(s[s.len() - 1]) == fold_max_abs(init, s));
            } else {
                let j = choose|j: int| 0 <= j < p.len() && magnitude(p[j]) == m;
                assert(magnitude(s[j]) == fold_max_abs(init, s));
            }
        }
    }
}

/// Law: folding two sequences one after the other is folding their
/// concatenation.
pub proof fn lemma_fold_min_concat(init: u32, a: Seq<u32>, b: Seq<u32>)
    ensures
        fold_min(fold_min(init, a), b) == fold_min(init, a + b),
    decreases b.len(),
{
    if b.len() == 0 {
        assert(a + b =~= a);
    } else {
        lemma_fold_min_concat(init, a, b.drop_last());
        assert((a + b).drop_last() =~= a + b.drop_last());
        assert((a + b).last() == b.last());
    }
}

/// Law: folding two sequences one after the other is folding their
/// concatenation.
pub proof fn lemma_fold_max_concat(init: u32, a: Seq<u32>, b: Seq<u32>)
    ensures
        fold_max(fold_max(init, a), b) == fold_max(init, a + b),
    decreases b.len(),
{
    if b.len() == 0 {
        assert(a + b =~= a);
    } else {
        lemma_fold_max_concat(init, a, b.drop_last());
        assert((a + b).drop_last() =~= a + b.drop_last());
        assert((a + b).last() == b.last());
    }
}

/// Merging a batch minimum (folded from `+inf`) into a running minimum is
/// folding the batch into the running minimum.
pub proof fn lemma_min_step_of_batch(cur: u32, s: Seq<u32>)
    requires
        !is_nan(cur),
    ensures
        min_step(cur, fold_min(POS_INFINITY_BITS, s)) == fold_min(cur, s),
    decreases s.len(),
{
    if s.len() > 0 {
        lemma_min_step_of_batch(cur, s.drop_last());
        lemma_fold_min_is_least(POS_INFINITY_BITS, s.drop_last());
    }
}

/// Merging a batch maximum (folded from `-inf`) into a running maximum is
/// folding the batch into the running maximum.
pub proof fn lemma_max_step_of_batch(cur: u32, s: Seq<u32>)
    requires
        !is_nan(cur),
    ensures
        max_step(cur, fold_max(NEG_INFINITY_BITS, s)) == fold_max(cur, s),
    decreases s.len(),
{
    if s.len() > 0 {
        lemma_max_step_of_batch(cur, s.drop_last());
        lemma_fold_max_is_greatest(NEG_INFINITY_BITS, s.drop_last());
    }
}


/// Every value of `s` occurs in `t`.
pub open spec fn values_within(s: Seq<u32>, t: Seq<u32>) -> bool {
    forall|i: int| 0 <= i < s.len() ==> t.contains(#[trigger] s[i])
}

/// Every value of `a ++ b` occurs in `b ++ a`.
pub proof fn lemma_concat_same_values(a: Seq<u32>, b: Seq<u32>)
    ensures
        values_within(a + b, b + a),
{
    let ab = a + b;
    let ba = b + a;
    assert forall|i: int| 0 <= i < ab.len() implies ba.contains(#[trigger] ab[i]) by {
        if i < a.len() {
            assert(ba[b.len() + i] == ab[i]);
        } else {
            assert(ba[i - a.len()] == ab[i]);
        }
    }
}

/// Law: the rank of a running minimum depends only on which values were
/// folded in, not on their order or multiplicity.
pub proof fn lemma_fold_min_same_values(init: u32, s: Seq<u32>, t: Seq<u32>)
    requires
        !is_nan(init),
        values_within(s, t),
        values_within(t, s),
    ensures
        value_rank(fold_min(init, s)) == value_rank(fold_min(init, t)),
{
    lemma_fold_min_is_least(init, s);
    lemma_fold_min_is_least(init, t);
    let m1 = fold_min(init, s);
    let m2 = fold_min(init, t);
    if m1 != init {
        let i = choose|i: int| 0 <= i < s.len() && s[i] == m1;
        assert(t.contains(s[i]));
        let j = choose|j: int| 0 <= j < t.len() && t[j] == s[i];
        assert(value_rank(m2) <= value_rank(t[j]));
    }
    if m2 != init {
        let i = choose|i: int| 0 <= i < t.len() && t[i] == m2;
        assert(s.contains(t[i]));
        let j = choose|j: int| 0 <= j < s.len() && s[j] == t[i];
        assert(value_rank(m1) <= value_rank(s[j]));
    }
}

/// Law: the rank of a running maximum depends only on which values were
/// folded in, not on their order or multiplicity.
pub proof fn lemma_fold_max_same_values(init: u32, s: Seq<u32>, t: Seq<u32>)
    requires
        !is_nan(init),
        values_within(s, t),
        values_within(t, s),
    ensures
        value_rank(fold_max(init, s)) == value_rank(fold_max(init, t)),
{
    lemma_fold_max_is_greatest(init, s);
    lemma_fold_max_is_greatest(init, t);
    let m1 = fold_max(init, s);
    let m2 = fold_max(init, t);
    if m1 != init {
        let i = choose|i: int| 0 <= i < s.len() && s[i] == m1;
        assert(t.contains(s[i]));
        let j = choose|j: int| 0 <= j < t.len() && t[j] == s[i];
        assert(value_rank(m2) >= value_rank(t[j]));
    }
    if m2 != init {
        let i = choose|i: int| 0 <= i < t.len() && t[i] == m2;
        assert(s.contains(t[i]));
        let j = choose|j: int| 0 <= j < s.len() && s[j] == t[i];
        assert(value_rank(m1) >= value_rank(s[j]));
    }
}

/// Law: a pattern's top bit is its sign and the other 31 bits are its
/// magnitude.
pub proof fn lemma_magnitude_is_low_bits(b: u32)
    ensures
        magnitude(b) == b % 0x8000_0000,
        magnitude(b) < 0x8000_0000,
        b == (b / 0x8000_0000) * 0x8000_0000 + magnitude(b),
{
}

/// Law: a pattern is a NaN exactly when its 8-bit exponent field is all ones
/// and its 23-bit mantissa is not zero; every finite or infinite value is not
/// a NaN.
pub proof fn lemma_nan_is_exponent_all_ones_with_mantissa(b: u32)
    ensures
        is_nan(b) <==> ((b / 0x80_0000) % 0x100 == 0xFF && b % 0x80_0000 != 0),
{
    let m = b % 0x8000_0000;
    assert(magnitude(b) == m);
    assert((b / 0x80_0000) % 0x100 == m / 0x80_0000);
    assert(b % 0x80_0000 == m % 0x80_0000);
}

/// Law: `value_rank` orders patterns as the binary32 values they encode.
/// Among non-negative patterns a larger pattern is a larger value; among
/// negative patterns a larger pattern (a larger magnitude) is a smaller value;
/// every negative pattern is at most every non-negative one, and only `-0.0`
/// and `+0.0` are equal across signs.
pub proof fn lemma_value_rank_is_value_order(a: u32, b: u32)
    ensures
        a < 0x8000_0000 && b < 0x8000_0000 ==> (value_rank(a) < value_rank(b) <==> a < b),
        a >= 0x8000_0000 && b >= 0x8000_0000 ==> (value_rank(a) < value_rank(b) <==> a > b),
        a >= 0x8000_0000 && b < 0x8000_0000 ==> value_rank(a) <= value_rank(b),
        a >= 0x8000_0000 && b < 0x8000_0000 ==> (value_rank(a) == value_rank(b) <==> (a
            == 0x8000_0000 && b == 0)),
        value_rank(a) == value_rank(b) <==> (a == b || (a == 0x8000_0000 && b == 0) || (a == 0
            && b == 0x8000_0000)),
{
}

} // verus!
