//! Shapes of n-dimensional arrays.
use vstd::prelude::*;

verus! {

/// The number of elements of an array of the given shape.
pub open spec fn shape_product(s: Seq<usize>) -> nat
    decreases s.len(),
{
    if s.len() == 0 {
        1
    } else {
        shape_product(s.drop_last()) * (s.last() as nat)
    }
}

/// Law: an array with no dimensions has one element, and adding a dimension
/// of size `d` multiplies the number of elements by `d`.
pub proof fn lemma_shape_product_push(s: Seq<usize>, d: usize)
    ensures
        shape_product(Seq::<usize>::empty()) == 1,
        shape_product(s.push(d)) == shape_product(s) * d,
{
    assert(s.push(d).drop_last() =~= s);
}

/// Law: putting a dimension of size `d` in front multiplies the number of
/// elements by `d`.
pub proof fn lemma_shape_product_prepend(d: usize, s: Seq<usize>)
    ensures
        shape_product(seq![d] + s) == d * shape_product(s),
    decreases s.len(),
{
    if s.len() == 0 {
        assert(seq![d] + s =~= seq![d]);
        assert(seq![d].drop_last() =~= Seq::<usize>::empty());
        assert(seq![d].last() == d);
        assert(shape_product(Seq::<usize>::empty()) == 1);
        assert(shape_product(seq![d]) == 1 * (d as nat));
        assert(d * shape_product(s) == d * 1);
    } else {
        let p = s.drop_last();
        lemma_shape_product_prepend(d, p);
        assert((seq![d] + s).drop_last() =~= seq![d] + p);
        assert((seq![d] + s).last() == s.last());
        let a = shape_product(p);
        let x = s.last() as nat;
        assert(shape_product(seq![d] + s) == shape_product(seq![d] + p) * x);
        assert(shape_product(seq![d] + p) == d * a);
        assert(shape_product(s) == a * x);
        assert((d * a) * x == d * (a * x)) by (nonlinear_arith);
    }
}

/// A product of dimensions with no zero is at least each of its prefixes.
proof fn lemma_prefix_product_bounded(s: Seq<usize>, i: int)
    requires
        0 <= i <= s.len(),
        forall|k: int| 0 <= k < s.len() ==> #[trigger] s[k] >= 1,
    ensures
        shape_product(s.take(i)) <= shape_product(s),
        shape_product(s.take(i)) >= 1,
    decreases s.len(),
{
    if s.len() > 0 {
        let p = s.drop_last();
        if i == s.len() {
            assert(s.take(i) =~= s);
            lemma_prefix_product_bounded(p, i - 1);
            assert(p.take(i - 1) =~= p);
        } else {
            lemma_prefix_product_bounded(p, i);
            assert(p.take(i) =~= s.take(i));
        }
        assert(p.take(p.len() as int) =~= p);
        lemma_prefix_product_bounded(p, p.len() as int);
        let a = shape_product(p);
        let b = s.last() as nat;
        assert(a * b >= a) by (nonlinear_arith)
            requires
                b >= 1,
        ;
    } else {
        assert(s.take(i) =~= s);
    }
}

/// A product of dimensions with a zero is zero.
proof fn lemma_product_with_zero(s: Seq<usize>, k: int)
    requires
        0 <= k < s.len(),
        s[k] == 0,
    ensures
        shape_product(s) == 0,
    decreases s.len(),
{
    let a = shape_product(s.drop_last());
    let b = s.last() as nat;
    if k < s.len() - 1 {
        lemma_product_with_zero(s.drop_last(), k);
        assert(a == 0);
        assert(a * b == 0) by (nonlinear_arith)
            requires
                a == 0,
        ;
    } else {
        assert(a * b == 0) by (nonlinear_arith)
            requires
                b == 0,
        ;
    }
}

/// The (rows, columns) view of an array of the given shape used by matrix
/// products: a vector is one row, and an array of two or more dimensions keeps
/// its first dimension as rows and flattens the others into columns.
pub fn matrix_dims(shape: &[usize]) -> (d: (usize, usize))
    requires
        shape@.len() >= 1,
        shape_product(shape@.skip(1)) <= usize::MAX,
    ensures
        shape@.len() == 1 ==> d == (1usize, shape@[0]),
        shape@.len() >= 2 ==> d.0 == shape@[0] && d.1 == shape_product(shape@.skip(1)),
        d.0 * d.1 == shape_product(shape@),
{
    proof {
        assert(shape@ =~= seq![shape@[0]] + shape@.skip(1));
        lemma_shape_product_prepend(shape@[0], shape@.skip(1));
    }
    if shape.len() == 1 {
        proof {
            assert(shape@.skip(1) =~= Seq::<usize>::empty());
            assert(1 * shape@[0] == shape@[0] * 1);
        }
        return (1, shape[0]);
    }
    let ghost rest = shape@.skip(1);
    // a zero dimension empties the array
    let mut i: usize = 1;
    while i < shape.len()
        invariant
            1 <= i <= shape@.len(),
            rest == shape@.skip(1),
            shape_product(shape@) == shape@[0] * shape_product(rest),
            forall|k: int| 1 <= k < i ==> #[trigger] shape@[k] >= 1,
        decreases shape.len() - i,
    {
        if shape[i] == 0 {
            proof {
                assert(rest[i - 1] == 0);
                lemma_product_with_zero(rest, i - 1);
                let x = shape@[0] as int;
                let y = shape_product(rest) as int;
                assert(x * y == 0 && x * 0 == 0) by (nonlinear_arith)
                    requires
                        y == 0,
                ;
            }
            return (shape[0], 0);
        }
        i = i + 1;
    }
    proof {
        assert forall|k: int| 0 <= k < rest.len() implies #[trigger] rest[k] >= 1 by {
            assert(rest[k] == shape@[k + 1]);
        }
    }
    let mut features: usize = 1;
    let mut j: usize = 1;
    while j < shape.len()
        invariant
            1 <= j <= shape@.len(),
            rest == shape@.skip(1),
            shape_product(shape@) == shape@[0] * shape_product(rest),
            forall|k: int| 0 <= k < rest.len() ==> #[trigger] rest[k] >= 1,
            shape_product(rest) <= usize::MAX,
            features == shape_product(rest.take(j - 1)),
        decreases shape.len() - j,
    {
        proof {
            lemma_prefix_product_bounded(rest, j as int);
            assert(rest.take(j as int).drop_last() =~= rest.take(j - 1));
            assert(rest.take(j as int).last() == shape@[j as int]);
        }
        features = features * shape[j];
        j = j + 1;
    }
    proof {
        assert(rest.take(rest.len() as int) =~= rest);
    }
    (shape[0], features)
}

} // verus!
