use vstd::prelude::*;
use vstd::std_specs::ops::AddSpec;
use vstd::std_specs::ops::MulSpec;
use crate::scalar::obeys_arithmetic;
use crate::scalar::total_arithmetic;
use crate::scalar::zero_spec;
use crate::scalar::Scalar;

verus! {

/// The sum of the products `a[i] * b[i]`, added up from the additive
/// identity in the order of `i`.
pub open spec fn dot_spec<A: Scalar>(a: Seq<A>, b: Seq<A>) -> A
    decreases a.len(),
{
    if a.len() == 0 {
        zero_spec::<A>()
    } else {
        dot_spec(a.drop_last(), b.drop_last()).add_spec(a.last().mul_spec(b.last()))
    }
}

/// Every product and every sum that `dot_spec` takes is one that `A` can compute.
pub open spec fn dot_defined<A: Scalar>(a: Seq<A>, b: Seq<A>) -> bool
    decreases a.len(),
{
    if a.len() == 0 {
        true
    } else {
        &&& dot_defined(a.drop_last(), b.drop_last())
        &&& a.last().mul_req(b.last())
        &&& dot_spec(a.drop_last(), b.drop_last()).add_req(a.last().mul_spec(b.last()))
    }
}

/// The dot product of `a` and `b` can be computed: either the operators of
/// `A` accept all operands, or `obeys_arithmetic` holds and no step
/// of this product fails.
pub open spec fn dot_computable<A: Scalar>(a: Seq<A>, b: Seq<A>) -> bool {
    ||| total_arithmetic::<A>()
    ||| obeys_arithmetic::<A>() && dot_defined(a, b)
}

/// Column `j` of a matrix that is given by its rows.
pub open spec fn column_of<A>(m: Seq<Seq<A>>, j: int) -> Seq<A> {
    Seq::new(m.len(), |k: int| m[k][j])
}

/// The transpose of a matrix with the given number of columns: its rows
/// are the columns of `m`.
pub open spec fn transpose_spec<A>(m: Seq<Seq<A>>, columns: int) -> Seq<Seq<A>> {
    Seq::new(columns as nat, |j: int| column_of(m, j))
}

/// The product of the matrix `a` and the matrix `b`, which has the given
/// number of columns: the element in row `i` and column `j` is the dot
/// product of row `i` of `a` and column `j` of `b`.
pub open spec fn matmul_spec<A: Scalar>(a: Seq<Seq<A>>, b: Seq<Seq<A>>, columns: int) -> Seq<
    Seq<A>,
> {
    Seq::new(a.len(), |i: int| Seq::new(columns as nat, |j: int| dot_spec(a[i], column_of(b, j))))
}

/// Every element of `matmul_spec(a, b, columns)` can be computed: either the
/// operators of `A` accept all operands, or `obeys_arithmetic` holds and no step
/// of any of the dot products fails.
pub open spec fn matmul_computable<A: Scalar>(a: Seq<Seq<A>>, b: Seq<Seq<A>>, columns: int) -> bool {
    ||| total_arithmetic::<A>()
    ||| obeys_arithmetic::<A>() && forall|i: int, j: int|
        0 <= i < a.len() && 0 <= j < columns ==> dot_defined(#[trigger] a[i], #[trigger] column_of(b, j))
}

/// What can be computed for two sequences can be computed for their beginnings.
pub proof fn lemma_dot_defined_prefix<A: Scalar>(a: Seq<A>, b: Seq<A>, n: int)
    requires
        0 <= n <= a.len(),
        a.len() == b.len(),
        dot_defined(a, b),
    ensures
        dot_defined(a.take(n), b.take(n)),
    decreases a.len(),
{
    if n < a.len() {
        lemma_dot_defined_prefix(a.drop_last(), b.drop_last(), n);
        assert(a.drop_last().take(n) == a.take(n));
        assert(b.drop_last().take(n) == b.take(n));
    } else {
        assert(a.take(n) == a);
        assert(b.take(n) == b);
    }
}

/// One more term: the product of the two next elements is added to the sum so far.
pub proof fn lemma_dot_step<A: Scalar>(a: Seq<A>, b: Seq<A>, n: int)
    requires
        0 <= n < a.len(),
        a.len() == b.len(),
    ensures
        dot_spec(a.take(n + 1), b.take(n + 1)) == dot_spec(a.take(n), b.take(n)).add_spec(
            a[n].mul_spec(b[n]),
        ),
        dot_defined(a.take(n + 1), b.take(n + 1)) ==> dot_defined(a.take(n), b.take(n))
            && a[n].mul_req(b[n]) && dot_spec(a.take(n), b.take(n)).add_req(a[n].mul_spec(b[n])),
{
    assert(a.take(n + 1).drop_last() == a.take(n));
    assert(b.take(n + 1).drop_last() == b.take(n));
}

} // verus!
