use vstd::prelude::*;
use crate::array_base::Array2;
use crate::array_base::NDArrayBase;
use crate::error::LinalgError;
use crate::layout::checked_product;
use crate::layout::index1;
use crate::layout::index2;
use crate::layout::MemoryLayout;
use crate::layout::lemma_linear_index_of_one;
use crate::layout::lemma_linear_index_of_two;
use crate::layout::lemma_product_of_two;
use crate::ownership::Ownership;
use crate::matrix::column_of;
use crate::matrix::dot_computable;
use crate::matrix::dot_defined;
use crate::matrix::dot_spec;
use crate::matrix::lemma_dot_defined_prefix;
use crate::matrix::lemma_dot_step;
use crate::matrix::matmul_computable;
use crate::matrix::matmul_spec;
use crate::scalar::lemma_additive_identity_unique;
use crate::scalar::obeys_arithmetic;
use crate::scalar::total_arithmetic;
use crate::scalar::zero_of;
use crate::scalar::Scalar;

verus! {

/// The dot product.
pub trait Dot<Rhs> {
    /// The type of the elements.
    type Elem;

    /// What the product is: a number for two vectors, a matrix for two matrices.
    type Output;

    /// What `dot` asks of its operands.
    spec fn dot_requires(&self, rhs: &Rhs) -> bool;

    /// What `dot` answers.
    spec fn dot_ensures(&self, rhs: &Rhs, result: Result<Self::Output, LinalgError>) -> bool;

    /// Multiplies `self` by `rhs`.
    fn dot(&self, rhs: &Rhs) -> (result: Result<Self::Output, LinalgError>) where
        Self::Elem: num_traits::Zero,

        requires
            self.dot_requires(rhs),
        ensures
            self.dot_ensures(rhs, result),
    ;
}

impl<'a, 'b, A, O1, O2, L1, L2> Dot<NDArrayBase<'b, A, O2, L2, 1>> for NDArrayBase<
    'a,
    A,
    O1,
    L1,
    1,
> where
    A: Scalar,
    O1: Ownership,
    O2: Ownership,
    L1: MemoryLayout,
    L2: MemoryLayout,
 {
    type Elem = A;

    type Output = A;

    /// Both vectors are well formed and, if they are equally long, their dot
    /// product can be computed.
    open spec fn dot_requires(&self, rhs: &NDArrayBase<'b, A, O2, L2, 1>) -> bool {
        &&& self.wf()
        &&& rhs.wf()
        &&& self.dims()[0] == rhs.dims()[0] ==> dot_computable(self.elements(), rhs.elements())
    }

    /// Two vectors of different lengths are refused. For two of equal length the
    /// answer is the sum of the products of their elements, where
    /// `obeys_arithmetic` holds of `A`.
    open spec fn dot_ensures(
        &self,
        rhs: &NDArrayBase<'b, A, O2, L2, 1>,
        result: Result<A, LinalgError>,
    ) -> bool {
        &&& result is Err <==> self.dims()[0] != rhs.dims()[0]
        &&& result matches Err(error) ==> error == LinalgError::DimensionMismatch
        &&& result matches Ok(value) ==> (obeys_arithmetic::<A>() ==> value == dot_spec(
            self.elements(),
            rhs.elements(),
        ))
    }

    fn dot(&self, rhs: &NDArrayBase<'b, A, O2, L2, 1>) -> (result: Result<A, LinalgError>) where
        A: num_traits::Zero,
     {
        let len = self.dim()[0];
        if len != rhs.dim()[0] {
            return Err(LinalgError::DimensionMismatch);
        }
        proof {
            lemma_linear_index_of_one(L1::layout_type(), self.dims(), index1(0));
            lemma_linear_index_of_one(L2::layout_type(), rhs.dims(), index1(0));
        }
        let ghost a = self.elements();
        let ghost b = rhs.elements();
        let mut total = zero_of::<A>();
        proof {
            if obeys_arithmetic::<A>() {
                lemma_additive_identity_unique(total);
            }
        }
        let mut i: usize = 0;
        while i < len
            invariant
                i <= len,
                self.wf(),
                rhs.wf(),
                a == self.elements(),
                b == rhs.elements(),
                a.len() == len,
                b.len() == len,
                self.dims() == seq![len],
                rhs.dims() == seq![len],
                dot_computable(a, b),
                obeys_arithmetic::<A>() ==> total == dot_spec(a.take(i as int), b.take(i as int)),
            decreases len - i,
        {
            proof {
                lemma_linear_index_of_one(L1::layout_type(), self.dims(), index1(i));
                lemma_linear_index_of_one(L2::layout_type(), rhs.dims(), index1(i));
                lemma_dot_step(a, b, i as int);
                if !total_arithmetic::<A>() {
                    lemma_dot_defined_prefix(a, b, i + 1);
                }
            }
            let index = [i];
            assert(index@ == index1(i));
            let product = self.get(index) * rhs.get(index);
            total = total + product;
            i += 1;
        }
        proof {
            assert(a.take(len as int) == a);
            assert(b.take(len as int) == b);
        }
        Ok(total)
    }
}

/// The buffer slot of the element in row `i` and column `j` of a row-major
/// matrix with `columns` columns.
pub open spec fn slot(i: usize, j: usize, columns: usize) -> int {
    i * columns + j
}

/// The dot product of row `i` of `lhs` and column `j` of `rhs`.
fn dot_row_column<A, O1, O2, L1, L2>(
    lhs: &NDArrayBase<'_, A, O1, L1, 2>,
    rhs: &NDArrayBase<'_, A, O2, L2, 2>,
    i: usize,
    j: usize,
) -> (sum: A) where
    A: Scalar + num_traits::Zero,
    O1: Ownership,
    O2: Ownership,
    L1: MemoryLayout,
    L2: MemoryLayout,

    requires
        lhs.wf(),
        rhs.wf(),
        lhs.dims()[1] == rhs.dims()[0],
        i < lhs.dims()[0],
        j < rhs.dims()[1],
        dot_computable(lhs.row_seq(i), rhs.column_seq(j)),
    ensures
        obeys_arithmetic::<A>() ==> sum == dot_spec(lhs.row_seq(i), rhs.column_seq(j)),
{
    let inner = lhs.ncols();
    let ghost a = lhs.row_seq(i);
    let ghost b = rhs.column_seq(j);
    let mut sum = zero_of::<A>();
    proof {
        if obeys_arithmetic::<A>() {
            lemma_additive_identity_unique(sum);
        }
    }
    let mut k: usize = 0;
    while k < inner
        invariant
            k <= inner,
            lhs.wf(),
            rhs.wf(),
            inner == lhs.dims()[1],
            inner == rhs.dims()[0],
            i < lhs.dims()[0],
            j < rhs.dims()[1],
            a == lhs.row_seq(i),
            b == rhs.column_seq(j),
            dot_computable(a, b),
            obeys_arithmetic::<A>() ==> sum == dot_spec(a.take(k as int), b.take(k as int)),
        decreases inner - k,
    {
        proof {
            lemma_dot_step(a, b, k as int);
            if !total_arithmetic::<A>() {
                lemma_dot_defined_prefix(a, b, k + 1);
            }
        }
        let left = [i, k];
        let right = [k, j];
        assert(left@ == index2(i, k));
        assert(right@ == index2(k, j));
        let product = lhs.get(left) * rhs.get(right);
        sum = sum + product;
        k += 1;
    }
    proof {
        assert(a.take(inner as int) == a);
        assert(b.take(inner as int) == b);
    }
    sum
}

impl<'a, 'b, A, O1, O2, L1, L2> Dot<NDArrayBase<'b, A, O2, L2, 2>> for NDArrayBase<
    'a,
    A,
    O1,
    L1,
    2,
> where
    A: Scalar,
    O1: Ownership,
    O2: Ownership,
    L1: MemoryLayout,
    L2: MemoryLayout,
 {
    type Elem = A;

    type Output = Array2<A>;

    /// Both matrices are well formed and, if the one has as many columns as
    /// the other has rows, every element of their product can be computed.
    open spec fn dot_requires(&self, rhs: &NDArrayBase<'b, A, O2, L2, 2>) -> bool {
        &&& self.wf()
        &&& rhs.wf()
        &&& self.dims()[1] == rhs.dims()[0] ==> matmul_computable(
            self.rows(),
            rhs.rows(),
            rhs.dims()[1] as int,
        )
    }

    /// Two matrices whose inner extents differ are refused, and so is a
    /// product with more elements than a machine word can count. Otherwise
    /// the answer has as many rows as `self` and as many columns as `rhs`,
    /// and its element in row `i` and column `j` is the dot product of row
    /// `i` of `self` and column `j` of `rhs`, where `obeys_arithmetic` holds of `A`.
    open spec fn dot_ensures(
        &self,
        rhs: &NDArrayBase<'b, A, O2, L2, 2>,
        result: Result<Array2<A>, LinalgError>,
    ) -> bool {
        &&& result is Err <==> self.dims()[1] != rhs.dims()[0] || self.dims()[0] * rhs.dims()[1]
            > usize::MAX
        &&& result matches Err(error) ==> error == if self.dims()[1] != rhs.dims()[0] {
            LinalgError::DimensionMismatch
        } else {
            LinalgError::AllocationError
        }
        &&& result matches Ok(product) ==> {
            &&& product.wf()
            &&& product.dims() == seq![self.dims()[0], rhs.dims()[1]]
            &&& obeys_arithmetic::<A>() ==> product.rows() == matmul_spec(
                self.rows(),
                rhs.rows(),
                rhs.dims()[1] as int,
            )
        }
    }

    fn dot(&self, rhs: &NDArrayBase<'b, A, O2, L2, 2>) -> (result: Result<
        Array2<A>,
        LinalgError,
    >) where A: num_traits::Zero {
        let rows = self.nrows();
        let columns = rhs.ncols();
        if self.ncols() != rhs.nrows() {
            return Err(LinalgError::DimensionMismatch);
        }
        let shape = [rows, columns];
        proof {
            lemma_product_of_two(shape@);
        }
        if checked_product(&shape).is_none() {
            return Err(LinalgError::AllocationError);
        }
        let mut values: Vec<A> = Vec::new();
        let mut i: usize = 0;
        while i < rows
            invariant
                i <= rows,
                self.wf(),
                rhs.wf(),
                rows == self.dims()[0],
                columns == rhs.dims()[1],
                self.dims()[1] == rhs.dims()[0],
                matmul_computable(self.rows(), rhs.rows(), columns as int),
                rows * columns <= usize::MAX,
                values@.len() == i * columns,
                obeys_arithmetic::<A>() ==> forall|r: usize, c: usize|
                    r < i && c < columns ==> #[trigger] values@[slot(r, c, columns)] == dot_spec(
                        self.row_seq(r),
                        rhs.column_seq(c),
                    ),
            decreases rows - i,
        {
            let mut j: usize = 0;
            while j < columns
                invariant
                    j <= columns,
                    i < rows,
                    self.wf(),
                    rhs.wf(),
                    rows == self.dims()[0],
                    columns == rhs.dims()[1],
                    self.dims()[1] == rhs.dims()[0],
                    matmul_computable(self.rows(), rhs.rows(), columns as int),
                    values@.len() == i * columns + j,
                    obeys_arithmetic::<A>() ==> forall|r: usize, c: usize|
                        r < i && c < columns ==> #[trigger] values@[slot(r, c, columns)]
                            == dot_spec(self.row_seq(r), rhs.column_seq(c)),
                    obeys_arithmetic::<A>() ==> forall|c: usize|
                        c < j ==> #[trigger] values@[slot(i, c, columns)] == dot_spec(
                            self.row_seq(i),
                            rhs.column_seq(c),
                        ),
                decreases columns - j,
            {
                proof {
                    self.lemma_rows();
                    rhs.lemma_rows();
                    if !total_arithmetic::<A>() {
                        assert(dot_defined(self.rows()[i as int], column_of(rhs.rows(), j as int)));
                    }
                }
                let sum = dot_row_column(self, rhs, i, j);
                proof {
                    assert forall|r: usize, c: usize| r < i && c < columns implies slot(
                        r,
                        c,
                        columns,
                    ) < i * columns by {
                        assert(r * columns + c < i * columns) by (nonlinear_arith)
                            requires
                                r < i,
                                c < columns,
                        ;
                    }
                }
                values.push(sum);
                j += 1;
            }
            proof {
                assert((i + 1) * columns == i * columns + columns) by (nonlinear_arith);
            }
            i += 1;
        }
        match Array2::from_shape_vec(shape, values) {
            Ok(product) => {
                proof {
                    if obeys_arithmetic::<A>() {
                        self.lemma_rows();
                        rhs.lemma_rows();
                        product.lemma_rows();
                        let expected = matmul_spec(self.rows(), rhs.rows(), columns as int);
                        assert forall|r: int| 0 <= r < rows implies product.rows()[r]
                            =~= expected[r] by {
                            assert forall|c: int| 0 <= c < columns implies product.rows()[r][c]
                                == expected[r][c] by {
                                let (row, column) = (r as usize, c as usize);
                                lemma_linear_index_of_two(shape@, index2(row, column));
                                assert(values@[slot(row, column, columns)] == dot_spec(
                                    self.row_seq(row),
                                    rhs.column_seq(column),
                                ));
                                assert(product.rows()[r][c] == product.at(index2(row, column)));
                            }
                        }
                        assert(product.rows() =~= expected);
                    }
                }
                Ok(product)
            },
            Err(error) => Err(error),
        }
    }
}

} // verus!
