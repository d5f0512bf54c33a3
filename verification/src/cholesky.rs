use vstd::prelude::*;
use vstd::std_specs::ops::AddSpec;
use vstd::std_specs::ops::DivSpec;
use vstd::std_specs::ops::MulSpec;
use vstd::std_specs::ops::SubSpec;
use crate::array_base::Array2;
use crate::array_base::Ix;
use crate::array_base::NDArrayBase;
use crate::error::LinalgError;
use crate::layout::index2;
use crate::layout::product;
use crate::layout::MemoryLayout;
use crate::layout::lemma_product_of_two;
use crate::order::greater;
use crate::order::is_positive;
use crate::order::obeys_ordered_arithmetic;
use crate::ownership::Ownership;
use crate::scalar::lemma_additive_identity_unique;
use crate::scalar::lemma_multiplicative_identity_unique;
use crate::scalar::one_of;
use crate::scalar::one_spec;
use crate::scalar::obeys_arithmetic;
use crate::scalar::sqrt_of;
use crate::scalar::total_arithmetic;
use crate::scalar::zero_of;
use crate::scalar::zero_spec;
use crate::scalar::Scalar;

verus! {

/// The number of entries in the first `i` rows of a lower triangle.
pub open spec fn triangle(i: int) -> int {
    i * (i + 1) / 2
}

/// The place of the entry in row `i` and column `j` of a lower triangle
/// that is stored row by row.
pub open spec fn packed_index(i: int, j: int) -> int {
    triangle(i) + j
}

/// Each row of a lower triangle has one entry more than the row before.
pub proof fn lemma_triangle_step(i: int)
    requires
        0 <= i,
    ensures
        triangle(i + 1) == triangle(i) + i + 1,
        triangle(i) >= 0,
        triangle(0) == 0,
{
    assert((i + 1) * (i + 2) == i * (i + 1) + 2 * (i + 1)) by (nonlinear_arith);
    assert(i * (i + 1) >= 0) by (nonlinear_arith)
        requires
            0 <= i,
    ;
}

/// A later row begins behind every entry of an earlier row.
pub proof fn lemma_triangle_monotone(i: int, k: int)
    requires
        0 <= i <= k,
    ensures
        triangle(i) <= triangle(k),
        i < k ==> triangle(i) + i < triangle(k),
    decreases k - i,
{
    lemma_triangle_step(i);
    if i < k {
        lemma_triangle_monotone(i + 1, k);
    }
}

/// Two entries of a lower triangle that have the same place are the same entry.
pub proof fn lemma_packed_index_injective(i: int, j: int, r: int, c: int)
    requires
        0 <= j <= i,
        0 <= c <= r,
        packed_index(i, j) == packed_index(r, c),
    ensures
        i == r,
        j == c,
{
    if i < r {
        lemma_triangle_monotone(i, r);
    }
    if r < i {
        lemma_triangle_monotone(r, i);
    }
}

/// The sum of the products `l[i, c] * l[j, c]` over the columns `c < k` of
/// the packed lower triangle `l`, added up from the additive identity in
/// the order of `c`.
pub open spec fn product_sum<A: Scalar>(l: Seq<A>, i: int, j: int, k: int) -> A
    decreases k,
{
    if k <= 0 {
        zero_spec::<A>()
    } else {
        product_sum(l, i, j, k - 1).add_spec(
            l[packed_index(i, k - 1)].mul_spec(l[packed_index(j, k - 1)]),
        )
    }
}

/// What the square root is taken of for the diagonal entry of row `i`: the
/// entry `m` of the matrix less the squares of the entries to its left.
pub open spec fn radicand<A: Scalar>(m: A, l: Seq<A>, i: int) -> A {
    m.sub_spec(product_sum(l, i, i, i))
}

/// The entry in row `i` and column `j < i` of the factor: the entry `m` of
/// the matrix less the products of the entries to the left in rows `i` and
/// `j`, divided by the diagonal entry of row `j`.
pub open spec fn below_diagonal<A: Scalar>(m: A, l: Seq<A>, i: int, j: int) -> A {
    m.sub_spec(product_sum(l, i, j, j)).div_spec(l[packed_index(j, j)])
}

/// The entry in row `i` and column `j` of the packed lower triangle `l`
/// follows from the entry `m` of the matrix and the entries before it as
/// the factorization demands, with `root` for the square root. On the
/// diagonal, what the root is taken of is greater than the additive
/// identity.
pub open spec fn is_factor_entry<A: Scalar, F: Fn(A) -> A>(
    root: F,
    m: A,
    l: Seq<A>,
    i: int,
    j: int,
) -> bool {
    if i == j {
        &&& is_positive(radicand(m, l, i))
        &&& call_ensures(root, (radicand(m, l, i),), l[packed_index(i, i)])
    } else {
        l[packed_index(i, j)] == below_diagonal(m, l, i, j)
    }
}

/// The sum depends on the entries that it reads only.
pub proof fn lemma_product_sum_agrees<A: Scalar>(l: Seq<A>, other: Seq<A>, i: int, j: int, k: int)
    requires
        forall|c: int|
            0 <= c < k ==> l[packed_index(i, c)] == other[packed_index(i, c)] && l[packed_index(
                j,
                c,
            )] == other[packed_index(j, c)],
    ensures
        product_sum(l, i, j, k) == product_sum(other, i, j, k),
    decreases k,
{
    if k > 0 {
        lemma_product_sum_agrees(l, other, i, j, k - 1);
    }
}

/// An entry that follows from the entries before it still does so when
/// more entries are put behind it.
pub proof fn lemma_factor_entry_extends<A: Scalar, F: Fn(A) -> A>(
    root: F,
    m: A,
    l: Seq<A>,
    longer: Seq<A>,
    i: int,
    j: int,
)
    requires
        0 <= j <= i,
        packed_index(i, j) < l.len() <= longer.len(),
        forall|k: int| 0 <= k < l.len() ==> l[k] == longer[k],
        is_factor_entry(root, m, l, i, j),
    ensures
        is_factor_entry(root, m, longer, i, j),
{
    lemma_triangle_monotone(j, i);
    lemma_triangle_step(j);
    lemma_triangle_step(i);
    lemma_product_sum_agrees(l, longer, i, j, j);
}

/// The lower-triangular factor `L` of a matrix `L * transpose(L)`, stored
/// row by row without the zeros above its diagonal.
pub struct LMatrix<A> {
    data: Vec<A>,
    n: Ix,
}

impl<A> LMatrix<A> {
    /// The number of rows, which is the number of columns.
    pub closed spec fn order(&self) -> nat {
        self.n as nat
    }

    /// The entries on and below the diagonal, row by row.
    pub closed spec fn packed(&self) -> Seq<A> {
        self.data@
    }

    /// There is one entry for each place on and below the diagonal.
    pub open spec fn wf(&self) -> bool {
        self.packed().len() == triangle(self.order() as int)
    }

    /// The entry in row `i` and column `j`, where `j <= i`.
    pub open spec fn entry(&self, i: int, j: int) -> A {
        self.packed()[packed_index(i, j)]
    }

    /// The place of the entry in row `i` and column `j` of a packed lower triangle.
    pub fn index_to_l(i: usize, j: usize) -> (k: usize)
        requires
            packed_index(i as int, j as int) <= usize::MAX,
        ensures
            k == packed_index(i as int, j as int),
    {
        proof {
            lemma_triangle_step(i as int);
            let half = (i / 2) as int;
            if i % 2 == 0 {
                assert(i as int * (i + 1) == 2 * (half * (i + 1))) by (nonlinear_arith)
                    requires
                        i as int == 2 * half,
                ;
            } else {
                assert(i as int * (i + 1) == 2 * (i as int * (half + 1))) by (nonlinear_arith)
                    requires
                        i as int == 2 * half + 1,
                ;
            }
        }
        let rows_before = if i % 2 == 0 {
            (i / 2) * (i + 1)
        } else {
            i * (i / 2 + 1)
        };
        rows_before + j
    }

    /// The row and the column of the entry at place `k` of a packed lower triangle.
    pub fn index_from_l(k: usize) -> (position: (usize, usize))
        ensures
            position.1 <= position.0,
            packed_index(position.0 as int, position.1 as int) == k,
            forall|i: int, j: int|
                0 <= j <= i && #[trigger] packed_index(i, j) == k ==> i == position.0 && j
                    == position.1,
    {
        let mut i: usize = 0;
        let mut start: usize = 0;
        proof {
            lemma_triangle_step(0);
        }
        while k - start > i
            invariant
                start == triangle(i as int),
                start <= k,
            decreases k - start,
        {
            proof {
                lemma_triangle_step(i as int);
            }
            start = start + i + 1;
            i = i + 1;
        }
        proof {
            assert forall|r: int, c: int| 0 <= c <= r && #[trigger] packed_index(r, c) == k implies r
                == i && c == k - start by {
                lemma_packed_index_injective(r, c, i as int, k - start);
            }
        }
        (i, k - start)
    }

    /// The entry in row `i` and column `j` of the factor, where `j <= i`.
    pub fn l(&self, i: usize, j: usize) -> (entry: A) where A: Copy
        requires
            self.wf(),
            j <= i < self.order(),
        ensures
            entry == self.entry(i as int, j as int),
    {
        proof {
            lemma_triangle_step(i as int);
            lemma_triangle_monotone(i + 1, self.order() as int);
        }
        let len = self.data.len();
        self.data[Self::index_to_l(i, j)]
    }

    /// The entry in row `i` and column `j` of the transposed factor, where `i <= j`.
    pub fn lt(&self, i: usize, j: usize) -> (entry: A) where A: Copy
        requires
            self.wf(),
            i <= j < self.order(),
        ensures
            entry == self.entry(j as int, i as int),
    {
        self.l(j, i)
    }

    /// The number of rows, which is the number of columns.
    pub fn n(&self) -> (n: Ix)
        ensures
            n == self.order(),
    {
        self.n
    }
}

/// The packed lower triangle `l` with `n` rows is a factor of the matrix
/// with the rows `m`: each of its entries follows from the matrix and the
/// entries before it as the factorization demands, with `root` for the
/// square root.
pub open spec fn is_factor_of<A: Scalar, F: Fn(A) -> A>(
    root: F,
    m: Seq<Seq<A>>,
    l: Seq<A>,
    n: int,
) -> bool {
    forall|i: int, j: int| 0 <= j <= i < n ==> #[trigger] is_factor_entry(root, m[i][j], l, i, j)
}

/// As `is_factor_of`, but of the entries below the diagonal only.
pub open spec fn is_factor_below_diagonal<A: Scalar>(m: Seq<Seq<A>>, l: Seq<A>, n: int) -> bool {
    forall|i: int, j: int|
        0 <= j < i < n ==> l[#[trigger] packed_index(i, j)] == below_diagonal(m[i][j], l, i, j)
}

/// Every product and every sum that `product_sum(l, i, j, k)` takes is one
/// that `A` can compute.
pub open spec fn product_sum_defined<A: Scalar>(l: Seq<A>, i: int, j: int, k: int) -> bool
    decreases k,
{
    if k <= 0 {
        true
    } else {
        &&& product_sum_defined(l, i, j, k - 1)
        &&& l[packed_index(i, k - 1)].mul_req(l[packed_index(j, k - 1)])
        &&& product_sum(l, i, j, k - 1).add_req(
            l[packed_index(i, k - 1)].mul_spec(l[packed_index(j, k - 1)]),
        )
    }
}

/// What is computed for the entry in row `i` and column `j` of a factor
/// can be computed: the sum of the products, the difference, on the
/// diagonal the square root by `root` where the difference is greater than
/// the additive identity, and below it the quotient.
pub open spec fn factor_entry_defined<A: Scalar, F: Fn(A) -> A>(
    root: F,
    m: A,
    l: Seq<A>,
    i: int,
    j: int,
) -> bool {
    &&& product_sum_defined(l, i, j, j)
    &&& m.sub_req(product_sum(l, i, j, j))
    &&& i == j && is_positive(radicand(m, l, i)) ==> call_requires(root, (radicand(m, l, i),))
    &&& i != j ==> m.sub_spec(product_sum(l, i, j, j)).div_req(l[packed_index(j, j)])
}

/// The entries of `l` that come before the entry in row `i` and column `j`
/// follow from the matrix with the rows `m` as the factorization demands.
pub open spec fn is_factor_before<A: Scalar, F: Fn(A) -> A>(
    root: F,
    m: Seq<Seq<A>>,
    l: Seq<A>,
    i: int,
    j: int,
) -> bool {
    forall|r: int, c: int|
        0 <= c <= r && (r < i || (r == i && c < j)) ==> #[trigger] is_factor_entry(
            root,
            m[r][c],
            l,
            r,
            c,
        )
}

/// The factorization meets a pivot that it refuses: the entries of some `l`
/// before the diagonal entry of a row `i` follow from the matrix with the
/// rows `m`, and what the root would be taken of for that entry is not
/// greater than the additive identity.
pub open spec fn has_refused_pivot<A: Scalar, F: Fn(A) -> A>(root: F, m: Seq<Seq<A>>, n: int) -> bool {
    exists|l: Seq<A>, i: int|
        0 <= i < n && #[trigger] is_factor_before(root, m, l, i, i) && !is_positive(
            radicand(m[i][i], l, i),
        )
}

/// The factor of the matrix with the rows `m` can be computed: either the
/// operators of `A` and `root` accept all operands, or
/// `obeys_ordered_arithmetic` holds and, whatever `root` returns on the
/// way, no step of any entry fails.
pub open spec fn llt_computable<A: Scalar, F: Fn(A) -> A>(root: F, m: Seq<Seq<A>>, n: int) -> bool {
    ||| total_arithmetic::<A>() && forall|x: A| call_requires(root, (x,))
    ||| obeys_ordered_arithmetic::<A>() && forall|l: Seq<A>, i: int, j: int|
        0 <= j <= i < n && #[trigger] is_factor_before(root, m, l, i, j) ==> factor_entry_defined(
            root,
            m[i][j],
            l,
            i,
            j,
        )
}

/// `root` returns one value only for each argument.
pub open spec fn is_single_valued<A, F: Fn(A) -> A>(root: F) -> bool {
    forall|x: A, a: A, b: A|
        #[trigger] call_ensures(root, (x,), a) && #[trigger] call_ensures(root, (x,), b) ==> a == b
}

/// With a square root that returns one value only, the entries of a factor
/// are determined by the matrix: two packed triangles whose entries before
/// the entry in row `i` and column `j` follow from the matrix with the rows
/// `m` agree in each of those entries.
pub proof fn lemma_factor_is_determined<A: Scalar, F: Fn(A) -> A>(
    root: F,
    m: Seq<Seq<A>>,
    l: Seq<A>,
    other: Seq<A>,
    i: int,
    j: int,
    r: int,
    c: int,
)
    requires
        is_single_valued(root),
        is_factor_before(root, m, l, i, j),
        is_factor_before(root, m, other, i, j),
        0 <= c <= r,
        r < i || (r == i && c < j),
    ensures
        l[packed_index(r, c)] == other[packed_index(r, c)],
    decreases packed_index(r, c),
{
    lemma_triangle_step(r);
    lemma_triangle_step(c);
    lemma_triangle_monotone(c, r);
    assert forall|k: int| 0 <= k < c implies l[packed_index(r, k)] == other[packed_index(r, k)]
        && l[packed_index(c, k)] == other[packed_index(c, k)] by {
        lemma_factor_is_determined(root, m, l, other, i, j, r, k);
        lemma_factor_is_determined(root, m, l, other, i, j, c, k);
    }
    lemma_product_sum_agrees(l, other, r, c, c);
    assert(is_factor_entry(root, m[r][c], l, r, c));
    assert(is_factor_entry(root, m[r][c], other, r, c));
    if r != c {
        lemma_factor_is_determined(root, m, l, other, i, j, c, c);
    }
}

/// With a square root that returns one value only, a factorization either
/// meets a pivot that it refuses or has a factor, never both: which of the
/// two `llt_with` answers is decided by the matrix.
pub proof fn lemma_refused_pivot_excludes_factor<A: Scalar, F: Fn(A) -> A>(
    root: F,
    m: Seq<Seq<A>>,
    l: Seq<A>,
    n: int,
)
    requires
        is_single_valued(root),
        has_refused_pivot(root, m, n),
    ensures
        !is_factor_of(root, m, l, n),
{
    if is_factor_of(root, m, l, n) {
        let (other, i) = choose|other: Seq<A>, i: int|
            0 <= i < n && #[trigger] is_factor_before(root, m, other, i, i) && !is_positive(
                radicand(m[i][i], other, i),
            );
        assert(is_factor_before(root, m, l, i, i));
        assert forall|k: int| 0 <= k < i implies l[packed_index(i, k)] == other[packed_index(i, k)] by {
            lemma_factor_is_determined(root, m, l, other, i, i, i, k);
        }
        lemma_product_sum_agrees(l, other, i, i, i);
        assert(is_factor_entry(root, m[i][i], l, i, i));
    }
}

/// What can be computed for a sum can be computed for its beginnings.
pub proof fn lemma_product_sum_defined_prefix<A: Scalar>(l: Seq<A>, i: int, j: int, k: int, n: int)
    requires
        0 <= k <= n,
        product_sum_defined(l, i, j, n),
    ensures
        product_sum_defined(l, i, j, k),
    decreases n - k,
{
    if k < n {
        lemma_product_sum_defined_prefix(l, i, j, k, n - 1);
    }
}

impl<'a, A, O: Ownership, L: MemoryLayout> NDArrayBase<'a, A, O, L, 2> {
    /// The Cholesky factor of a square matrix, with `root` for the square
    /// root. The matrix is taken to be symmetric: only its entries on and
    /// below the diagonal are read.
    ///
    /// A matrix that is not square is refused with `DimensionMismatch`.
    /// Otherwise each pivot `m[i, i] - sum of l[i, k] * l[i, k] for k < i`
    /// is compared with the additive identity before its root is taken, and
    /// the first that is not greater is refused with `SingularMatrix`; with
    /// a `root` that returns one value only for each argument, that is the
    /// answer exactly when the factorization meets such a pivot.
    /// Where none is, the factor has as many rows as the matrix and, where
    /// `obeys_ordered_arithmetic` holds of `A`, its entries are
    /// `l[i, i] = root(m[i, i] - sum of l[i, k] * l[i, k] for k < i)` and
    /// `l[i, j] = (m[i, j] - sum of l[i, k] * l[j, k] for k < j) / l[j, j]`.
    pub fn llt_with<F>(&self, root: F) -> (result: Result<LMatrix<A>, LinalgError>) where
        A: Scalar + num_traits::Zero,
        F: Fn(A) -> A,

        requires
            self.wf(),
            self.dims()[0] == self.dims()[1] ==> llt_computable(
                root,
                self.rows(),
                self.dims()[0] as int,
            ),
        ensures
            result == Err::<LMatrix<A>, LinalgError>(LinalgError::DimensionMismatch)
                <==> self.dims()[0] != self.dims()[1],
            result matches Err(error) ==> error == LinalgError::DimensionMismatch || error
                == LinalgError::SingularMatrix,
            result == Err::<LMatrix<A>, LinalgError>(LinalgError::SingularMatrix)
                && obeys_ordered_arithmetic::<A>() ==> has_refused_pivot(
                root,
                self.rows(),
                self.dims()[0] as int,
            ),
            obeys_ordered_arithmetic::<A>() && is_single_valued(root) ==> (result == Err::<
                LMatrix<A>,
                LinalgError,
            >(LinalgError::SingularMatrix) <==> self.dims()[0] == self.dims()[1]
                && has_refused_pivot(root, self.rows(), self.dims()[0] as int)),
            result matches Ok(factor) ==> {
                &&& factor.wf()
                &&& factor.order() == self.dims()[0]
                &&& obeys_ordered_arithmetic::<A>() ==> is_factor_of(
                    root,
                    self.rows(),
                    factor.packed(),
                    self.dims()[0] as int,
                )
            },
    {
        let n = self.nrows();
        if n != self.ncols() {
            return Err(LinalgError::DimensionMismatch);
        }
        let zero = zero_of::<A>();
        proof {
            if obeys_arithmetic::<A>() {
                lemma_additive_identity_unique(zero);
            }
            lemma_triangle_step(0);
        }
        let mut values: Vec<A> = Vec::new();
        let mut i: usize = 0;
        while i < n
            invariant
                i <= n,
                self.wf(),
                n == self.dims()[0],
                n == self.dims()[1],
                llt_computable(root, self.rows(), n as int),
                obeys_arithmetic::<A>() ==> zero == zero_spec::<A>(),
                values@.len() == triangle(i as int),
                obeys_ordered_arithmetic::<A>() ==> forall|r: usize, c: usize|
                    c <= r < i ==> #[trigger] is_factor_entry(
                        root,
                        self.at(index2(r, c)),
                        values@,
                        r as int,
                        c as int,
                    ),
            decreases n - i,
        {
            let mut j: usize = 0;
            while j <= i
                invariant
                    j <= i + 1,
                    i < n,
                    self.wf(),
                    n == self.dims()[0],
                    n == self.dims()[1],
                    llt_computable(root, self.rows(), n as int),
                    obeys_arithmetic::<A>() ==> zero == zero_spec::<A>(),
                    values@.len() == packed_index(i as int, j as int),
                    obeys_ordered_arithmetic::<A>() ==> forall|r: usize, c: usize|
                        c <= r < i ==> #[trigger] is_factor_entry(
                            root,
                            self.at(index2(r, c)),
                            values@,
                            r as int,
                            c as int,
                        ),
                    obeys_ordered_arithmetic::<A>() ==> forall|c: usize|
                        c < j ==> #[trigger] is_factor_entry(
                            root,
                            self.at(index2(i, c)),
                            values@,
                            i as int,
                            c as int,
                        ),
                decreases i + 1 - j,
            {
                proof {
                    lemma_triangle_step(i as int);
                    lemma_triangle_step(j as int);
                    lemma_triangle_monotone(j as int, i as int);
                    self.lemma_rows();
                    if obeys_ordered_arithmetic::<A>() {
                        assert(is_factor_before(root, self.rows(), values@, i as int, j as int))
                            by {
                            assert forall|r: int, c: int|
                                0 <= c <= r && (r < i || (r == i && c < j)) implies #[trigger] is_factor_entry(
                                root,
                                self.rows()[r][c],
                                values@,
                                r,
                                c,
                            ) by {
                                let (row, column) = (r as usize, c as usize);
                                assert(is_factor_entry(
                                    root,
                                    self.at(index2(row, column)),
                                    values@,
                                    row as int,
                                    column as int,
                                ));
                            }
                        }
                    }
                    if !(total_arithmetic::<A>() && forall|x: A| call_requires(root, (x,))) {
                        assert(factor_entry_defined(
                            root,
                            self.rows()[i as int][j as int],
                            values@,
                            i as int,
                            j as int,
                        ));
                    }
                }
                let count = values.len();
                let mut sum = zero;
                let mut k: usize = 0;
                while k < j
                    invariant
                        k <= j <= i,
                        count == values@.len(),
                        total_arithmetic::<A>() || (obeys_arithmetic::<A>() && product_sum_defined(
                            values@,
                            i as int,
                            j as int,
                            j as int,
                        )),
                        values@.len() == packed_index(i as int, j as int),
                        triangle(j as int) + j <= triangle(i as int) + j,
                        triangle(i as int) >= 0,
                        triangle(j as int) >= 0,
                        obeys_arithmetic::<A>() ==> sum == product_sum(
                            values@,
                            i as int,
                            j as int,
                            k as int,
                        ),
                    decreases j - k,
                {
                    proof {
                        if !total_arithmetic::<A>() {
                            lemma_product_sum_defined_prefix(
                                values@,
                                i as int,
                                j as int,
                                k + 1,
                                j as int,
                            );
                        }
                    }
                    let ik = LMatrix::<A>::index_to_l(i, k);
                    let jk = LMatrix::<A>::index_to_l(j, k);
                    let product = values[ik] * values[jk];
                    sum = sum + product;
                    k += 1;
                }
                let position = [i, j];
                assert(position@ == index2(i, j));
                let difference = self.get(position) - sum;
                let entry = if i == j {
                    if !greater(&difference, &zero) {
                        return Err(LinalgError::SingularMatrix);
                    }
                    root(difference)
                } else {
                    let jj = LMatrix::<A>::index_to_l(j, j);
                    difference / values[jj]
                };
                let ghost before = values@;
                values.push(entry);
                proof {
                    if obeys_ordered_arithmetic::<A>() {
                        lemma_product_sum_agrees(before, values@, i as int, j as int, j as int);
                        assert(is_factor_entry(
                            root,
                            self.at(index2(i, j)),
                            values@,
                            i as int,
                            j as int,
                        ));
                        assert forall|r: usize, c: usize| c <= r < i implies #[trigger] is_factor_entry(
                            root,
                            self.at(index2(r, c)),
                            values@,
                            r as int,
                            c as int,
                        ) by {
                            lemma_triangle_step(r as int);
                            lemma_triangle_monotone(r + 1, i as int);
                            lemma_factor_entry_extends(
                                root,
                                self.at(index2(r, c)),
                                before,
                                values@,
                                r as int,
                                c as int,
                            );
                        }
                        assert forall|c: usize| c < j + 1 implies #[trigger] is_factor_entry(
                            root,
                            self.at(index2(i, c)),
                            values@,
                            i as int,
                            c as int,
                        ) by {
                            if c < j {
                                lemma_factor_entry_extends(
                                    root,
                                    self.at(index2(i, c)),
                                    before,
                                    values@,
                                    i as int,
                                    c as int,
                                );
                            }
                        }
                    }
                }
                j += 1;
            }
            proof {
                lemma_triangle_step(i as int);
            }
            i += 1;
        }
        proof {
            if obeys_ordered_arithmetic::<A>() {
                self.lemma_rows();
                assert forall|r: int, c: int| 0 <= c <= r < n implies #[trigger] is_factor_entry(
                    root,
                    self.rows()[r][c],
                    values@,
                    r,
                    c,
                ) by {
                    let (row, column) = (r as usize, c as usize);
                    assert(is_factor_entry(
                        root,
                        self.at(index2(row, column)),
                        values@,
                        row as int,
                        column as int,
                    ));
                }
                if is_single_valued(root) && has_refused_pivot(root, self.rows(), n as int) {
                    lemma_refused_pivot_excludes_factor(root, self.rows(), values@, n as int);
                }
            }
        }
        Ok(LMatrix { data: values, n })
    }
}

/// The packed lower triangle `l` with `n` rows is the factor of the matrix
/// with the rows `m` that `num_traits::Float::sqrt` gives: `is_factor_of`
/// holds of them with that function for the square root.
pub closed spec fn is_sqrt_factor_of<A: Scalar + num_traits::Float>(
    m: Seq<Seq<A>>,
    l: Seq<A>,
    n: int,
) -> bool {
    is_factor_of(sqrt_of::<A>, m, l, n)
}

/// The factorization with `num_traits::Float::sqrt` meets a pivot that it
/// refuses: `has_refused_pivot` holds with that function for the square
/// root.
pub closed spec fn has_refused_sqrt_pivot<A: Scalar + num_traits::Float>(m: Seq<Seq<A>>, n: int) -> bool {
    has_refused_pivot(sqrt_of::<A>, m, n)
}

/// `num_traits::Float::sqrt` returns one value only for each argument.
/// This is a condition that contracts name, not a claim that they make.
pub closed spec fn sqrt_is_single_valued<A: Scalar + num_traits::Float>() -> bool {
    is_single_valued(sqrt_of::<A>)
}

/// What `is_sqrt_factor_of`, `has_refused_sqrt_pivot` and
/// `sqrt_is_single_valued` stand for.
pub(crate) proof fn lemma_sqrt_factor<A: Scalar + num_traits::Float>(m: Seq<Seq<A>>, l: Seq<A>, n: int)
    ensures
        is_sqrt_factor_of(m, l, n) == is_factor_of(sqrt_of::<A>, m, l, n),
        has_refused_sqrt_pivot::<A>(m, n) == has_refused_pivot(sqrt_of::<A>, m, n),
        sqrt_is_single_valued::<A>() == is_single_valued(sqrt_of::<A>),
{
}

/// In a factor that `num_traits::Float::sqrt` gives, every pivot is
/// greater than the additive identity, and every entry below the diagonal
/// is `l[i, j] = (m[i, j] - sum of l[i, k] * l[j, k] for k < j) / l[j, j]`.
pub proof fn lemma_sqrt_factor_entries<A: Scalar + num_traits::Float>(m: Seq<Seq<A>>, l: Seq<A>, n: int)
    requires
        is_sqrt_factor_of(m, l, n),
    ensures
        is_factor_below_diagonal(m, l, n),
        forall|i: int| 0 <= i < n ==> is_positive(#[trigger] radicand(m[i][i], l, i)),
{
    assert forall|i: int, j: int| 0 <= j < i < n implies l[#[trigger] packed_index(i, j)]
        == below_diagonal(m[i][j], l, i, j) by {
        assert(is_factor_entry(sqrt_of::<A>, m[i][j], l, i, j));
    }
    assert forall|i: int| 0 <= i < n implies is_positive(#[trigger] radicand(m[i][i], l, i)) by {
        assert(is_factor_entry(sqrt_of::<A>, m[i][i], l, i, i));
    }
}

/// Cholesky factorization with the square root of the element type.
pub trait LLT<A> {
    /// The type of the elements.
    type Elem;

    /// What `llt` asks of the matrix.
    spec fn llt_requires(&self) -> bool;

    /// What `llt` answers.
    spec fn llt_ensures(&self, result: Result<LMatrix<A>, LinalgError>) -> bool where
        Self::Elem: num_traits::Float,
    ;

    /// The Cholesky factor of `self`.
    fn llt(&self) -> (result: Result<LMatrix<A>, LinalgError>) where Self::Elem: num_traits::Float
        requires
            self.llt_requires(),
        ensures
            self.llt_ensures(result),
    ;
}

impl<'a, A: Scalar, O: Ownership, L: MemoryLayout> LLT<A> for NDArrayBase<'a, A, O, L, 2> {
    type Elem = A;

    /// The matrix is well formed, and the operators of `A` accept all operands.
    open spec fn llt_requires(&self) -> bool {
        &&& self.wf()
        &&& total_arithmetic::<A>()
    }

    /// A matrix that is not square is refused with `DimensionMismatch`.
    /// Otherwise, where some pivot `m[i, i] - sum of l[i, k] * l[i, k] for
    /// k < i` is not greater than the additive identity, the first such is
    /// refused with `SingularMatrix`; where `num_traits::Float::sqrt` returns
    /// one value only for each argument, that is the answer exactly when the
    /// factorization meets such a pivot. Where none is, the factor has as many
    /// rows as the matrix and, where `obeys_ordered_arithmetic` holds of `A`,
    /// it is the factor that `llt_with` gives with `num_traits::Float::sqrt`
    /// for the square root.
    ///
    /// The comparison is made on the pivot as it was computed: where the
    /// arithmetic of `A` rounds, the pivot of a singular matrix can come out
    /// just above the additive identity, and such a matrix is not refused.
    open spec fn llt_ensures(&self, result: Result<LMatrix<A>, LinalgError>) -> bool where
        A: num_traits::Float,
    {
        &&& result == Err::<LMatrix<A>, LinalgError>(LinalgError::DimensionMismatch)
            <==> self.dims()[0] != self.dims()[1]
        &&& result matches Err(error) ==> error == LinalgError::DimensionMismatch || error
            == LinalgError::SingularMatrix
        &&& result == Err::<LMatrix<A>, LinalgError>(LinalgError::SingularMatrix)
            && obeys_ordered_arithmetic::<A>() ==> has_refused_sqrt_pivot::<A>(
            self.rows(),
            self.dims()[0] as int,
        )
        &&& obeys_ordered_arithmetic::<A>() && sqrt_is_single_valued::<A>() ==> (result == Err::<
            LMatrix<A>,
            LinalgError,
        >(LinalgError::SingularMatrix) <==> self.dims()[0] == self.dims()[1]
            && has_refused_sqrt_pivot::<A>(self.rows(), self.dims()[0] as int))
        &&& result matches Ok(factor) ==> {
            &&& factor.wf()
            &&& factor.order() == self.dims()[0]
            &&& obeys_ordered_arithmetic::<A>() ==> is_sqrt_factor_of(
                self.rows(),
                factor.packed(),
                self.dims()[0] as int,
            )
        }
    }

    fn llt(&self) -> (result: Result<LMatrix<A>, LinalgError>) where A: num_traits::Float {
        self.llt_with(sqrt_of::<A>)
    }
}

/// Entry `i` of the unit vector `e_j`: the multiplicative identity where
/// `i == j`, the additive identity elsewhere.
pub open spec fn unit<A: Scalar>(i: int, j: int) -> A {
    if i == j {
        one_spec::<A>()
    } else {
        zero_spec::<A>()
    }
}

/// The sum of the products `l[i, c] * y[c]` over `c < k`, added up from the
/// additive identity in the order of `c`.
pub open spec fn forward_sum<A: Scalar>(l: Seq<A>, y: Seq<A>, i: int, k: int) -> A
    decreases k,
{
    if k <= 0 {
        zero_spec::<A>()
    } else {
        forward_sum(l, y, i, k - 1).add_spec(l[packed_index(i, k - 1)].mul_spec(y[k - 1]))
    }
}

/// The first `i` entries of the solution `y` of `L * y = e_j`, found from
/// the first entry on: `y[r] = (e_j[r] - sum of l[r, c] * y[c] for c < r) / l[r, r]`.
pub open spec fn forward<A: Scalar>(l: Seq<A>, j: int, i: int) -> Seq<A>
    decreases i,
{
    if i <= 0 {
        Seq::empty()
    } else {
        let y = forward(l, j, i - 1);
        y.push(
            unit::<A>(i - 1, j).sub_spec(forward_sum(l, y, i - 1, i - 1)).div_spec(
                l[packed_index(i - 1, i - 1)],
            ),
        )
    }
}

/// The sum of the products `l[c, i] * x[c]` over `i < c < k`, added up
/// from the additive identity in the order of `c`.
pub open spec fn backward_sum<A: Scalar>(l: Seq<A>, x: Seq<A>, i: int, k: int) -> A
    decreases k - i,
{
    if k <= i + 1 {
        zero_spec::<A>()
    } else {
        backward_sum(l, x, i, k - 1).add_spec(l[packed_index(k - 1, i)].mul_spec(x[k - 1]))
    }
}

/// The solution `x` of `transpose(L) * x = y`, found from the last entry
/// back to entry `i`:
/// `x[r] = (y[r] - sum of l[c, r] * x[c] for c > r) / l[r, r]`. The entries
/// before `i` are the additive identity.
pub open spec fn backward<A: Scalar>(l: Seq<A>, y: Seq<A>, n: int, i: int) -> Seq<A>
    decreases n - i,
{
    if i >= n {
        Seq::new(n as nat, |k: int| zero_spec::<A>())
    } else {
        let x = backward(l, y, n, i + 1);
        x.update(i, y[i].sub_spec(backward_sum(l, x, i, n)).div_spec(l[packed_index(i, i)]))
    }
}

/// Column `j` of the inverse of `L * transpose(L)`: the solution `x` of
/// `L * y = e_j` and `transpose(L) * x = y`.
pub open spec fn inverse_column<A: Scalar>(l: Seq<A>, n: int, j: int) -> Seq<A> {
    backward(l, forward(l, j, n), n, 0)
}

/// Every product and every sum that `forward_sum(l, y, i, k)` takes is one
/// that `A` can compute.
pub open spec fn forward_sum_defined<A: Scalar>(l: Seq<A>, y: Seq<A>, i: int, k: int) -> bool
    decreases k,
{
    if k <= 0 {
        true
    } else {
        &&& forward_sum_defined(l, y, i, k - 1)
        &&& l[packed_index(i, k - 1)].mul_req(y[k - 1])
        &&& forward_sum(l, y, i, k - 1).add_req(l[packed_index(i, k - 1)].mul_spec(y[k - 1]))
    }
}

/// Every step that `forward(l, j, i)` takes is one that `A` can compute.
pub open spec fn forward_defined<A: Scalar>(l: Seq<A>, j: int, i: int) -> bool
    decreases i,
{
    if i <= 0 {
        true
    } else {
        let y = forward(l, j, i - 1);
        let sum = forward_sum(l, y, i - 1, i - 1);
        &&& forward_defined(l, j, i - 1)
        &&& forward_sum_defined(l, y, i - 1, i - 1)
        &&& unit::<A>(i - 1, j).sub_req(sum)
        &&& unit::<A>(i - 1, j).sub_spec(sum).div_req(l[packed_index(i - 1, i - 1)])
    }
}

/// Every product and every sum that `backward_sum(l, x, i, k)` takes is
/// one that `A` can compute.
pub open spec fn backward_sum_defined<A: Scalar>(l: Seq<A>, x: Seq<A>, i: int, k: int) -> bool
    decreases k - i,
{
    if k <= i + 1 {
        true
    } else {
        &&& backward_sum_defined(l, x, i, k - 1)
        &&& l[packed_index(k - 1, i)].mul_req(x[k - 1])
        &&& backward_sum(l, x, i, k - 1).add_req(l[packed_index(k - 1, i)].mul_spec(x[k - 1]))
    }
}

/// Every step that `backward(l, y, n, i)` takes is one that `A` can compute.
pub open spec fn backward_defined<A: Scalar>(l: Seq<A>, y: Seq<A>, n: int, i: int) -> bool
    decreases n - i,
{
    if i >= n {
        true
    } else {
        let x = backward(l, y, n, i + 1);
        let sum = backward_sum(l, x, i, n);
        &&& backward_defined(l, y, n, i + 1)
        &&& backward_sum_defined(l, x, i, n)
        &&& y[i].sub_req(sum)
        &&& y[i].sub_spec(sum).div_req(l[packed_index(i, i)])
    }
}

/// The inverse of `L * transpose(L)` can be computed: either the operators
/// of `A` accept all operands, or `obeys_arithmetic` holds and no step of
/// any column fails.
pub open spec fn inverse_computable<A: Scalar>(l: Seq<A>, n: int) -> bool {
    ||| total_arithmetic::<A>()
    ||| obeys_arithmetic::<A>() && forall|j: int|
        0 <= j < n ==> #[trigger] forward_defined(l, j, n) && backward_defined(
            l,
            forward(l, j, n),
            n,
            0,
        )
}

/// What can be computed for a sum can be computed for its beginnings.
pub proof fn lemma_forward_sum_defined_prefix<A: Scalar>(
    l: Seq<A>,
    y: Seq<A>,
    i: int,
    k: int,
    n: int,
)
    requires
        0 <= k <= n,
        forward_sum_defined(l, y, i, n),
    ensures
        forward_sum_defined(l, y, i, k),
    decreases n - k,
{
    if k < n {
        lemma_forward_sum_defined_prefix(l, y, i, k, n - 1);
    }
}

/// What can be computed for a solution can be computed for its beginnings.
pub proof fn lemma_forward_defined_prefix<A: Scalar>(l: Seq<A>, j: int, i: int, n: int)
    requires
        0 <= i <= n,
        forward_defined(l, j, n),
    ensures
        forward_defined(l, j, i),
    decreases n - i,
{
    if i < n {
        lemma_forward_defined_prefix(l, j, i, n - 1);
    }
}

/// What can be computed for a sum can be computed for its beginnings.
pub proof fn lemma_backward_sum_defined_prefix<A: Scalar>(
    l: Seq<A>,
    x: Seq<A>,
    i: int,
    k: int,
    n: int,
)
    requires
        i < k <= n,
        backward_sum_defined(l, x, i, n),
    ensures
        backward_sum_defined(l, x, i, k),
    decreases n - k,
{
    if k < n {
        lemma_backward_sum_defined_prefix(l, x, i, k, n - 1);
    }
}

/// What can be computed for a solution can be computed for its endings.
pub proof fn lemma_backward_defined_suffix<A: Scalar>(l: Seq<A>, y: Seq<A>, n: int, i: int)
    requires
        0 <= i <= n,
        backward_defined(l, y, n, 0),
    ensures
        backward_defined(l, y, n, i),
    decreases i,
{
    if i > 0 {
        lemma_backward_defined_suffix(l, y, n, i - 1);
    }
}

/// The inverse of `L * transpose(L)`, by its rows.
pub open spec fn inverse_spec<A: Scalar>(l: Seq<A>, n: int) -> Seq<Seq<A>> {
    Seq::new(n as nat, |i: int| Seq::new(n as nat, |j: int| inverse_column(l, n, j)[i]))
}

impl<A: Scalar> LMatrix<A> {
    /// The solution `y` of `L * y = e_j`.
    fn forward_substitution(&self, j: usize) -> (y: Vec<A>) where
        A: num_traits::Zero + num_traits::One,

        requires
            self.wf(),
            j < self.order(),
            total_arithmetic::<A>() || (obeys_arithmetic::<A>() && forward_defined(
                self.packed(),
                j as int,
                self.order() as int,
            )),
        ensures
            y@.len() == self.order(),
            obeys_arithmetic::<A>() ==> y@ == forward(self.packed(), j as int, self.order() as int),
    {
        let n = self.n;
        let zero = zero_of::<A>();
        let one = one_of::<A>();
        proof {
            if obeys_arithmetic::<A>() {
                lemma_additive_identity_unique(zero);
                lemma_multiplicative_identity_unique(one);
            }
        }
        let mut y: Vec<A> = Vec::new();
        let mut i: usize = 0;
        while i < n
            invariant
                i <= n,
                n == self.order(),
                self.wf(),
                total_arithmetic::<A>() || (obeys_arithmetic::<A>() && forward_defined(
                    self.packed(),
                    j as int,
                    n as int,
                )),
                obeys_arithmetic::<A>() ==> zero == zero_spec::<A>() && one == one_spec::<A>(),
                y@.len() == i,
                obeys_arithmetic::<A>() ==> y@ == forward(self.packed(), j as int, i as int),
            decreases n - i,
        {
            proof {
                if !total_arithmetic::<A>() {
                    lemma_forward_defined_prefix(self.packed(), j as int, i + 1, n as int);
                }
            }
            let mut sum = zero;
            let mut k: usize = 0;
            while k < i
                invariant
                    k <= i < n,
                    n == self.order(),
                    self.wf(),
                    total_arithmetic::<A>() || (obeys_arithmetic::<A>() && forward_sum_defined(
                        self.packed(),
                        y@,
                        i as int,
                        i as int,
                    )),
                    y@.len() == i,
                    obeys_arithmetic::<A>() ==> sum == forward_sum(
                        self.packed(),
                        y@,
                        i as int,
                        k as int,
                    ),
                decreases i - k,
            {
                proof {
                    if !total_arithmetic::<A>() {
                        lemma_forward_sum_defined_prefix(
                            self.packed(),
                            y@,
                            i as int,
                            k + 1,
                            i as int,
                        );
                    }
                }
                let product = self.l(i, k) * y[k];
                sum = sum + product;
                k += 1;
            }
            let e_i = if i == j {
                one
            } else {
                zero
            };
            let entry = (e_i - sum) / self.l(i, i);
            y.push(entry);
            i += 1;
        }
        y
    }

    /// The solution `x` of `transpose(L) * x = y`.
    fn backward_substitution(&self, y: &Vec<A>) -> (x: Vec<A>) where A: num_traits::Zero
        requires
            self.wf(),
            y@.len() == self.order(),
            total_arithmetic::<A>() || (obeys_arithmetic::<A>() && backward_defined(
                self.packed(),
                y@,
                self.order() as int,
                0,
            )),
        ensures
            x@.len() == self.order(),
            obeys_arithmetic::<A>() ==> x@ == backward(self.packed(), y@, self.order() as int, 0),
    {
        let n = self.n;
        let zero = zero_of::<A>();
        proof {
            if obeys_arithmetic::<A>() {
                lemma_additive_identity_unique(zero);
            }
        }
        let mut x: Vec<A> = Vec::new();
        let mut filled: usize = 0;
        while filled < n
            invariant
                filled <= n,
                x@ == Seq::new(filled as nat, |k: int| zero),
            decreases n - filled,
        {
            x.push(zero);
            filled += 1;
        }
        proof {
            if obeys_arithmetic::<A>() {
                assert(x@ =~= backward(self.packed(), y@, n as int, n as int));
            }
        }
        let mut i: usize = n;
        while i > 0
            invariant
                i <= n,
                n == self.order(),
                self.wf(),
                total_arithmetic::<A>() || (obeys_arithmetic::<A>() && backward_defined(
                    self.packed(),
                    y@,
                    n as int,
                    0,
                )),
                y@.len() == n,
                x@.len() == n,
                obeys_arithmetic::<A>() ==> zero == zero_spec::<A>(),
                obeys_arithmetic::<A>() ==> x@ == backward(self.packed(), y@, n as int, i as int),
            decreases i,
        {
            i -= 1;
            proof {
                if !total_arithmetic::<A>() {
                    lemma_backward_defined_suffix(self.packed(), y@, n as int, i as int);
                }
            }
            let mut sum = zero;
            let mut k: usize = i + 1;
            while k < n
                invariant
                    i < k <= n,
                    n == self.order(),
                    self.wf(),
                    total_arithmetic::<A>() || (obeys_arithmetic::<A>() && backward_sum_defined(
                        self.packed(),
                        x@,
                        i as int,
                        n as int,
                    )),
                    x@.len() == n,
                    obeys_arithmetic::<A>() ==> sum == backward_sum(
                        self.packed(),
                        x@,
                        i as int,
                        k as int,
                    ),
                decreases n - k,
            {
                proof {
                    if !total_arithmetic::<A>() {
                        lemma_backward_sum_defined_prefix(
                            self.packed(),
                            x@,
                            i as int,
                            k + 1,
                            n as int,
                        );
                    }
                }
                let product = self.lt(i, k) * x[k];
                sum = sum + product;
                k += 1;
            }
            let entry = (y[i] - sum) / self.lt(i, i);
            x[i] = entry;
        }
        x
    }

    /// The inverse of the matrix `L * transpose(L)` that `self` is the
    /// factor of, as a dense matrix. Column `j` of it is the solution `x` of
    /// `L * y = e_j` and `transpose(L) * x = y`, where `obeys_arithmetic` holds of `A`.
    pub fn inv(&self) -> (inverse: Array2<A>) where A: num_traits::Zero + num_traits::One
        requires
            self.wf(),
            inverse_computable(self.packed(), self.order() as int),
            self.order() * self.order() <= usize::MAX,
        ensures
            inverse.wf(),
            inverse.dims() == seq![self.order() as usize, self.order() as usize],
            obeys_arithmetic::<A>() ==> inverse.rows() == inverse_spec(
                self.packed(),
                self.order() as int,
            ),
    {
        let n = self.n;
        let shape = [n, n];
        proof {
            lemma_product_of_two(shape@);
        }
        let mut result = Array2::<A>::zeros(shape);
        let mut j: usize = 0;
        while j < n
            invariant
                j <= n,
                n == self.order(),
                self.wf(),
                inverse_computable(self.packed(), n as int),
                result.wf(),
                result.dims() == seq![n, n],
                obeys_arithmetic::<A>() ==> forall|r: usize, c: usize|
                    r < n && c < j ==> #[trigger] result.at(index2(r, c)) == inverse_column(
                        self.packed(),
                        n as int,
                        c as int,
                    )[r as int],
            decreases n - j,
        {
            proof {
                if !total_arithmetic::<A>() {
                    assert(forward_defined(self.packed(), j as int, n as int));
                }
            }
            let y = self.forward_substitution(j);
            let x = self.backward_substitution(&y);
            result.set_column(j, x.as_slice());
            proof {
                if obeys_arithmetic::<A>() {
                    assert forall|r: usize, c: usize| r < n && c < j + 1 implies #[trigger] result.at(
                        index2(r, c),
                    ) == inverse_column(self.packed(), n as int, c as int)[r as int] by {
                        if c == j {
                            assert(result.column_seq(j)[r as int] == result.at(index2(r, j)));
                        }
                    }
                }
            }
            j += 1;
        }
        proof {
            if obeys_arithmetic::<A>() {
                result.lemma_rows();
                let expected = inverse_spec(self.packed(), n as int);
                assert forall|r: int| 0 <= r < n implies result.rows()[r] =~= expected[r] by {
                    assert forall|c: int| 0 <= c < n implies result.rows()[r][c]
                        == expected[r][c] by {
                        let (row, column) = (r as usize, c as usize);
                        assert(result.rows()[r][c] == result.at(index2(row, column)));
                    }
                }
                assert(result.rows() =~= expected);
            }
        }
        result
    }

    /// The factor as a dense square matrix: the entries of `self` on and
    /// below the diagonal, the additive identity above it.
    pub fn to_2d_array(&self) -> (dense: Array2<A>) where A: num_traits::Zero
        requires
            self.wf(),
            self.order() * self.order() <= usize::MAX,
        ensures
            dense.wf(),
            dense.dims() == seq![self.order() as usize, self.order() as usize],
            forall|i: usize, j: usize|
                j <= i < self.order() ==> #[trigger] dense.at(index2(i, j)) == self.entry(
                    i as int,
                    j as int,
                ),
            forall|i: usize, j: usize, r: usize, c: usize|
                i < j < self.order() && r < c < self.order() ==> #[trigger] dense.at(index2(i, j))
                    == #[trigger] dense.at(index2(r, c)),
            A::obeys_add_spec() ==> forall|i: usize, j: usize|
                i < j < self.order() ==> #[trigger] dense.at(index2(i, j)) == zero_spec::<A>(),
    {
        let n = self.n;
        let shape = [n, n];
        proof {
            lemma_product_of_two(shape@);
        }
        let zero = zero_of::<A>();
        proof {
            if A::obeys_add_spec() {
                lemma_additive_identity_unique(zero);
            }
        }
        let mut dense = Array2::<A>::from_elem(shape, zero);
        proof {
            assert forall|r: usize, c: usize| r < n && c < n implies #[trigger] dense.at(
                index2(r, c),
            ) == zero by {
                crate::layout::lemma_linear_index_in_bounds(
                    crate::layout::LayoutType::RowMajor,
                    dense.dims(),
                    index2(r, c),
                );
            }
        }
        let mut i: usize = 0;
        while i < n
            invariant
                i <= n,
                n == self.order(),
                self.wf(),
                dense.wf(),
                dense.dims() == seq![n, n],
                forall|r: usize, c: usize|
                    c <= r < i ==> #[trigger] dense.at(index2(r, c)) == self.entry(
                        r as int,
                        c as int,
                    ),
                forall|r: usize, c: usize|
                    r < n && c < n && (r < c || i <= r) ==> #[trigger] dense.at(index2(r, c))
                        == zero,
            decreases n - i,
        {
            let mut j: usize = 0;
            while j <= i
                invariant
                    j <= i + 1,
                    i < n,
                    n == self.order(),
                    self.wf(),
                    dense.wf(),
                    dense.dims() == seq![n, n],
                    forall|r: usize, c: usize|
                        c <= r < i ==> #[trigger] dense.at(index2(r, c)) == self.entry(
                            r as int,
                            c as int,
                        ),
                    forall|c: usize|
                        c < j ==> #[trigger] dense.at(index2(i, c)) == self.entry(
                            i as int,
                            c as int,
                        ),
                    forall|r: usize, c: usize|
                        r < n && c < n && (r < c || i < r || (r == i && j <= c)) ==> #[trigger] dense.at(
                            index2(r, c),
                        ) == zero,
                decreases i + 1 - j,
            {
                dense.set_at(i, j, self.l(i, j));
                j += 1;
            }
            i += 1;
        }
        dense
    }
}

} // verus!
