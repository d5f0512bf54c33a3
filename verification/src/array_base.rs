use vstd::prelude::*;
use vstd::std_specs::ops::AddSpec;
use core::marker::PhantomData;
use crate::array::Array;
use crate::array::NDOwnedStorage;
use crate::array::NDViewStorage;
use crate::array::Storage;
use crate::error::LinalgError;
use crate::layout::in_bounds;
use crate::layout::index1;
use crate::layout::index2;
use crate::layout::linear_index;
use crate::layout::product;
use crate::layout::ColumnMajor;
use crate::matrix::column_of;
use crate::matrix::transpose_spec;
use crate::layout::MemoryLayout;
use crate::layout::RowMajor;
use crate::layout::lemma_linear_index_of_one;
use crate::ndstorage::push_row_result;
use crate::ndstorage::NDStorage;
use crate::ownership::Ownership;
use crate::ownership::Owning;
use crate::scalar::is_additive_identity;

verus! {

/// An index along one axis, or the extent of one axis.
pub type Ix = usize;

/// The extents of a vector.
pub type Ix1 = [usize; 1];

/// The extents of a matrix: rows, then columns.
pub type Ix2 = [usize; 2];

/// The number of an axis, counted from `0`.
pub struct Axis(pub usize);

/// An array for linear algebra. Its indices are written in the order of its
/// axes (row, then column) whatever the layout of the storage `S` is, and `D`
/// is the type of its extents.
pub struct ArrayBase<S: Storage, D> {
    a: Array<S>,
    dimension: PhantomData<D>,
}

/// An array over a strided store with as many axes as `D` has extents.
pub type NDArrayBase<'a, A, O, L, const N: usize> = ArrayBase<NDStorage<'a, A, O, L, N>, [usize; N]>;

/// An owned vector.
pub type Array1<A> = ArrayBase<NDOwnedStorage<A, RowMajor, 1>, Ix1>;

/// An owned matrix.
pub type Array2<A> = ArrayBase<NDOwnedStorage<A, RowMajor, 2>, Ix2>;

/// A borrowed array.
pub type ArrayView<'a, A, const N: usize> = ArrayBase<NDViewStorage<'a, A, RowMajor, N>, [usize; N]>;

/// A borrowed vector.
pub type ArrayView1<'a, A> = ArrayBase<NDViewStorage<'a, A, RowMajor, 1>, Ix1>;

/// A borrowed matrix.
pub type ArrayView2<'a, A> = ArrayBase<NDViewStorage<'a, A, RowMajor, 2>, Ix2>;

impl<S: Storage, D> ArrayBase<S, D> {
    /// The array that `self` is built on.
    pub closed spec fn inner(&self) -> Array<S> {
        self.a
    }

    /// Builds on an array of the engine.
    pub fn new(a: Array<S>) -> (array: Self)
        ensures
            array.inner() == a,
    {
        ArrayBase { a, dimension: PhantomData }
    }

    /// The array that `self` is built on.
    pub fn inner_impl(&self) -> (a: &Array<S>)
        ensures
            *a == self.inner(),
    {
        &self.a
    }
}

impl<'a, A, O: Ownership, L: MemoryLayout, const N: usize> ArrayBase<
    NDStorage<'a, A, O, L, N>,
    [usize; N],
> {
    /// The store holds one element for each index.
    pub open spec fn wf(&self) -> bool {
        self.inner().storage.wf()
    }

    /// The extent of each axis.
    pub open spec fn dims(&self) -> Seq<usize> {
        self.inner().storage.dims()
    }

    /// The elements, in buffer order.
    pub open spec fn elements(&self) -> Seq<A> {
        self.inner().storage.elements()
    }

    /// The element at `indices`.
    pub open spec fn at(&self, indices: Seq<usize>) -> A {
        self.inner().storage.at(indices)
    }

    /// The number of elements.
    pub fn len(&self) -> (len: Ix)
        ensures
            len == self.elements().len(),
    {
        self.a.storage.len()
    }

    /// The extent of one axis.
    pub fn len_of(&self, axis: Axis) -> (len: usize)
        requires
            axis.0 < N,
        ensures
            len == self.dims()[axis.0 as int],
    {
        self.a.storage.dimensions()[axis.0]
    }

    /// The extent of each axis.
    pub fn dim(&self) -> (dim: [usize; N])
        ensures
            dim@ == self.dims(),
    {
        *self.a.storage.dimensions()
    }

    /// The stride of each axis.
    pub fn strides(&self) -> (strides: &[usize])
        ensures
            strides@ == self.inner().storage.steps(),
    {
        self.a.storage.strides().as_slice()
    }

    /// The extent of each axis.
    pub fn shape(&self) -> (shape: &[usize])
        ensures
            shape@ == self.dims(),
    {
        self.a.storage.dimensions().as_slice()
    }

    /// The same elements under other extents. Fails if the extents do not
    /// multiply to the number of elements.
    pub fn into_shape<const M: usize>(self, shape: [usize; M]) -> (result: Result<
        NDArrayBase<'a, A, O, L, M>,
        LinalgError,
    >)
        requires
            self.wf(),
        ensures
            result is Err <==> product(shape@) != self.elements().len(),
            result matches Err(error) ==> error == LinalgError::DimensionMismatch,
            result matches Ok(array) ==> array.wf() && array.dims() == shape@ && array.elements()
                == self.elements(),
    {
        match self.a.storage.into_shape(shape) {
            Ok(storage) => Ok(ArrayBase::new(Array { storage })),
            Err(error) => Err(error),
        }
    }

    /// An array that borrows the elements of `self`. It cannot outlive `self`.
    pub fn view<'b>(&'b self) -> (window: NDArrayBase<'b, A, crate::ownership::View, L, N>)
        requires
            self.wf(),
        ensures
            window.wf(),
            window.dims() == self.dims(),
            window.elements() == self.elements(),
    {
        ArrayBase::new(self.a.view())
    }

    /// Reads the element at `indices`, each of which must lie below the
    /// extent of its axis.
    pub fn get(&self, indices: [usize; N]) -> (value: A) where A: Copy
        requires
            self.wf(),
            in_bounds(indices@, self.dims()),
        ensures
            value == self.at(indices@),
    {
        self.a.storage.get(indices)
    }

    /// Copies the elements into a vector, in buffer order.
    pub fn to_vec(&self) -> (values: Vec<A>) where A: Copy
        ensures
            values@ == self.elements(),
    {
        self.a.storage.to_vec()
    }
}

impl<A, L: MemoryLayout, const N: usize> ArrayBase<NDStorage<'static, A, Owning, L, N>, [usize; N]> {
    /// An owned array with the given extents, every element the additive
    /// identity of `A`.
    pub fn zeros(shape: [usize; N]) -> (array: Self) where
        A: Copy + num_traits::Zero + core::ops::Add<Output = A>,

        requires
            product(shape@) <= usize::MAX,
        ensures
            array.wf(),
            array.dims() == shape@,
            forall|i: int, j: int|
                0 <= i < array.elements().len() && 0 <= j < array.elements().len()
                    ==> array.elements()[i] == array.elements()[j],
            A::obeys_add_spec() ==> forall|i: int|
                0 <= i < array.elements().len() ==> is_additive_identity(
                    #[trigger] array.elements()[i],
                ),
    {
        ArrayBase::new(Array { storage: NDStorage::zeros(shape) })
    }

    /// An owned array with the given extents, every element a copy of `value`.
    pub fn from_elem(shape: [usize; N], value: A) -> (array: Self) where A: Copy
        requires
            product(shape@) <= usize::MAX,
        ensures
            array.wf(),
            array.dims() == shape@,
            array.elements() == Seq::new(product(shape@), |i: int| value),
    {
        ArrayBase::new(Array { storage: NDStorage::filled(shape, value) })
    }

    /// An owned array with the given extents that takes over `values` as its
    /// buffer. Fails if the number of values is not the product of the
    /// extents.
    pub fn from_shape_vec(shape: [usize; N], values: Vec<A>) -> (result: Result<Self, LinalgError>)
        ensures
            result is Err <==> values@.len() != product(shape@),
            result matches Err(error) ==> error == LinalgError::DimensionMismatch,
            result matches Ok(array) ==> array.wf() && array.dims() == shape@ && array.elements()
                == values@,
    {
        match NDStorage::from_vec(values, shape) {
            Ok(storage) => Ok(ArrayBase::new(Array { storage })),
            Err(error) => Err(error),
        }
    }

    /// Overwrites the element at `indices`.
    pub fn set(&mut self, indices: [usize; N], value: A) where A: Copy
        requires
            old(self).wf(),
            in_bounds(indices@, old(self).dims()),
        ensures
            final(self).wf(),
            final(self).dims() == old(self).dims(),
            final(self).elements() == old(self).elements().update(
                linear_index(L::layout_type(), old(self).dims(), indices@) as int,
                value,
            ),
    {
        self.a.storage.set(indices, value);
    }
}

impl<'a, A, O: Ownership, L: MemoryLayout> ArrayBase<NDStorage<'a, A, O, L, 2>, Ix2> {
    /// Row `i`, from its first column to its last.
    pub open spec fn row_seq(&self, i: usize) -> Seq<A> {
        Seq::new(self.dims()[1] as nat, |k: int| self.at(index2(i, k as usize)))
    }

    /// Column `j`, from its first row to its last.
    pub open spec fn column_seq(&self, j: usize) -> Seq<A> {
        Seq::new(self.dims()[0] as nat, |k: int| self.at(index2(k as usize, j)))
    }

    /// The matrix as the sequence of its rows.
    pub open spec fn rows(&self) -> Seq<Seq<A>> {
        Seq::new(self.dims()[0] as nat, |i: int| self.row_seq(i as usize))
    }

    /// The rows and columns of `rows()` are the rows and columns of the matrix.
    pub proof fn lemma_rows(&self)
        ensures
            self.rows().len() == self.dims()[0],
            forall|i: usize| i < self.dims()[0] ==> #[trigger] self.rows()[i as int] == self.row_seq(i),
            forall|j: usize|
                j < self.dims()[1] ==> #[trigger] column_of(self.rows(), j as int)
                    == self.column_seq(j),
            forall|i: usize, j: usize|
                i < self.dims()[0] && j < self.dims()[1] ==> self.rows()[i as int][j as int]
                    == #[trigger] self.at(index2(i, j)),
    {
        assert forall|j: usize| j < self.dims()[1] implies #[trigger] column_of(
            self.rows(),
            j as int,
        ) == self.column_seq(j) by {
            assert(column_of(self.rows(), j as int) =~= self.column_seq(j));
        }
    }

    /// The number of rows.
    pub fn nrows(&self) -> (nrows: usize)
        ensures
            nrows == self.dims()[0],
    {
        self.a.storage.dimensions()[0]
    }

    /// The number of columns.
    pub fn ncols(&self) -> (ncols: usize)
        ensures
            ncols == self.dims()[1],
    {
        self.a.storage.dimensions()[1]
    }
}

impl<'a, A, O: Ownership, L: MemoryLayout> ArrayBase<NDStorage<'a, A, O, L, 2>, Ix2> {
    /// Copies the elements into one vector for each row.
    pub fn to_nested(&self) -> (rows: Vec<Vec<A>>) where A: Copy
        requires
            self.wf(),
        ensures
            rows@.len() == self.dims()[0],
            forall|i: usize| i < self.dims()[0] ==> (#[trigger] rows@[i as int])@ == self.row_seq(i),
    {
        let nrows = self.nrows();
        let ncols = self.ncols();
        let mut rows: Vec<Vec<A>> = Vec::new();
        let mut i: usize = 0;
        while i < nrows
            invariant
                i <= nrows,
                self.wf(),
                nrows == self.dims()[0],
                ncols == self.dims()[1],
                rows@.len() == i,
                forall|r: usize| r < i ==> (#[trigger] rows@[r as int])@ == self.row_seq(r),
            decreases nrows - i,
        {
            let mut row: Vec<A> = Vec::new();
            let mut j: usize = 0;
            while j < ncols
                invariant
                    j <= ncols,
                    i < nrows,
                    self.wf(),
                    nrows == self.dims()[0],
                    ncols == self.dims()[1],
                    row@ == self.row_seq(i).take(j as int),
                decreases ncols - j,
            {
                let index = [i, j];
                assert(index@ == index2(i, j));
                row.push(self.get(index));
                j += 1;
            }
            assert(self.row_seq(i).take(ncols as int) == self.row_seq(i));
            rows.push(row);
            i += 1;
        }
        rows
    }
}

impl<A> Array1<A> {
    /// An owned vector that takes over `values` as its buffer.
    pub fn from_vec(values: Vec<A>) -> (array: Self)
        ensures
            array.wf(),
            array.dims() == seq![values@.len() as usize],
            array.elements() == values@,
    {
        let shape = [values.len()];
        proof {
            lemma_linear_index_of_one(RowMajor::layout_type(), shape@, index1(0));
        }
        ArrayBase::from_shape_vec(shape, values).unwrap()
    }
}

/// The transpose of a matrix, as a window onto the same elements. The
/// window has the layout `L`, the mirror image of the layout of the matrix.
pub trait Transpose<A, L: MemoryLayout> {
    /// What `t` asks of the matrix.
    spec fn t_requires(&self) -> bool;

    /// What `t` answers.
    spec fn t_ensures(&self, transpose: &NDArrayBase<'_, A, crate::ownership::View, L, 2>) -> bool;

    /// The transpose of `self`. It borrows from `self` and cannot outlive it.
    fn t(&self) -> (transpose: NDArrayBase<'_, A, crate::ownership::View, L, 2>)
        requires
            self.t_requires(),
        ensures
            self.t_ensures(&transpose),
    ;
}

impl<'a, A, O: Ownership> Transpose<A, ColumnMajor> for NDArrayBase<'a, A, O, RowMajor, 2> {
    open spec fn t_requires(&self) -> bool {
        self.wf()
    }

    /// The transpose has the columns of `self` as its rows.
    open spec fn t_ensures(
        &self,
        transpose: &NDArrayBase<'_, A, crate::ownership::View, ColumnMajor, 2>,
    ) -> bool {
        &&& transpose.wf()
        &&& transpose.dims() == seq![self.dims()[1], self.dims()[0]]
        &&& transpose.rows() == transpose_spec(self.rows(), self.dims()[1] as int)
    }

    fn t(&self) -> (transpose: NDArrayBase<'_, A, crate::ownership::View, ColumnMajor, 2>) {
        let transpose = ArrayBase::new(Array { storage: self.a.storage.transposed() });
        proof {
            self.lemma_rows();
            transpose.lemma_rows();
            let expected = transpose_spec(self.rows(), self.dims()[1] as int);
            assert forall|j: int| 0 <= j < self.dims()[1] implies transpose.rows()[j]
                =~= expected[j] by {
                assert forall|i: int| 0 <= i < self.dims()[0] implies transpose.rows()[j][i]
                    == expected[j][i] by {
                    let (row, column) = (i as usize, j as usize);
                    assert(transpose.at(index2(column, row)) == self.at(index2(row, column)));
                }
            }
            assert(transpose.rows() =~= expected);
        }
        transpose
    }
}

impl<'a, A, O: Ownership> Transpose<A, RowMajor> for NDArrayBase<'a, A, O, ColumnMajor, 2> {
    open spec fn t_requires(&self) -> bool {
        self.wf()
    }

    /// The transpose has the columns of `self` as its rows.
    open spec fn t_ensures(
        &self,
        transpose: &NDArrayBase<'_, A, crate::ownership::View, RowMajor, 2>,
    ) -> bool {
        &&& transpose.wf()
        &&& transpose.dims() == seq![self.dims()[1], self.dims()[0]]
        &&& transpose.rows() == transpose_spec(self.rows(), self.dims()[1] as int)
    }

    fn t(&self) -> (transpose: NDArrayBase<'_, A, crate::ownership::View, RowMajor, 2>) {
        let transpose = ArrayBase::new(Array { storage: self.a.storage.transposed() });
        proof {
            self.lemma_rows();
            transpose.lemma_rows();
            let expected = transpose_spec(self.rows(), self.dims()[1] as int);
            assert forall|j: int| 0 <= j < self.dims()[1] implies transpose.rows()[j]
                =~= expected[j] by {
                assert forall|i: int| 0 <= i < self.dims()[0] implies transpose.rows()[j][i]
                    == expected[j][i] by {
                    let (row, column) = (i as usize, j as usize);
                    assert(transpose.at(index2(column, row)) == self.at(index2(row, column)));
                }
            }
            assert(transpose.rows() =~= expected);
        }
        transpose
    }
}

impl<'a, A, O: Ownership> ArrayBase<NDStorage<'a, A, O, RowMajor, 2>, Ix2> {
    /// Row `index`, as a vector that borrows the elements of `self`.
    pub fn row<'b>(&'b self, index: Ix) -> (row: ArrayView1<'b, A>)
        requires
            self.wf(),
            index < self.dims()[0],
        ensures
            row.wf(),
            row.dims() == seq![self.dims()[1]],
            row.elements() == self.row_seq(index),
    {
        let row = ArrayBase::new(Array { storage: self.a.storage.row(index) });
        proof {
            assert forall|k: int| 0 <= k < self.dims()[1] implies row.elements()[k]
                == self.row_seq(index)[k] by {
                let j = k as usize;
                assert(row.elements()[j as int] == self.at(index2(index, j)));
            }
            crate::layout::lemma_linear_index_of_one(
                RowMajor::layout_type(),
                row.dims(),
                index1(0),
            );
            assert(row.elements() =~= self.row_seq(index));
        }
        row
    }
}

impl<A, L: MemoryLayout, const N: usize> ArrayBase<NDStorage<'static, A, Owning, L, N>, [usize; N]> {
    /// Replaces the elements by copies of those of `rhs`, which has the
    /// same extents and the same layout.
    pub fn assign<'b, O2: Ownership>(&mut self, rhs: &NDArrayBase<'b, A, O2, L, N>) where A: Copy
        requires
            old(self).wf(),
            rhs.wf(),
            rhs.dims() == old(self).dims(),
        ensures
            final(self).wf(),
            final(self).dims() == old(self).dims(),
            final(self).elements() == rhs.elements(),
    {
        self.a.storage.assign(&rhs.a.storage);
    }
}

impl<A, L: MemoryLayout> ArrayBase<NDStorage<'static, A, Owning, L, 2>, Ix2> {
    /// Overwrites the element in row `i` and column `j`; every other
    /// element stays as it is.
    pub fn set_at(&mut self, i: Ix, j: Ix, value: A) where A: Copy
        requires
            old(self).wf(),
            i < old(self).dims()[0],
            j < old(self).dims()[1],
        ensures
            final(self).wf(),
            final(self).dims() == old(self).dims(),
            final(self).at(index2(i, j)) == value,
            forall|r: usize, c: usize|
                r < old(self).dims()[0] && c < old(self).dims()[1] && (r != i || c != j)
                    ==> #[trigger] final(self).at(index2(r, c)) == old(self).at(index2(r, c)),
    {
        let index = [i, j];
        assert(index@ == index2(i, j));
        proof {
            crate::layout::lemma_linear_index_in_bounds(
                L::layout_type(),
                self.dims(),
                index2(i, j),
            );
            assert forall|r: usize, c: usize|
                r < self.dims()[0] && c < self.dims()[1] && (r != i || c != j) implies linear_index(
                L::layout_type(),
                self.dims(),
                index2(r, c),
            ) != linear_index(L::layout_type(), self.dims(), index2(i, j)) by {
                if linear_index(L::layout_type(), self.dims(), index2(r, c)) == linear_index(
                    L::layout_type(),
                    self.dims(),
                    index2(i, j),
                ) {
                    crate::layout::lemma_linear_index_injective(
                        L::layout_type(),
                        self.dims(),
                        index2(r, c),
                        index2(i, j),
                    );
                    assert(index2(r, c)[0] == index2(i, j)[0]);
                    assert(index2(r, c)[1] == index2(i, j)[1]);
                }
            }
        }
        let ghost before = *self;
        self.a.storage.set(index, value);
        proof {
            assert forall|r: usize, c: usize|
                r < before.dims()[0] && c < before.dims()[1] && (r != i || c != j) implies 
                #[trigger] self.at(index2(r, c)) == before.at(index2(r, c)) by {
                crate::layout::lemma_linear_index_in_bounds(
                    L::layout_type(),
                    before.dims(),
                    index2(r, c),
                );
                assert(linear_index(L::layout_type(), before.dims(), index2(r, c)) != linear_index(
                    L::layout_type(),
                    before.dims(),
                    index2(i, j),
                ));
            }
        }
    }
}

impl<A, L: MemoryLayout> ArrayBase<NDStorage<'static, A, Owning, L, 2>, Ix2> {
    /// Overwrites column `j` with `values`, one for each row from the first
    /// to the last; every other column stays as it is.
    pub fn set_column(&mut self, j: Ix, values: &[A]) where A: Copy
        requires
            old(self).wf(),
            j < old(self).dims()[1],
            values@.len() == old(self).dims()[0],
        ensures
            final(self).wf(),
            final(self).dims() == old(self).dims(),
            final(self).column_seq(j) == values@,
            forall|r: usize, c: usize|
                r < old(self).dims()[0] && c < old(self).dims()[1] && c != j
                    ==> #[trigger] final(self).at(index2(r, c)) == old(self).at(index2(r, c)),
    {
        let rows = self.nrows();
        let mut i: usize = 0;
        while i < rows
            invariant
                i <= rows,
                self.wf(),
                self.dims() == old(self).dims(),
                rows == self.dims()[0],
                j < self.dims()[1],
                values@.len() == rows,
                forall|r: usize| r < i ==> #[trigger] self.at(index2(r, j)) == values@[r as int],
                forall|r: usize, c: usize|
                    r < old(self).dims()[0] && c < old(self).dims()[1] && c != j
                        ==> #[trigger] self.at(index2(r, c)) == old(self).at(index2(r, c)),
            decreases rows - i,
        {
            self.set_at(i, j, values[i]);
            i += 1;
        }
        assert(self.column_seq(j) =~= values@);
    }

    /// Overwrites row `i` with `values`, one for each column from the first
    /// to the last; every other row stays as it is.
    pub fn set_row(&mut self, i: Ix, values: &[A]) where A: Copy
        requires
            old(self).wf(),
            i < old(self).dims()[0],
            values@.len() == old(self).dims()[1],
        ensures
            final(self).wf(),
            final(self).dims() == old(self).dims(),
            final(self).row_seq(i) == values@,
            forall|r: usize, c: usize|
                r < old(self).dims()[0] && c < old(self).dims()[1] && r != i
                    ==> #[trigger] final(self).at(index2(r, c)) == old(self).at(index2(r, c)),
    {
        let columns = self.ncols();
        let mut j: usize = 0;
        while j < columns
            invariant
                j <= columns,
                self.wf(),
                self.dims() == old(self).dims(),
                columns == self.dims()[1],
                i < self.dims()[0],
                values@.len() == columns,
                forall|c: usize| c < j ==> #[trigger] self.at(index2(i, c)) == values@[c as int],
                forall|r: usize, c: usize|
                    r < old(self).dims()[0] && c < old(self).dims()[1] && r != i
                        ==> #[trigger] self.at(index2(r, c)) == old(self).at(index2(r, c)),
            decreases columns - j,
        {
            self.set_at(i, j, values[j]);
            j += 1;
        }
        assert(self.row_seq(i) =~= values@);
    }
}

impl<A> ArrayBase<NDStorage<'static, A, Owning, RowMajor, 2>, Ix2> {
    /// Appends a row. The row must be as long as the matrix has columns; the
    /// matrix then has one row more, its old elements where they were and
    /// the new row behind them. A matrix that is refused a row is left as it
    /// was.
    pub fn push_row(&mut self, row: ArrayView1<'_, A>) -> (result: Result<(), LinalgError>) where
        A: Copy,

        requires
            old(self).wf(),
        ensures
            final(self).wf(),
            result == push_row_result(old(self).dims(), row.elements().len()),
            result is Ok ==> final(self).dims() == seq![
                (old(self).dims()[0] + 1) as usize,
                old(self).dims()[1],
            ] && final(self).elements() == old(self).elements() + row.elements(),
            result is Err ==> final(self).dims() == old(self).dims() && final(self).elements()
                == old(self).elements(),
    {
        self.a.storage.push_row(row.to_vec())
    }
}

impl<'a, A: Copy, O: Ownership, L: MemoryLayout, const N: usize> Clone for ArrayBase<
    NDStorage<'a, A, O, L, N>,
    [usize; N],
> {
    /// An owned array is copied into a buffer of its own; an array that
    /// borrows its elements is copied as one that borrows the same elements.
    fn clone(&self) -> (copy: Self)
        ensures
            copy.dims() == self.dims(),
            copy.elements() == self.elements(),
            self.wf() ==> copy.wf(),
    {
        ArrayBase::new(Array { storage: self.a.storage.clone() })
    }
}

} // verus!
