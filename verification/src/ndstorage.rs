use vstd::prelude::*;
use vstd::std_specs::ops::AddSpec;
use core::marker::PhantomData;
use crate::data::Data;
use crate::error::LinalgError;
use crate::layout::all_positive;
use crate::layout::checked_product;
use crate::layout::in_bounds;
use crate::layout::index2;
use crate::layout::is_strides_of;
use crate::layout::lemma_linear_index_in_bounds;
use crate::layout::lemma_linear_index_of_two;
use crate::layout::lemma_product_of_two;
use crate::layout::lemma_linear_index_prefix;
use crate::layout::lemma_strides_exact;
use crate::layout::linear_index;
use crate::layout::linear_index_upto;
use crate::layout::product;
use crate::layout::product_range;
use crate::layout::stride;
use crate::layout::ColumnMajor;
use crate::layout::MemoryLayout;
use crate::layout::RowMajor;
use crate::ownership::Ownership;
use crate::ownership::Owning;
use crate::scalar::is_additive_identity;

verus! {

/// A strided N-dimensional store: a buffer, the extents of its axes, and the
/// strides that the layout `L` derives from them.
pub struct NDStorage<'a, A, O: Ownership, L: MemoryLayout, const N: usize> {
    data: Data<'a, A, O>,
    dimensions: [usize; N],
    strides: [usize; N],
    layout: PhantomData<L>,
}

impl<'a, A, O: Ownership, L: MemoryLayout, const N: usize> NDStorage<'a, A, O, L, N> {
    /// The extent of each axis.
    pub closed spec fn dims(&self) -> Seq<usize> {
        self.dimensions@
    }

    /// The stride of each axis, as stored.
    pub closed spec fn steps(&self) -> Seq<usize> {
        self.strides@
    }

    /// The elements, in buffer order.
    pub closed spec fn elements(&self) -> Seq<A> {
        self.data@
    }

    /// The buffer agrees with the ownership tag.
    pub closed spec fn buffer_wf(&self) -> bool {
        self.data.wf()
    }

    /// The buffer holds one element for each index, and the strides are those
    /// of the layout.
    pub open spec fn wf(&self) -> bool {
        &&& self.buffer_wf()
        &&& self.dims().len() == N
        &&& self.elements().len() == product(self.dims())
        &&& is_strides_of(L::layout_type(), self.dims(), self.steps())
    }

    /// The element at `indices`.
    pub open spec fn at(&self, indices: Seq<usize>) -> A {
        self.elements()[linear_index(L::layout_type(), self.dims(), indices) as int]
    }

    /// The stride of each axis.
    pub fn strides(&self) -> (strides: &[usize; N])
        ensures
            strides@ == self.steps(),
    {
        &self.strides
    }

    /// The extent of each axis.
    pub fn dimensions(&self) -> (dimensions: &[usize; N])
        ensures
            dimensions@ == self.dims(),
    {
        &self.dimensions
    }

    /// The number of elements.
    pub fn len(&self) -> (len: usize)
        ensures
            len == self.elements().len(),
    {
        self.data.len()
    }

    /// The buffer slot of the element at `indices`: the sum of each index
    /// times the stride of its axis.
    pub fn offset(&self, indices: &[usize; N]) -> (offset: usize)
        requires
            self.wf(),
            in_bounds(indices@, self.dims()),
        ensures
            offset == linear_index(L::layout_type(), self.dims(), indices@),
            offset < self.elements().len(),
    {
        let len = self.data.len();
        proof {
            assert(all_positive(self.dims())) by {
                assert forall|i: int| 0 <= i < self.dims().len() implies #[trigger] self.dims()[i]
                    > 0 by {
                    assert(indices@[i] < self.dims()[i]);
                }
            }
            lemma_strides_exact(L::layout_type(), self.dims(), self.steps());
            lemma_linear_index_in_bounds(L::layout_type(), self.dims(), indices@);
        }
        let mut offset: usize = 0;
        let mut i: usize = 0;
        while i < N
            invariant
                i <= N,
                self.dims().len() == N,
                self.steps() == self.strides@,
                offset == linear_index_upto(L::layout_type(), self.dims(), indices@, i as int),
                forall|k: int|
                    0 <= k < N ==> #[trigger] self.steps()[k] as nat == stride(
                        L::layout_type(),
                        self.dims(),
                        k,
                    ),
                linear_index(L::layout_type(), self.dims(), indices@) < len,
            decreases N - i,
        {
            proof {
                lemma_linear_index_prefix(
                    L::layout_type(),
                    self.dims(),
                    indices@,
                    i + 1,
                    N as int,
                );
                assert(self.steps()[i as int] as nat == stride(
                    L::layout_type(),
                    self.dims(),
                    i as int,
                ));
            }
            offset = offset + indices[i] * self.strides[i];
            i += 1;
        }
        offset
    }

    /// Reads the element at `indices`, each of which must lie below the
    /// extent of its axis.
    pub fn get(&self, indices: [usize; N]) -> (value: A) where A: Copy
        requires
            self.wf(),
            in_bounds(indices@, self.dims()),
        ensures
            value == self.at(indices@),
    {
        let offset = self.offset(&indices);
        self.data.get(offset)
    }

    /// Reads the element at `indices`, or returns `None` if an index lies
    /// outside its axis.
    pub fn get_checked(&self, indices: [usize; N]) -> (value: Option<A>) where A: Copy
        requires
            self.wf(),
        ensures
            value == if in_bounds(indices@, self.dims()) {
                Some(self.at(indices@))
            } else {
                None
            },
    {
        let mut i: usize = 0;
        while i < N
            invariant
                i <= N,
                self.dims().len() == N,
                self.dims() == self.dimensions@,
                forall|k: int| 0 <= k < i ==> #[trigger] indices@[k] < self.dims()[k],
            decreases N - i,
        {
            if indices[i] >= self.dimensions[i] {
                return None;
            }
            i += 1;
        }
        Some(self.get(indices))
    }

    /// A store that borrows the buffer of `self`, with the same extents and
    /// strides. It cannot outlive `self`.
    pub fn view<'b>(&'b self) -> (window: NDStorage<'b, A, crate::ownership::View, L, N>)
        requires
            self.wf(),
        ensures
            window.wf(),
            window.dims() == self.dims(),
            window.steps() == self.steps(),
            window.elements() == self.elements(),
    {
        NDStorage {
            data: self.data.as_view(),
            dimensions: self.dimensions,
            strides: self.strides,
            layout: PhantomData,
        }
    }

    /// Copies the elements into a vector, in buffer order.
    pub fn to_vec(&self) -> (values: Vec<A>) where A: Copy
        ensures
            values@ == self.elements(),
    {
        self.data.to_vec()
    }
}

impl<A, L: MemoryLayout, const N: usize> NDStorage<'static, A, Owning, L, N> {
    /// An owned store with the given extents, every element the additive
    /// identity of `A`.
    pub fn zeros(dimensions: [usize; N]) -> (storage: Self) where
        A: Copy + num_traits::Zero + core::ops::Add<Output = A>,

        requires
            product(dimensions@) <= usize::MAX,
        ensures
            storage.wf(),
            storage.dims() == dimensions@,
            forall|i: int, j: int|
                0 <= i < storage.elements().len() && 0 <= j < storage.elements().len()
                    ==> storage.elements()[i] == storage.elements()[j],
            A::obeys_add_spec() ==> forall|i: int|
                0 <= i < storage.elements().len() ==> is_additive_identity(
                    #[trigger] storage.elements()[i],
                ),
    {
        let total = checked_product(&dimensions).unwrap();
        NDStorage {
            data: Data::zeros(total),
            dimensions,
            strides: L::calculate_strides(dimensions),
            layout: PhantomData,
        }
    }

    /// An owned store with the given extents, every element a copy of `value`.
    pub fn filled(dimensions: [usize; N], value: A) -> (storage: Self) where A: Copy
        requires
            product(dimensions@) <= usize::MAX,
        ensures
            storage.wf(),
            storage.dims() == dimensions@,
            storage.elements() == Seq::new(product(dimensions@), |i: int| value),
    {
        let total = checked_product(&dimensions).unwrap();
        NDStorage {
            data: Data::filled(total, value),
            dimensions,
            strides: L::calculate_strides(dimensions),
            layout: PhantomData,
        }
    }

    /// An owned store that takes over `values` as its buffer. Fails if the
    /// number of values is not the product of the extents.
    pub fn from_vec(values: Vec<A>, dimensions: [usize; N]) -> (result: Result<Self, LinalgError>)
        ensures
            result is Err <==> values@.len() != product(dimensions@),
            result matches Err(error) ==> error == LinalgError::DimensionMismatch,
            result matches Ok(storage) ==> storage.wf() && storage.dims() == dimensions@
                && storage.elements() == values@,
    {
        let count = values.len();
        match checked_product(&dimensions) {
            Some(total) => {
                if count != total {
                    return Err(LinalgError::DimensionMismatch);
                }
            },
            None => {
                return Err(LinalgError::DimensionMismatch);
            },
        }
        Ok(
            NDStorage {
                data: Data::from_vec(values),
                dimensions,
                strides: L::calculate_strides(dimensions),
                layout: PhantomData,
            },
        )
    }

    /// Gives the store new extents over the same buffer, and the strides
    /// that go with them.
    pub fn update_dimensions(&mut self, new_dimensions: [usize; N])
        requires
            old(self).wf(),
            product(new_dimensions@) == old(self).elements().len(),
        ensures
            final(self).wf(),
            final(self).dims() == new_dimensions@,
            final(self).elements() == old(self).elements(),
    {
        self.dimensions = new_dimensions;
        self.strides = L::calculate_strides(new_dimensions);
    }

    /// Replaces the elements by copies of those of `rhs`, which has the
    /// same extents and the same layout.
    pub fn assign<'b, O2: Ownership>(&mut self, rhs: &NDStorage<'b, A, O2, L, N>) where A: Copy
        requires
            old(self).wf(),
            rhs.wf(),
            rhs.dims() == old(self).dims(),
        ensures
            final(self).wf(),
            final(self).dims() == old(self).dims(),
            final(self).steps() == old(self).steps(),
            final(self).elements() == rhs.elements(),
    {
        self.data = Data::from_vec(rhs.to_vec());
    }

    /// Overwrites the element at `indices`.
    pub fn set(&mut self, indices: [usize; N], value: A) where A: Copy
        requires
            old(self).wf(),
            in_bounds(indices@, old(self).dims()),
        ensures
            final(self).wf(),
            final(self).dims() == old(self).dims(),
            final(self).steps() == old(self).steps(),
            final(self).elements() == old(self).elements().update(
                linear_index(L::layout_type(), old(self).dims(), indices@) as int,
                value,
            ),
    {
        let offset = self.offset(&indices);
        self.data.set(offset, value);
    }
}

/// What `push_row` answers for a store with the given extents and a row of
/// the given length.
pub open spec fn push_row_result(dimensions: Seq<usize>, row_len: nat) -> Result<(), LinalgError> {
    if row_len != dimensions[1] {
        Err(LinalgError::DimensionMismatch)
    } else if dimensions[0] == usize::MAX || (dimensions[0] + 1) * dimensions[1] > usize::MAX {
        Err(LinalgError::AllocationError)
    } else {
        Ok(())
    }
}

impl<'a, A, O: Ownership> NDStorage<'a, A, O, RowMajor, 2> {
    /// The number of rows: the extent of the first axis.
    pub fn nrows(&self) -> (nrows: usize)
        ensures
            nrows == self.dims()[0],
    {
        self.dimensions[0]
    }

    /// The number of columns: the extent of the second axis.
    pub fn ncols(&self) -> (ncols: usize)
        ensures
            ncols == self.dims()[1],
    {
        self.dimensions[1]
    }

    /// A one-dimensional window onto row `index`, whose elements lie next to
    /// each other in the buffer.
    pub fn row<'b>(&'b self, index: usize) -> (row: NDStorage<
        'b,
        A,
        crate::ownership::View,
        RowMajor,
        1,
    >)
        requires
            self.wf(),
            index < self.dims()[0],
        ensures
            row.wf(),
            row.dims() == seq![self.dims()[1]],
            row.elements() == self.elements().subrange(
                index * self.dims()[1],
                index * self.dims()[1] + self.dims()[1],
            ),
            forall|j: usize|
                j < self.dims()[1] ==> #[trigger] row.elements()[j as int] == self.at(
                    index2(index, j),
                ),
    {
        let ncols = self.dimensions[1];
        let len = self.data.len();
        proof {
            lemma_product_of_two(self.dims());
            let rows = self.dims()[0] as int;
            let n = ncols as int;
            let i = index as int;
            assert(i * n + n <= rows * n) by (nonlinear_arith)
                requires
                    0 <= i < rows,
                    0 <= n,
            ;
        }
        let from = index * ncols;
        let dimensions = [ncols];
        proof {
            assert(product_range(dimensions@, 0, 0) == 1);
            assert(product(dimensions@) == 1 * dimensions@[1 - 1] as nat);
            assert forall|j: usize| j < self.dims()[1] implies self.elements().subrange(
                from as int,
                from + ncols,
            )[j as int] == #[trigger] self.at(index2(index, j)) by {
                lemma_linear_index_of_two(self.dims(), index2(index, j));
            }
        }
        NDStorage {
            data: self.data.slice(from, from + ncols),
            dimensions,
            strides: RowMajor::calculate_strides(dimensions),
            layout: PhantomData,
        }
    }

    /// The transpose, as a column-major window onto the same buffer: its
    /// element at `[j, i]` is the element of `self` at `[i, j]`.
    pub fn transposed<'b>(&'b self) -> (transpose: NDStorage<
        'b,
        A,
        crate::ownership::View,
        ColumnMajor,
        2,
    >)
        requires
            self.wf(),
        ensures
            transpose.wf(),
            transpose.dims() == seq![self.dims()[1], self.dims()[0]],
            transpose.elements() == self.elements(),
            forall|i: usize, j: usize|
                i < self.dims()[0] && j < self.dims()[1] ==> #[trigger] transpose.at(index2(j, i))
                    == self.at(index2(i, j)),
    {
        let dimensions = [self.dimensions[1], self.dimensions[0]];
        proof {
            lemma_product_of_two(self.dims());
            lemma_product_of_two(dimensions@);
            let rows = self.dims()[0] as int;
            let columns = self.dims()[1] as int;
            assert(rows * columns == columns * rows) by (nonlinear_arith);
            assert forall|i: usize, j: usize| i < self.dims()[0] && j < self.dims()[1] implies 
                linear_index(crate::layout::LayoutType::ColumnMajor, dimensions@, index2(j, i))
                == linear_index(crate::layout::LayoutType::RowMajor, self.dims(), index2(i, j)) by {
                lemma_linear_index_of_two(dimensions@, index2(j, i));
                lemma_linear_index_of_two(self.dims(), index2(i, j));
            }
        }
        NDStorage {
            data: self.data.as_view(),
            dimensions,
            strides: ColumnMajor::calculate_strides(dimensions),
            layout: PhantomData,
        }
    }
}

impl<'a, A, O: Ownership> NDStorage<'a, A, O, ColumnMajor, 2> {
    /// The extent of the second axis.
    pub fn nrows(&self) -> (nrows: usize)
        ensures
            nrows == self.dims()[1],
    {
        self.dimensions[1]
    }

    /// The extent of the first axis.
    pub fn ncols(&self) -> (ncols: usize)
        ensures
            ncols == self.dims()[0],
    {
        self.dimensions[0]
    }

    /// The transpose, as a row-major window onto the same buffer: its
    /// element at `[j, i]` is the element of `self` at `[i, j]`.
    pub fn transposed<'b>(&'b self) -> (transpose: NDStorage<
        'b,
        A,
        crate::ownership::View,
        RowMajor,
        2,
    >)
        requires
            self.wf(),
        ensures
            transpose.wf(),
            transpose.dims() == seq![self.dims()[1], self.dims()[0]],
            transpose.elements() == self.elements(),
            forall|i: usize, j: usize|
                i < self.dims()[0] && j < self.dims()[1] ==> #[trigger] transpose.at(index2(j, i))
                    == self.at(index2(i, j)),
    {
        let dimensions = [self.dimensions[1], self.dimensions[0]];
        proof {
            lemma_product_of_two(self.dims());
            lemma_product_of_two(dimensions@);
            let rows = self.dims()[0] as int;
            let columns = self.dims()[1] as int;
            assert(rows * columns == columns * rows) by (nonlinear_arith);
            assert forall|i: usize, j: usize| i < self.dims()[0] && j < self.dims()[1] implies 
                linear_index(crate::layout::LayoutType::RowMajor, dimensions@, index2(j, i))
                == linear_index(crate::layout::LayoutType::ColumnMajor, self.dims(), index2(i, j)) by {
                lemma_linear_index_of_two(dimensions@, index2(j, i));
                lemma_linear_index_of_two(self.dims(), index2(i, j));
            }
        }
        NDStorage {
            data: self.data.as_view(),
            dimensions,
            strides: RowMajor::calculate_strides(dimensions),
            layout: PhantomData,
        }
    }
}

impl<A> NDStorage<'static, A, Owning, RowMajor, 2> {
    /// Appends a row. The row must be as long as the store has columns; the
    /// store then has one row more, its old elements where they were and the
    /// new row behind them. A store that is refused a row is left as it was.
    pub fn push_row(&mut self, row: Vec<A>) -> (result: Result<(), LinalgError>) where A: Copy
        requires
            old(self).wf(),
        ensures
            final(self).wf(),
            result == push_row_result(old(self).dims(), row@.len()),
            result is Ok ==> final(self).dims() == seq![
                (old(self).dims()[0] + 1) as usize,
                old(self).dims()[1],
            ] && final(self).elements() == old(self).elements() + row@,
            result is Err ==> final(self).dims() == old(self).dims()
                && final(self).steps() == old(self).steps()
                && final(self).elements() == old(self).elements(),
    {
        let n_rows = self.dimensions[0];
        let n_cols = self.dimensions[1];
        if row.len() != n_cols {
            return Err(LinalgError::DimensionMismatch);
        }
        if n_rows == usize::MAX {
            return Err(LinalgError::AllocationError);
        }
        proof {
            lemma_product_of_two(self.dims());
            let rows = n_rows as int;
            let columns = n_cols as int;
            assert((rows + 1) * columns == rows * columns + columns) by (nonlinear_arith);
        }
        match self.data.append(row) {
            Ok(()) => {},
            Err(error) => {
                return Err(error);
            },
        }
        let dimensions = [n_rows + 1, n_cols];
        proof {
            lemma_product_of_two(dimensions@);
        }
        self.dimensions = dimensions;
        self.strides = RowMajor::calculate_strides(dimensions);
        Ok(())
    }
}

impl<'a, A, O: Ownership, L: MemoryLayout, const N: usize> NDStorage<'a, A, O, L, N> {
    /// The same buffer under other extents, with the strides that go with
    /// them. Fails if the extents do not multiply to the number of elements.
    pub fn into_shape<const M: usize>(self, shape: [usize; M]) -> (result: Result<
        NDStorage<'a, A, O, L, M>,
        LinalgError,
    >)
        requires
            self.wf(),
        ensures
            result is Err <==> product(shape@) != self.elements().len(),
            result matches Err(error) ==> error == LinalgError::DimensionMismatch,
            result matches Ok(storage) ==> storage.wf() && storage.dims() == shape@
                && storage.elements() == self.elements(),
    {
        let len = self.data.len();
        match checked_product(&shape) {
            Some(total) => {
                if len != total {
                    return Err(LinalgError::DimensionMismatch);
                }
            },
            None => {
                return Err(LinalgError::DimensionMismatch);
            },
        }
        Ok(
            NDStorage {
                data: self.data,
                dimensions: shape,
                strides: L::calculate_strides(shape),
                layout: PhantomData,
            },
        )
    }
}

impl<'a, A: Copy, O: Ownership, L: MemoryLayout, const N: usize> Clone for NDStorage<'a, A, O, L, N> {
    /// An owned store is copied into a buffer of its own; a window is copied
    /// as a window onto the same buffer.
    fn clone(&self) -> (copy: Self)
        ensures
            copy.dims() == self.dims(),
            copy.steps() == self.steps(),
            copy.elements() == self.elements(),
            self.wf() ==> copy.wf(),
    {
        NDStorage {
            data: self.data.clone(),
            dimensions: self.dimensions,
            strides: self.strides,
            layout: PhantomData,
        }
    }
}

} // verus!
