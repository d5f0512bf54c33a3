use vstd::prelude::*;
use vstd::std_specs::ops::AddSpec;
use crate::error::LinalgError;
use crate::layout::in_bounds;
use crate::layout::product;
use crate::layout::MemoryLayout;
use crate::layout::RowMajor;
use crate::ndstorage::push_row_result;
use crate::ndstorage::NDStorage;
use crate::ownership::Ownership;
use crate::ownership::Owning;
use crate::scalar::is_additive_identity;

verus! {

/// What an `Array` keeps its elements in.
pub trait Storage {
    /// The type of the elements.
    type Elem;
}

impl<'a, A, O: Ownership, L: MemoryLayout, const N: usize> Storage for NDStorage<'a, A, O, L, N> {
    type Elem = A;
}

/// An array: a storage, and the operations on it.
pub struct Array<S: Storage> {
    pub storage: S,
}

/// A store that owns its buffer.
pub type NDOwnedStorage<A, L, const N: usize> = NDStorage<'static, A, Owning, L, N>;

/// A store that borrows its buffer.
pub type NDViewStorage<'a, A, L, const N: usize> = NDStorage<'a, A, crate::ownership::View, L, N>;

/// An N-dimensional array that owns its buffer.
pub type NDArray<A, L, const N: usize> = Array<NDOwnedStorage<A, L, N>>;

/// An N-dimensional array that borrows its buffer.
pub type NDArrayView<'a, A, L, const N: usize> = Array<NDViewStorage<'a, A, L, N>>;

/// An owned row-major vector.
pub type NDArray1<A> = Array<NDOwnedStorage<A, RowMajor, 1>>;

/// An owned row-major matrix.
pub type NDArray2<A> = Array<NDOwnedStorage<A, RowMajor, 2>>;

/// A borrowed row-major vector.
pub type NDArrayView1<'a, A> = Array<NDViewStorage<'a, A, RowMajor, 1>>;

/// A borrowed row-major matrix.
pub type NDArrayView2<'a, A> = Array<NDViewStorage<'a, A, RowMajor, 2>>;

impl<A, L: MemoryLayout, const N: usize> NDArray<A, L, N> {
    /// An owned array with the given extents, every element the additive
    /// identity of `A`.
    pub fn zeros(dimensions: [usize; N]) -> (array: Self) where
        A: Copy + num_traits::Zero + core::ops::Add<Output = A>,

        requires
            product(dimensions@) <= usize::MAX,
        ensures
            array.storage.wf(),
            array.storage.dims() == dimensions@,
            forall|i: int, j: int|
                0 <= i < array.storage.elements().len() && 0 <= j < array.storage.elements().len()
                    ==> array.storage.elements()[i] == array.storage.elements()[j],
            A::obeys_add_spec() ==> forall|i: int|
                0 <= i < array.storage.elements().len() ==> is_additive_identity(
                    #[trigger] array.storage.elements()[i],
                ),
    {
        Array { storage: NDStorage::zeros(dimensions) }
    }

    /// An owned array with the given extents, every element a copy of `initial`.
    pub fn new(dimensions: [usize; N], initial: A) -> (array: Self) where A: Copy
        requires
            product(dimensions@) <= usize::MAX,
        ensures
            array.storage.wf(),
            array.storage.dims() == dimensions@,
            array.storage.elements() == Seq::new(product(dimensions@), |i: int| initial),
    {
        Array { storage: NDStorage::filled(dimensions, initial) }
    }

    /// An owned array that takes over `values` as its buffer. Fails if the
    /// number of values is not the product of the extents.
    pub fn from_vec(values: Vec<A>, dimensions: [usize; N]) -> (result: Result<Self, LinalgError>)
        where A: Copy
        ensures
            result is Err <==> values@.len() != product(dimensions@),
            result matches Err(error) ==> error == LinalgError::DimensionMismatch,
            result matches Ok(array) ==> array.storage.wf() && array.storage.dims() == dimensions@
                && array.storage.elements() == values@,
    {
        match NDStorage::from_vec(values, dimensions) {
            Ok(storage) => Ok(Array { storage }),
            Err(error) => Err(error),
        }
    }
}

impl<'a, A, O: Ownership, L: MemoryLayout, const N: usize> Array<NDStorage<'a, A, O, L, N>> {
    /// Reads the element at `indices`, each of which must lie below the
    /// extent of its axis.
    pub fn get_element(&self, indices: [usize; N]) -> (value: A) where A: Copy
        requires
            self.storage.wf(),
            in_bounds(indices@, self.storage.dims()),
        ensures
            value == self.storage.at(indices@),
    {
        self.storage.get(indices)
    }

    /// Reads the element at `indices`, or returns `None` if an index lies
    /// outside its axis.
    pub fn get_element_checked(&self, indices: [usize; N]) -> (value: Option<A>) where A: Copy
        requires
            self.storage.wf(),
        ensures
            value == if in_bounds(indices@, self.storage.dims()) {
                Some(self.storage.at(indices@))
            } else {
                None
            },
    {
        self.storage.get_checked(indices)
    }

    /// An array that borrows the buffer of `self`, with the same extents and
    /// strides. It cannot outlive `self`.
    pub fn view<'b>(&'b self) -> (window: NDArrayView<'b, A, L, N>)
        requires
            self.storage.wf(),
        ensures
            window.storage.wf(),
            window.storage.dims() == self.storage.dims(),
            window.storage.steps() == self.storage.steps(),
            window.storage.elements() == self.storage.elements(),
    {
        Array { storage: self.storage.view() }
    }
}

impl<A> NDArray2<A> {
    /// Appends a row. The row must be as long as the array has columns; the
    /// array then has one row more, its old elements where they were and the
    /// new row behind them. An array that is refused a row is left as it was.
    pub fn push_row(&mut self, row: Vec<A>) -> (result: Result<(), LinalgError>) where A: Copy
        requires
            old(self).storage.wf(),
        ensures
            final(self).storage.wf(),
            result == push_row_result(old(self).storage.dims(), row@.len()),
            result is Ok ==> final(self).storage.dims() == seq![
                (old(self).storage.dims()[0] + 1) as usize,
                old(self).storage.dims()[1],
            ] && final(self).storage.elements() == old(self).storage.elements() + row@,
            result is Err ==> final(self).storage.dims() == old(self).storage.dims()
                && final(self).storage.steps() == old(self).storage.steps()
                && final(self).storage.elements() == old(self).storage.elements(),
    {
        self.storage.push_row(row)
    }

    /// The number of rows.
    pub fn nrows(&self) -> (nrows: usize)
        ensures
            nrows == self.storage.dims()[0],
    {
        self.storage.nrows()
    }

    /// The number of columns.
    pub fn ncols(&self) -> (ncols: usize)
        ensures
            ncols == self.storage.dims()[1],
    {
        self.storage.ncols()
    }
}

impl<S: Storage + Clone> Clone for Array<S> {
    fn clone(&self) -> (copy: Self)
        ensures
            call_ensures(S::clone, (&self.storage,), copy.storage),
    {
        Array { storage: self.storage.clone() }
    }
}

} // verus!
