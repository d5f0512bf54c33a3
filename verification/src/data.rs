use vstd::prelude::*;
use vstd::std_specs::ops::AddSpec;
use core::marker::PhantomData;
use crate::error::LinalgError;
use crate::ownership::Ownership;
use crate::ownership::Owning;
use crate::scalar::is_additive_identity;
use crate::scalar::zero_of;

verus! {

enum Buffer<'a, A> {
    Owned(Vec<A>),
    Borrowed(&'a [A]),
}

/// A flat run of elements with an ownership tag: either a buffer of its own,
/// or a window into the buffer of another value.
pub struct Data<'a, A, O: Ownership> {
    buffer: Buffer<'a, A>,
    ownership: PhantomData<O>,
}

impl<'a, A, O: Ownership> View for Data<'a, A, O> {
    type V = Seq<A>;

    /// The elements, in buffer order.
    closed spec fn view(&self) -> Seq<A> {
        match self.buffer {
            Buffer::Owned(values) => values@,
            Buffer::Borrowed(values) => values@,
        }
    }
}

impl<'a, A, O: Ownership> Data<'a, A, O> {
    /// The elements lie in a buffer of this value's own, not in a window
    /// into the buffer of another value.
    pub closed spec fn is_owned(&self) -> bool {
        self.buffer is Owned
    }

    /// The buffer is owned exactly when the tag says so.
    pub open spec fn wf(&self) -> bool {
        O::owns() <==> self.is_owned()
    }

    /// The number of elements.
    pub fn len(&self) -> (len: usize)
        ensures
            len == self@.len(),
    {
        match &self.buffer {
            Buffer::Owned(values) => values.len(),
            Buffer::Borrowed(values) => values.len(),
        }
    }

    /// Reads the element at a linear offset.
    pub fn get(&self, offset: usize) -> (value: A) where A: Copy
        requires
            offset < self@.len(),
        ensures
            value == self@[offset as int],
    {
        match &self.buffer {
            Buffer::Owned(values) => values[offset],
            Buffer::Borrowed(values) => values[offset],
        }
    }

    /// A window onto all the elements. It borrows from `self` and cannot outlive it.
    pub fn as_view<'b>(&'b self) -> (window: Data<'b, A, crate::ownership::View>)
        ensures
            window.wf(),
            window@ == self@,
    {
        self.slice(0, self.len())
    }

    /// A window onto the elements `from..to`.
    pub fn slice<'b>(&'b self, from: usize, to: usize) -> (window: Data<
        'b,
        A,
        crate::ownership::View,
    >)
        requires
            from <= to <= self@.len(),
        ensures
            window.wf(),
            window@ == self@.subrange(from as int, to as int),
    {
        let all: &[A] = match &self.buffer {
            Buffer::Owned(values) => values.as_slice(),
            Buffer::Borrowed(values) => *values,
        };
        Data {
            buffer: Buffer::Borrowed(vstd::slice::slice_subrange(all, from, to)),
            ownership: PhantomData,
        }
    }

    /// Copies the elements into a vector.
    pub fn to_vec(&self) -> (values: Vec<A>) where A: Copy
        ensures
            values@ == self@,
    {
        let mut values: Vec<A> = Vec::new();
        let len = self.len();
        let mut i: usize = 0;
        while i < len
            invariant
                i <= len,
                len == self@.len(),
                values@ == self@.take(i as int),
            decreases len - i,
        {
            values.push(self.get(i));
            i += 1;
        }
        values
    }
}

impl<A> Data<'static, A, Owning> {
    /// Takes over a vector as an owned buffer, without copying.
    pub fn from_vec(values: Vec<A>) -> (data: Self)
        ensures
            data.wf(),
            data@ == values@,
    {
        Data { buffer: Buffer::Owned(values), ownership: PhantomData }
    }

    /// An owned buffer of `len` copies of `value`.
    pub fn filled(len: usize, value: A) -> (data: Self) where A: Copy
        ensures
            data.wf(),
            data@ == Seq::new(len as nat, |i: int| value),
    {
        let mut values: Vec<A> = Vec::new();
        let mut i: usize = 0;
        while i < len
            invariant
                i <= len,
                values@ == Seq::new(i as nat, |k: int| value),
            decreases len - i,
        {
            values.push(value);
            i += 1;
        }
        Data::from_vec(values)
    }

    /// An owned buffer of `len` elements, each the additive identity of `A`.
    pub fn zeros(len: usize) -> (data: Self) where
        A: Copy + num_traits::Zero + core::ops::Add<Output = A>,

        ensures
            data.wf(),
            data@.len() == len,
            forall|i: int, j: int| 0 <= i < len && 0 <= j < len ==> data@[i] == data@[j],
            A::obeys_add_spec() ==> forall|i: int|
                0 <= i < len ==> is_additive_identity(#[trigger] data@[i]),
    {
        Data::filled(len, zero_of::<A>())
    }

    /// Appends `values` to the buffer. The buffer is left as it was if the
    /// new number of elements does not fit a machine word.
    pub fn append(&mut self, values: Vec<A>) -> (result: Result<(), LinalgError>)
        requires
            old(self).wf(),
        ensures
            final(self).wf(),
            result == if old(self)@.len() + values@.len() > usize::MAX {
                Err::<(), LinalgError>(LinalgError::AllocationError)
            } else {
                Ok(())
            },
            result is Ok ==> final(self)@ == old(self)@ + values@,
            result is Err ==> final(self)@ == old(self)@,
    {
        let mut values = values;
        if self.len().checked_add(values.len()).is_none() {
            return Err(LinalgError::AllocationError);
        }
        match &mut self.buffer {
            Buffer::Owned(own) => {
                own.append(&mut values);
            },
            Buffer::Borrowed(_) => {
                assert(false);
            },
        }
        Ok(())
    }

    /// Overwrites the element at a linear offset.
    pub fn set(&mut self, offset: usize, value: A)
        requires
            old(self).wf(),
            offset < old(self)@.len(),
        ensures
            final(self).wf(),
            final(self)@ == old(self)@.update(offset as int, value),
    {
        match &mut self.buffer {
            Buffer::Owned(own) => {
                own[offset] = value;
            },
            Buffer::Borrowed(_) => {
                assert(false);
            },
        }
    }
}

impl<'a, A: Copy, O: Ownership> Clone for Data<'a, A, O> {
    /// An owned buffer is copied element by element into a new buffer; a
    /// window is copied as a window onto the same elements.
    fn clone(&self) -> (copy: Self)
        ensures
            copy@ == self@,
            self.wf() ==> copy.wf(),
    {
        match &self.buffer {
            Buffer::Owned(_) => Data { buffer: Buffer::Owned(self.to_vec()), ownership: PhantomData },
            Buffer::Borrowed(values) => Data {
                buffer: Buffer::Borrowed(*values),
                ownership: PhantomData,
            },
        }
    }
}

} // verus!
