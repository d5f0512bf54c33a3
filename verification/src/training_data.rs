use vstd::prelude::*;
use vstd::std_specs::ops::MulSpec;
use core::ops::Mul;
use crate::array_base::Array1;
use crate::array_base::Array2;
use crate::error::LinalgError;
use crate::layout::lemma_linear_index_of_two;
use crate::layout::lemma_product_of_two;
use crate::layout::index2;
use crate::scalar::lemma_multiplicative_identity_unique;
use crate::scalar::one_of;
use crate::scalar::one_spec;

verus! {

/// Examples to learn from: one row of features and one target for each.
pub struct TrainingData<T: 'static> {
    /// The features, one row for each example.
    pub x: Array2<T>,
    /// The targets, one for each example.
    pub y: Array1<T>,
}

/// Why no examples could be had from a source.
#[derive(Clone, Copy, Debug, PartialEq, Eq, Structural)]
pub enum TrainingDataError {
    /// The source could not be opened.
    CantOpenFileError,
    /// The source does not hold a table of numbers.
    InvalidFileFormatError,
    /// The examples are more than can be held.
    OutOfMemory,
}

impl From<LinalgError> for TrainingDataError {
    fn from(error: LinalgError) -> (converted: Self) {
        match error {
            LinalgError::AllocationError => TrainingDataError::OutOfMemory,
            LinalgError::DimensionMismatch => TrainingDataError::InvalidFileFormatError,
            LinalgError::SingularMatrix => TrainingDataError::InvalidFileFormatError,
        }
    }
}

impl vstd::std_specs::convert::FromSpecImpl<LinalgError> for TrainingDataError {
    open spec fn obeys_from_spec() -> bool {
        true
    }

    open spec fn from_spec(error: LinalgError) -> Self {
        match error {
            LinalgError::AllocationError => TrainingDataError::OutOfMemory,
            LinalgError::DimensionMismatch => TrainingDataError::InvalidFileFormatError,
            LinalgError::SingularMatrix => TrainingDataError::InvalidFileFormatError,
        }
    }
}

/// A record with the constant `one` put before it: the last number is the
/// target of the example, the numbers before it are its features.
pub open spec fn with_intercept<T>(one: T, record: Seq<T>) -> Seq<T> {
    seq![one] + record
}

/// The records are not all as long as the first one.
pub open spec fn is_ragged<T>(records: Seq<Vec<T>>) -> bool {
    exists|i: int| 0 <= i < records.len() && #[trigger] records[i]@.len() != records[0]@.len()
}

/// What `from_records` answers for the given records, but for the examples.
pub open spec fn from_records_result<T>(records: Seq<Vec<T>>) -> Result<(), TrainingDataError> {
    if records.len() == 0 || is_ragged(records) {
        Err(TrainingDataError::InvalidFileFormatError)
    } else if records.len() * records[0]@.len() > usize::MAX {
        Err(TrainingDataError::OutOfMemory)
    } else {
        Ok(())
    }
}

/// The rows `x` and the targets `y` are those of the records, with `one`
/// for the constant: where `T::obeys_mul_spec()` holds,
/// `one` is the multiplicative identity.
pub open spec fn is_examples_of<T: Mul<Output = T>>(
    one: T,
    records: Seq<Vec<T>>,
    x: Seq<Seq<T>>,
    y: Seq<T>,
) -> bool {
    &&& T::obeys_mul_spec() ==> one == one_spec::<T>()
    &&& forall|i: int|
        0 <= i < records.len() ==> #[trigger] x[i] == with_intercept(one, records[i]@).drop_last()
    &&& forall|i: int|
        0 <= i < records.len() ==> #[trigger] y[i] == with_intercept(one, records[i]@).last()
}

impl<T: Copy + 'static> TrainingData<T> {
    /// Both arrays are well formed, and there is one target for each row of features.
    pub open spec fn wf(&self) -> bool {
        &&& self.x.wf()
        &&& self.y.wf()
        &&& self.y.dims() == seq![self.x.dims()[0]]
    }

    /// Makes examples of the records of a table. Each record is preceded
    /// by the constant one, for the intercept; its last number then is the
    /// target and the numbers before it are the features.
    ///
    /// A table without records, or with records of different lengths, is
    /// refused as ill formed; one with more numbers than a machine word can
    /// count is refused as too large.
    pub fn from_records(records: &Vec<Vec<T>>) -> (result: Result<Self, TrainingDataError>) where
        T: num_traits::One + Mul<Output = T>,

        ensures
            result is Err <==> from_records_result(records@) is Err,
            result matches Err(error) ==> from_records_result(records@) == Err::<
                (),
                TrainingDataError,
            >(error),
            result matches Ok(data) ==> data.wf() && data.x.dims() == seq![
                records@.len() as usize,
                records@[0]@.len() as usize,
            ],
            result matches Ok(data) ==> exists|one: T| #[trigger]
                is_examples_of(one, records@, data.x.rows(), data.y.elements()),
    {
        let count = records.len();
        if count == 0 {
            return Err(TrainingDataError::InvalidFileFormatError);
        }
        let width = records[0].len();
        let mut checked: usize = 0;
        while checked < count
            invariant
                checked <= count,
                count == records@.len(),
                width == records@[0]@.len(),
                forall|i: int| 0 <= i < checked ==> #[trigger] records@[i]@.len() == width,
            decreases count - checked,
        {
            if records[checked].len() != width {
                return Err(TrainingDataError::InvalidFileFormatError);
            }
            checked += 1;
        }
        let one = one_of::<T>();
        proof {
            if T::obeys_mul_spec() {
                lemma_multiplicative_identity_unique(one);
            }
        }
        let shape = [0, width];
        proof {
            lemma_product_of_two(shape@);
            assert(shape@[0] == 0 && shape@[1] == width);
            assert(shape@[0] * shape@[1] == 0);
        }
        let mut x = Array2::<T>::from_shape_vec(shape, Vec::new()).unwrap();
        let mut targets: Vec<T> = Vec::new();
        let mut i: usize = 0;
        while i < count
            invariant
                i <= count,
                count == records@.len(),
                width == records@[0]@.len(),
                forall|k: int| 0 <= k < count ==> #[trigger] records@[k]@.len() == width,
                x.wf(),
                x.dims() == seq![i, width],
                targets@.len() == i,
                forall|k: int|
                    0 <= k < i ==> #[trigger] x.rows()[k] == with_intercept(
                        one,
                        records@[k]@,
                    ).drop_last(),
                forall|k: int|
                    0 <= k < i ==> #[trigger] targets@[k] == with_intercept(
                        one,
                        records@[k]@,
                    ).last(),
            decreases count - i,
        {
            let record = &records[i];
            let ghost full = with_intercept(one, record@);
            let mut row: Vec<T> = Vec::new();
            let mut target = one;
            let mut j: usize = 0;
            while j < width
                invariant
                    j <= width,
                    width == record@.len(),
                    full == with_intercept(one, record@),
                    row@ == full.take(j as int),
                    target == full[j as int],
                decreases width - j,
            {
                row.push(target);
                target = record[j];
                j += 1;
            }
            proof {
                assert(full.take(width as int) == full.drop_last());
                assert(target == full.last());
            }
            let ghost before = x;
            let ghost row_seq = row@;
            let row = Array1::from_vec(row);
            match x.push_row(row.view()) {
                Ok(()) => {},
                Err(error) => {
                    proof {
                        assert((i + 1) * width <= count * width) by (nonlinear_arith)
                            requires
                                i < count,
                        ;
                    }
                    return Err(TrainingDataError::from(error));
                },
            }
            targets.push(target);
            proof {
                lemma_product_of_two(before.dims());
                before.lemma_rows();
                x.lemma_rows();
                assert forall|k: int| 0 <= k < i + 1 implies #[trigger] x.rows()[k]
                    == with_intercept(one, records@[k]@).drop_last() by {
                    assert forall|c: int| 0 <= c < width implies x.rows()[k][c] == with_intercept(
                        one,
                        records@[k]@,
                    ).drop_last()[c] by {
                        let (row_index, column) = (k as usize, c as usize);
                        lemma_linear_index_of_two(x.dims(), index2(row_index, column));
                        assert(row_index * width + column < (i + 1) * width) by (nonlinear_arith)
                            requires
                                row_index <= i,
                                column < width,
                        ;
                        if k < i {
                            lemma_linear_index_of_two(before.dims(), index2(row_index, column));
                            assert(row_index * width + column < i * width) by (nonlinear_arith)
                                requires
                                    row_index < i,
                                    column < width,
                            ;
                            assert(before.rows()[k][c] == before.at(index2(row_index, column)));
                        }
                        assert(x.rows()[k][c] == x.at(index2(row_index, column)));
                    }
                    assert(x.rows()[k] =~= with_intercept(one, records@[k]@).drop_last());
                }
            }
            i += 1;
        }
        let y = Array1::from_vec(targets);
        let total = x.len();
        let data = TrainingData { x, y };
        proof {
            lemma_product_of_two(data.x.dims());
            assert(!is_ragged(records@));
            assert(data.y.dims() =~= seq![data.x.dims()[0]]);
            assert(data.x.dims() =~= seq![records@.len() as usize, records@[0]@.len() as usize]);
        }
        let result = Ok(data);
        proof {
            assert(is_examples_of(one, records@, result->Ok_0.x.rows(), result->Ok_0.y.elements()));
        }
        result
    }
}

impl<T: Copy + 'static> Clone for TrainingData<T> {
    /// The features and the targets are copied into arrays of their own.
    fn clone(&self) -> (copy: Self)
        ensures
            copy.x.dims() == self.x.dims(),
            copy.x.elements() == self.x.elements(),
            copy.y.dims() == self.y.dims(),
            copy.y.elements() == self.y.elements(),
            self.wf() ==> copy.wf(),
    {
        TrainingData { x: self.x.clone(), y: self.y.clone() }
    }
}

} // verus!
