use vstd::prelude::*;
use crate::array_base::ArrayView1;
use crate::error::LinalgError;
use crate::lms::LMSError;

verus! {

/// Why a regression model could not be fitted or asked.
#[derive(Clone, Copy, Debug, PartialEq, Eq, Structural)]
pub enum LinearRegressionError {
    /// A number could not be converted to the element type.
    FailedCastToT,
    /// An operation on arrays was refused.
    OperationFailed,
    /// The examples do not determine the coefficients: a pivot of the
    /// matrix that was to be inverted is not greater than zero.
    SingularMatrix,
}

impl From<LinalgError> for LinearRegressionError {
    fn from(error: LinalgError) -> (converted: Self) {
        match error {
            LinalgError::SingularMatrix => LinearRegressionError::SingularMatrix,
            _ => LinearRegressionError::OperationFailed,
        }
    }
}

impl vstd::std_specs::convert::FromSpecImpl<LinalgError> for LinearRegressionError {
    open spec fn obeys_from_spec() -> bool {
        true
    }

    open spec fn from_spec(error: LinalgError) -> Self {
        match error {
            LinalgError::SingularMatrix => LinearRegressionError::SingularMatrix,
            _ => LinearRegressionError::OperationFailed,
        }
    }
}

impl From<LMSError> for LinearRegressionError {
    fn from(error: LMSError) -> (converted: Self) {
        match error {
            LMSError::FailedCastToT => LinearRegressionError::FailedCastToT,
            LMSError::InvalidTheta => LinearRegressionError::OperationFailed,
        }
    }
}

impl vstd::std_specs::convert::FromSpecImpl<LMSError> for LinearRegressionError {
    open spec fn obeys_from_spec() -> bool {
        true
    }

    open spec fn from_spec(error: LMSError) -> Self {
        match error {
            LMSError::FailedCastToT => LinearRegressionError::FailedCastToT,
            LMSError::InvalidTheta => LinearRegressionError::OperationFailed,
        }
    }
}

/// A fitted linear model: it predicts a target from a vector of features.
pub trait LinearRegressionModel<T> {
    /// What `predict` asks of the model and the features.
    spec fn predict_requires(&self, x: &ArrayView1<'_, T>) -> bool;

    /// What `predict` answers.
    spec fn predict_ensures(
        &self,
        x: &ArrayView1<'_, T>,
        result: Result<T, LinearRegressionError>,
    ) -> bool where T: num_traits::Float;

    /// The target that the model predicts for the features `x`.
    fn predict(&self, x: &ArrayView1<'_, T>) -> (result: Result<T, LinearRegressionError>) where
        T: num_traits::Float + num_traits::FloatConst,

        requires
            self.predict_requires(x),
        ensures
            self.predict_ensures(x, result),
    ;
}

} // verus!
