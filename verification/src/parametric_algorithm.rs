use vstd::prelude::*;
use crate::array_base::ArrayView1;
use crate::linear_regression::LinearRegressionModel;

verus! {

/// A linear model that is given by a vector of coefficients.
pub trait ParametricAlgorithm<T>: LinearRegressionModel<T> {
    /// What `theta` asks of the model.
    spec fn theta_requires(&self) -> bool;

    /// What `theta` answers.
    spec fn theta_ensures(&self, theta: &ArrayView1<'_, T>) -> bool;

    /// The coefficients, as a vector that borrows from the model.
    fn theta(&self) -> (theta: ArrayView1<'_, T>)
        requires
            self.theta_requires(),
        ensures
            self.theta_ensures(&theta),
    ;
}

} // verus!
