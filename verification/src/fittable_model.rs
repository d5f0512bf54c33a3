use vstd::prelude::*;
use core::ops::Neg;
use crate::array_base::Array1;
use crate::linear_regression::LinearRegressionError;
use crate::lms::Kernel;
use crate::parametric_algorithm::ParametricAlgorithm;
use crate::scalar::Scalar;
use crate::training_data::TrainingData;

verus! {

/// What is known of how a model was fitted.
#[derive(Clone, Copy, Debug, PartialEq, Eq, Structural)]
pub struct FittingInfo {
    /// The number of passes over the examples that were completed before the last one.
    pub iteration_count: usize,
}

/// How a model is to be fitted.
pub struct FittingSettings<T: 'static> {
    /// The number of passes over the examples after which the fit stops.
    pub max_iteration_count: usize,
    /// The factor by which the coefficients follow the gradient.
    pub learning_rate: T,
    /// The change of the mean cost below which the fit stops.
    pub eps: T,
    /// The coefficients to start from.
    pub starting_theta: Array1<T>,
}

/// A linear model that is fitted to examples by passes of gradient descent.
pub trait FittableModel<T: 'static>: ParametricAlgorithm<T> + Sized {
    /// What `fit` asks of the examples and the settings.
    spec fn fit_requires(training_data: &TrainingData<T>, settings: &FittingSettings<T>) -> bool;

    /// What `fit` answers with a kernel of which `pass` says what one pass
    /// leads to.
    spec fn fit_ensures(
        pass: spec_fn(Seq<Seq<T>>, Seq<T>, Seq<T>, T, Seq<T>) -> Seq<T>,
        training_data: &TrainingData<T>,
        settings: &FittingSettings<T>,
        result: Result<Self, LinearRegressionError>,
    ) -> bool where T: Scalar + Neg<Output = T> + num_traits::Float;

    /// What `fitting_info` tells of the model.
    spec fn fitting_info_spec(&self) -> FittingInfo;

    /// Fits a model to the examples by the kernel `K`.
    fn fit<K>(training_data: &TrainingData<T>, settings: &FittingSettings<T>) -> (result: Result<
        Self,
        LinearRegressionError,
    >) where T: Scalar + Neg<Output = T> + PartialOrd + num_traits::Float, K: Kernel<T>
        requires
            Self::fit_requires(training_data, settings),
        ensures
            Self::fit_ensures(
                |x: Seq<Seq<T>>, y: Seq<T>, theta: Seq<T>, rate: T, weights: Seq<T>|
                    K::pass(x, y, theta, rate, weights),
                training_data,
                settings,
                result,
            ),
    ;

    /// What is known of how the model was fitted.
    fn fitting_info(&self) -> (info: FittingInfo)
        ensures
            info == self.fitting_info_spec(),
    ;
}

} // verus!
