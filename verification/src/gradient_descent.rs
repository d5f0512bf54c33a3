use vstd::prelude::*;
use vstd::std_specs::ops::MulSpec;
use vstd::std_specs::ops::NegSpec;
use core::ops::Neg;
use crate::array_base::Array1;
use crate::array_base::ArrayView1;
use crate::dot::Dot;
use crate::fittable_model::FittableModel;
use crate::fittable_model::FittingInfo;
use crate::fittable_model::FittingSettings;
use crate::linear_regression::LinearRegressionError;
use crate::linear_regression::LinearRegressionModel;
use crate::lms::are_weights_of;
use crate::lms::is_fit;
use crate::lms::is_result_of;
use crate::lms::is_start_of;
use crate::lms::is_weight_of;
use crate::lms::lacks_a_count;
use crate::lms::lms_solve;
use crate::lms::passes;
use crate::lms::total_negation;
use crate::lms::Kernel;
use crate::lms::LMSSettings;
use crate::matrix::dot_computable;
use crate::matrix::dot_spec;
use crate::parametric_algorithm::ParametricAlgorithm;
use crate::scalar::obeys_arithmetic;
use crate::scalar::lemma_multiplicative_identity_unique;
use crate::scalar::one_of;
use crate::scalar::one_spec;
use crate::scalar::total_arithmetic;
use crate::scalar::Scalar;
use crate::training_data::TrainingData;

verus! {

/// The weight one for each of `examples` examples in each of `count` passes.
pub open spec fn unit_weights<T: Scalar>(count: int, examples: int) -> Seq<Seq<T>> {
    Seq::new(count as nat, |k: int| Seq::new(examples as nat, |i: int| one_spec::<T>()))
}

/// A linear model whose coefficients were found by gradient descent.
pub struct GradientDescent<T: 'static> {
    theta: Array1<T>,
    iteration_count: usize,
}

impl<T> GradientDescent<T> {
    /// The coefficients.
    pub closed spec fn coefficients(&self) -> Seq<T> {
        self.theta.elements()
    }

    /// The number of passes over the examples that were completed before the last one.
    pub closed spec fn passes(&self) -> usize {
        self.iteration_count
    }

    /// The coefficients are held in a well-formed vector.
    pub closed spec fn wf(&self) -> bool {
        &&& self.theta.wf()
        &&& self.theta.dims() == seq![self.theta.elements().len() as usize]
    }
}

impl<T: Scalar> LinearRegressionModel<T> for GradientDescent<T> {
    /// The model and the features are well formed and, if there are as many
    /// features as coefficients, their dot product can be computed.
    open spec fn predict_requires(&self, x: &ArrayView1<'_, T>) -> bool {
        &&& self.wf()
        &&& x.wf()
        &&& x.dims()[0] == self.coefficients().len() ==> dot_computable(
            x.elements(),
            self.coefficients(),
        )
    }

    /// Features that are not as many as the coefficients are refused.
    /// Otherwise the prediction is the dot product of the features and the
    /// coefficients, where `obeys_arithmetic` holds of `T`.
    open spec fn predict_ensures(
        &self,
        x: &ArrayView1<'_, T>,
        result: Result<T, LinearRegressionError>,
    ) -> bool where T: num_traits::Float {
        &&& result is Err <==> x.dims()[0] != self.coefficients().len()
        &&& result matches Err(error) ==> error == LinearRegressionError::OperationFailed
        &&& result matches Ok(value) ==> (obeys_arithmetic::<T>() ==> value == dot_spec(
            x.elements(),
            self.coefficients(),
        ))
    }

    fn predict(&self, x: &ArrayView1<'_, T>) -> (result: Result<T, LinearRegressionError>) where
        T: num_traits::Float + num_traits::FloatConst,
     {
        let count = self.theta.len();
        match x.dot(&self.theta) {
            Ok(value) => Ok(value),
            Err(_) => Err(LinearRegressionError::OperationFailed),
        }
    }
}

impl<T: Scalar> ParametricAlgorithm<T> for GradientDescent<T> {
    open spec fn theta_requires(&self) -> bool {
        self.wf()
    }

    /// The vector holds the coefficients.
    open spec fn theta_ensures(&self, theta: &ArrayView1<'_, T>) -> bool {
        &&& theta.wf()
        &&& theta.elements() == self.coefficients()
    }

    fn theta(&self) -> (theta: ArrayView1<'_, T>) {
        self.theta.view()
    }
}

impl<T: Scalar + Neg<Output = T>> FittableModel<T> for GradientDescent<T> {
    /// The examples and the starting coefficients are well formed, and the
    /// operators of `T` accept all operands.
    open spec fn fit_requires(training_data: &TrainingData<T>, settings: &FittingSettings<T>) -> bool {
        &&& training_data.wf()
        &&& settings.starting_theta.wf()
        &&& total_arithmetic::<T>()
        &&& total_negation::<T>()
    }

    /// Starting coefficients that are not as many as the features are
    /// refused as a failed operation. Otherwise the fit fails only if
    /// `num_traits::NumCast::from` returned `None` for a count that it
    /// needs, as a failed cast; where it did not, the model was fitted in
    /// no more passes than the settings allow, and its coefficients are what
    /// one pass more than it counts lead to from the starting coefficients,
    /// with the weight one for every example, where `obeys_arithmetic` and
    /// `T::obeys_neg_spec()` hold.
    open spec fn fit_ensures(
        pass: spec_fn(Seq<Seq<T>>, Seq<T>, Seq<T>, T, Seq<T>) -> Seq<T>,
        training_data: &TrainingData<T>,
        settings: &FittingSettings<T>,
        result: Result<Self, LinearRegressionError>,
    ) -> bool where T: num_traits::Float {
        &&& settings.starting_theta.dims()[0] != training_data.x.dims()[1] ==> result is Err
        &&& result matches Err(error) ==> error == LinearRegressionError::OperationFailed || error
            == LinearRegressionError::FailedCastToT
        &&& result == Err::<Self, LinearRegressionError>(LinearRegressionError::OperationFailed)
            ==> settings.starting_theta.dims()[0] != training_data.x.dims()[1]
        &&& result == Err::<Self, LinearRegressionError>(LinearRegressionError::FailedCastToT)
            ==> lacks_a_count::<T>(training_data.x.dims()[0])
        &&& result matches Ok(model) ==> {
            &&& model.wf()
            &&& model.coefficients().len() == training_data.x.dims()[1]
            &&& model.passes() <= settings.max_iteration_count
            &&& obeys_arithmetic::<T>() && T::obeys_neg_spec() ==> model.coefficients() == passes(
                pass,
                training_data.x.rows(),
                training_data.y.elements(),
                settings.starting_theta.elements(),
                settings.learning_rate,
                unit_weights::<T>(model.passes() + 1, training_data.x.dims()[0] as int),
                model.passes() + 1,
            )
        }
    }

    open spec fn fitting_info_spec(&self) -> FittingInfo {
        FittingInfo { iteration_count: self.passes() }
    }

    fn fit<K>(training_data: &TrainingData<T>, settings: &FittingSettings<T>) -> (result: Result<
        Self,
        LinearRegressionError,
    >) where T: Scalar + Neg<Output = T> + PartialOrd + num_traits::Float, K: Kernel<T> {
        let settings = LMSSettings {
            max_iteration_count: Some(settings.max_iteration_count),
            learning_rate: Some(settings.learning_rate),
            eps: Some(settings.eps),
            starting_theta: Some(settings.starting_theta.clone()),
        };
        let weight_function = |row: ArrayView1<T>| -> (weight: T)
            ensures
                T::obeys_mul_spec() ==> weight == one_spec::<T>(),
            {
                let one = one_of::<T>();
                proof {
                    if T::obeys_mul_spec() {
                        lemma_multiplicative_identity_unique(one);
                    }
                }
                one
            };
        let ghost given = Some(settings);
        let ghost pass = |x: Seq<Seq<T>>, y: Seq<T>, theta: Seq<T>, rate: T, weights: Seq<T>|
            K::pass(x, y, theta, rate, weights);
        let x_view = training_data.x.view();
        let y_view = training_data.y.view();
        proof {
            training_data.x.lemma_rows();
            x_view.lemma_rows();
            assert forall|i: int| 0 <= i < training_data.x.dims()[0] implies x_view.rows()[i]
                =~= training_data.x.rows()[i] by {
                assert(x_view.row_seq(i as usize) =~= training_data.x.row_seq(i as usize));
            }
            assert(x_view.rows() =~= training_data.x.rows());
        }
        match lms_solve::<T, K, _>(x_view, y_view, Some(settings), weight_function) {
            Ok(fit) => {
                let count = fit.theta.len();
                proof {
                    crate::layout::lemma_linear_index_of_one(
                        crate::layout::LayoutType::RowMajor,
                        fit.theta.dims(),
                        crate::layout::index1(0),
                    );
                    if obeys_arithmetic::<T>() && T::obeys_neg_spec() {
                        let x = training_data.x.rows();
                        let y = training_data.y.elements();
                        let features = training_data.x.dims()[1];
                        let (rate, start) = choose|rate: T, start: Seq<T>|
                            {
                                &&& #[trigger] is_start_of(given, features, rate, start)
                                &&& is_result_of(
                                    pass,
                                    weight_function,
                                    x,
                                    y,
                                    start,
                                    rate,
                                    fit.iteration_count as int,
                                    fit.theta.elements(),
                                )
                            };
                        let weights = choose|weights: Seq<Seq<T>>|
                            {
                                &&& #[trigger] weights.len() == fit.iteration_count + 1
                                &&& is_fit(pass, x, y, start, rate, weights, fit.theta.elements())
                                &&& forall|k: int|
                                    0 <= k < weights.len() ==> are_weights_of(
                                        weight_function,
                                        x,
                                        #[trigger] weights[k],
                                    )
                            };
                        let ones = unit_weights::<T>(fit.iteration_count + 1, x.len() as int);
                        assert forall|k: int| 0 <= k < weights.len() implies weights[k]
                            =~= ones[k] by {
                            assert(are_weights_of(weight_function, x, weights[k]));
                            assert forall|i: int| 0 <= i < x.len() implies weights[k][i]
                                == one_spec::<T>() by {
                                assert(is_weight_of(weight_function, x[i], weights[k][i]));
                            }
                        }
                        assert(weights =~= ones);
                    }
                }
                Ok(GradientDescent { theta: fit.theta, iteration_count: fit.iteration_count })
            },
            Err(error) => Err(LinearRegressionError::from(error)),
        }
    }

    fn fitting_info(&self) -> (info: FittingInfo) {
        FittingInfo { iteration_count: self.iteration_count }
    }
}

} // verus!
