use vstd::prelude::*;
use vstd::std_specs::ops::NegSpec;
use core::ops::Neg;
use crate::arithmetic::Arithmetic;
use crate::array_base::ArrayView1;
use crate::dot::Dot;
use crate::fittable_model::FittingSettings;
use crate::layout::index1;
use crate::linear_regression::LinearRegressionError;
use crate::linear_regression::LinearRegressionModel;
use crate::lms::is_fit;
use crate::lms::is_result_of;
use crate::lms::is_start_of;
use crate::lms::lacks_a_count;
use crate::lms::lms_solve;
use crate::lms::total_negation;
use crate::lms::BatchKernel;
use crate::lms::Kernel;
use crate::lms::LMSSettings;
use crate::layout::lemma_linear_index_of_one;
use crate::matrix::dot_spec;
use crate::scalar::e_of;
use crate::scalar::obeys_arithmetic;
use crate::scalar::one_of;
use crate::scalar::powf_of;
use crate::scalar::total_arithmetic;
use crate::scalar::Scalar;
use crate::training_data::TrainingData;

verus! {

/// How a locally weighted model is to be fitted.
pub struct Settings<T: 'static> {
    /// How each fit is to be run.
    pub common_settings: FittingSettings<T>,
    /// The width of the neighbourhood of a query within which examples count.
    pub bandwith: T,
}

/// A linear model that is fitted anew for each query, with the examples
/// weighted by how near their features are to the query.
pub struct LocallyWeightedLinearRegression<T: 'static> {
    training_data: TrainingData<T>,
    settings: Settings<T>,
}

impl<T: Copy + 'static> LocallyWeightedLinearRegression<T> {
    /// The examples.
    pub closed spec fn examples(&self) -> TrainingData<T> {
        self.training_data
    }

    /// The settings.
    pub closed spec fn settings(&self) -> Settings<T> {
        self.settings
    }

    /// The examples and the starting coefficients are well formed.
    pub open spec fn wf(&self) -> bool {
        &&& self.examples().wf()
        &&& self.settings().common_settings.starting_theta.wf()
    }

    /// A model over a copy of the examples.
    pub fn new(data: &TrainingData<T>, settings: Settings<T>) -> (model: Self)
        ensures
            model.examples().x.dims() == data.x.dims(),
            model.examples().x.elements() == data.x.elements(),
            model.examples().y.dims() == data.y.dims(),
            model.examples().y.elements() == data.y.elements(),
            model.settings() == settings,
            data.wf() && settings.common_settings.starting_theta.wf() ==> model.wf(),
    {
        LocallyWeightedLinearRegression { training_data: data.clone(), settings }
    }
}

impl<T: Scalar + Neg<Output = T> + PartialOrd> LinearRegressionModel<
    T,
> for LocallyWeightedLinearRegression<T> {
    /// The model and the features are well formed, and the operators of `T`
    /// accept all operands.
    open spec fn predict_requires(&self, x: &ArrayView1<'_, T>) -> bool {
        &&& self.wf()
        &&& x.wf()
        &&& total_arithmetic::<T>()
        &&& total_negation::<T>()
    }

    /// Features or starting coefficients that are not as many as the
    /// features of the examples are refused as a failed operation.
    /// Otherwise the fit fails only if `num_traits::NumCast::from` returned
    /// `None` for a count that it needs, as a failed cast; where it did
    /// not, the prediction is the dot product of the features and
    /// coefficients that at least one and at most one more than
    /// `max_iteration_count` passes of batch gradient descent lead to from
    /// the starting coefficients, where `obeys_arithmetic` and
    /// `T::obeys_neg_spec()` hold.
    open spec fn predict_ensures(
        &self,
        x: &ArrayView1<'_, T>,
        result: Result<T, LinearRegressionError>,
    ) -> bool where T: num_traits::Float {
        let common = self.settings().common_settings;
        let features = self.examples().x.dims()[1];
        let well_shaped = x.dims()[0] == features && common.starting_theta.dims()[0] == features;
        &&& !well_shaped ==> result is Err
        &&& result matches Err(error) ==> error == LinearRegressionError::OperationFailed || error
            == LinearRegressionError::FailedCastToT
        &&& result == Err::<T, LinearRegressionError>(LinearRegressionError::OperationFailed)
            ==> !well_shaped
        &&& result == Err::<T, LinearRegressionError>(LinearRegressionError::FailedCastToT)
            ==> lacks_a_count::<T>(self.examples().x.dims()[0])
        &&& result matches Ok(value) ==> (obeys_arithmetic::<T>() && T::obeys_neg_spec()
            ==> exists|theta: Seq<T>, weights: Seq<Seq<T>>|
            #![trigger weights.len(), dot_spec(x.elements(), theta)]
            {
                &&& 1 <= weights.len() <= common.max_iteration_count + 1
                &&& is_fit(
                    |x: Seq<Seq<T>>, y: Seq<T>, theta: Seq<T>, rate: T, weights: Seq<T>|
                        <BatchKernel as Kernel<T>>::pass(x, y, theta, rate, weights),
                    self.examples().x.rows(),
                    self.examples().y.elements(),
                    common.starting_theta.elements(),
                    common.learning_rate,
                    weights,
                    theta,
                )
                &&& value == dot_spec(x.elements(), theta)
            })
    }

    fn predict(&self, x: &ArrayView1<'_, T>) -> (result: Result<T, LinearRegressionError>) where
        T: num_traits::Float + num_traits::FloatConst,
     {
        let common = &self.settings.common_settings;
        let settings = LMSSettings {
            max_iteration_count: Some(common.max_iteration_count),
            learning_rate: Some(common.learning_rate),
            eps: Some(common.eps),
            starting_theta: Some(common.starting_theta.clone()),
        };
        let bandwith = self.settings.bandwith;
        let weight_function = |row: ArrayView1<T>| -> (weight: T)
            requires
                row.wf(),
            {
                let diff = x.sub(&row);
                let count = diff.len();
                proof {
                    lemma_linear_index_of_one(
                        crate::layout::LayoutType::RowMajor,
                        diff.dims(),
                        index1(0),
                    );
                }
                let distance = diff.dot(&diff).unwrap();
                let one = one_of::<T>();
                let two = one + one;
                let spread = (bandwith * bandwith).neg();
                powf_of(e_of::<T>(), distance / two * spread)
            };
        let ghost given = Some(settings);
        let ghost pass = |x: Seq<Seq<T>>, y: Seq<T>, theta: Seq<T>, rate: T, weights: Seq<T>|
            <BatchKernel as Kernel<T>>::pass(x, y, theta, rate, weights);
        let x_view = self.training_data.x.view();
        let y_view = self.training_data.y.view();
        proof {
            self.training_data.x.lemma_rows();
            x_view.lemma_rows();
            assert forall|i: int| 0 <= i < self.training_data.x.dims()[0] implies x_view.rows()[i]
                =~= self.training_data.x.rows()[i] by {
                assert(x_view.row_seq(i as usize) =~= self.training_data.x.row_seq(i as usize));
            }
            assert(x_view.rows() =~= self.training_data.x.rows());
        }
        let fit = match lms_solve::<T, BatchKernel, _>(
            x_view,
            y_view,
            Some(settings),
            weight_function,
        ) {
            Ok(fit) => fit,
            Err(error) => {
                return Err(LinearRegressionError::from(error));
            },
        };
        let ghost mut trace: Seq<Seq<T>> = Seq::empty();
        proof {
            if obeys_arithmetic::<T>() && T::obeys_neg_spec() {
                let rows = self.training_data.x.rows();
                let targets = self.training_data.y.elements();
                let features = self.training_data.x.dims()[1];
                let (rate, start) = choose|rate: T, start: Seq<T>|
                    {
                        &&& #[trigger] is_start_of(given, features, rate, start)
                        &&& is_result_of(
                            pass,
                            weight_function,
                            rows,
                            targets,
                            start,
                            rate,
                            fit.iteration_count as int,
                            fit.theta.elements(),
                        )
                    };
                trace = choose|weights: Seq<Seq<T>>|
                    {
                        &&& #[trigger] weights.len() == fit.iteration_count + 1
                        &&& is_fit(pass, rows, targets, start, rate, weights, fit.theta.elements())
                    };
                assert(is_fit(
                    pass,
                    rows,
                    targets,
                    common.starting_theta.elements(),
                    common.learning_rate,
                    trace,
                    fit.theta.elements(),
                ));
            }
        }
        match x.dot(&fit.theta) {
            Ok(value) => {
                proof {
                    if obeys_arithmetic::<T>() && T::obeys_neg_spec() {
                        assert(1 <= trace.len() <= common.max_iteration_count + 1 && value
                            == dot_spec(x.elements(), fit.theta.elements()));
                    }
                }
                Ok(value)
            },
            Err(_) => Err(LinearRegressionError::OperationFailed),
        }
    }
}

} // verus!
