use linalg::array_base::Array1;
use linalg::array_base::Array2;
use linalg::array_base::ArrayView1;
use linalg::convergence::after_change;
use linalg::convergence::after_pass;
use linalg::convergence::progress;
use linalg::convergence::Progress;
use linalg::fittable_model::FittableModel;
use linalg::fittable_model::FittingInfo;
use linalg::fittable_model::FittingSettings;
use linalg::gradient_descent::GradientDescent;
use linalg::linear_regression::LinearRegressionError;
use linalg::linear_regression::LinearRegressionModel;
use linalg::lms::batch_update;
use linalg::lms::fill_missing_settings;
use linalg::lms::fill_missing_settings_with;
use linalg::lms::lms_solve;
use linalg::lms::stochastic_update;
use linalg::lms::BatchKernel;
use linalg::lms::Kernel;
use linalg::lms::LMSError;
use linalg::lms::LMSSettings;
use linalg::lms::LMSSettingsFilled;
use linalg::lms::StochasticKernel;
use linalg::locally_weighted_gradient_descent::LocallyWeightedLinearRegression;
use linalg::locally_weighted_gradient_descent::Settings;
use linalg::parametric_algorithm::ParametricAlgorithm;
use linalg::training_data::TrainingData;

fn line() -> TrainingData<f64> {
    // y = 2x + 1 for x = 0, 1, 2, 3
    let records = vec![
        vec![0.0, 1.0],
        vec![1.0, 3.0],
        vec![2.0, 5.0],
        vec![3.0, 7.0],
    ];
    TrainingData::from_records(&records).unwrap()
}

fn settings(max_iteration_count: usize) -> FittingSettings<f64> {
    FittingSettings {
        max_iteration_count,
        learning_rate: 0.01,
        eps: 1e-12,
        starting_theta: Array1::from_vec(vec![0.0, 0.0]),
    }
}

#[test]
fn settings_that_are_left_out_are_filled_in() {
    let filled = fill_missing_settings::<f64>(None, 3).unwrap();
    assert_eq!(filled.max_iteration_count, 10000);
    assert_eq!(filled.learning_rate, 0.001);
    assert_eq!(filled.eps, 0.001);
    assert_eq!(filled.starting_theta.to_vec(), vec![0.0, 0.0, 0.0]);
}

#[test]
fn settings_that_are_given_are_kept() {
    let given = LMSSettings {
        max_iteration_count: Some(7),
        learning_rate: Some(0.5),
        eps: Some(0.25),
        starting_theta: Some(Array1::from_vec(vec![1.0, 2.0])),
    };
    let filled = fill_missing_settings(Some(given), 3).unwrap();
    assert_eq!(filled.max_iteration_count, 7);
    assert_eq!(filled.learning_rate, 0.5);
    assert_eq!(filled.eps, 0.5);
    assert_eq!(filled.starting_theta.to_vec(), vec![1.0, 2.0]);
}

#[test]
fn the_threshold_falls_back_to_one_hundred_thousandth() {
    let given = LMSSettings::<f64> {
        max_iteration_count: None,
        learning_rate: None,
        eps: None,
        starting_theta: None,
    };
    let filled = fill_missing_settings(Some(given), 1).unwrap();
    assert_eq!(filled.max_iteration_count, 10000);
    assert_eq!(filled.learning_rate, 0.001);
    assert_eq!(filled.eps, 0.00001);
    assert_eq!(filled.starting_theta.to_vec(), vec![0.0]);
}

#[test]
fn a_default_that_cannot_be_had_fails_the_fit() {
    let result = fill_missing_settings_with::<f64>(None, 2, None, Some(0.1));
    assert_eq!(result.err(), Some(LMSError::FailedCastToT));
    let result = fill_missing_settings_with::<f64>(None, 2, Some(0.1), None);
    assert_eq!(result.err(), Some(LMSError::FailedCastToT));
    let filled = fill_missing_settings_with::<f64>(None, 2, Some(0.5), Some(0.1)).unwrap();
    assert_eq!(filled.learning_rate, 0.5);
    assert_eq!(filled.eps, 0.5);
}

#[test]
fn one_batch_pass() {
    let x = Array2::from_shape_vec([2, 2], vec![1.0, 2.0, 1.0, 3.0]).unwrap();
    let y = Array1::from_vec(vec![5.0, 7.0]);
    let theta = Array1::from_vec(vec![1.0, 1.0]);
    let (next, cost) = batch_update(&x, &y, &theta, 0.5, &vec![1.0, 1.0]);
    // errors: 3 - 5 = -2 and 4 - 7 = -3; gradient: -2 * [1, 2] + -3 * [1, 3] = [-5, -13]
    assert_eq!(cost, 13.0);
    assert_eq!(next.to_vec(), vec![3.5, 7.5]);
}

#[test]
fn one_batch_pass_with_weights() {
    let x = Array2::from_shape_vec([2, 2], vec![1.0, 2.0, 1.0, 3.0]).unwrap();
    let y = Array1::from_vec(vec![5.0, 7.0]);
    let theta = Array1::from_vec(vec![1.0, 1.0]);
    let (next, cost) = batch_update(&x, &y, &theta, 1.0, &vec![2.0, 0.0]);
    // errors: 2 * 3 - 5 = 1 and 0 * 4 - 7 = -7; gradient: [1, 2] - 7 * [1, 3] = [-6, -19]
    assert_eq!(cost, 50.0);
    assert_eq!(next.to_vec(), vec![7.0, 20.0]);
}

#[test]
fn one_batch_pass_over_whole_numbers() {
    let x = Array2::from_shape_vec([2, 2], vec![1, 2, 1, 3]).unwrap();
    let y = Array1::from_vec(vec![5, 7]);
    let theta = Array1::from_vec(vec![1, 1]);
    let (next, cost) = batch_update(&x, &y, &theta, 2, &vec![1, 1]);
    assert_eq!(cost, 13);
    assert_eq!(next.to_vec(), vec![11, 27]);
}

#[test]
fn one_stochastic_pass() {
    let x = Array2::from_shape_vec([2, 2], vec![1.0, 2.0, 1.0, 3.0]).unwrap();
    let y = Array1::from_vec(vec![5.0, 7.0]);
    let theta = Array1::from_vec(vec![1.0, 1.0]);
    let (next, cost) = stochastic_update(&x, &y, &theta, 0.5, &vec![1.0, 1.0]);
    // first example: error -2, theta becomes [1, 1] + 1 * [1, 2] = [2, 3]
    // second example: error 2 + 9 - 7 = 4, theta becomes [2, 3] - 2 * [1, 3] = [0, -3]
    assert_eq!(cost, 20.0);
    assert_eq!(next.to_vec(), vec![0.0, -3.0]);
}

#[test]
fn a_fit_stops_when_the_cost_settles_or_the_passes_are_used_up() {
    assert_eq!(progress(&0.5, &1.0, 0, 10), Progress::Converged);
    assert_eq!(progress(&0.5, &1.0, 10, 10), Progress::Converged);
    assert_eq!(progress(&1.0, &1.0, 3, 10), Progress::Continue);
    assert_eq!(progress(&2.0, &1.0, 9, 10), Progress::Continue);
    assert_eq!(progress(&2.0, &1.0, 10, 10), Progress::Exhausted);
    assert_eq!(progress(&2.0, &1.0, 11, 10), Progress::Exhausted);
    assert_eq!(progress(&f64::NAN, &1.0, 0, 10), Progress::Continue);
    assert_eq!(progress(&3, &4, 0, 0), Progress::Converged);
    assert_eq!(progress(&4, &4, 0, 0), Progress::Exhausted);
}

#[test]
fn the_change_of_the_mean_cost_decides_after_a_pass() {
    // |10 - 4| / 3 = 2
    assert_eq!(after_pass(10.0, 4.0, 3.0, &2.5, 0, 10), Progress::Converged);
    assert_eq!(after_pass(4.0, 10.0, 3.0, &2.5, 0, 10), Progress::Converged);
    assert_eq!(after_pass(10.0, 4.0, 3.0, &2.0, 0, 10), Progress::Continue);
    assert_eq!(after_pass(4.0, 10.0, 3.0, &2.0, 0, 10), Progress::Continue);
    assert_eq!(after_pass(10.0, 4.0, 3.0, &2.0, 10, 10), Progress::Exhausted);
}

#[test]
fn batch_kernel_stops_after_the_passes_it_is_given() {
    let data = line();
    let filled = LMSSettingsFilled {
        max_iteration_count: 3,
        learning_rate: 0.01,
        eps: 0.0,
        starting_theta: Array1::from_vec(vec![0.0, 0.0]),
    };
    let fit = BatchKernel::compute(data.x.view(), data.y.view(), filled, |_: ArrayView1<f64>| 1.0)
        .unwrap();
    assert_eq!(fit.iteration_count, 3);
    assert_eq!(fit.theta.len(), 2);
}

#[test]
fn kernels_refuse_starting_coefficients_of_the_wrong_length() {
    let data = line();
    let filled = LMSSettingsFilled {
        max_iteration_count: 3,
        learning_rate: 0.01,
        eps: 0.0,
        starting_theta: Array1::from_vec(vec![0.0, 0.0, 0.0]),
    };
    let result =
        BatchKernel::compute(data.x.view(), data.y.view(), filled, |_: ArrayView1<f64>| 1.0);
    assert_eq!(result.err(), Some(LMSError::InvalidTheta));
    let filled = LMSSettingsFilled {
        max_iteration_count: 3,
        learning_rate: 0.01,
        eps: 0.0,
        starting_theta: Array1::from_vec(vec![0.0]),
    };
    let result =
        StochasticKernel::compute(data.x.view(), data.y.view(), filled, |_: ArrayView1<f64>| 1.0);
    assert_eq!(result.err(), Some(LMSError::InvalidTheta));
}

#[test]
fn batch_gradient_descent_approaches_the_line() {
    let data = line();
    let model = GradientDescent::fit::<BatchKernel>(&data, &settings(20000)).unwrap();
    let theta = model.theta().to_vec();
    assert!((theta[0] - 1.0).abs() < 0.1);
    assert!((theta[1] - 2.0).abs() < 0.1);
    assert_eq!(model.fitting_info().iteration_count, 19);
}

#[test]
fn stochastic_gradient_descent_approaches_the_line() {
    let data = line();
    let model = GradientDescent::fit::<StochasticKernel>(&data, &settings(20000)).unwrap();
    let theta = model.theta().to_vec();
    assert!((theta[0] - 1.0).abs() < 0.1);
    assert!((theta[1] - 2.0).abs() < 0.1);
    assert_eq!(model.fitting_info().iteration_count, 20);
}

#[test]
fn a_fitted_model_predicts() {
    let data = line();
    let model = GradientDescent::fit::<BatchKernel>(&data, &settings(20000)).unwrap();
    let features = Array1::from_vec(vec![1.0, 5.0]);
    let prediction = model.predict(&features.view()).unwrap();
    assert!((prediction - 11.0).abs() < 0.5);
    let wrong = Array1::from_vec(vec![1.0]);
    assert_eq!(
        model.predict(&wrong.view()).err(),
        Some(LinearRegressionError::OperationFailed)
    );
}

#[test]
fn fitting_info_counts_the_passes() {
    let data = line();
    let model = GradientDescent::fit::<BatchKernel>(&data, &settings(5)).unwrap();
    assert_eq!(model.fitting_info(), FittingInfo { iteration_count: 5 });
}

#[test]
fn a_fit_refuses_starting_coefficients_of_the_wrong_length() {
    let data = line();
    let mut wrong = settings(5);
    wrong.starting_theta = Array1::from_vec(vec![0.0, 0.0, 0.0]);
    assert_eq!(
        GradientDescent::fit::<BatchKernel>(&data, &wrong).err(),
        Some(LinearRegressionError::OperationFailed)
    );
}

#[test]
fn lms_solve_fills_in_the_settings() {
    let data = line();
    let fit = lms_solve::<f64, BatchKernel, _>(
        data.x.view(),
        data.y.view(),
        None,
        |_: ArrayView1<f64>| 1.0,
    )
    .unwrap();
    assert!(fit.iteration_count <= 10000);
    assert_eq!(fit.theta.len(), 2);
}

#[test]
fn locally_weighted_regression_answers_a_query() {
    let data = line();
    let model = LocallyWeightedLinearRegression::new(
        &data,
        Settings { common_settings: settings(20000), bandwith: 1.0 },
    );
    let query = Array1::from_vec(vec![1.0, 1.5]);
    let prediction = model.predict(&query.view()).unwrap();
    assert!((prediction - 6.0674783665380545).abs() < 1e-6);
}

#[test]
fn locally_weighted_regression_refuses_a_query_of_the_wrong_length() {
    let data = line();
    let model = LocallyWeightedLinearRegression::new(
        &data,
        Settings { common_settings: settings(10), bandwith: 1.0 },
    );
    let query = Array1::from_vec(vec![1.0, 1.5, 2.0]);
    assert!(model.predict(&query.view()).is_err());
}

#[test]
fn the_quotient_of_change_and_examples_decides() {
    // 6 / 3 = 2
    assert_eq!(after_change(6.0, 3.0, &2.5, 0, 10), Progress::Converged);
    assert_eq!(after_change(6.0, 3.0, &2.0, 0, 10), Progress::Continue);
    assert_eq!(after_change(6.0, 3.0, &2.0, 10, 10), Progress::Exhausted);
    assert_eq!(after_change(-6.0, 3.0, &2.0, 0, 10), Progress::Converged);
    assert_eq!(after_change(7, 2, &4, 3, 3), Progress::Converged);
    assert_eq!(after_change(8, 2, &4, 3, 3), Progress::Exhausted);
    assert_eq!(after_change(8, 2, &4, 2, 3), Progress::Continue);
}
