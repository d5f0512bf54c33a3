use linalg::array_base::Array1;
use linalg::array_base::Array2;
use linalg::linear_regression::LinearRegressionError;
use linalg::LinalgError;
use linalg::linear_regression::LinearRegressionModel;
use linalg::normal_equation::NormalEquation;
use linalg::parametric_algorithm::ParametricAlgorithm;
use linalg::training_data::TrainingData;
use linalg::training_data::TrainingDataError;

fn line() -> TrainingData<f64> {
    // y = 2x + 1 for x = 0, 1, 2, 3
    let records = vec![
        vec![0.0, 1.0],
        vec![1.0, 3.0],
        vec![2.0, 5.0],
        vec![3.0, 7.0],
    ];
    TrainingData::from_records(&records).unwrap()
}

#[test]
fn records_become_examples_with_an_intercept_column() {
    let data = line();
    assert_eq!(data.x.dim(), [4, 2]);
    assert_eq!(
        data.x.to_nested(),
        vec![vec![1.0, 0.0], vec![1.0, 1.0], vec![1.0, 2.0], vec![1.0, 3.0]]
    );
    assert_eq!(data.y.to_vec(), vec![1.0, 3.0, 5.0, 7.0]);
}

#[test]
fn a_table_without_records_is_refused() {
    let records: Vec<Vec<f64>> = Vec::new();
    assert_eq!(
        TrainingData::from_records(&records).err(),
        Some(TrainingDataError::InvalidFileFormatError)
    );
}

#[test]
fn a_ragged_table_is_refused() {
    let records = vec![vec![0.0, 1.0], vec![1.0]];
    assert_eq!(
        TrainingData::from_records(&records).err(),
        Some(TrainingDataError::InvalidFileFormatError)
    );
}

#[test]
fn normal_equation_recovers_a_line() {
    let data = line();
    let model = NormalEquation::new(&data).unwrap();
    let theta = model.theta().to_vec();
    assert_eq!(theta.len(), 2);
    assert!((theta[0] - 1.0).abs() < 1e-9);
    assert!((theta[1] - 2.0).abs() < 1e-9);
}

#[test]
fn normal_equation_predicts_along_the_line() {
    let data = line();
    let model = NormalEquation::new(&data).unwrap();
    let features = Array1::from_vec(vec![1.0, 10.0]);
    let prediction = model.predict(&features.view()).unwrap();
    assert!((prediction - 21.0).abs() < 1e-8);
}

#[test]
fn prediction_refuses_features_of_the_wrong_length() {
    let data = line();
    let model = NormalEquation::new(&data).unwrap();
    let features = Array1::from_vec(vec![1.0, 10.0, 100.0]);
    assert_eq!(
        model.predict(&features.view()).err(),
        Some(LinearRegressionError::OperationFailed)
    );
}

#[test]
fn normal_equation_refuses_targets_that_do_not_match_the_rows() {
    let x = Array2::from_shape_vec([2, 2], vec![1.0, 0.0, 1.0, 1.0]).unwrap();
    let y = Array1::from_vec(vec![1.0, 3.0, 5.0]);
    let data = TrainingData { x, y };
    assert_eq!(
        NormalEquation::new(&data).err(),
        Some(LinearRegressionError::OperationFailed)
    );
}

#[test]
fn a_record_without_numbers_has_the_constant_for_its_target() {
    let records: Vec<Vec<f64>> = vec![Vec::new(), Vec::new()];
    let data = TrainingData::from_records(&records).unwrap();
    assert_eq!(data.x.dim(), [2, 0]);
    assert_eq!(data.y.to_vec(), vec![1.0, 1.0]);
}

#[test]
fn a_record_of_one_number_has_the_constant_for_its_only_feature() {
    let records = vec![vec![5.0], vec![6.0]];
    let data = TrainingData::from_records(&records).unwrap();
    assert_eq!(data.x.to_nested(), vec![vec![1.0], vec![1.0]]);
    assert_eq!(data.y.to_vec(), vec![5.0, 6.0]);
}

#[test]
fn the_copy_of_the_examples_has_arrays_of_its_own() {
    let data = line();
    let mut copy = data.clone();
    copy.x.set_at(0, 1, 9.0);
    assert_eq!(data.x.get([0, 1]), 0.0);
    assert_eq!(copy.x.get([0, 1]), 9.0);
    assert_eq!(copy.y.to_vec(), data.y.to_vec());
}

#[test]
fn normal_equation_with_a_given_square_root() {
    let data = line();
    let model = NormalEquation::new_with(&data, |x: f64| x.sqrt()).unwrap();
    let theta = model.theta().to_vec();
    assert!((theta[0] - 1.0).abs() < 1e-9);
    assert!((theta[1] - 2.0).abs() < 1e-9);
}

#[test]
fn errors_of_arrays_become_errors_of_examples_and_models() {
    assert_eq!(
        TrainingDataError::from(LinalgError::AllocationError),
        TrainingDataError::OutOfMemory
    );
    assert_eq!(
        TrainingDataError::from(LinalgError::DimensionMismatch),
        TrainingDataError::InvalidFileFormatError
    );
    assert_eq!(
        LinearRegressionError::from(LinalgError::DimensionMismatch),
        LinearRegressionError::OperationFailed
    );
    assert_eq!(
        LinearRegressionError::from(LinalgError::AllocationError),
        LinearRegressionError::OperationFailed
    );
    assert_eq!(
        LinearRegressionError::from(LinalgError::SingularMatrix),
        LinearRegressionError::SingularMatrix
    );
    assert_eq!(
        TrainingDataError::from(LinalgError::SingularMatrix),
        TrainingDataError::InvalidFileFormatError
    );
    assert_eq!(
        LinearRegressionError::from(linalg::lms::LMSError::FailedCastToT),
        LinearRegressionError::FailedCastToT
    );
    assert_eq!(
        LinearRegressionError::from(linalg::lms::LMSError::InvalidTheta),
        LinearRegressionError::OperationFailed
    );
}

#[test]
fn normal_equation_refuses_two_equal_columns() {
    // transpose(X) * X = [[2, 2], [2, 2]]: with the whole root 1 of 2, the
    // second pivot is 2 - 2 * 2 = -2
    let x = Array2::<i64>::from_shape_vec([2, 2], vec![1, 1, 1, 1]).unwrap();
    let y = Array1::from_vec(vec![1, 1]);
    let data = TrainingData { x, y };
    let whole_root = |x: i64| (x as f64).sqrt() as i64;
    assert_eq!(
        NormalEquation::new_with(&data, whole_root).err(),
        Some(LinearRegressionError::SingularMatrix)
    );
}

#[test]
fn normal_equation_refuses_a_pivot_of_exactly_zero() {
    // transpose(X) * X = [[4, 4], [4, 4]]: the second pivot is 4 - 2 * 2 = 0
    let x = Array2::<f64>::from_shape_vec([2, 2], vec![2.0, 2.0, 0.0, 0.0]).unwrap();
    let y = Array1::from_vec(vec![1.0, 1.0]);
    let data = TrainingData { x, y };
    assert_eq!(
        NormalEquation::new(&data).err(),
        Some(LinearRegressionError::SingularMatrix)
    );
}

#[test]
fn normal_equation_refuses_a_column_of_zeros() {
    // transpose(X) * X = [[2, 0], [0, 0]]: the second pivot is 0
    let x = Array2::<f64>::from_shape_vec([2, 2], vec![1.0, 0.0, 1.0, 0.0]).unwrap();
    let y = Array1::from_vec(vec![1.0, 1.0]);
    let data = TrainingData { x, y };
    assert_eq!(
        NormalEquation::new(&data).err(),
        Some(LinearRegressionError::SingularMatrix)
    );
}

#[test]
fn normal_equation_refuses_columns_that_are_multiples() {
    // transpose(X) * X = [[3, 6], [6, 12]]: the second pivot, 12 less the
    // square of 6 / sqrt(3), comes out just below zero
    let x = Array2::<f64>::from_shape_vec([3, 2], vec![1.0, 2.0, 1.0, 2.0, 1.0, 2.0]).unwrap();
    let y = Array1::from_vec(vec![1.0, 1.0, 1.0]);
    let data = TrainingData { x, y };
    assert_eq!(
        NormalEquation::new(&data).err(),
        Some(LinearRegressionError::SingularMatrix)
    );
}

#[test]
fn normal_equation_tells_shapes_that_do_not_fit_from_a_refused_pivot() {
    let x = Array2::<f64>::from_shape_vec([2, 2], vec![1.0, 0.0, 1.0, 0.0]).unwrap();
    let y = Array1::from_vec(vec![1.0, 1.0, 1.0]);
    let data = TrainingData { x, y };
    assert_eq!(
        NormalEquation::new(&data).err(),
        Some(LinearRegressionError::OperationFailed)
    );
}
