use linalg::array_base::Array1;
use linalg::array_base::Array2;
use linalg::array_base::Transpose;
use linalg::dot::Dot;

#[test]
fn test_vector_vector_dot() {
    let a = Array1::from_vec(vec![1.0, 2.0, 3.0]);
    let b = Array1::from_vec(vec![4.0, 5.0, 6.0]);
    let result = a.dot(&b).unwrap();
    assert_eq!(result, 32.0);
}

#[test]
fn test_matrix_matrix_dot() {
    let a = Array2::from_shape_vec([2, 2], vec![1.0, 2.0, 3.0, 4.0]).unwrap();
    let b = Array2::from_shape_vec([2, 2], vec![5.0, 6.0, 7.0, 8.0]).unwrap();
    let result = a.dot(&b).unwrap();
    assert_eq!(result.to_nested(), vec![vec![19.0, 22.0], vec![43.0, 50.0]]);
}

#[test]
fn test_row_vector_matrix_dot() {
    let a = Array2::from_shape_vec([1, 2], vec![1.0, 2.0]).unwrap();
    let b = Array2::from_shape_vec([2, 2], vec![3.0, 4.0, 5.0, 6.0]).unwrap();
    let result = a.dot(&b).unwrap();
    assert_eq!(result.to_nested(), vec![vec![13.0, 16.0]]);
}

#[test]
fn test_matrix_column_vector_dot() {
    let a = Array2::from_shape_vec([2, 2], vec![1.0, 2.0, 3.0, 4.0]).unwrap();
    let b = Array2::from_shape_vec([1, 2], vec![5.0, 6.0]).unwrap();
    let result = a.dot(&b.t()).unwrap();

    let expected_result = Array2::from_shape_vec([1, 2], vec![17.0, 39.0]).unwrap();
    assert_eq!(result.to_nested(), expected_result.t().to_nested());
}
