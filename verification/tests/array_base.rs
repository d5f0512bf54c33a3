use linalg::arithmetic::Arithmetic;
use linalg::array::NDArray;
use linalg::array_base::Array1;
use linalg::array_base::Array2;
use linalg::array_base::ArrayBase;
use linalg::array_base::Axis;
use linalg::array_base::Transpose;
use linalg::dot::Dot;
use linalg::layout::RowMajor;
use linalg::LinalgError;

#[test]
fn an_array_reports_its_shape() {
    let a = Array2::from_shape_vec([2, 3], vec![1, 2, 3, 4, 5, 6]).unwrap();
    assert_eq!(a.len(), 6);
    assert_eq!(a.len_of(Axis(0)), 2);
    assert_eq!(a.len_of(Axis(1)), 3);
    assert_eq!(a.dim(), [2, 3]);
    assert_eq!(a.shape(), &[2, 3]);
    assert_eq!(a.strides(), &[3, 1]);
    assert_eq!(a.nrows(), 2);
    assert_eq!(a.ncols(), 3);
}

#[test]
fn an_array_can_be_built_on_an_array_of_the_engine() {
    let inner = NDArray::<i32, RowMajor, 2>::from_vec(vec![1, 2, 3, 4], [2, 2]).unwrap();
    let a = ArrayBase::new(inner);
    assert_eq!(a.get([1, 0]), 3);
    assert_eq!(a.inner_impl().get_element([0, 1]), 2);
}

#[test]
fn from_shape_vec_refuses_values_that_do_not_fill_the_shape() {
    let result = Array2::from_shape_vec([2, 3], vec![1, 2, 3, 4, 5]);
    assert_eq!(result.err(), Some(LinalgError::DimensionMismatch));
}

#[test]
fn zeros_and_from_elem() {
    let a = Array2::<f64>::zeros([2, 2]);
    assert_eq!(a.to_nested(), vec![vec![0.0, 0.0], vec![0.0, 0.0]]);
    let b = Array1::from_elem([3], 7);
    assert_eq!(b.to_vec(), vec![7, 7, 7]);
}

#[test]
fn into_shape_turns_a_vector_into_a_column() {
    let v = Array1::from_vec(vec![1, 2, 3]);
    let column = v.into_shape([3, 1]).unwrap();
    assert_eq!(column.to_nested(), vec![vec![1], vec![2], vec![3]]);
    let back = column.into_shape([3]).unwrap();
    assert_eq!(back.to_vec(), vec![1, 2, 3]);
    assert_eq!(back.into_shape([2, 2]).err(), Some(LinalgError::DimensionMismatch));
}

#[test]
fn a_row_of_a_matrix() {
    let a = Array2::from_shape_vec([2, 3], vec![1, 2, 3, 4, 5, 6]).unwrap();
    assert_eq!(a.row(0).to_vec(), vec![1, 2, 3]);
    assert_eq!(a.row(1).to_vec(), vec![4, 5, 6]);
}

#[test]
fn a_view_of_a_matrix() {
    let a = Array2::from_shape_vec([2, 2], vec![1, 2, 3, 4]).unwrap();
    let view = a.view();
    assert_eq!(view.dim(), [2, 2]);
    assert_eq!(view.to_nested(), vec![vec![1, 2], vec![3, 4]]);
}

#[test]
fn the_transpose_of_a_matrix() {
    let a = Array2::from_shape_vec([2, 3], vec![1, 2, 3, 4, 5, 6]).unwrap();
    let t = a.t();
    assert_eq!(t.dim(), [3, 2]);
    assert_eq!(t.nrows(), 3);
    assert_eq!(t.ncols(), 2);
    assert_eq!(t.to_nested(), vec![vec![1, 4], vec![2, 5], vec![3, 6]]);
    assert_eq!(t.t().to_nested(), a.to_nested());
}

#[test]
fn push_row_grows_a_matrix() {
    let mut a = Array2::from_shape_vec([1, 2], vec![1, 2]).unwrap();
    let row = Array1::from_vec(vec![3, 4]);
    assert_eq!(a.push_row(row.view()), Ok(()));
    assert_eq!(a.to_nested(), vec![vec![1, 2], vec![3, 4]]);
    let short = Array1::from_vec(vec![5]);
    assert_eq!(a.push_row(short.view()), Err(LinalgError::DimensionMismatch));
    assert_eq!(a.to_nested(), vec![vec![1, 2], vec![3, 4]]);
}

#[test]
fn assign_and_set_at() {
    let mut a = Array2::from_elem([2, 2], 0);
    let b = Array2::from_shape_vec([2, 2], vec![1, 2, 3, 4]).unwrap();
    a.assign(&b);
    assert_eq!(a.to_nested(), vec![vec![1, 2], vec![3, 4]]);
    a.set_at(0, 1, 20);
    assert_eq!(a.to_nested(), vec![vec![1, 20], vec![3, 4]]);
    a.set([1, 0], 30);
    assert_eq!(a.to_nested(), vec![vec![1, 20], vec![30, 4]]);
}

#[test]
fn dot_of_whole_numbers() {
    let a = Array1::from_vec(vec![1i64, 2, 3]);
    let b = Array1::from_vec(vec![4i64, 5, 6]);
    assert_eq!(a.dot(&b), Ok(32));
    let empty = Array1::<i64>::from_vec(Vec::new());
    assert_eq!(empty.dot(&empty), Ok(0));
}

#[test]
fn dot_refuses_vectors_of_different_lengths() {
    let a = Array1::from_vec(vec![1.0, 2.0, 3.0]);
    let b = Array1::from_vec(vec![4.0, 5.0]);
    assert_eq!(a.dot(&b), Err(LinalgError::DimensionMismatch));
}

#[test]
fn the_matrix_product_refuses_inner_extents_that_differ() {
    let a = Array2::from_shape_vec([2, 3], vec![1.0, 2.0, 3.0, 4.0, 5.0, 6.0]).unwrap();
    let b = Array2::from_shape_vec([2, 2], vec![1.0, 2.0, 3.0, 4.0]).unwrap();
    assert_eq!(a.dot(&b).err(), Some(LinalgError::DimensionMismatch));
}

#[test]
fn the_matrix_product_refuses_an_answer_that_does_not_fit_a_word() {
    let a = Array2::<f64>::from_shape_vec([1 << 40, 0], Vec::new()).unwrap();
    let b = Array2::<f64>::from_shape_vec([0, 1 << 40], Vec::new()).unwrap();
    assert_eq!(a.dot(&b).err(), Some(LinalgError::AllocationError));
}

#[test]
fn the_matrix_product_of_matrices_that_are_not_square() {
    let a = Array2::from_shape_vec([2, 3], vec![1, 2, 3, 4, 5, 6]).unwrap();
    let b = Array2::from_shape_vec([3, 2], vec![7, 8, 9, 10, 11, 12]).unwrap();
    let product = a.dot(&b).unwrap();
    assert_eq!(product.to_nested(), vec![vec![58, 64], vec![139, 154]]);
    let other = a.dot(&a.t()).unwrap();
    assert_eq!(other.to_nested(), vec![vec![14, 32], vec![32, 77]]);
}

#[test]
fn scaled_add_adds_a_multiple() {
    let a = Array1::from_vec(vec![1.0, 2.0, 3.0]);
    let b = Array1::from_vec(vec![10.0, 20.0, 30.0]);
    assert_eq!(a.scaled_add(0.5, &b).to_vec(), vec![6.0, 12.0, 18.0]);
    let c = Array1::from_vec(vec![1, 2, 3]);
    let d = Array1::from_vec(vec![4, 5, 6]);
    assert_eq!(c.scaled_add(-2, &d).to_vec(), vec![-7, -8, -9]);
}

#[test]
fn scaled_add_stops_with_the_shorter_vector() {
    let a = Array1::from_vec(vec![1, 2, 3]);
    let b = Array1::from_vec(vec![10, 20]);
    assert_eq!(a.scaled_add(1, &b).to_vec(), vec![11, 22]);
    assert_eq!(b.scaled_add(1, &a).to_vec(), vec![11, 22]);
}

#[test]
fn sums_and_differences_of_vectors() {
    let a = Array1::from_vec(vec![1.0, 2.0, 3.0]);
    let b = Array1::from_vec(vec![0.5, 0.25, 4.0]);
    assert_eq!(Arithmetic::add(&a, &b).to_vec(), vec![1.5, 2.25, 7.0]);
    assert_eq!(Arithmetic::sub(&a, &b).to_vec(), vec![0.5, 1.75, -1.0]);
    let c = Array1::from_vec(vec![5i32, 7]);
    let d = Array1::from_vec(vec![2i32, 9]);
    assert_eq!(Arithmetic::add(&c, &d).to_vec(), vec![7, 16]);
    assert_eq!(Arithmetic::sub(&c, &d).to_vec(), vec![3, -2]);
}

#[test]
fn set_column_overwrites_one_column_only() {
    let mut a = Array2::from_shape_vec([3, 2], vec![1, 2, 3, 4, 5, 6]).unwrap();
    a.set_column(1, &[20, 40, 60]);
    assert_eq!(a.to_nested(), vec![vec![1, 20], vec![3, 40], vec![5, 60]]);
    a.set_column(0, &[10, 30, 50]);
    assert_eq!(a.to_nested(), vec![vec![10, 20], vec![30, 40], vec![50, 60]]);
}

#[test]
fn set_row_overwrites_one_row_only() {
    let mut a = Array2::from_shape_vec([3, 2], vec![1, 2, 3, 4, 5, 6]).unwrap();
    a.set_row(1, &[30, 40]);
    assert_eq!(a.to_nested(), vec![vec![1, 2], vec![30, 40], vec![5, 6]]);
    a.set_row(2, &[50, 60]);
    assert_eq!(a.to_nested(), vec![vec![1, 2], vec![30, 40], vec![50, 60]]);
    assert_eq!(a.row(0).to_vec(), vec![1, 2]);
}

#[test]
fn set_column_of_a_matrix_without_rows_changes_nothing() {
    let mut a = Array2::<i32>::from_shape_vec([0, 2], Vec::new()).unwrap();
    a.set_column(1, &[]);
    assert_eq!(a.dim(), [0, 2]);
    assert_eq!(a.len(), 0);
}
