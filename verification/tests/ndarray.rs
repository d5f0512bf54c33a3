use linalg::array::NDArray;
use linalg::layout::ColumnMajor;
use linalg::layout::RowMajor;

#[test]
fn ndarray_impl_create_zeros_array() {
    let a = NDArray::<f64, RowMajor, 3>::zeros([3, 3, 7]);
    assert_eq!(*a.storage.strides(), [21, 7, 1]);
    assert_eq!(a.get_element([0, 0, 4]), 0.0);

    let b = NDArray::<f64, ColumnMajor, 3>::zeros([3, 3, 7]);
    assert_eq!(*b.storage.strides(), [1, 3, 9]);
}

#[test]
fn ndarray_impl_create_array_from_vec() {
    let v = vec![0.2, 0.3, 0.4, 0.5, 0.6, 0.7, 0.8];
    let a = NDArray::<f64, RowMajor, 2>::from_vec(v, [1, 7]).unwrap();
    assert_eq!(*a.storage.strides(), [7, 1]);
    assert_eq!(a.get_element([0, 4]), 0.6);

    let v2 = vec![0.1, 0.2, 0.3, 0.4, 0.5, 0.6, 0.7, 0.8, 0.9, 1.0, 1.1, 1.2];
    let a2 = NDArray::<f64, ColumnMajor, 3>::from_vec(v2, [3, 2, 2]).unwrap();
    assert_eq!(*a2.storage.strides(), [1, 3, 6]);
    assert_eq!(a2.get_element([0, 1, 1]), 1.0);
}

#[test]
fn ndarray_impl_push_row() {
    let v = vec![1., 2., 3., 4., 5., 6., 7., 8., 9., 10., 11., 12.];
    let mut a = NDArray::<f64, RowMajor, 2>::from_vec(v, [3, 4]).unwrap();
    let result = a.push_row(vec![13., 14., 15., 16.]);
    result.expect("should be fine");
    assert_eq!(*a.storage.strides(), [4, 1]);
    assert_eq!(*a.storage.dimensions(), [4, 4]);
    assert_eq!(a.get_element([3, 2]), 15.);
}

#[test]
fn ndarray_create_zeros_array() {
    let a = NDArray::<f64, RowMajor, 3>::zeros([3, 3, 7]);
    assert_eq!(*a.storage.strides(), [21, 7, 1]);
    assert_eq!(a.get_element([0, 0, 4]), 0.0);

    let b = NDArray::<f64, ColumnMajor, 3>::zeros([3, 3, 7]);
    assert_eq!(*b.storage.strides(), [1, 3, 9]);
}

#[test]
fn ndarray_create_array_from_vec() {
    let v = vec![0.2, 0.3, 0.4, 0.5, 0.6, 0.7, 0.8];
    let a = NDArray::<f64, RowMajor, 2>::from_vec(v, [1, 7]).unwrap();
    assert_eq!(*a.storage.strides(), [7, 1]);
    assert_eq!(a.get_element([0, 4]), 0.6);

    let v2 = vec![0.1, 0.2, 0.3, 0.4, 0.5, 0.6, 0.7, 0.8, 0.9, 1.0, 1.1, 1.2];
    let a2 = NDArray::<f64, ColumnMajor, 3>::from_vec(v2, [3, 2, 2]).unwrap();
    assert_eq!(*a2.storage.strides(), [1, 3, 6]);
    assert_eq!(a2.get_element([0, 1, 1]), 1.0);
}

#[test]
fn ndarray_push_row() {
    let v = vec![1., 2., 3., 4., 5., 6., 7., 8., 9., 10., 11., 12.];
    let mut a = NDArray::<f64, RowMajor, 2>::from_vec(v, [3, 4]).unwrap();
    let result = a.push_row(vec![13., 14., 15., 16.]);
    result.expect("should be fine");
    assert_eq!(*a.storage.strides(), [4, 1]);
    assert_eq!(*a.storage.dimensions(), [4, 4]);
    assert_eq!(a.get_element([3, 2]), 15.);
}

#[test]
fn macro_test() {
    let a = NDArray::<f64, RowMajor, 3>::from_vec(
        vec![5.2, 1.2, 2.2, 3.3, 4.0, 52.0, 5.2, 1.2, 2.2, 3.3, 4.0, 56.0],
        [2, 3, 2],
    )
    .unwrap();
    assert_eq!(a.get_element([0, 0, 1]), 1.2);
    assert_eq!(a.get_element([0, 1, 0]), 2.2);
    assert_eq!(a.get_element([1, 2, 1]), 56.0);
}

#[test]
fn a_new_array_holds_copies_of_one_value() {
    let a = NDArray::<i32, ColumnMajor, 2>::new([2, 3], 7);
    assert_eq!(*a.storage.dimensions(), [2, 3]);
    assert_eq!(*a.storage.strides(), [1, 2]);
    assert_eq!(a.storage.to_vec(), vec![7, 7, 7, 7, 7, 7]);
    assert_eq!(a.get_element([1, 2]), 7);
}

#[test]
fn a_view_of_an_array() {
    let a = NDArray::<i32, RowMajor, 2>::from_vec(vec![1, 2, 3, 4], [2, 2]).unwrap();
    let view = a.view();
    assert_eq!(view.get_element([1, 0]), 3);
    assert_eq!(*view.storage.strides(), [2, 1]);
}

#[test]
fn rows_and_columns_of_an_array() {
    let a = NDArray::<i32, RowMajor, 2>::from_vec(vec![1, 2, 3, 4, 5, 6], [2, 3]).unwrap();
    assert_eq!(a.nrows(), 2);
    assert_eq!(a.ncols(), 3);
}

#[test]
fn the_clone_of_an_array_has_a_buffer_of_its_own() {
    let a = NDArray::<i32, RowMajor, 2>::from_vec(vec![1, 2, 3, 4], [2, 2]).unwrap();
    let mut copy = a.clone();
    copy.storage.set([0, 0], 9);
    assert_eq!(a.get_element([0, 0]), 1);
    assert_eq!(copy.get_element([0, 0]), 9);
}
