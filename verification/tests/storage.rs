use linalg::array::NDArray;
use linalg::data::Data;
use linalg::layout::ColumnMajor;
use linalg::layout::RowMajor;
use linalg::ndstorage::NDStorage;
use linalg::ownership::Owning;
use linalg::LinalgError;

type Owned<A, L, const N: usize> = NDStorage<'static, A, Owning, L, N>;

#[test]
fn a_buffer_takes_over_a_vector() {
    let data = Data::from_vec(vec![1, 2, 3]);
    assert_eq!(data.len(), 3);
    assert_eq!(data.get(0), 1);
    assert_eq!(data.get(2), 3);
    assert_eq!(data.to_vec(), vec![1, 2, 3]);
}

#[test]
fn a_buffer_of_zeros() {
    let data = Data::<i32, Owning>::zeros(4);
    assert_eq!(data.to_vec(), vec![0, 0, 0, 0]);
    let data = Data::<f64, Owning>::zeros(0);
    assert_eq!(data.len(), 0);
}

#[test]
fn a_filled_buffer() {
    let data = Data::filled(3, 7u8);
    assert_eq!(data.to_vec(), vec![7, 7, 7]);
}

#[test]
fn append_puts_the_new_elements_behind_the_old() {
    let mut data = Data::from_vec(vec![1, 2, 3]);
    assert_eq!(data.append(vec![4, 5]), Ok(()));
    assert_eq!(data.to_vec(), vec![1, 2, 3, 4, 5]);
    assert_eq!(data.append(Vec::new()), Ok(()));
    assert_eq!(data.to_vec(), vec![1, 2, 3, 4, 5]);
}

#[test]
fn set_overwrites_one_element() {
    let mut data = Data::from_vec(vec![1, 2, 3]);
    data.set(1, 20);
    assert_eq!(data.to_vec(), vec![1, 20, 3]);
}

#[test]
fn a_window_sees_the_elements_of_its_owner() {
    let data = Data::from_vec(vec![1, 2, 3, 4]);
    let all = data.as_view();
    assert_eq!(all.to_vec(), vec![1, 2, 3, 4]);
    let part = data.slice(1, 3);
    assert_eq!(part.to_vec(), vec![2, 3]);
    let part_of_part = part.slice(1, 2);
    assert_eq!(part_of_part.to_vec(), vec![3]);
    let none = data.slice(2, 2);
    assert_eq!(none.len(), 0);
}

#[test]
fn the_clone_of_an_owned_buffer_is_a_buffer_of_its_own() {
    let data = Data::from_vec(vec![1, 2, 3]);
    let mut copy = data.clone();
    copy.set(0, 10);
    assert_eq!(data.to_vec(), vec![1, 2, 3]);
    assert_eq!(copy.to_vec(), vec![10, 2, 3]);
}

#[test]
fn the_clone_of_a_window_is_a_window() {
    let data = Data::from_vec(vec![1, 2, 3]);
    let window = data.as_view();
    let copy = window.clone();
    assert_eq!(copy.to_vec(), vec![1, 2, 3]);
}

#[test]
fn the_number_of_elements_is_the_product_of_the_extents() {
    let a = Owned::<i64, RowMajor, 3>::zeros([3, 3, 7]);
    assert_eq!(a.len(), 63);
    let b = Owned::<i64, ColumnMajor, 3>::zeros([3, 3, 7]);
    assert_eq!(b.len(), 63);
    let c = Owned::<i64, RowMajor, 0>::zeros([]);
    assert_eq!(c.len(), 1);
}

#[test]
fn the_last_index_maps_to_the_last_slot() {
    let a = Owned::<i64, RowMajor, 3>::zeros([3, 3, 7]);
    assert_eq!(a.offset(&[2, 2, 6]), 62);
    let b = Owned::<i64, ColumnMajor, 3>::zeros([3, 3, 7]);
    assert_eq!(b.offset(&[2, 2, 6]), 62);
    let c = Owned::<i64, RowMajor, 4>::zeros([2, 1, 5, 3]);
    assert_eq!(c.offset(&[1, 0, 4, 2]), 29);
    let d = Owned::<i64, ColumnMajor, 4>::zeros([2, 1, 5, 3]);
    assert_eq!(d.offset(&[1, 0, 4, 2]), 29);
}

#[test]
fn the_offset_is_the_sum_of_index_times_stride() {
    let a = Owned::<i64, RowMajor, 3>::zeros([3, 3, 7]);
    assert_eq!(a.offset(&[1, 2, 3]), 21 + 14 + 3);
    let b = Owned::<i64, ColumnMajor, 3>::zeros([3, 3, 7]);
    assert_eq!(b.offset(&[1, 2, 3]), 1 + 6 + 27);
}

#[test]
fn an_array_with_an_empty_axis_has_no_elements() {
    let a = Owned::<f64, RowMajor, 2>::zeros([0, 5]);
    assert_eq!(a.len(), 0);
    assert_eq!(*a.dimensions(), [0, 5]);
    let b = Owned::<f64, RowMajor, 3>::from_vec(Vec::new(), [3, 0, 2]).unwrap();
    assert_eq!(b.len(), 0);
    assert_eq!(b.get_checked([0, 0, 0]), None);
}

#[test]
fn from_vec_refuses_too_few_values() {
    let result = Owned::<i32, RowMajor, 2>::from_vec(vec![1, 2, 3], [2, 2]);
    assert_eq!(result.err(), Some(LinalgError::DimensionMismatch));
}

#[test]
fn from_vec_refuses_too_many_values() {
    let result = Owned::<i32, ColumnMajor, 2>::from_vec(vec![1, 2, 3, 4, 5], [2, 2]);
    assert_eq!(result.err(), Some(LinalgError::DimensionMismatch));
}

#[test]
fn from_vec_refuses_extents_that_do_not_fit_a_word() {
    let result = Owned::<i32, RowMajor, 2>::from_vec(vec![1, 2], [usize::MAX, 2]);
    assert_eq!(result.err(), Some(LinalgError::DimensionMismatch));
}

#[test]
fn from_vec_keeps_the_values_in_order() {
    let a = Owned::<i32, RowMajor, 2>::from_vec(vec![1, 2, 3, 4, 5, 6], [2, 3]).unwrap();
    assert_eq!(a.to_vec(), vec![1, 2, 3, 4, 5, 6]);
    assert_eq!(a.get([0, 0]), 1);
    assert_eq!(a.get([0, 2]), 3);
    assert_eq!(a.get([1, 0]), 4);
    assert_eq!(a.get([1, 2]), 6);
    let b = Owned::<i32, ColumnMajor, 2>::from_vec(vec![1, 2, 3, 4, 5, 6], [2, 3]).unwrap();
    assert_eq!(b.get([0, 0]), 1);
    assert_eq!(b.get([1, 0]), 2);
    assert_eq!(b.get([0, 1]), 3);
    assert_eq!(b.get([1, 2]), 6);
}

#[test]
fn checked_reads_answer_none_outside_the_array() {
    let a = Owned::<i32, RowMajor, 2>::from_vec(vec![1, 2, 3, 4, 5, 6], [2, 3]).unwrap();
    assert_eq!(a.get_checked([1, 2]), Some(6));
    assert_eq!(a.get_checked([2, 0]), None);
    assert_eq!(a.get_checked([0, 3]), None);
    assert_eq!(a.get_checked([usize::MAX, usize::MAX]), None);
    let array = NDArray::<i32, RowMajor, 2>::from_vec(vec![1, 2, 3, 4], [2, 2]).unwrap();
    assert_eq!(array.get_element_checked([1, 1]), Some(4));
    assert_eq!(array.get_element_checked([1, 2]), None);
}

#[test]
fn set_writes_where_get_reads() {
    let mut a = Owned::<i32, ColumnMajor, 2>::filled([2, 3], 0);
    a.set([1, 2], 9);
    assert_eq!(a.get([1, 2]), 9);
    assert_eq!(a.to_vec(), vec![0, 0, 0, 0, 0, 9]);
}

#[test]
fn push_row_keeps_the_old_elements_and_appends_the_row() {
    let mut a = Owned::<i32, RowMajor, 2>::from_vec(vec![1, 2, 3, 4, 5, 6], [2, 3]).unwrap();
    assert_eq!(a.push_row(vec![7, 8, 9]), Ok(()));
    assert_eq!(*a.dimensions(), [3, 3]);
    assert_eq!(*a.strides(), [3, 1]);
    assert_eq!(a.to_vec(), vec![1, 2, 3, 4, 5, 6, 7, 8, 9]);
    assert_eq!(a.nrows(), 3);
    assert_eq!(a.ncols(), 3);
}

#[test]
fn push_row_refuses_a_row_of_the_wrong_length() {
    let mut a = Owned::<i32, RowMajor, 2>::from_vec(vec![1, 2, 3, 4, 5, 6], [2, 3]).unwrap();
    assert_eq!(a.push_row(vec![7, 8]), Err(LinalgError::DimensionMismatch));
    assert_eq!(a.push_row(vec![7, 8, 9, 10]), Err(LinalgError::DimensionMismatch));
    assert_eq!(a.push_row(Vec::new()), Err(LinalgError::DimensionMismatch));
    assert_eq!(*a.dimensions(), [2, 3]);
    assert_eq!(a.to_vec(), vec![1, 2, 3, 4, 5, 6]);
}

#[test]
fn push_row_onto_an_array_without_rows() {
    let mut a = Owned::<i32, RowMajor, 2>::from_vec(Vec::new(), [0, 2]).unwrap();
    assert_eq!(a.push_row(vec![1, 2]), Ok(()));
    assert_eq!(*a.dimensions(), [1, 2]);
    assert_eq!(a.to_vec(), vec![1, 2]);
}

#[test]
fn push_row_refuses_a_row_count_that_does_not_fit_a_word() {
    let mut a = Owned::<i32, RowMajor, 2>::from_vec(Vec::new(), [usize::MAX, 0]).unwrap();
    assert_eq!(a.push_row(Vec::new()), Err(LinalgError::AllocationError));
    assert_eq!(*a.dimensions(), [usize::MAX, 0]);
}

#[test]
fn rows_and_columns_of_a_column_major_store() {
    let a = Owned::<i32, ColumnMajor, 2>::from_vec(vec![1, 2, 3, 4, 5, 6], [2, 3]).unwrap();
    assert_eq!(a.nrows(), 3);
    assert_eq!(a.ncols(), 2);
}

#[test]
fn a_view_shares_extents_strides_and_elements() {
    let a = Owned::<i32, RowMajor, 2>::from_vec(vec![1, 2, 3, 4, 5, 6], [2, 3]).unwrap();
    let view = a.view();
    assert_eq!(*view.dimensions(), [2, 3]);
    assert_eq!(*view.strides(), [3, 1]);
    assert_eq!(view.get([1, 1]), 5);
    let view_of_view = view.view();
    assert_eq!(view_of_view.to_vec(), vec![1, 2, 3, 4, 5, 6]);
}

#[test]
fn a_row_is_a_run_of_neighbouring_elements() {
    let a = Owned::<i32, RowMajor, 2>::from_vec(vec![1, 2, 3, 4, 5, 6], [2, 3]).unwrap();
    let row = a.row(1);
    assert_eq!(*row.dimensions(), [3]);
    assert_eq!(*row.strides(), [1]);
    assert_eq!(row.to_vec(), vec![4, 5, 6]);
    assert_eq!(a.row(0).to_vec(), vec![1, 2, 3]);
}

#[test]
fn the_transpose_swaps_rows_and_columns() {
    let a = Owned::<i32, RowMajor, 2>::from_vec(vec![1, 2, 3, 4, 5, 6], [2, 3]).unwrap();
    let t = a.transposed();
    assert_eq!(*t.dimensions(), [3, 2]);
    assert_eq!(*t.strides(), [1, 3]);
    for i in 0..2 {
        for j in 0..3 {
            assert_eq!(t.get([j, i]), a.get([i, j]));
        }
    }
    let back = t.transposed();
    assert_eq!(*back.dimensions(), [2, 3]);
    assert_eq!(*back.strides(), [3, 1]);
    assert_eq!(back.get([1, 2]), 6);
}

#[test]
fn into_shape_keeps_the_buffer() {
    let a = Owned::<i32, RowMajor, 2>::from_vec(vec![1, 2, 3, 4, 5, 6], [2, 3]).unwrap();
    let b = a.into_shape([3, 2]).unwrap();
    assert_eq!(*b.dimensions(), [3, 2]);
    assert_eq!(*b.strides(), [2, 1]);
    assert_eq!(b.to_vec(), vec![1, 2, 3, 4, 5, 6]);
    let c = b.into_shape([6]).unwrap();
    assert_eq!(*c.dimensions(), [6]);
    assert_eq!(c.get([4]), 5);
}

#[test]
fn into_shape_refuses_extents_of_another_size() {
    let a = Owned::<i32, RowMajor, 2>::from_vec(vec![1, 2, 3, 4, 5, 6], [2, 3]).unwrap();
    assert_eq!(a.into_shape([4, 2]).err(), Some(LinalgError::DimensionMismatch));
}

#[test]
fn update_dimensions_recomputes_the_strides() {
    let mut a = Owned::<i32, RowMajor, 2>::from_vec(vec![1, 2, 3, 4, 5, 6], [2, 3]).unwrap();
    a.update_dimensions([6, 1]);
    assert_eq!(*a.dimensions(), [6, 1]);
    assert_eq!(*a.strides(), [1, 1]);
    assert_eq!(a.get([5, 0]), 6);
}

#[test]
fn assign_copies_the_elements_of_the_other_store() {
    let mut a = Owned::<i32, RowMajor, 2>::filled([2, 2], 0);
    let b = Owned::<i32, RowMajor, 2>::from_vec(vec![1, 2, 3, 4], [2, 2]).unwrap();
    a.assign(&b.view());
    assert_eq!(a.to_vec(), vec![1, 2, 3, 4]);
}

#[test]
fn the_clone_of_an_owned_store_does_not_share_its_buffer() {
    let a = Owned::<i32, RowMajor, 2>::from_vec(vec![1, 2, 3, 4], [2, 2]).unwrap();
    let mut copy = a.clone();
    copy.set([0, 0], 9);
    assert_eq!(a.get([0, 0]), 1);
    assert_eq!(copy.get([0, 0]), 9);
    assert_eq!(*copy.dimensions(), [2, 2]);
    assert_eq!(*copy.strides(), [2, 1]);
}

#[test]
fn different_elements_lie_in_different_slots() {
    let row_major: Owned<i32, RowMajor, 3> = NDStorage::zeros([2, 3, 4]);
    let column_major: Owned<i32, ColumnMajor, 3> = NDStorage::zeros([2, 3, 4]);
    let mut seen_by_rows = vec![false; 24];
    let mut seen_by_columns = vec![false; 24];
    for i in 0..2 {
        for j in 0..3 {
            for k in 0..4 {
                let by_rows = row_major.offset(&[i, j, k]);
                let by_columns = column_major.offset(&[i, j, k]);
                assert!(!seen_by_rows[by_rows]);
                assert!(!seen_by_columns[by_columns]);
                seen_by_rows[by_rows] = true;
                seen_by_columns[by_columns] = true;
            }
        }
    }
    assert!(seen_by_rows.iter().all(|seen| *seen));
    assert!(seen_by_columns.iter().all(|seen| *seen));
}
