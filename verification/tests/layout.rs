use linalg::layout::calculate_strides;
use linalg::layout::checked_product;
use linalg::layout::ColumnMajor;
use linalg::layout::LayoutType;
use linalg::layout::MemoryLayout;
use linalg::layout::NDArrayStorage;
use linalg::layout::RowMajor;

#[test]
fn row_major_strides_multiply_the_later_extents() {
    assert_eq!(RowMajor::calculate_strides([3, 3, 7]), [21, 7, 1]);
    assert_eq!(RowMajor::calculate_strides([2, 5]), [5, 1]);
    assert_eq!(RowMajor::calculate_strides([9]), [1]);
    assert_eq!(RowMajor::calculate_strides::<0>([]), []);
}

#[test]
fn column_major_strides_multiply_the_earlier_extents() {
    assert_eq!(ColumnMajor::calculate_strides([3, 3, 7]), [1, 3, 9]);
    assert_eq!(ColumnMajor::calculate_strides([2, 5]), [1, 2]);
    assert_eq!(ColumnMajor::calculate_strides([9]), [1]);
}

#[test]
fn the_layouts_mirror_each_other() {
    let dimensions = [3, 5, 7, 2];
    let mut reversed = dimensions;
    reversed.reverse();
    let mut mirrored = ColumnMajor::calculate_strides(reversed);
    mirrored.reverse();
    assert_eq!(RowMajor::calculate_strides(dimensions), mirrored);
    let mut mirrored = RowMajor::calculate_strides(reversed);
    mirrored.reverse();
    assert_eq!(ColumnMajor::calculate_strides(dimensions), mirrored);
}

#[test]
fn strides_by_layout_type() {
    assert_eq!(calculate_strides(LayoutType::RowMajor, &[3, 3, 7]), [21, 7, 1]);
    assert_eq!(calculate_strides(LayoutType::ColumnMajor, &[3, 3, 7]), [1, 3, 9]);
}

#[test]
fn an_empty_axis_leaves_the_strides_well_defined() {
    assert_eq!(RowMajor::calculate_strides([4, 0, 3]), [0, 3, 1]);
    assert_eq!(ColumnMajor::calculate_strides([4, 0, 3]), [1, 4, 0]);
}

#[test]
fn strides_that_do_not_fit_a_word_are_reduced() {
    let strides = RowMajor::calculate_strides([0, usize::MAX, 4]);
    assert_eq!(strides, [usize::MAX.wrapping_mul(4), 4, 1]);
    let strides = ColumnMajor::calculate_strides([4, usize::MAX, 0]);
    assert_eq!(strides, [1, 4, usize::MAX.wrapping_mul(4)]);
}

#[test]
fn checked_product_counts_the_elements() {
    assert_eq!(checked_product(&[3, 3, 7]), Some(63));
    assert_eq!(checked_product::<0>(&[]), Some(1));
    assert_eq!(checked_product(&[5]), Some(5));
    assert_eq!(checked_product(&[usize::MAX, 1]), Some(usize::MAX));
}

#[test]
fn checked_product_notices_an_empty_axis_before_an_overflow() {
    assert_eq!(checked_product(&[usize::MAX, usize::MAX, 0]), Some(0));
    assert_eq!(checked_product(&[0, usize::MAX, usize::MAX]), Some(0));
}

#[test]
fn checked_product_refuses_what_does_not_fit_a_word() {
    assert_eq!(checked_product(&[usize::MAX, 2]), None);
    assert_eq!(checked_product(&[1 << 40, 1 << 40]), None);
}

#[test]
fn a_shape_keeps_its_strides_in_step_with_its_extents() {
    let mut shape = NDArrayStorage::new(LayoutType::RowMajor, &[3, 4]);
    assert_eq!(*shape.dimensions(), [3, 4]);
    assert_eq!(*shape.strides(), [4, 1]);
    shape.update_dimensions(&[5, 6]);
    assert_eq!(*shape.dimensions(), [5, 6]);
    assert_eq!(*shape.strides(), [6, 1]);

    let mut shape = NDArrayStorage::new(LayoutType::ColumnMajor, &[3, 4]);
    assert_eq!(*shape.strides(), [1, 3]);
    shape.update_dimensions(&[5, 6]);
    assert_eq!(*shape.strides(), [1, 5]);
}
