use linalg::array_base::Array2;
use linalg::array_base::Transpose;
use linalg::cholesky::LMatrix;
use linalg::cholesky::LLT;
use linalg::dot::Dot;
use linalg::order::greater;
use linalg::LinalgError;

#[test]
fn test_llt_decomposition() {
    let a = Array2::from_shape_vec(
        [3, 3],
        vec![4.0, 12.0, -16.0, 12.0, 37.0, -43.0, -16.0, -43.0, 98.0],
    )
    .unwrap();
    let l_matrix = a.llt().unwrap();
    let l_2d = l_matrix.to_2d_array();
    let reconstructed_a = l_2d.dot(&l_2d.t()).unwrap();
    assert_eq!(a.to_nested(), reconstructed_a.to_nested());
}

#[test]
fn llt_gives_the_known_factor() {
    let a = Array2::from_shape_vec(
        [3, 3],
        vec![4.0, 12.0, -16.0, 12.0, 37.0, -43.0, -16.0, -43.0, 98.0],
    )
    .unwrap();
    let l = a.llt().unwrap().to_2d_array();
    assert_eq!(
        l.to_nested(),
        vec![vec![2.0, 0.0, 0.0], vec![6.0, 1.0, 0.0], vec![-8.0, 5.0, 3.0]]
    );
}

#[test]
fn llt_refuses_a_matrix_that_is_not_square() {
    let a = Array2::from_shape_vec([2, 3], vec![1.0, 2.0, 3.0, 4.0, 5.0, 6.0]).unwrap();
    assert!(a.llt().is_err());
}

#[test]
fn inverse_of_the_identity_is_the_identity() {
    let identity = Array2::from_shape_vec(
        [3, 3],
        vec![1.0, 0.0, 0.0, 0.0, 1.0, 0.0, 0.0, 0.0, 1.0],
    )
    .unwrap();
    let inverse = identity.llt().unwrap().inv();
    assert_eq!(inverse.to_nested(), identity.to_nested());
}

#[test]
fn inverse_of_a_known_matrix() {
    let a = Array2::<f64>::from_shape_vec([2, 2], vec![4.0, 2.0, 2.0, 2.0]).unwrap();
    let inverse = a.llt().unwrap().inv();
    let rows = inverse.to_nested();
    let expected: [[f64; 2]; 2] = [[0.5, -0.5], [-0.5, 1.0]];
    for i in 0..2 {
        for j in 0..2 {
            assert!((rows[i][j] - expected[i][j]).abs() < 1e-12);
        }
    }
}

#[test]
fn packed_index_runs_row_by_row() {
    assert_eq!(LMatrix::<f64>::index_to_l(0, 0), 0);
    assert_eq!(LMatrix::<f64>::index_to_l(1, 0), 1);
    assert_eq!(LMatrix::<f64>::index_to_l(1, 1), 2);
    assert_eq!(LMatrix::<f64>::index_to_l(2, 0), 3);
    assert_eq!(LMatrix::<f64>::index_to_l(3, 2), 8);
    for k in 0..100 {
        let (i, j) = LMatrix::<f64>::index_from_l(k);
        assert!(j <= i);
        assert_eq!(LMatrix::<f64>::index_to_l(i, j), k);
    }
}

#[test]
fn llt_with_a_square_root_of_whole_numbers() {
    let a = Array2::from_shape_vec([3, 3], vec![4i64, 12, -16, 12, 37, -43, -16, -43, 98]).unwrap();
    let root = |x: i64| -> i64 {
        let mut r = 0;
        while (r + 1) * (r + 1) <= x {
            r += 1;
        }
        r
    };
    let l = a.llt_with(root).unwrap();
    assert_eq!(l.n(), 3);
    assert_eq!(l.l(0, 0), 2);
    assert_eq!(l.l(1, 0), 6);
    assert_eq!(l.l(1, 1), 1);
    assert_eq!(l.l(2, 0), -8);
    assert_eq!(l.l(2, 1), 5);
    assert_eq!(l.l(2, 2), 3);
    assert_eq!(l.lt(0, 2), -8);
    assert_eq!(l.lt(1, 2), 5);
    assert_eq!(
        l.to_2d_array().to_nested(),
        vec![vec![2, 0, 0], vec![6, 1, 0], vec![-8, 5, 3]]
    );
}

#[test]
fn llt_reads_the_lower_triangle_only() {
    let a = Array2::from_shape_vec([2, 2], vec![4.0, 1000.0, 2.0, 2.0]).unwrap();
    let l = a.llt().unwrap().to_2d_array();
    assert_eq!(l.to_nested(), vec![vec![2.0, 0.0], vec![1.0, 1.0]]);
}

#[test]
fn a_negative_first_pivot_is_refused() {
    let a = Array2::<f64>::from_shape_vec([2, 2], vec![-1.0, 0.0, 0.0, 1.0]).unwrap();
    assert_eq!(a.llt().err(), Some(LinalgError::SingularMatrix));
}

#[test]
fn a_pivot_of_zero_is_refused() {
    let a = Array2::<f64>::from_shape_vec([1, 1], vec![0.0]).unwrap();
    assert_eq!(a.llt().err(), Some(LinalgError::SingularMatrix));
}

#[test]
fn a_later_pivot_that_is_not_positive_is_refused() {
    // l[0, 0] = 1, l[1, 0] = 1, and the second pivot is 1 - 1 * 1 = 0
    let a = Array2::<f64>::from_shape_vec([2, 2], vec![1.0, 1.0, 1.0, 1.0]).unwrap();
    assert_eq!(a.llt().err(), Some(LinalgError::SingularMatrix));
    // l[0, 0] = 2, l[1, 0] = 3, and the second pivot is 5 - 3 * 3 = -4
    let b = Array2::<f64>::from_shape_vec([2, 2], vec![4.0, 6.0, 6.0, 5.0]).unwrap();
    assert_eq!(b.llt().err(), Some(LinalgError::SingularMatrix));
}

#[test]
fn a_pivot_that_is_not_a_number_is_refused() {
    let a = Array2::<f64>::from_shape_vec([1, 1], vec![f64::NAN]).unwrap();
    assert_eq!(a.llt().err(), Some(LinalgError::SingularMatrix));
}

#[test]
fn a_matrix_that_is_not_square_is_refused_before_any_pivot() {
    let a = Array2::<f64>::from_shape_vec([1, 2], vec![-1.0, 0.0]).unwrap();
    assert_eq!(a.llt().err(), Some(LinalgError::DimensionMismatch));
}

#[test]
fn pivots_are_compared_in_whole_numbers_too() {
    let whole_root = |x: i64| (x as f64).sqrt() as i64;
    let a = Array2::<i64>::from_shape_vec([2, 2], vec![4, 4, 4, 4]).unwrap();
    assert_eq!(a.llt_with(whole_root).err(), Some(LinalgError::SingularMatrix));
    let b = Array2::<i64>::from_shape_vec([2, 2], vec![4, 6, 6, 25]).unwrap();
    let l = b.llt_with(whole_root).unwrap();
    assert_eq!(l.to_2d_array().to_nested(), vec![vec![2, 0], vec![3, 4]]);
}

#[test]
fn greater_is_the_strict_order() {
    assert!(greater(&2, &1));
    assert!(!greater(&1, &1));
    assert!(!greater(&0, &1));
    assert!(greater(&0.5, &0.0));
    assert!(!greater(&-0.0, &0.0));
    assert!(!greater(&f64::NAN, &0.0));
}

#[test]
fn the_factor_of_an_empty_matrix_is_empty() {
    let a = Array2::<f64>::from_shape_vec([0, 0], Vec::new()).unwrap();
    let l = a.llt().unwrap();
    assert_eq!(l.n(), 0);
    assert_eq!(l.inv().dim(), [0, 0]);
}

#[test]
fn the_inverse_times_the_matrix_is_the_identity() {
    let a = Array2::from_shape_vec(
        [3, 3],
        vec![4.0, 12.0, -16.0, 12.0, 37.0, -43.0, -16.0, -43.0, 98.0],
    )
    .unwrap();
    let inverse = a.llt().unwrap().inv();
    let product = inverse.dot(&a).unwrap().to_nested();
    for i in 0..3 {
        for j in 0..3 {
            let expected: f64 = if i == j { 1.0 } else { 0.0 };
            assert!((product[i][j] - expected).abs() < 1e-9);
        }
    }
}

#[test]
fn a_pivot_that_rounding_leaves_above_zero_is_not_refused() {
    // l[1, 0] = 2 / sqrt(2) is rounded down, so that the second pivot
    // 2 - l[1, 0] * l[1, 0] comes out as 4.440892098500626e-16
    let a = Array2::<f64>::from_shape_vec([2, 2], vec![2.0, 2.0, 2.0, 2.0]).unwrap();
    let l = a.llt().unwrap();
    assert_eq!(l.l(1, 0) * l.l(1, 0), 1.9999999999999996);
    assert_eq!(l.l(1, 1), 4.440892098500626e-16_f64.sqrt());
}
