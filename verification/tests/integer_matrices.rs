use libmat::err::{DimensionError, MatrixError};
use libmat::mat::{Dimensions, Matrix, Vector};

fn sample() -> Matrix<i64> {
    Matrix::from_vec(2, 3, vec![1, 2, 3, 4, 5, 6]).unwrap()
}

#[test]
fn null_mat() -> Result<(), DimensionError> {
    let a: Matrix<i32> = Matrix::zero(3, 3)?;
    assert_eq!(a.det()?, 0);
    Ok(())
}

#[test]
fn one_idx() -> Result<(), DimensionError> {
    let a = Matrix::<u32>::one(3)?;
    assert_eq!(a.row(0), Ok(&[1_u32, 0, 0][..]));
    assert_eq!(a.row(1), Ok(&[0_u32, 1, 0][..]));
    assert_eq!(a.row(2), Ok(&[0_u32, 0, 1][..]));
    Ok(())
}

#[test]
fn double_idx() -> Result<(), DimensionError> {
    let a = Matrix::<u32>::one(3)?;
    assert_eq!(a.row(0).unwrap()[0], 1);
    assert_eq!(a.row(0).unwrap()[1], 0);
    assert_eq!(a.row(1).unwrap()[1], 1);
    Ok(())
}

#[test]
fn matrix_macro() -> Result<(), DimensionError> {
    let mat_a: Matrix<u32> = Matrix::from_vec(3, 3, vec![1, 0, 0, 0, 1, 0, 0, 0, 1])?;
    assert_eq!(mat_a, Matrix::<u32>::one(3)?);
    Ok(())
}

#[test]
fn vector_macro() -> Result<(), DimensionError> {
    let vec_a = Vector::from_vec(vec![1, 1, 1, 1])?;
    assert_eq!(vec_a, Vector::new(4, 1)?);
    Ok(())
}

#[test]
fn row_index_at_row_count_is_out_of_bounds() {
    let a = Matrix::<u32>::one(3).unwrap();
    assert_eq!(a.row(3), Err(MatrixError::IndexOutOfBounds(3)));
    assert_eq!(a.row(7), Err(MatrixError::IndexOutOfBounds(7)));
    let mut b = Matrix::<u32>::one(3).unwrap();
    assert_eq!(b.set(3, 0, 9), Err(MatrixError::IndexOutOfBounds(3)));
    assert_eq!(b, Matrix::<u32>::one(3).unwrap());
}

#[test]
fn dimensions_reject_zero() {
    assert_eq!(Dimensions::new(0, 3), Err(DimensionError::InvalidDimensions));
    assert_eq!(Dimensions::new(3, 0), Err(DimensionError::InvalidDimensions));
    let d = Dimensions::new(3, 4).unwrap();
    assert_eq!(d.rows(), 3);
    assert_eq!(d.cols(), 4);
    assert!(!d.is_square());
    assert!(Dimensions::new(5, 5).unwrap().is_square());
}

#[test]
fn zero_matrix_holds_zero_everywhere() {
    let z = Matrix::<i64>::zero(2, 3).unwrap();
    assert_eq!(z.rows(), 2);
    assert_eq!(z.cols(), 3);
    assert_eq!(z.dims(), Dimensions::new(2, 3).unwrap());
    for i in 0..2 {
        for j in 0..3 {
            assert_eq!(z.entry(i, j), 0);
        }
    }
    assert!(!z.is_square());
}

#[test]
fn construction_with_a_zero_count_fails() {
    assert_eq!(
        Matrix::new(0, 3, 1_i32),
        Err(DimensionError::InvalidDimensions)
    );
    assert_eq!(
        Matrix::new(3, 0, 1_i32),
        Err(DimensionError::InvalidDimensions)
    );
    assert_eq!(
        Matrix::<i32>::zero(0, 0),
        Err(DimensionError::InvalidDimensions)
    );
    assert_eq!(Matrix::<i32>::one(0), Err(DimensionError::InvalidDimensions));
    assert_eq!(
        Matrix::<i32>::diag(0, 5),
        Err(DimensionError::InvalidDimensions)
    );
    assert_eq!(
        Matrix::<i32>::from_vec(0, 0, vec![]),
        Err(DimensionError::InvalidDimensions)
    );
}

#[test]
fn construction_from_data_of_the_wrong_length_fails() {
    assert_eq!(
        Matrix::<i32>::from_vec(2, 2, vec![]),
        Err(DimensionError::InvalidInputDimensions(0, 4))
    );
    assert_eq!(
        Matrix::from_vec(2, 3, vec![1, 2, 3, 4, 5]),
        Err(DimensionError::InvalidInputDimensions(5, 6))
    );
    assert_eq!(
        Matrix::from_vec(0, 3, vec![1]),
        Err(DimensionError::InvalidInputDimensions(1, 0))
    );
    assert_eq!(
        Matrix::diag_with(3, &[1, 2]),
        Err(DimensionError::InvalidInputDimensions(2, 3))
    );
    assert_eq!(
        Matrix::<i32>::diag_with(0, &[]),
        Err(DimensionError::InvalidDimensions)
    );
}

#[test]
fn diagonal_constructors() {
    assert_eq!(
        Matrix::diag(3, 7).unwrap(),
        Matrix::from_vec(3, 3, vec![7, 0, 0, 0, 7, 0, 0, 0, 7]).unwrap()
    );
    assert_eq!(
        Matrix::diag(3, 1_i32).unwrap(),
        Matrix::<i32>::one(3).unwrap()
    );
    assert_eq!(
        Matrix::diag_with(3, &[4, 5, 6]).unwrap(),
        Matrix::from_vec(3, 3, vec![4, 0, 0, 0, 5, 0, 0, 0, 6]).unwrap()
    );
}

#[test]
fn entries_are_stored_row_major() {
    let mut m = sample();
    assert_eq!(m.entry(0, 0), 1);
    assert_eq!(m.entry(0, 2), 3);
    assert_eq!(m.entry(1, 0), 4);
    assert_eq!(m.entry(1, 2), 6);
    *m.entry_mut(1, 1) = 50;
    assert_eq!(m, Matrix::from_vec(2, 3, vec![1, 2, 3, 4, 50, 6]).unwrap());
    assert_eq!(m.set(0, 2, 30), Ok(()));
    assert_eq!(m, Matrix::from_vec(2, 3, vec![1, 2, 30, 4, 50, 6]).unwrap());
    assert_eq!(m.row(1), Ok(&[4_i64, 50, 6][..]));
    assert_eq!(m.clone(), m);
}

#[test]
fn transpose_exchanges_rows_and_columns() {
    let mat_a = Matrix::from_vec(3, 4, vec![1, 2, 3, 4, 5, 6, 7, 8, 9, 10, 11, 12]).unwrap();
    let mat_b = Matrix::from_vec(4, 3, vec![1, 5, 9, 2, 6, 10, 3, 7, 11, 4, 8, 12]).unwrap();
    assert_eq!(mat_a.transpose(), mat_b);
    assert_eq!(mat_a.transpose().transpose(), mat_a);
    assert_eq!(sample().transpose().transpose(), sample());
}

#[test]
fn identity_times_identity_is_identity() {
    for n in 1..6 {
        let one = Matrix::<i64>::one(n).unwrap();
        assert_eq!((one.clone() * one.clone()).unwrap(), one);
    }
}

#[test]
fn addition_is_commutative_and_associative() {
    let a = sample();
    let b = Matrix::from_vec(2, 3, vec![-7, 0, 9, 11, -13, 2]).unwrap();
    let c = Matrix::from_vec(2, 3, vec![i64::MAX, 1, -1, 100, 200, i64::MIN]).unwrap();
    assert_eq!(
        (a.clone() + b.clone()).unwrap(),
        (b.clone() + a.clone()).unwrap()
    );
    assert_eq!(
        ((a.clone() + b.clone()).unwrap() + c.clone()).unwrap(),
        (a.clone() + (b.clone() + c.clone()).unwrap()).unwrap()
    );
    assert_eq!(
        (a + b).unwrap(),
        Matrix::from_vec(2, 3, vec![-6, 2, 12, 15, -8, 8]).unwrap()
    );
}

#[test]
fn element_wise_operations() {
    let a = sample();
    let b = Matrix::from_vec(2, 3, vec![6, 5, 4, 3, 2, 1]).unwrap();
    assert_eq!(
        (a.clone() - b.clone()).unwrap(),
        Matrix::from_vec(2, 3, vec![-5, -3, -1, 1, 3, 5]).unwrap()
    );
    assert_eq!(
        -a.clone(),
        Matrix::from_vec(2, 3, vec![-1, -2, -3, -4, -5, -6]).unwrap()
    );
    assert_eq!(
        a.clone() * 3,
        Matrix::from_vec(2, 3, vec![3, 6, 9, 12, 15, 18]).unwrap()
    );
    assert_eq!(
        b.clone() / 2,
        Some(Matrix::from_vec(2, 3, vec![3, 2, 2, 1, 1, 0]).unwrap())
    );
    assert_eq!(b.clone() / 0, None);
    let mut m = a.clone();
    m.add_assign(b.clone());
    assert_eq!(m, Matrix::new(2, 3, 7).unwrap());
    m.sub_assign(b);
    assert_eq!(m, a);
    m.mul_assign(-2);
    assert_eq!(m, Matrix::from_vec(2, 3, vec![-2, -4, -6, -8, -10, -12]).unwrap());
    m.div_assign(-2);
    assert_eq!(m, a);
}

#[test]
fn product_of_matrices() {
    let mat_a = Matrix::from_vec(2, 4, vec![1, 2, 3, 4, 5, 6, 7, 8]).unwrap();
    let mat_b = Matrix::from_vec(4, 3, vec![1, 2, 3, 4, 5, 6, 7, 8, 9, 10, 11, 12]).unwrap();
    let mat_c = Matrix::from_vec(2, 3, vec![70, 80, 90, 158, 184, 210]).unwrap();
    assert_eq!((mat_a * mat_b).unwrap(), mat_c);
}

#[test]
fn mismatched_shapes_are_reported_with_both_shapes() {
    let a = Matrix::<i32>::zero(3, 4).unwrap();
    let b = Matrix::<i32>::zero(3, 3).unwrap();
    let three_by_four = Dimensions::new(3, 4).unwrap();
    let three_by_three = Dimensions::new(3, 3).unwrap();
    assert_eq!(
        a.clone() * b.clone(),
        Err(DimensionError::NoMatch(
            three_by_four,
            three_by_three,
            "multiply".to_owned()
        ))
    );
    assert_eq!(
        a.clone() + b.clone(),
        Err(DimensionError::NoMatch(
            three_by_four,
            three_by_three,
            "add".to_owned()
        ))
    );
    assert_eq!(
        b.clone() - a.clone(),
        Err(DimensionError::NoMatch(
            three_by_three,
            three_by_four,
            "subtract".to_owned()
        ))
    );
    assert!((b * a).is_ok());
}

#[test]
fn determinant_of_identity_and_of_zero() {
    for n in 1..7 {
        assert_eq!(Matrix::<i64>::one(n).unwrap().det(), Ok(1));
        assert_eq!(Matrix::<i64>::zero(n, n).unwrap().det(), Ok(0));
    }
}

#[test]
fn square_operations_reject_other_shapes() {
    let a = Matrix::<i32>::zero(3, 4).unwrap();
    assert_eq!(a.det(), Err(DimensionError::NoSquare));
    assert_eq!(a.lupdecompose(), Err(DimensionError::NoSquare));
    assert_eq!(a.inv(), Err(DimensionError::NoSquare));
}

#[test]
fn decomposition_exchanges_columns_for_the_largest_entry_of_the_row() {
    let a = Matrix::<i32>::from_vec(2, 2, vec![1, 2, 3, 4]).unwrap();
    let (lu, p) = a.lupdecompose().unwrap().unwrap();
    assert_eq!(lu, Matrix::from_vec(2, 2, vec![2, 1, 2, 1]).unwrap());
    assert_eq!(p, vec![1, 0, 3]);
    assert_eq!(a.det(), Ok(-2));
    let singular = Matrix::<i32>::from_vec(2, 2, vec![1, 2, 0, 0]).unwrap();
    assert_eq!(singular.lupdecompose(), Ok(None));
    assert_eq!(singular.det(), Ok(0));
}

#[test]
fn the_first_of_equal_magnitudes_is_the_pivot() {
    let a = Matrix::<i32>::from_vec(2, 2, vec![3, -3, 1, 2]).unwrap();
    let (lu, p) = a.lupdecompose().unwrap().unwrap();
    assert_eq!(p, vec![0, 1, 2]);
    assert_eq!(lu, Matrix::from_vec(2, 2, vec![3, -3, 0, 2]).unwrap());
}

#[test]
fn reduced_row_echelon_form() {
    let mat_a = Matrix::<i32>::from_vec(3, 4, vec![1, 2, 3, 4, 5, 6, 7, 8, 9, 10, 11, 12]).unwrap();
    let mat_b = Matrix::from_vec(3, 4, vec![1, 0, -1, -2, 0, 1, 2, 3, 0, 0, 0, 0]).unwrap();
    assert_eq!(mat_a.rref(), mat_b);
    assert_eq!(
        mat_a,
        Matrix::from_vec(3, 4, vec![1, 2, 3, 4, 5, 6, 7, 8, 9, 10, 11, 12]).unwrap()
    );
}

#[test]
fn reduction_raises_a_pivot_from_the_same_column() {
    let m = Matrix::<i32>::from_vec(3, 3, vec![1, 2, 3, 0, 0, 1, 0, 1, 0]).unwrap();
    assert_eq!(m.rref(), Matrix::<i32>::one(3).unwrap());
    let n = Matrix::<i32>::from_vec(2, 3, vec![0, 0, 2, 0, 0, 4]).unwrap();
    assert_eq!(
        n.rref(),
        Matrix::from_vec(2, 3, vec![0, 0, 1, 0, 0, 0]).unwrap()
    );
}

#[test]
fn singular_matrix_has_no_inverse() {
    let mat_c = Matrix::<i32>::from_vec(3, 3, vec![1, 0, 0, 0, 1, 0, 0, 0, 0]).unwrap();
    assert_eq!(mat_c.inv(), Ok(None));
    let one = Matrix::<i32>::one(4).unwrap();
    assert_eq!(one.clone().inv(), Ok(Some(one)));
    let swap = Matrix::<i32>::from_vec(2, 2, vec![0, 1, 1, 0]).unwrap();
    assert_eq!(swap.clone().inv(), Ok(Some(swap)));
}
