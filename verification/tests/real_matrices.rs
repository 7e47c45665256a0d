use libmat::err::DimensionError;
use libmat::mat::Matrix;
use libmat::num::{
    AddIdentity, Addition, Division, IdentityLaws, Magnitude, MulIdentity, Multiplication,
    Negation, PivotLaws, Subtraction,
};

/// An `f32` with the numeric capabilities that the library asks for.
#[derive(Debug, PartialEq, PartialOrd, Clone, Copy)]
struct R32(f32);

impl AddIdentity for R32 {
    fn zero_spec() -> Self {
        unreachable!()
    }

    fn is_zero_spec(self) -> bool {
        unreachable!()
    }

    fn zero_value() -> Self {
        R32(0.0)
    }

    fn is_zero_value(self) -> bool {
        self.0 == 0.0
    }

    fn law_zero_is_zero() {}
}

impl MulIdentity for R32 {
    fn one_spec() -> Self {
        unreachable!()
    }

    fn is_one_spec(self) -> bool {
        unreachable!()
    }

    fn one_value() -> Self {
        R32(1.0)
    }

    fn is_one_value(self) -> bool {
        self.0 == 1.0
    }

    fn law_one_is_one() {}
}

impl Addition for R32 {
    fn plus_spec(self, _rhs: Self) -> Self {
        unreachable!()
    }

    fn plus(self, rhs: Self) -> Self {
        R32(self.0 + rhs.0)
    }
}

impl Subtraction for R32 {
    fn minus_spec(self, _rhs: Self) -> Self {
        unreachable!()
    }

    fn minus(self, rhs: Self) -> Self {
        R32(self.0 - rhs.0)
    }
}

impl Multiplication for R32 {
    fn times_spec(self, _rhs: Self) -> Self {
        unreachable!()
    }

    fn times(self, rhs: Self) -> Self {
        R32(self.0 * rhs.0)
    }
}

impl Negation for R32 {
    fn negated_spec(self) -> Self {
        unreachable!()
    }

    fn negated(self) -> Self {
        R32(-self.0)
    }
}

impl Division for R32 {
    fn over_spec(self, _rhs: Self) -> Self {
        unreachable!()
    }

    fn over(self, rhs: Self) -> Self {
        R32(self.0 / rhs.0)
    }
}

impl Magnitude for R32 {
    fn magnitude_spec(self) -> Self {
        unreachable!()
    }

    fn exceeds_spec(self, _other: Self) -> bool {
        unreachable!()
    }

    fn is_negligible_spec(self) -> bool {
        unreachable!()
    }

    fn magnitude(self) -> Self {
        R32(self.0.abs())
    }

    fn exceeds(self, other: Self) -> bool {
        self.0 > other.0
    }

    fn is_negligible(self) -> bool {
        self.0 < 0.000001
    }
}

impl IdentityLaws for R32 {
    fn law_plus_zero(_a: Self) {}

    fn law_times_zero(_a: Self) {}

    fn law_times_one(_a: Self) {}
}

impl PivotLaws for R32 {
    fn law_zero_negligible() {}

    fn law_pivot_nonzero(_a: Self) {}

    fn law_magnitude_zero() {}

    fn law_exceeds_asymmetric(_a: Self, _b: Self) {}

    fn law_one_dominates() {}

    fn law_neutral(_a: Self) {}
}

/// An `f64` with the numeric capabilities that the library asks for.
#[derive(Debug, PartialEq, PartialOrd, Clone, Copy)]
struct R64(f64);

impl AddIdentity for R64 {
    fn zero_spec() -> Self {
        unreachable!()
    }

    fn is_zero_spec(self) -> bool {
        unreachable!()
    }

    fn zero_value() -> Self {
        R64(0.0)
    }

    fn is_zero_value(self) -> bool {
        self.0 == 0.0
    }

    fn law_zero_is_zero() {}
}

impl MulIdentity for R64 {
    fn one_spec() -> Self {
        unreachable!()
    }

    fn is_one_spec(self) -> bool {
        unreachable!()
    }

    fn one_value() -> Self {
        R64(1.0)
    }

    fn is_one_value(self) -> bool {
        self.0 == 1.0
    }

    fn law_one_is_one() {}
}

impl Addition for R64 {
    fn plus_spec(self, _rhs: Self) -> Self {
        unreachable!()
    }

    fn plus(self, rhs: Self) -> Self {
        R64(self.0 + rhs.0)
    }
}

impl Subtraction for R64 {
    fn minus_spec(self, _rhs: Self) -> Self {
        unreachable!()
    }

    fn minus(self, rhs: Self) -> Self {
        R64(self.0 - rhs.0)
    }
}

impl Multiplication for R64 {
    fn times_spec(self, _rhs: Self) -> Self {
        unreachable!()
    }

    fn times(self, rhs: Self) -> Self {
        R64(self.0 * rhs.0)
    }
}

impl Negation for R64 {
    fn negated_spec(self) -> Self {
        unreachable!()
    }

    fn negated(self) -> Self {
        R64(-self.0)
    }
}

impl Division for R64 {
    fn over_spec(self, _rhs: Self) -> Self {
        unreachable!()
    }

    fn over(self, rhs: Self) -> Self {
        R64(self.0 / rhs.0)
    }
}

impl Magnitude for R64 {
    fn magnitude_spec(self) -> Self {
        unreachable!()
    }

    fn exceeds_spec(self, _other: Self) -> bool {
        unreachable!()
    }

    fn is_negligible_spec(self) -> bool {
        unreachable!()
    }

    fn magnitude(self) -> Self {
        R64(self.0.abs())
    }

    fn exceeds(self, other: Self) -> bool {
        self.0 > other.0
    }

    fn is_negligible(self) -> bool {
        self.0 < 0.000001
    }
}

impl IdentityLaws for R64 {
    fn law_plus_zero(_a: Self) {}

    fn law_times_zero(_a: Self) {}

    fn law_times_one(_a: Self) {}
}

impl PivotLaws for R64 {
    fn law_zero_negligible() {}

    fn law_pivot_nonzero(_a: Self) {}

    fn law_magnitude_zero() {}

    fn law_exceeds_asymmetric(_a: Self, _b: Self) {}

    fn law_one_dominates() {}

    fn law_neutral(_a: Self) {}
}

fn r32(values: &[f32]) -> Vec<R32> {
    values.iter().map(|x| R32(*x)).collect()
}

fn r64(values: &[f64]) -> Vec<R64> {
    values.iter().map(|x| R64(*x)).collect()
}

#[test]
fn double_inverse() -> Result<(), DimensionError> {
    let mat_a = Matrix::from_vec(2, 2, r64(&[1.0, 2.0, 3.0, 4.0]))?;
    let mat_b = Matrix::from_vec(2, 2, r64(&[-2.0, 1.0, 1.5, -0.5]))?;
    assert_eq!(mat_a.clone().inv()?, Some(mat_b.clone()));
    assert_eq!(mat_b.inv()?, Some(mat_a));
    Ok(())
}

#[test]
fn double_inverse_3() -> Result<(), DimensionError> {
    let mat_a = Matrix::from_vec(3, 3, r64(&[0.0, 1.0, 2.0, 1.0, 2.0, 3.0, 3.0, 1.0, 1.0]))?;
    let mat_b = Matrix::from_vec(
        3,
        3,
        r64(&[0.5, -0.5, 0.5, -4.0, 3.0, -1.0, 2.5, -1.5, 0.5]),
    )?;
    assert_eq!(mat_a.clone().inv()?, Some(mat_b.clone()));
    assert_eq!(mat_b.inv()?, Some(mat_a));
    Ok(())
}

#[test]
fn not_square() -> Result<(), DimensionError> {
    let a = Matrix::new(3, 4, R64(1_f64))?;
    assert_eq!(a.det(), Err(DimensionError::NoSquare));
    Ok(())
}

#[test]
fn id_mat() -> Result<(), DimensionError> {
    let a: Matrix<R32> = Matrix::one(3)?;
    assert_eq!(a.det()?, R32(1_f32));
    let b: Matrix<R32> = Matrix::one(100)?;
    assert_eq!(b.det()?, R32(1_f32));
    Ok(())
}

#[test]
fn some_dets() -> Result<(), DimensionError> {
    let a = Matrix::<R32>::from_vec(3, 3, r32(&[1.0, 2.0, 3.0, 3.0, 2.0, 1.0, 2.0, 1.0, 3.0]))?;
    assert_eq!(a.det()?, R32(-12_f32));
    let b = Matrix::<R32>::from_vec(
        8,
        8,
        vec![
            8, 6, 1, 0, 1, 9, 5, 9, 9, 9, 0, 8, 4, 3, 4, 0, 5, 6, 5, 1, 0, 9, 4, 6, 4, 9, 8, 3, 5,
            1, 10, 6, 3, 10, 7, 4, 9, 2, 0, 1, 2, 1, 6, 8, 7, 3, 2, 9, 1, 7, 1, 4, 4, 9, 0, 0, 7,
            6, 4, 0, 10, 4, 5, 9,
        ]
        .iter()
        .map(|x| R32((*x as i16).into()))
        .collect(),
    )?;
    assert_eq!(b.det()?, R32(-15546220_f32));
    Ok(())
}

#[test]
fn construct() -> Result<(), DimensionError> {
    let m = Matrix::new(2, 2, R64(1.0_f64))?;
    assert_eq!(m, Matrix::from_vec(2, 2, r64(&[1.0, 1.0, 1.0, 1.0]))?);
    Ok(())
}

#[test]
fn identity() -> Result<(), DimensionError> {
    let mat_a: Matrix<R32> = Matrix::<R32>::one(3)?;
    assert_eq!(
        mat_a,
        Matrix::from_vec(3, 3, r32(&[1.0, 0.0, 0.0, 0.0, 1.0, 0.0, 0.0, 0.0, 1.0]))?
    );
    Ok(())
}

#[test]
fn multiply() -> Result<(), DimensionError> {
    let mat_a: Matrix<R32> = Matrix::<R32>::one(3)?;
    let mat_c: Matrix<R32> =
        Matrix::from_vec(3, 3, r32(&[1.0, 2.0, 3.0, 3.0, 2.0, 1.0, 1.0, 2.0, 3.0]))?;
    let mat_e: Matrix<R32> = Matrix::from_vec(
        3,
        4,
        r32(&[4.0, 5.0, 6.0, 5.0, 6.0, 5.0, 4.0, 5.0, 4.0, 6.0, 5.0, 5.0]),
    )?;
    let mat_f: Matrix<R32> = Matrix::from_vec(
        3,
        4,
        r32(&[
            28.0, 33.0, 29.0, 30.0, 28.0, 31.0, 31.0, 30.0, 28.0, 33.0, 29.0, 30.0,
        ]),
    )?;
    assert_eq!((mat_a.clone() * mat_c.clone())?, mat_c);
    assert_eq!((mat_c.clone() * mat_a)?, mat_c);
    assert_eq!((mat_c * mat_e)?, mat_f);
    Ok(())
}

#[test]
fn invalid_mul() -> Result<(), DimensionError> {
    let mat_c: Matrix<R32> =
        Matrix::from_vec(3, 3, r32(&[1.0, 2.0, 3.0, 3.0, 2.0, 1.0, 1.0, 2.0, 3.0]))?;
    let mat_e: Matrix<R32> = Matrix::from_vec(
        3,
        4,
        r32(&[4.0, 5.0, 6.0, 5.0, 6.0, 5.0, 4.0, 5.0, 4.0, 6.0, 5.0, 5.0]),
    )?;
    assert_eq!(
        mat_e.clone() * mat_c.clone(),
        Err(DimensionError::NoMatch(
            mat_e.dims(),
            mat_c.dims(),
            "multiply".to_owned()
        ))
    );
    Ok(())
}

#[test]
fn scale() -> Result<(), DimensionError> {
    let mat_a: Matrix<R32> = Matrix::<R32>::one(3)?;
    let mat_d: Matrix<R32> = Matrix::<R32>::diag(3, R32(2.0))?;
    assert_eq!(mat_a * R32(2.0), mat_d);
    Ok(())
}

#[test]
fn add() -> Result<(), DimensionError> {
    let mat_a: Matrix<R32> = Matrix::<R32>::one(3)?;
    let mat_d: Matrix<R32> = Matrix::<R32>::diag(3, R32(2.0))?;
    assert_eq!((mat_a.clone() + mat_a)?, mat_d);
    Ok(())
}

#[test]
fn sub() -> Result<(), DimensionError> {
    let mat_a: Matrix<R32> = Matrix::<R32>::one(3)?;
    let mat_b: Matrix<R32> = Matrix::<R32>::zero(3, 3)?;
    assert_eq!((mat_a.clone() - mat_a)?, mat_b);
    Ok(())
}

#[test]
fn decomposition_of_a_real_matrix() -> Result<(), DimensionError> {
    let a = Matrix::from_vec(2, 2, r64(&[4.0, 3.0, 6.0, 3.0]))?;
    let (lu, p) = a.lupdecompose()?.unwrap();
    assert_eq!(lu, Matrix::from_vec(2, 2, r64(&[4.0, 3.0, 1.5, -1.5]))?);
    assert_eq!(p, vec![0, 1, 2]);
    assert_eq!(a.det()?, R64(-6.0));
    Ok(())
}

#[test]
fn a_pivot_below_the_tolerance_is_singular() -> Result<(), DimensionError> {
    let tiny = Matrix::from_vec(2, 2, r64(&[0.0000001, 0.0, 0.0, 1.0]))?;
    assert_eq!(tiny.lupdecompose()?, None);
    assert_eq!(tiny.det()?, R64(0.0));
    let small = Matrix::from_vec(2, 2, r64(&[0.00001, 0.0, 0.0, 1.0]))?;
    assert_eq!(small.det()?, R64(0.00001));
    Ok(())
}

#[test]
fn division_of_a_real_matrix() -> Result<(), DimensionError> {
    let mat_a = Matrix::new(3, 3, R32(1.0))?;
    assert_eq!(mat_a.clone() / R32(2.0), Some(mat_a.clone() * R32(0.5)));
    assert_eq!(mat_a / R32(0.0), None);
    Ok(())
}

#[test]
fn real_addition_is_commutative_and_associative_up_to_rounding() -> Result<(), DimensionError> {
    let a = Matrix::from_vec(2, 2, r64(&[0.1, 0.2, 0.3, 0.4]))?;
    let b = Matrix::from_vec(2, 2, r64(&[1.0e10, -2.5, 3.25, 7.0]))?;
    let c = Matrix::from_vec(2, 2, r64(&[-1.0e10, 0.7, 1.0e-3, -7.0]))?;
    assert_eq!((a.clone() + b.clone())?, (b.clone() + a.clone())?);
    let left = ((a.clone() + b.clone())? + c.clone())?;
    let right = (a + (b + c)?)?;
    for i in 0..2 {
        for j in 0..2 {
            assert!((left.entry(i, j).0 - right.entry(i, j).0).abs() < 1.0e-5);
        }
    }
    Ok(())
}
