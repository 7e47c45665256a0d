use libmat::mat::SMatrix;
use libmat::num::{AddIdentity, Addition, MulIdentity, Multiplication};
use std::fmt::{Display, Formatter};

/// A complex number with the capabilities that scaling a matrix asks for.
#[derive(Debug, PartialEq, Clone, Copy)]
struct Complex {
    re: f64,
    im: f64,
}

impl Complex {
    fn new(re: f64, im: f64) -> Complex {
        Complex { re, im }
    }
}

impl Display for Complex {
    fn fmt(&self, f: &mut Formatter) -> std::fmt::Result {
        f.write_str(&format!("{}+{}i", self.re, self.im))
    }
}

impl AddIdentity for Complex {
    fn zero_spec() -> Self {
        unreachable!()
    }

    fn is_zero_spec(self) -> bool {
        unreachable!()
    }

    fn zero_value() -> Self {
        Complex::new(0.0, 0.0)
    }

    fn is_zero_value(self) -> bool {
        self.re == 0.0 && self.im == 0.0
    }

    fn law_zero_is_zero() {}
}

impl MulIdentity for Complex {
    fn one_spec() -> Self {
        unreachable!()
    }

    fn is_one_spec(self) -> bool {
        unreachable!()
    }

    fn one_value() -> Self {
        Complex::new(1.0, 0.0)
    }

    fn is_one_value(self) -> bool {
        self.re == 1.0 && self.im == 0.0
    }

    fn law_one_is_one() {}
}

impl Addition for Complex {
    fn plus_spec(self, _rhs: Self) -> Self {
        unreachable!()
    }

    fn plus(self, rhs: Self) -> Self {
        Complex::new(self.re + rhs.re, self.im + rhs.im)
    }
}

impl Multiplication for Complex {
    fn times_spec(self, _rhs: Self) -> Self {
        unreachable!()
    }

    fn times(self, rhs: Self) -> Self {
        Complex::new(
            self.re * rhs.re - self.im * rhs.im,
            self.re * rhs.im + self.im * rhs.re,
        )
    }
}

#[test]
fn complex_smat() {
    let smat: SMatrix<Complex, 3, 3> = SMatrix::one() * Complex::new(3.0, 2.0);
    let smat_a: SMatrix<i32, 3, 3> = SMatrix::one();

    println!("{}", smat.to_text());
    println!("{}", smat_a.det());
    assert_eq!(smat.get(0, 0), Complex::new(3.0, 2.0));
    assert_eq!(smat.get(0, 1), Complex::new(0.0, 0.0));
    assert_eq!(smat, SMatrix::diag(Complex::new(3.0, 2.0)));
    assert_eq!(smat_a.det(), 1);
}

#[test]
fn determinant_and_inverse_of_static_matrices() {
    assert_eq!(SMatrix::from([[7]]).det(), 7);
    assert_eq!(SMatrix::from([[1, 2], [3, 4]]).det(), -2);
    assert_eq!(SMatrix::from([[1, 2, 3], [3, 2, 1], [2, 1, 3]]).det(), -12);
    let four = SMatrix::from([[2, 0, 0, 0], [0, 3, 0, 0], [0, 0, 1, 0], [0, 0, 0, 5]]);
    assert_eq!(four.det(), 30);
    assert_eq!(four.det_approx(), 30);
    let (lu, p) = SMatrix::from([[1, 2], [3, 4]]).lupdecompose().unwrap();
    assert_eq!(lu, SMatrix::from([[2, 1], [2, 1]]));
    assert_eq!(p, vec![1, 0, 3]);
    assert_eq!(SMatrix::from([[1, 2], [0, 0]]).lupdecompose(), None);
    let swap = SMatrix::from([[0, 1], [1, 0]]);
    assert_eq!(swap.inv(), Some(swap));
    assert_eq!(SMatrix::from([[1, 0], [0, 0]]).inv(), None);
    let m = SMatrix::from([[1, 2, 3], [4, 5, 6]]);
    assert_eq!(SMatrix::<i32, 2, 3>::from_matrix(&m.to_matrix()), Some(m));
    assert_eq!(SMatrix::<i32, 3, 2>::from_matrix(&m.to_matrix()), None);
}

#[test]
fn wolfram_alpha_syntax() {
    let mat_a = SMatrix::from([[4, 5, 6], [6, 5, 4], [4, 6, 5]]);
    let mat_b = SMatrix::from([[4, 5, 6], [6, 5, 4], [4, 6, 5]]);
    assert_eq!(mat_a, mat_b);
}

#[test]
fn a_new_static_matrix_is_filled() {
    let mat_a: SMatrix<i32, 3, 3> = SMatrix::new(1_i32);
    assert_eq!(mat_a, SMatrix::from([[1, 1, 1], [1, 1, 1], [1, 1, 1]]));
    let mat_b: SMatrix<u32, 2, 3> = SMatrix::new(7);
    assert_eq!(mat_b.as_rows(), &[[7, 7, 7], [7, 7, 7]]);
    assert_eq!(mat_b.row_count(), 2);
    assert_eq!(mat_b.col_count(), 3);
    assert!(!mat_b.is_square());
    assert!(mat_a.is_square());
}

#[test]
fn cells_of_a_static_matrix() {
    let mut m = SMatrix::from([[1, 2, 3], [4, 5, 6]]);
    assert_eq!(m.get(0, 2), 3);
    assert_eq!(m.get(1, 0), 4);
    m.set(1, 1, 50);
    assert_eq!(m, SMatrix::from([[1, 2, 3], [4, 50, 6]]));
}

#[test]
fn transpose_of_a_static_matrix() {
    let mat_a: SMatrix<i32, 4, 3> = SMatrix::from([[1, 2, 3], [3, 2, 1], [2, 3, 1], [3, 1, 2]]);
    assert_eq!(
        mat_a.transpose(),
        SMatrix::from([[1, 3, 2, 3], [2, 2, 3, 1], [3, 1, 1, 2]])
    );
    assert_eq!(mat_a.transpose().transpose(), mat_a);
}

#[test]
fn identity_and_zero() {
    let one: SMatrix<i32, 3, 3> = SMatrix::one();
    assert_eq!(one, SMatrix::from([[1, 0, 0], [0, 1, 0], [0, 0, 1]]));
    let zero: SMatrix<i32, 2, 3> = SMatrix::zero();
    assert_eq!(zero, SMatrix::from([[0, 0, 0], [0, 0, 0]]));
    assert!(zero.is_zero());
    assert!(!one.is_zero());
    assert!(!SMatrix::from([[0, 0], [0, 3]]).is_zero());
    assert_eq!(one * one, one);
}

#[test]
fn diagonal_static_matrices() {
    let d: SMatrix<i32, 3, 3> = SMatrix::diag(4);
    assert_eq!(d, SMatrix::from([[4, 0, 0], [0, 4, 0], [0, 0, 4]]));
    let e: SMatrix<i32, 3, 3> = SMatrix::diag_with(&[1, 2, 3]);
    assert_eq!(e, SMatrix::from([[1, 0, 0], [0, 2, 0], [0, 0, 3]]));
}

#[test]
fn arithmetic_on_static_matrices() {
    let a = SMatrix::from([[1, 2], [3, 4]]);
    let b = SMatrix::from([[10, 20], [30, 40]]);
    assert_eq!(a + b, SMatrix::from([[11, 22], [33, 44]]));
    assert_eq!(b - a, SMatrix::from([[9, 18], [27, 36]]));
    assert_eq!(-a, SMatrix::from([[-1, -2], [-3, -4]]));
    assert_eq!(a * 2, SMatrix::from([[2, 4], [6, 8]]));
    assert_eq!(b / 10, Some(a));
    assert_eq!(b / 0, None);
    let mut m = a;
    m.add_assign(b);
    assert_eq!(m, SMatrix::from([[11, 22], [33, 44]]));
    m.sub_assign(b);
    assert_eq!(m, a);
    m.mul_assign(10);
    assert_eq!(m, b);
    m.div_assign(10);
    assert_eq!(m, a);
    let mut scaled: SMatrix<i32, 3, 3> = SMatrix::one();
    scaled = scaled * 2;
    scaled.set(1, 0, 1);
    scaled.set(1, 2, 3);
    assert_eq!(scaled, SMatrix::from([[2, 0, 0], [1, 2, 3], [0, 0, 2]]));
}

#[test]
fn product_of_static_matrices() {
    let mat_a = SMatrix::from([[1, 2, 3, 4], [5, 6, 7, 8]]);
    let mat_b = SMatrix::from([[1, 2, 3], [4, 5, 6], [7, 8, 9], [10, 11, 12]]);
    assert_eq!(mat_a * mat_b, SMatrix::from([[70, 80, 90], [158, 184, 210]]));
}

#[test]
fn static_matrix_as_text() {
    let m = SMatrix::from([[1, 2, 3], [4, 5, 6]]);
    assert_eq!(m.to_text(), "1\t2\t3\n4\t5\t6");
}
