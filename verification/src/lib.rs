//! Dense linear algebra over generic numeric types: dimension-checked
//! matrices and vectors with arithmetic, transposition, LU decomposition,
//! determinant, reduced row echelon form and inversion.

pub mod err;
pub mod mat;
pub mod num;
