//! Matrices, vectors and what is computed from them.

pub mod arith;
pub mod dims;
pub mod grid;
pub mod laws;
pub mod lu;
pub mod matrix;
pub mod rref;
pub mod smatrix;
pub mod smatrix_square;
pub mod text;
pub mod vector;
pub mod vector_ops;

pub use dims::Dimensions;
pub use grid::Grid;
pub use matrix::Matrix;
pub use smatrix::SMatrix;
pub use vector::Vector;
