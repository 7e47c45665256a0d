//! The dense matrix: construction, access and transposition.

use crate::err::{DimensionError, MatrixError};
use crate::mat::dims::Dimensions;
use crate::mat::grid::{lemma_flat_index_in_range, lemma_flat_index_split, Grid};
use crate::num::{AddIdentity, MulIdentity};
use vstd::prelude::*;
use vstd::slice::slice_subrange;

verus! {

/// A dense matrix that owns its cells in row-major order.
#[derive(Debug, PartialEq)]
pub struct Matrix<T> {
    dims: Dimensions,
    matrix: Vec<T>,
}

impl<T> View for Matrix<T> {
    type V = Grid<T>;

    closed spec fn view(&self) -> Grid<T> {
        Grid { rows: self.dims@.0, cols: self.dims@.1, cells: self.matrix@ }
    }
}

impl<T> Matrix<T> {
    #[verifier::type_invariant]
    pub closed spec fn well_formed(self) -> bool {
        self.matrix@.len() == self.dims@.0 * self.dims@.1
    }

    /// The matrix of the given shape over the given cells.
    pub(crate) fn assemble(rows: usize, cols: usize, cells: Vec<T>) -> (m: Matrix<T>)
        requires
            rows >= 1,
            cols >= 1,
            cells@.len() == rows * cols,
        ensures
            m@ == (Grid { rows: rows as nat, cols: cols as nat, cells: cells@ }),
            m@.wf(),
    {
        Matrix { dims: Dimensions::of(rows, cols), matrix: cells }
    }

    /// The cells in row-major order, given up by the matrix.
    pub(crate) fn into_cells(self) -> (cells: Vec<T>)
        ensures
            cells@ == self@.cells,
    {
        self.matrix
    }

    /// The number of rows.
    pub fn rows(&self) -> (r: usize)
        ensures
            r == self@.rows,
            self@.wf(),
    {
        proof {
            use_type_invariant(self);
        }
        let _ = self.dims.cols();
        self.dims.rows()
    }

    /// The number of columns.
    pub fn cols(&self) -> (r: usize)
        ensures
            r == self@.cols,
            self@.wf(),
    {
        proof {
            use_type_invariant(self);
        }
        let _ = self.dims.rows();
        self.dims.cols()
    }

    /// The shape.
    pub fn dims(&self) -> (d: Dimensions)
        ensures
            d@ == (self@.rows, self@.cols),
            self@.wf(),
    {
        proof {
            use_type_invariant(self);
        }
        let _ = self.dims.rows();
        let _ = self.dims.cols();
        self.dims
    }

    /// Whether there are as many rows as columns.
    pub fn is_square(&self) -> (b: bool)
        ensures
            b == (self@.rows == self@.cols),
    {
        self.dims.is_square()
    }

    /// A place to write the cell `(i, j)` through: the cell at the flat
    /// index `i * cols + j`.
    pub fn entry_mut(&mut self, i: usize, j: usize) -> (r: &mut T)
        requires
            i * old(self)@.cols + j < old(self)@.rows * old(self)@.cols,
        ensures
            *r == old(self)@.cells[i * old(self)@.cols + j],
            final(self)@ == (Grid {
                rows: old(self)@.rows,
                cols: old(self)@.cols,
                cells: old(self)@.cells.update(i * old(self)@.cols + j, *final(r)),
            }),
    {
        proof {
            use_type_invariant(&*self);
        }
        let cols = self.dims.cols();
        let _ = self.matrix.len();
        &mut self.matrix[i * cols + j]
    }

    /// Row `idx` as a slice of `cols` cells, unless `idx` is not the index
    /// of a row.
    pub fn row(&self, idx: usize) -> (r: Result<&[T], MatrixError>)
        ensures
            match r {
                Ok(s) => idx < self@.rows && s@ == self@.row(idx as int),
                Err(MatrixError::IndexOutOfBounds(k)) => idx >= self@.rows && k == idx,
            },
    {
        proof {
            use_type_invariant(self);
        }
        let rows = self.dims.rows();
        let cols = self.dims.cols();
        if idx >= rows {
            Err(MatrixError::IndexOutOfBounds(idx))
        } else {
            proof {
                lemma_flat_index_in_range(idx as int, 0, rows as nat, cols as nat);
            }
            let _ = self.matrix.len();
            let start = idx * cols;
            Ok(slice_subrange(self.matrix.as_slice(), start, start + cols))
        }
    }

    /// Writes `x` into column `j` of row `i` in place, unless `i` is not the
    /// index of a row. `j` has to be the index of a column.
    pub fn set(&mut self, i: usize, j: usize, x: T) -> (r: Result<(), MatrixError>)
        requires
            j < old(self)@.cols,
        ensures
            match r {
                Ok(_) => i < old(self)@.rows && final(self)@ == old(self)@.with(
                    i as int,
                    j as int,
                    x,
                ),
                Err(MatrixError::IndexOutOfBounds(k)) => i >= old(self)@.rows && k == i
                    && final(self)@ == old(self)@,
            },
    {
        proof {
            use_type_invariant(&*self);
        }
        let rows = self.dims.rows();
        let cols = self.dims.cols();
        if i >= rows {
            Err(MatrixError::IndexOutOfBounds(i))
        } else {
            proof {
                lemma_flat_index_in_range(i as int, j as int, rows as nat, cols as nat);
            }
            let _ = self.matrix.len();
            self.matrix[i * cols + j] = x;
            Ok(())
        }
    }
}

impl<T: Copy> Matrix<T> {
    /// The number of cells.
    pub(crate) fn cell_count(&self) -> (n: usize)
        ensures
            n == self@.cells.len(),
            n == self@.rows * self@.cols,
            self@.wf(),
    {
        proof {
            use_type_invariant(self);
        }
        let _ = self.dims.rows();
        let _ = self.dims.cols();
        self.matrix.len()
    }

    /// The cell at the flat index `k`.
    pub(crate) fn flat(&self, k: usize) -> (r: T)
        requires
            k < self@.cells.len(),
        ensures
            r == self@.cells[k as int],
    {
        self.matrix[k]
    }

    /// Replaces the cell at the flat index `k`.
    pub(crate) fn set_flat(&mut self, k: usize, x: T)
        requires
            k < old(self)@.cells.len(),
        ensures
            final(self)@ == (Grid {
                rows: old(self)@.rows,
                cols: old(self)@.cols,
                cells: old(self)@.cells.update(k as int, x),
            }),
    {
        proof {
            use_type_invariant(&*self);
        }
        self.matrix[k] = x;
    }

    /// The cell `(i, j)`: the one at the flat index `i * cols + j`.
    pub fn entry(&self, i: usize, j: usize) -> (r: T)
        requires
            i * self@.cols + j < self@.rows * self@.cols,
        ensures
            r == self@.cells[i * self@.cols + j],
    {
        proof {
            use_type_invariant(self);
        }
        let cols = self.dims.cols();
        let _ = self.matrix.len();
        self.matrix[i * cols + j]
    }

    /// A matrix with `init` in every cell, where no count is zero.
    fn filled_of(rows: usize, cols: usize, init: T) -> (m: Matrix<T>)
        requires
            rows >= 1,
            cols >= 1,
            rows * cols <= usize::MAX,
        ensures
            m@ == Grid::filled(rows as nat, cols as nat, init),
            m@.wf(),
    {
        let n = rows * cols;
        let mut cells: Vec<T> = Vec::new();
        let mut k: usize = 0;
        while k < n
            invariant
                k <= n,
                cells@.len() == k,
                forall|x: int| 0 <= x < k ==> cells@[x] == init,
            decreases n - k,
        {
            cells.push(init);
            k = k + 1;
        }
        let m = Matrix::assemble(rows, cols, cells);
        proof {
            assert(m@.cells =~= Grid::filled(rows as nat, cols as nat, init).cells);
        }
        m
    }

    /// A matrix with `init` in every cell, unless a count is zero.
    pub fn new(rows: usize, cols: usize, init: T) -> (r: Result<Matrix<T>, DimensionError>)
        requires
            rows * cols <= usize::MAX,
        ensures
            match r {
                Ok(m) => rows >= 1 && cols >= 1 && m@.wf() && m@ == Grid::filled(
                    rows as nat,
                    cols as nat,
                    init,
                ),
                Err(e) => (rows == 0 || cols == 0) && e == DimensionError::InvalidDimensions,
            },
    {
        if rows == 0 || cols == 0 {
            Err(DimensionError::InvalidDimensions)
        } else {
            Ok(Matrix::filled_of(rows, cols, init))
        }
    }

    /// The matrix of the given shape over the given cells, in row-major
    /// order. The number of cells has to be `rows * cols`, and no count may
    /// be zero.
    pub fn from_vec(rows: usize, cols: usize, vec: Vec<T>) -> (r: Result<
        Matrix<T>,
        DimensionError,
    >)
        requires
            rows * cols <= usize::MAX,
        ensures
            match r {
                Ok(m) => vec@.len() == rows * cols && rows >= 1 && cols >= 1 && m@.wf() && m@ == (
                Grid { rows: rows as nat, cols: cols as nat, cells: vec@ }),
                Err(DimensionError::InvalidInputDimensions(actual, expected)) => vec@.len() != rows
                    * cols && actual == vec@.len() && expected == rows * cols,
                Err(DimensionError::InvalidDimensions) => vec@.len() == rows * cols && (rows == 0
                    || cols == 0),
                Err(_) => false,
            },
    {
        if vec.len() != rows * cols {
            Err(DimensionError::InvalidInputDimensions(vec.len(), rows * cols))
        } else if rows == 0 || cols == 0 {
            Err(DimensionError::InvalidDimensions)
        } else {
            Ok(Matrix::assemble(rows, cols, vec))
        }
    }

    /// The matrix of the given shape with the additive identity in every
    /// cell, unless a count is zero.
    pub fn zero(rows: usize, cols: usize) -> (r: Result<Matrix<T>, DimensionError>) where
        T: AddIdentity,

        requires
            rows * cols <= usize::MAX,
        ensures
            match r {
                Ok(m) => rows >= 1 && cols >= 1 && m@.wf() && m@ == Grid::filled(
                    rows as nat,
                    cols as nat,
                    T::zero_spec(),
                ),
                Err(e) => (rows == 0 || cols == 0) && e == DimensionError::InvalidDimensions,
            },
    {
        Matrix::new(rows, cols, T::zero_value())
    }

    /// The square matrix of a size that is not zero with `init` on the
    /// diagonal and the additive identity elsewhere.
    fn diagonal_of(dim: usize, init: T) -> (m: Matrix<T>) where T: AddIdentity
        requires
            dim >= 1,
            dim * dim <= usize::MAX,
        ensures
            m@ == Grid::diagonal(dim as nat, T::zero_spec(), |i: int| init),
            m@.wf(),
    {
        let mut res = Matrix::filled_of(dim, dim, T::zero_value());
        proof {
            Grid::lemma_filled(dim as nat, dim as nat, T::zero_spec());
        }
        let mut i: usize = 0;
        while i < dim
            invariant
                i <= dim,
                dim >= 1,
                res@.rows == dim,
                res@.cols == dim,
                res@.cells.len() == dim * dim,
                forall|r: int, c: int|
                    0 <= r < dim && 0 <= c < dim ==> #[trigger] res@.at(r, c) == (if r == c && r
                        < i {
                        init
                    } else {
                        T::zero_spec()
                    }),
            decreases dim - i,
        {
            proof {
                lemma_flat_index_in_range(i as int, i as int, dim as nat, dim as nat);
                res@.lemma_with(i as int, i as int, init);
            }
            *res.entry_mut(i, i) = init;
            i = i + 1;
        }
        proof {
            let goal = Grid::diagonal(dim as nat, T::zero_spec(), |i: int| init);
            Grid::lemma_diagonal(dim as nat, T::zero_spec(), |i: int| init);
            res@.lemma_equal(goal);
        }
        res
    }

    /// The identity matrix of a size that is not zero.
    pub(crate) fn identity_of(dim: usize) -> (m: Matrix<T>) where T: AddIdentity + MulIdentity
        requires
            dim >= 1,
            dim * dim <= usize::MAX,
        ensures
            m@ == Grid::<T>::identity(dim as nat),
            m@.wf(),
    {
        Matrix::diagonal_of(dim, T::one_value())
    }

    /// The square matrix with `init` on the diagonal and the additive
    /// identity elsewhere, unless `dim` is zero.
    pub fn diag(dim: usize, init: T) -> (r: Result<Matrix<T>, DimensionError>) where
        T: AddIdentity,

        requires
            dim * dim <= usize::MAX,
        ensures
            match r {
                Ok(m) => dim >= 1 && m@.wf() && m@ == Grid::diagonal(
                    dim as nat,
                    T::zero_spec(),
                    |i: int| init,
                ),
                Err(e) => dim == 0 && e == DimensionError::InvalidDimensions,
            },
    {
        if dim == 0 {
            Err(DimensionError::InvalidDimensions)
        } else {
            Ok(Matrix::diagonal_of(dim, init))
        }
    }

    /// The identity matrix of the given size, unless `dim` is zero.
    pub fn one(dim: usize) -> (r: Result<Matrix<T>, DimensionError>) where
        T: AddIdentity + MulIdentity,

        requires
            dim * dim <= usize::MAX,
        ensures
            match r {
                Ok(m) => dim >= 1 && m@.wf() && m@ == Grid::<T>::identity(dim as nat),
                Err(e) => dim == 0 && e == DimensionError::InvalidDimensions,
            },
    {
        Matrix::diag(dim, T::one_value())
    }

    /// The square matrix with `entries` down the diagonal and the additive
    /// identity elsewhere. The number of entries has to be `dim`, and `dim`
    /// may not be zero.
    pub fn diag_with(dim: usize, entries: &[T]) -> (r: Result<Matrix<T>, DimensionError>) where
        T: AddIdentity,

        requires
            dim * dim <= usize::MAX,
        ensures
            match r {
                Ok(m) => entries@.len() == dim && dim >= 1 && m@.wf() && m@ == Grid::diagonal(
                    dim as nat,
                    T::zero_spec(),
                    |i: int| entries@[i],
                ),
                Err(DimensionError::InvalidInputDimensions(actual, expected)) => entries@.len()
                    != dim && actual == entries@.len() && expected == dim,
                Err(DimensionError::InvalidDimensions) => entries@.len() == dim && dim == 0,
                Err(_) => false,
            },
    {
        if entries.len() != dim {
            return Err(DimensionError::InvalidInputDimensions(entries.len(), dim));
        }
        let mut res = match Matrix::zero(dim, dim) {
            Ok(m) => m,
            Err(e) => {
                return Err(e);
            },
        };
        proof {
            Grid::lemma_filled(dim as nat, dim as nat, T::zero_spec());
        }
        let mut i: usize = 0;
        while i < dim
            invariant
                i <= dim,
                dim >= 1,
                entries@.len() == dim,
                res@.rows == dim,
                res@.cols == dim,
                res@.cells.len() == dim * dim,
                forall|r: int, c: int|
                    0 <= r < dim && 0 <= c < dim ==> #[trigger] res@.at(r, c) == (if r == c && r
                        < i {
                        entries@[r]
                    } else {
                        T::zero_spec()
                    }),
            decreases dim - i,
        {
            proof {
                lemma_flat_index_in_range(i as int, i as int, dim as nat, dim as nat);
                res@.lemma_with(i as int, i as int, entries@[i as int]);
            }
            *res.entry_mut(i, i) = entries[i];
            i = i + 1;
        }
        proof {
            let goal = Grid::diagonal(dim as nat, T::zero_spec(), |i: int| entries@[i]);
            Grid::lemma_diagonal(dim as nat, T::zero_spec(), |i: int| entries@[i]);
            res@.lemma_equal(goal);
        }
        Ok(res)
    }

    /// The matrix with rows and columns exchanged: its cell `(j, i)` is the
    /// cell `(i, j)` of this one.
    pub fn transpose(&self) -> (r: Matrix<T>)
        ensures
            r@ == self@.transposed(),
            r@.wf(),
    {
        let rows = self.rows();
        let cols = self.cols();
        let mut vec: Vec<T> = Vec::new();
        let mut i: usize = 0;
        while i < cols
            invariant
                i <= cols,
                rows == self@.rows,
                cols == self@.cols,
                self@.wf(),
                vec@.len() == i * rows,
                forall|k: int|
                    0 <= k < vec@.len() ==> #[trigger] vec@[k] == self@.at(
                        k % (rows as int),
                        k / (rows as int),
                    ),
            decreases cols - i,
        {
            let mut j: usize = 0;
            while j < rows
                invariant
                    i < cols,
                    j <= rows,
                    rows == self@.rows,
                    cols == self@.cols,
                    self@.wf(),
                    vec@.len() == i * rows + j,
                    forall|k: int|
                        0 <= k < vec@.len() ==> #[trigger] vec@[k] == self@.at(
                            k % (rows as int),
                            k / (rows as int),
                        ),
                decreases rows - j,
            {
                proof {
                    lemma_flat_index_in_range(j as int, i as int, rows as nat, cols as nat);
                    lemma_flat_index_split(i as int, j as int, rows as nat);
                }
                vec.push(self.entry(j, i));
                j = j + 1;
            }
            proof {
                assert(i * rows + rows == (i + 1) * rows) by (nonlinear_arith);
            }
            i = i + 1;
        }
        proof {
            assert(cols * rows == rows * cols) by (nonlinear_arith);
        }
        let res = Matrix::assemble(cols, rows, vec);
        proof {
            assert(res@.cells =~= self@.transposed().cells);
        }
        res
    }

    /// A copy with the same shape and the same cells.
    pub fn duplicate(&self) -> (r: Matrix<T>)
        ensures
            r@ == self@,
            r@.wf(),
    {
        let rows = self.rows();
        let cols = self.cols();
        proof {
            use_type_invariant(self);
        }
        let n = self.matrix.len();
        let mut cells: Vec<T> = Vec::new();
        let mut k: usize = 0;
        while k < n
            invariant
                k <= n,
                n == self.matrix@.len(),
                cells@.len() == k,
                forall|x: int| 0 <= x < k ==> cells@[x] == self.matrix@[x],
            decreases n - k,
        {
            cells.push(self.matrix[k]);
            k = k + 1;
        }
        let res = Matrix::assemble(rows, cols, cells);
        proof {
            assert(res@.cells =~= self@.cells);
        }
        res
    }
}

impl<T: Copy> Clone for Matrix<T> {
    fn clone(&self) -> (r: Matrix<T>)
        ensures
            r@ == self@,
    {
        self.duplicate()
    }
}

} // verus!
