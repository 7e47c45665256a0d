//! The vector: a matrix with a single row or a single column.

use crate::err::DimensionError;
use crate::mat::dims::Dimensions;
use crate::mat::grid::Grid;
use crate::mat::matrix::Matrix;
use vstd::prelude::*;
use vstd::std_specs::convert::FromSpecImpl;

verus! {

/// A vector that owns its entries and is tagged as a row (`1 x n`) or as a
/// column (`n x 1`).
#[derive(Debug, PartialEq)]
pub struct Vector<T> {
    dims: Dimensions,
    entries: Vec<T>,
}

impl<T> View for Vector<T> {
    type V = Grid<T>;

    closed spec fn view(&self) -> Grid<T> {
        Grid { rows: self.dims@.0, cols: self.dims@.1, cells: self.entries@ }
    }
}

impl<T> Grid<T> {
    /// Whether this grid has the shape of a vector: a single row or a
    /// single column.
    pub open spec fn is_vector(self) -> bool {
        self.wf() && (self.rows == 1 || self.cols == 1)
    }

    /// The same cells as a single row.
    pub open spec fn as_row(self) -> Grid<T> {
        Grid { rows: 1, cols: self.cells.len(), cells: self.cells }
    }

    /// The same cells as a single column.
    pub open spec fn as_column(self) -> Grid<T> {
        Grid { rows: self.cells.len(), cols: 1, cells: self.cells }
    }
}

impl<T> Vector<T> {
    #[verifier::type_invariant]
    pub closed spec fn well_formed(self) -> bool {
        &&& self.entries@.len() == self.dims@.0 * self.dims@.1
        &&& (self.dims@.0 == 1 || self.dims@.1 == 1)
    }

    /// The vector of the given shape over the given entries.
    pub(crate) fn assemble(rows: usize, cols: usize, entries: Vec<T>) -> (v: Vector<T>)
        requires
            rows >= 1,
            cols >= 1,
            rows == 1 || cols == 1,
            entries@.len() == rows * cols,
        ensures
            v@ == (Grid { rows: rows as nat, cols: cols as nat, cells: entries@ }),
            v@.is_vector(),
    {
        Vector { dims: Dimensions::of(rows, cols), entries }
    }

    /// The number of entries.
    pub fn size(&self) -> (n: usize)
        ensures
            n == self@.cells.len(),
            n == self@.rows * self@.cols,
            n >= 1,
            self@.is_vector(),
    {
        proof {
            use_type_invariant(self);
        }
        let rows = self.dims.rows();
        let cols = self.dims.cols();
        proof {
            assert(rows * cols >= 1) by (nonlinear_arith)
                requires
                    rows >= 1,
                    cols >= 1,
            ;
        }
        self.entries.len()
    }

    /// The shape.
    pub fn dims(&self) -> (d: Dimensions)
        ensures
            d@ == (self@.rows, self@.cols),
            self@.is_vector(),
    {
        let _ = self.size();
        self.dims
    }

    /// Whether the vector is tagged as a column: it has at least as many
    /// rows as columns.
    pub fn is_col_vector(&self) -> (b: bool)
        ensures
            b == (self@.rows >= self@.cols),
            self@.is_vector(),
    {
        let _ = self.size();
        self.dims.rows() >= self.dims.cols()
    }

    /// Whether the vector is tagged as a row: it has at least as many
    /// columns as rows.
    pub fn is_row_vector(&self) -> (b: bool)
        ensures
            b == (self@.cols >= self@.rows),
            self@.is_vector(),
    {
        let _ = self.size();
        self.dims.cols() >= self.dims.rows()
    }

    /// The entries in order.
    pub fn as_slice(&self) -> (s: &[T])
        ensures
            s@ == self@.cells,
    {
        self.entries.as_slice()
    }

    /// The column vector over the given entries, of which there has to be
    /// at least one.
    pub fn from_vec(vec: Vec<T>) -> (r: Result<Vector<T>, DimensionError>)
        ensures
            match r {
                Ok(v) => vec@.len() >= 1 && v@.is_vector() && v@ == (Grid {
                    rows: vec@.len(),
                    cols: 1,
                    cells: vec@,
                }),
                Err(e) => vec@.len() == 0 && e == DimensionError::InvalidDimensions,
            },
    {
        let n = vec.len();
        if n == 0 {
            Err(DimensionError::InvalidDimensions)
        } else {
            Ok(Vector::assemble(n, 1, vec))
        }
    }

    /// The matrix as a vector with the same shape and cells, where the
    /// matrix has a single row or a single column; nothing otherwise.
    pub fn from_matrix(mat: Matrix<T>) -> (r: Option<Vector<T>>)
        ensures
            match r {
                Some(v) => (mat@.rows == 1 || mat@.cols == 1) && v@ == mat@ && v@.is_vector(),
                None => mat@.rows != 1 && mat@.cols != 1,
            },
    {
        let rows = mat.rows();
        let cols = mat.cols();
        if rows != 1 && cols != 1 {
            None
        } else {
            let cells = mat.into_cells();
            Some(Vector::assemble(rows, cols, cells))
        }
    }

    /// The vector as a matrix with the same shape and cells.
    pub fn into_matrix(self) -> (m: Matrix<T>)
        ensures
            m@ == self@,
            m@.wf(),
    {
        let _ = self.size();
        let rows = self.dims.rows();
        let cols = self.dims.cols();
        Matrix::assemble(rows, cols, self.entries)
    }
}

impl<T: Copy> Vector<T> {
    /// A column vector with `init` in each of its `size` entries, unless
    /// `size` is zero.
    pub fn new(size: usize, init: T) -> (r: Result<Vector<T>, DimensionError>)
        ensures
            match r {
                Ok(v) => size >= 1 && v@.is_vector() && v@ == Grid::filled(size as nat, 1, init),
                Err(e) => size == 0 && e == DimensionError::InvalidDimensions,
            },
    {
        if size == 0 {
            Err(DimensionError::InvalidDimensions)
        } else {
            let mut entries: Vec<T> = Vec::new();
            let mut k: usize = 0;
            while k < size
                invariant
                    k <= size,
                    entries@.len() == k,
                    forall|x: int| 0 <= x < k ==> entries@[x] == init,
                decreases size - k,
            {
                entries.push(init);
                k = k + 1;
            }
            let v = Vector::assemble(size, 1, entries);
            proof {
                assert(v@.cells =~= Grid::filled(size as nat, 1, init).cells);
            }
            Ok(v)
        }
    }

    /// The entry at the index `k`.
    pub fn get(&self, k: usize) -> (r: T)
        requires
            k < self@.cells.len(),
        ensures
            r == self@.cells[k as int],
    {
        self.entries[k]
    }

    /// Replaces the entry at the index `k`.
    pub fn set(&mut self, k: usize, x: T)
        requires
            k < old(self)@.cells.len(),
        ensures
            final(self)@ == (Grid {
                rows: old(self)@.rows,
                cols: old(self)@.cols,
                cells: old(self)@.cells.update(k as int, x),
            }),
    {
        proof {
            use_type_invariant(&*self);
        }
        self.entries[k] = x;
    }

    /// A copy of the entries.
    fn copy_entries(&self) -> (v: Vec<T>)
        ensures
            v@ == self@.cells,
    {
        let n = self.entries.len();
        let mut entries: Vec<T> = Vec::new();
        let mut k: usize = 0;
        while k < n
            invariant
                k <= n,
                n == self.entries@.len(),
                entries@.len() == k,
                forall|x: int| 0 <= x < k ==> entries@[x] == self.entries@[x],
            decreases n - k,
        {
            entries.push(self.entries[k]);
            k = k + 1;
        }
        proof {
            assert(entries@ =~= self@.cells);
        }
        entries
    }

    /// A copy with the same entries, tagged as a row. The entries keep
    /// their order: this reshapes, it does not transpose.
    pub fn to_row_vector(&self) -> (r: Vector<T>)
        ensures
            r@ == self@.as_row(),
            r@.is_vector(),
    {
        let n = self.size();
        Vector::assemble(1, n, self.copy_entries())
    }

    /// A copy with the same entries, tagged as a column.
    pub fn to_col_vector(&self) -> (r: Vector<T>)
        ensures
            r@ == self@.as_column(),
            r@.is_vector(),
    {
        let n = self.size();
        Vector::assemble(n, 1, self.copy_entries())
    }

    /// A copy with the same shape and the same entries.
    pub fn duplicate(&self) -> (r: Vector<T>)
        ensures
            r@ == self@,
            r@.is_vector(),
    {
        let _ = self.size();
        let rows = self.dims.rows();
        let cols = self.dims.cols();
        Vector::assemble(rows, cols, self.copy_entries())
    }
}

/// The contract of the conversion stands on the method itself.
impl<T> FromSpecImpl<Vector<T>> for Matrix<T> {
    open spec fn obeys_from_spec() -> bool {
        false
    }

    open spec fn from_spec(v: Vector<T>) -> Matrix<T> {
        arbitrary()
    }
}

impl<T> From<Vector<T>> for Matrix<T> {
    /// The vector as a matrix with the same shape and cells.
    fn from(v: Vector<T>) -> (m: Matrix<T>)
        ensures
            m@ == v@,
            m@.wf(),
    {
        v.into_matrix()
    }
}

impl<T: Copy> Clone for Vector<T> {
    fn clone(&self) -> (r: Vector<T>)
        ensures
            r@ == self@,
    {
        self.duplicate()
    }
}

} // verus!
