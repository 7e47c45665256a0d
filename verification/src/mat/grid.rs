//! The mathematical model of a matrix: a shape and the cells in row-major
//! order. The contracts of the library are written over this model.

use crate::num::{AddIdentity, MulIdentity};
use vstd::arithmetic::div_mod::{
    lemma_fundamental_div_mod, lemma_fundamental_div_mod_converse, lemma_mod_bound,
};
use vstd::prelude::*;

verus! {

/// A matrix as a value of the specification language. The cell in row `i`
/// and column `j` is `cells[i * cols + j]`.
pub struct Grid<T> {
    pub rows: nat,
    pub cols: nat,
    pub cells: Seq<T>,
}

impl<T> Grid<T> {
    /// Both counts are at least one and there is one cell for each position.
    pub open spec fn wf(self) -> bool {
        &&& self.rows >= 1
        &&& self.cols >= 1
        &&& self.cells.len() == self.rows * self.cols
    }

    /// Whether `(i, j)` is a position of this grid.
    pub open spec fn has(self, i: int, j: int) -> bool {
        0 <= i < self.rows && 0 <= j < self.cols
    }

    /// The cell in row `i` and column `j`.
    pub open spec fn at(self, i: int, j: int) -> T {
        self.cells[i * self.cols + j]
    }

    /// The grid of the given shape whose cell `(i, j)` is `f(i, j)`.
    pub open spec fn build(rows: nat, cols: nat, f: spec_fn(int, int) -> T) -> Grid<T> {
        Grid {
            rows,
            cols,
            cells: Seq::new(rows * cols, |k: int| f(k / (cols as int), k % (cols as int))),
        }
    }

    /// The grid of the given shape with the same value in every cell.
    pub open spec fn filled(rows: nat, cols: nat, x: T) -> Grid<T> {
        Grid::build(rows, cols, |i: int, j: int| x)
    }

    /// This grid with the cell `(i, j)` replaced.
    pub open spec fn with(self, i: int, j: int, x: T) -> Grid<T> {
        Grid { rows: self.rows, cols: self.cols, cells: self.cells.update(i * self.cols + j, x) }
    }

    /// Row `i` as a sequence of `cols` cells.
    pub open spec fn row(self, i: int) -> Seq<T> {
        self.cells.subrange(i * self.cols, i * self.cols + self.cols)
    }

    /// The grid with rows and columns exchanged.
    pub open spec fn transposed(self) -> Grid<T> {
        Grid::build(self.cols, self.rows, |i: int, j: int| self.at(j, i))
    }

    /// The square grid with `diagonal(i)` at `(i, i)` and `elsewhere` in
    /// every other cell.
    pub open spec fn diagonal(dim: nat, elsewhere: T, diagonal: spec_fn(int) -> T) -> Grid<T> {
        Grid::build(
            dim,
            dim,
            |i: int, j: int|
                if i == j {
                    diagonal(i)
                } else {
                    elsewhere
                },
        )
    }
}

impl<T: AddIdentity + MulIdentity> Grid<T> {
    /// The identity matrix: one on the diagonal, zero elsewhere.
    pub open spec fn identity(dim: nat) -> Grid<T> {
        Grid::diagonal(dim, T::zero_spec(), |i: int| T::one_spec())
    }
}

/// A position inside the shape has a flat index inside the cells.
pub proof fn lemma_flat_index_in_range(i: int, j: int, rows: nat, cols: nat)
    requires
        0 <= i < rows,
        0 <= j < cols,
    ensures
        0 <= i * cols + j < rows * cols,
        i * cols + cols <= rows * cols,
        0 <= i * cols,
{
    assert(0 <= i * cols) by (nonlinear_arith)
        requires
            0 <= i,
            0 <= cols,
    ;
    assert(i * cols + cols <= rows * cols) by (nonlinear_arith)
        requires
            i + 1 <= rows,
            0 <= cols,
    ;
}

/// The row and the column are recovered from the flat index.
pub proof fn lemma_flat_index_split(i: int, j: int, cols: nat)
    requires
        0 <= i,
        0 <= j < cols,
    ensures
        (i * cols + j) / (cols as int) == i,
        (i * cols + j) % (cols as int) == j,
{
    lemma_fundamental_div_mod_converse(i * cols + j, cols as int, i, j);
}

/// Every flat index is that of one position inside the shape.
pub proof fn lemma_flat_index_position(k: int, rows: nat, cols: nat)
    requires
        0 <= k < rows * cols,
    ensures
        0 <= k / (cols as int) < rows,
        0 <= k % (cols as int) < cols,
        k == (k / (cols as int)) * cols + k % (cols as int),
{
    let c = cols as int;
    assert(c > 0) by (nonlinear_arith)
        requires
            0 <= k < rows * c,
            c >= 0,
    ;
    lemma_fundamental_div_mod(k, c);
    lemma_mod_bound(k, c);
    let q = k / c;
    assert(q * c == c * q) by (nonlinear_arith);
    assert(0 <= q < rows) by (nonlinear_arith)
        requires
            k == c * q + k % c,
            0 <= k % c < c,
            0 <= k < rows * c,
    ;
}

impl<T> Grid<T> {
    /// What `build` puts at a position.
    pub proof fn lemma_build(rows: nat, cols: nat, f: spec_fn(int, int) -> T)
        ensures
            Grid::build(rows, cols, f).rows == rows,
            Grid::build(rows, cols, f).cols == cols,
            Grid::build(rows, cols, f).cells.len() == rows * cols,
            forall|i: int, j: int|
                0 <= i < rows && 0 <= j < cols ==> #[trigger] Grid::build(rows, cols, f).at(i, j)
                    == f(i, j),
    {
        let g = Grid::build(rows, cols, f);
        assert forall|i: int, j: int| 0 <= i < rows && 0 <= j < cols implies #[trigger] g.at(i, j)
            == f(i, j) by {
            lemma_flat_index_in_range(i, j, rows, cols);
            lemma_flat_index_split(i, j, cols);
        }
    }

    /// What `filled` puts at a position.
    pub proof fn lemma_filled(rows: nat, cols: nat, x: T)
        ensures
            Grid::filled(rows, cols, x).rows == rows,
            Grid::filled(rows, cols, x).cols == cols,
            Grid::filled(rows, cols, x).cells.len() == rows * cols,
            forall|i: int, j: int|
                0 <= i < rows && 0 <= j < cols ==> #[trigger] Grid::filled(rows, cols, x).at(i, j)
                    == x,
    {
        let g = Grid::filled(rows, cols, x);
        assert forall|i: int, j: int| 0 <= i < rows && 0 <= j < cols implies #[trigger] g.at(i, j)
            == x by {
            lemma_flat_index_in_range(i, j, rows, cols);
        }
    }

    /// What `diagonal` puts at a position.
    pub proof fn lemma_diagonal(dim: nat, elsewhere: T, diagonal: spec_fn(int) -> T)
        ensures
            Grid::diagonal(dim, elsewhere, diagonal).rows == dim,
            Grid::diagonal(dim, elsewhere, diagonal).cols == dim,
            Grid::diagonal(dim, elsewhere, diagonal).cells.len() == dim * dim,
            forall|i: int, j: int|
                0 <= i < dim && 0 <= j < dim ==> #[trigger] Grid::diagonal(
                    dim,
                    elsewhere,
                    diagonal,
                ).at(i, j) == (if i == j {
                    diagonal(i)
                } else {
                    elsewhere
                }),
    {
        let g = Grid::diagonal(dim, elsewhere, diagonal);
        assert forall|i: int, j: int| 0 <= i < dim && 0 <= j < dim implies #[trigger] g.at(i, j)
            == (if i == j {
            diagonal(i)
        } else {
            elsewhere
        }) by {
            lemma_flat_index_in_range(i, j, dim, dim);
            lemma_flat_index_split(i, j, dim);
        }
    }

    /// What `transposed` puts at a position.
    pub proof fn lemma_transposed(self)
        ensures
            self.transposed().rows == self.cols,
            self.transposed().cols == self.rows,
            self.transposed().cells.len() == self.cols * self.rows,
            forall|i: int, j: int|
                0 <= i < self.cols && 0 <= j < self.rows ==> #[trigger] self.transposed().at(i, j)
                    == self.at(j, i),
    {
        let g = self.transposed();
        assert forall|i: int, j: int| 0 <= i < self.cols && 0 <= j < self.rows implies #[trigger] g.at(
            i,
            j,
        ) == self.at(j, i) by {
            lemma_flat_index_in_range(i, j, self.cols, self.rows);
            lemma_flat_index_split(i, j, self.rows);
        }
    }

    /// Two grids of one shape that agree at every position are equal.
    pub proof fn lemma_equal(self, other: Grid<T>)
        requires
            self.cells.len() == self.rows * self.cols,
            other.cells.len() == other.rows * other.cols,
            self.rows == other.rows,
            self.cols == other.cols,
            forall|i: int, j: int| self.has(i, j) ==> self.at(i, j) == other.at(i, j),
        ensures
            self == other,
    {
        assert forall|k: int| 0 <= k < self.cells.len() implies self.cells[k] == other.cells[k] by {
            lemma_flat_index_position(k, self.rows, self.cols);
            let i = k / (self.cols as int);
            let j = k % (self.cols as int);
            assert(self.has(i, j));
            assert(self.at(i, j) == other.at(i, j));
        }
        assert(self.cells =~= other.cells);
    }

    /// Replacing one cell changes that cell and no other.
    pub proof fn lemma_with(self, i: int, j: int, x: T)
        requires
            self.cells.len() == self.rows * self.cols,
            self.has(i, j),
        ensures
            self.with(i, j, x).rows == self.rows,
            self.with(i, j, x).cols == self.cols,
            self.with(i, j, x).cells.len() == self.cells.len(),
            self.with(i, j, x).at(i, j) == x,
            forall|r: int, c: int|
                self.has(r, c) && !(r == i && c == j) ==> #[trigger] self.with(i, j, x).at(r, c)
                    == self.at(r, c),
    {
        lemma_flat_index_in_range(i, j, self.rows, self.cols);
        assert forall|r: int, c: int| self.has(r, c) && !(r == i && c == j) implies #[trigger] self.with(
            i,
            j,
            x,
        ).at(r, c) == self.at(r, c) by {
            lemma_flat_index_in_range(r, c, self.rows, self.cols);
            lemma_flat_index_split(r, c, self.cols);
            lemma_flat_index_split(i, j, self.cols);
        }
    }
}

} // verus!
