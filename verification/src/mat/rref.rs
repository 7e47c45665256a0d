//! Reduced row echelon form by Gauss-Jordan elimination, and the inverse
//! read off the reduced form of a matrix extended by the identity.

use crate::err::DimensionError;
use crate::mat::grid::{lemma_flat_index_in_range, lemma_flat_index_split, Grid};
use crate::mat::lu::exchanged;
use crate::mat::matrix::Matrix;
use crate::num::{AddIdentity, Division, MulIdentity, Multiplication, Subtraction};
use vstd::prelude::*;

verus! {

impl<T> Grid<T> {
    /// This grid with the rows `a` and `b` exchanged.
    pub open spec fn rows_exchanged(self, a: int, b: int) -> Grid<T> {
        Grid::build(self.rows, self.cols, |r: int, c: int| self.at(exchanged(r, a, b), c))
    }

    /// What `rows_exchanged` puts at a position.
    pub proof fn lemma_rows_exchanged(self, a: int, b: int)
        ensures
            self.rows_exchanged(a, b).rows == self.rows,
            self.rows_exchanged(a, b).cols == self.cols,
            self.rows_exchanged(a, b).cells.len() == self.rows * self.cols,
            forall|r: int, c: int|
                self.has(r, c) ==> #[trigger] self.rows_exchanged(a, b).at(r, c) == self.at(
                    exchanged(r, a, b),
                    c,
                ),
    {
        let g = self.rows_exchanged(a, b);
        assert forall|r: int, c: int| self.has(r, c) implies #[trigger] g.at(r, c) == self.at(
            exchanged(r, a, b),
            c,
        ) by {
            lemma_flat_index_in_range(r, c, self.rows, self.cols);
            lemma_flat_index_split(r, c, self.cols);
        }
    }
}

impl<T: AddIdentity> Grid<T> {
    /// The first row from `from` on whose cell in column `col` is not zero,
    /// or the number of rows where there is none.
    pub open spec fn first_nonzero(self, from: int, col: int) -> int
        decreases self.rows - from,
    {
        if from >= self.rows {
            self.rows as int
        } else if !self.at(from, col).is_zero_spec() {
            from
        } else {
            self.first_nonzero(from + 1, col)
        }
    }

    /// This grid with a usable pivot brought to `(row, col)` where there is
    /// one: where the cell is zero, the first row below with a cell in
    /// column `col` that is not zero trades places with `row`.
    pub open spec fn pivot_raised(self, row: int, col: int) -> Grid<T> {
        if self.at(row, col).is_zero_spec() && self.first_nonzero(row, col) < self.rows {
            self.rows_exchanged(row, self.first_nonzero(row, col))
        } else {
            self
        }
    }
}

impl<T: MulIdentity + Subtraction + Multiplication + Division> Grid<T> {
    /// Row `row` divided, from column `col` on, by the pivot `(row, col)`,
    /// unless the pivot is one already.
    pub open spec fn normalized(self, row: int, col: int) -> Grid<T> {
        if self.at(row, col).is_one_spec() {
            self
        } else {
            Grid::build(
                self.rows,
                self.cols,
                |r: int, c: int|
                    if r == row && c >= col {
                        self.at(r, c).over_spec(self.at(row, col))
                    } else {
                        self.at(r, c)
                    },
            )
        }
    }

    /// Column `col` cleared with row `row`: every other row whose cell in
    /// column `col` is not zero loses, from column `col` on, that cell
    /// times the cell of row `row` above or below it.
    pub open spec fn cleared(self, row: int, col: int) -> Grid<T> {
        Grid::build(
            self.rows,
            self.cols,
            |r: int, c: int|
                if r != row && c >= col && !self.at(r, col).is_zero_spec() {
                    self.at(r, c).minus_spec(self.at(r, col).times_spec(self.at(row, c)))
                } else {
                    self.at(r, c)
                },
        )
    }

    /// The reduction carried on from the position `(row, col)`.
    pub open spec fn rref_from(self, row: nat, col: nat) -> Grid<T>
        decreases self.cols - col,
    {
        if row >= self.rows || col >= self.cols {
            self
        } else {
            let raised = self.pivot_raised(row as int, col as int);
            if raised.at(row as int, col as int).is_zero_spec() {
                raised.rref_from(row, col + 1)
            } else {
                raised.normalized(row as int, col as int).cleared(row as int, col as int).rref_from(
                    row + 1,
                    col + 1,
                )
            }
        }
    }

    /// The reduced row echelon form.
    pub open spec fn rref(self) -> Grid<T> {
        self.rref_from(0, 0)
    }

    /// What `normalized` puts at a position where the pivot is not one.
    pub proof fn lemma_normalized(self, row: int, col: int)
        ensures
            self.normalized(row, col).rows == self.rows,
            self.normalized(row, col).cols == self.cols,
            self.cells.len() == self.rows * self.cols ==> self.normalized(row, col).cells.len()
                == self.rows * self.cols,
            forall|r: int, c: int|
                self.has(r, c) ==> #[trigger] self.normalized(row, col).at(r, c) == (if r == row
                    && c >= col && !self.at(row, col).is_one_spec() {
                    self.at(r, c).over_spec(self.at(row, col))
                } else {
                    self.at(r, c)
                }),
    {
        let g = self.normalized(row, col);
        assert forall|r: int, c: int| self.has(r, c) implies #[trigger] g.at(r, c) == (if r == row
            && c >= col && !self.at(row, col).is_one_spec() {
            self.at(r, c).over_spec(self.at(row, col))
        } else {
            self.at(r, c)
        }) by {
            lemma_flat_index_in_range(r, c, self.rows, self.cols);
            lemma_flat_index_split(r, c, self.cols);
        }
    }

    /// What `cleared` puts at a position.
    pub proof fn lemma_cleared(self, row: int, col: int)
        ensures
            self.cleared(row, col).rows == self.rows,
            self.cleared(row, col).cols == self.cols,
            self.cleared(row, col).cells.len() == self.rows * self.cols,
            forall|r: int, c: int|
                self.has(r, c) ==> #[trigger] self.cleared(row, col).at(r, c) == (if r != row && c
                    >= col && !self.at(r, col).is_zero_spec() {
                    self.at(r, c).minus_spec(self.at(r, col).times_spec(self.at(row, c)))
                } else {
                    self.at(r, c)
                }),
    {
        let g = self.cleared(row, col);
        assert forall|r: int, c: int| self.has(r, c) implies #[trigger] g.at(r, c) == (if r != row
            && c >= col && !self.at(r, col).is_zero_spec() {
            self.at(r, c).minus_spec(self.at(r, col).times_spec(self.at(row, c)))
        } else {
            self.at(r, c)
        }) by {
            lemma_flat_index_in_range(r, c, self.rows, self.cols);
            lemma_flat_index_split(r, c, self.cols);
        }
    }
}

impl<T: AddIdentity> Matrix<T> {
    /// The first row from `from` on whose cell in column `col` is not zero,
    /// or the number of rows where there is none.
    fn find_nonzero(&self, from: usize, col: usize) -> (r: usize)
        requires
            from <= self@.rows,
            col < self@.cols,
        ensures
            r == self@.first_nonzero(from as int, col as int),
            from <= r <= self@.rows,
    {
        let rows = self.rows();
        let cols = self.cols();
        let mut r = from;
        while r < rows
            invariant
                from <= r <= rows,
                rows == self@.rows,
                cols == self@.cols,
                col < cols,
                self@.wf(),
                self@.first_nonzero(r as int, col as int) == self@.first_nonzero(
                    from as int,
                    col as int,
                ),
            decreases rows - r,
        {
            proof {
                lemma_flat_index_in_range(r as int, col as int, rows as nat, cols as nat);
            }
            if !self.entry(r, col).is_zero_value() {
                return r;
            }
            r = r + 1;
        }
        r
    }

    /// Exchanges the rows `a` and `b`.
    fn swap_rows(&mut self, a: usize, b: usize)
        requires
            a < old(self)@.rows,
            b < old(self)@.rows,
        ensures
            final(self)@ == old(self)@.rows_exchanged(a as int, b as int),
            final(self)@.wf(),
    {
        let rows = self.rows();
        let cols = self.cols();
        let ghost before = self@;
        let mut c: usize = 0;
        while c < cols
            invariant
                c <= cols,
                a < rows,
                b < rows,
                rows == before.rows,
                cols == before.cols,
                before.wf(),
                self@.rows == rows,
                self@.cols == cols,
                self@.cells.len() == rows * cols,
                forall|r: int, k: int|
                    0 <= r < rows && 0 <= k < cols ==> #[trigger] self@.at(r, k) == (if k < c {
                        before.at(exchanged(r, a as int, b as int), k)
                    } else {
                        before.at(r, k)
                    }),
            decreases cols - c,
        {
            proof {
                lemma_flat_index_in_range(a as int, c as int, rows as nat, cols as nat);
                lemma_flat_index_in_range(b as int, c as int, rows as nat, cols as nat);
                assert(self@.at(a as int, c as int) == before.at(a as int, c as int));
                assert(self@.at(b as int, c as int) == before.at(b as int, c as int));
            }
            let ghost g0 = self@;
            let held = self.entry(a, c);
            let other = self.entry(b, c);
            *self.entry_mut(a, c) = other;
            let ghost g1 = self@;
            *self.entry_mut(b, c) = held;
            proof {
                g0.lemma_with(a as int, c as int, other);
                g1.lemma_with(b as int, c as int, held);
            }
            c = c + 1;
        }
        proof {
            before.lemma_rows_exchanged(a as int, b as int);
            self@.lemma_equal(before.rows_exchanged(a as int, b as int));
        }
    }
}

impl<T: MulIdentity + Subtraction + Multiplication + Division> Matrix<T> {
    /// Divides row `row`, from column `col` on, by the pivot `(row, col)`,
    /// which is not zero, unless the pivot is one already.
    fn normalize_row(&mut self, row: usize, col: usize)
        requires
            row < old(self)@.rows,
            col < old(self)@.cols,
            !old(self)@.at(row as int, col as int).is_zero_spec(),
        ensures
            final(self)@ == old(self)@.normalized(row as int, col as int),
            final(self)@.wf(),
    {
        let rows = self.rows();
        let cols = self.cols();
        let ghost before = self@;
        proof {
            lemma_flat_index_in_range(row as int, col as int, rows as nat, cols as nat);
        }
        if !self.entry(row, col).is_one_value() {
            let val = self.entry(row, col);
            let mut c = col;
            while c < cols
                invariant
                    col <= c <= cols,
                    row < rows,
                    rows == before.rows,
                    cols == before.cols,
                    before.wf(),
                    val == before.at(row as int, col as int),
                    !val.is_zero_spec(),
                    self@.rows == rows,
                    self@.cols == cols,
                    self@.cells.len() == rows * cols,
                    forall|r: int, k: int|
                        0 <= r < rows && 0 <= k < cols ==> #[trigger] self@.at(r, k) == (if r
                            == row && col <= k < c {
                            before.at(r, k).over_spec(val)
                        } else {
                            before.at(r, k)
                        }),
                decreases cols - c,
            {
                proof {
                    lemma_flat_index_in_range(row as int, c as int, rows as nat, cols as nat);
                    assert(self@.at(row as int, c as int) == before.at(row as int, c as int));
                }
                let ghost g0 = self@;
                let value = self.entry(row, c).over(val);
                *self.entry_mut(row, c) = value;
                proof {
                    g0.lemma_with(row as int, c as int, value);
                }
                c = c + 1;
            }
            proof {
                before.lemma_normalized(row as int, col as int);
                self@.lemma_equal(before.normalized(row as int, col as int));
            }
        }
    }

    /// Clears column `col` in every row but `row` with row `row`.
    fn clear_column(&mut self, row: usize, col: usize)
        requires
            row < old(self)@.rows,
            col < old(self)@.cols,
        ensures
            final(self)@ == old(self)@.cleared(row as int, col as int),
            final(self)@.wf(),
    {
        let rows = self.rows();
        let cols = self.cols();
        let ghost before = self@;
        let mut r: usize = 0;
        while r < rows
            invariant
                r <= rows,
                row < rows,
                col < cols,
                rows == before.rows,
                cols == before.cols,
                before.wf(),
                self@.rows == rows,
                self@.cols == cols,
                self@.cells.len() == rows * cols,
                forall|x: int, k: int|
                    0 <= x < rows && 0 <= k < cols ==> #[trigger] self@.at(x, k) == (if x < r && x
                        != row && k >= col && !before.at(x, col as int).is_zero_spec() {
                        before.at(x, k).minus_spec(
                            before.at(x, col as int).times_spec(before.at(row as int, k)),
                        )
                    } else {
                        before.at(x, k)
                    }),
            decreases rows - r,
        {
            proof {
                lemma_flat_index_in_range(r as int, col as int, rows as nat, cols as nat);
                assert(self@.at(r as int, col as int) == before.at(r as int, col as int));
            }
            if !(self.entry(r, col).is_zero_value() || r == row) {
                let val = self.entry(r, col);
                let mut c = col;
                while c < cols
                    invariant
                        col <= c <= cols,
                        r < rows,
                        row < rows,
                        r != row,
                        rows == before.rows,
                        cols == before.cols,
                        before.wf(),
                        val == before.at(r as int, col as int),
                        !val.is_zero_spec(),
                        self@.rows == rows,
                        self@.cols == cols,
                        self@.cells.len() == rows * cols,
                        forall|x: int, k: int|
                            0 <= x < rows && 0 <= k < cols ==> #[trigger] self@.at(x, k) == (if (x
                                < r || (x == r && k < c)) && x != row && k >= col && !before.at(
                                x,
                                col as int,
                            ).is_zero_spec() {
                                before.at(x, k).minus_spec(
                                    before.at(x, col as int).times_spec(before.at(row as int, k)),
                                )
                            } else {
                                before.at(x, k)
                            }),
                    decreases cols - c,
                {
                    proof {
                        lemma_flat_index_in_range(r as int, c as int, rows as nat, cols as nat);
                        lemma_flat_index_in_range(row as int, c as int, rows as nat, cols as nat);
                        assert(self@.at(r as int, c as int) == before.at(r as int, c as int));
                        assert(self@.at(row as int, c as int) == before.at(row as int, c as int));
                    }
                    let ghost g0 = self@;
                    let x = self.entry(row, c);
                    let value = self.entry(r, c).minus(val.times(x));
                    *self.entry_mut(r, c) = value;
                    proof {
                        g0.lemma_with(r as int, c as int, value);
                    }
                    c = c + 1;
                }
            }
            r = r + 1;
        }
        proof {
            before.lemma_cleared(row as int, col as int);
            self@.lemma_equal(before.cleared(row as int, col as int));
        }
    }

    /// The reduced row echelon form, as a new matrix.
    pub fn rref(&self) -> (r: Matrix<T>)
        ensures
            r@ == self@.rref(),
            r@.wf(),
            r@.same_shape(self@),
    {
        let mut mat = self.duplicate();
        let rows = self.rows();
        let cols = self.cols();
        let mut col: usize = 0;
        let mut row: usize = 0;
        while row < rows && col < cols
            invariant
                row <= rows,
                col <= cols,
                rows == self@.rows,
                cols == self@.cols,
                mat@.wf(),
                mat@.rows == rows,
                mat@.cols == cols,
                mat@.rref_from(row as nat, col as nat) == self@.rref(),
            decreases cols - col,
        {
            let ghost start = mat@;
            proof {
                lemma_flat_index_in_range(row as int, col as int, rows as nat, cols as nat);
            }
            if mat.entry(row, col).is_zero_value() {
                let r = mat.find_nonzero(row, col);
                if r < rows {
                    mat.swap_rows(row, r);
                }
            }
            proof {
                assert(mat@ == start.pivot_raised(row as int, col as int));
                start.lemma_rows_exchanged(
                    row as int,
                    start.first_nonzero(row as int, col as int),
                );
            }
            if mat.entry(row, col).is_zero_value() {
                col = col + 1;
            } else {
                proof {
                    mat@.lemma_normalized(row as int, col as int);
                }
                mat.normalize_row(row, col);
                mat.clear_column(row, col);
                row = row + 1;
                col = col + 1;
            }
        }
        mat
    }
}

impl<T: MulIdentity + Subtraction + Multiplication + Division> Grid<T> {
    /// This square grid with the identity of its size set to its right.
    pub open spec fn augmented(self) -> Grid<T> {
        Grid::build(
            self.rows,
            2 * self.cols,
            |r: int, c: int|
                if c < self.cols {
                    self.at(r, c)
                } else if c - self.cols == r {
                    T::one_spec()
                } else {
                    T::zero_spec()
                },
        )
    }

    /// What `augmented` puts at a position.
    pub proof fn lemma_augmented(self)
        ensures
            self.augmented().rows == self.rows,
            self.augmented().cols == 2 * self.cols,
            self.augmented().cells.len() == self.rows * (2 * self.cols),
            forall|r: int, c: int|
                0 <= r < self.rows && 0 <= c < 2 * self.cols ==> #[trigger] self.augmented().at(
                    r,
                    c,
                ) == (if c < self.cols {
                    self.at(r, c)
                } else if c - self.cols == r {
                    T::one_spec()
                } else {
                    T::zero_spec()
                }),
    {
        let g = self.augmented();
        assert forall|r: int, c: int| 0 <= r < self.rows && 0 <= c < 2 * self.cols implies #[trigger] g.at(
            r,
            c,
        ) == (if c < self.cols {
            self.at(r, c)
        } else if c - self.cols == r {
            T::one_spec()
        } else {
            T::zero_spec()
        }) by {
            lemma_flat_index_in_range(r, c, self.rows, 2 * self.cols);
            lemma_flat_index_split(r, c, 2 * self.cols);
        }
    }

    /// Whether the leading `dim` by `dim` block counts as the identity: one
    /// on the diagonal and zero elsewhere.
    pub open spec fn left_is_identity(self, dim: nat) -> bool {
        forall|r: int, c: int|
            0 <= r < dim && 0 <= c < dim ==> (if r == c {
                (#[trigger] self.at(r, c)).is_one_spec()
            } else {
                self.at(r, c).is_zero_spec()
            })
    }

    /// The square block that stands right of the leading square block.
    pub open spec fn right_half(self) -> Grid<T> {
        Grid::build(self.rows, self.rows, |r: int, c: int| self.at(r, c + self.rows))
    }

    /// The inverse of a grid has the rows of the grid, and as many columns.
    pub proof fn lemma_right_half_shape(self, source: Grid<T>)
        requires
            source.inverse() == Some(self),
        ensures
            self.rows == source.rows,
            self.cols == source.rows,
    {
        source.augmented().lemma_rref_shape(0, 0);
    }

    /// The reduction keeps the shape.
    pub proof fn lemma_rref_shape(self, row: nat, col: nat)
        ensures
            self.rref_from(row, col).rows == self.rows,
            self.rref_from(row, col).cols == self.cols,
        decreases self.cols - col,
    {
        if row < self.rows && col < self.cols {
            let raised = self.pivot_raised(row as int, col as int);
            if raised.at(row as int, col as int).is_zero_spec() {
                raised.lemma_rref_shape(row, col + 1);
            } else {
                raised.normalized(row as int, col as int).cleared(
                    row as int,
                    col as int,
                ).lemma_rref_shape(row + 1, col + 1);
            }
        }
    }

    /// The inverse of a square grid: the right half of the reduced form of
    /// the grid extended by the identity, where the left half of that form
    /// is the identity; nothing otherwise.
    pub open spec fn inverse(self) -> Option<Grid<T>> {
        let reduced = self.augmented().rref();
        if reduced.left_is_identity(self.rows) {
            Some(reduced.right_half())
        } else {
            None
        }
    }
}

impl<T: MulIdentity + Subtraction + Multiplication + Division> Matrix<T> {
    /// Whether the leading `dim` by `dim` block counts as the identity.
    fn left_is_identity(&self, dim: usize) -> (b: bool)
        requires
            dim <= self@.rows,
            dim <= self@.cols,
        ensures
            b == self@.left_is_identity(dim as nat),
    {
        let rows = self.rows();
        let cols = self.cols();
        let mut r: usize = 0;
        while r < dim
            invariant
                r <= dim,
                dim <= rows,
                dim <= cols,
                rows == self@.rows,
                cols == self@.cols,
                self@.wf(),
                forall|x: int, c: int|
                    0 <= x < r && 0 <= c < dim ==> (if x == c {
                        (#[trigger] self@.at(x, c)).is_one_spec()
                    } else {
                        self@.at(x, c).is_zero_spec()
                    }),
            decreases dim - r,
        {
            let mut c: usize = 0;
            while c < dim
                invariant
                    r < dim,
                    c <= dim,
                    dim <= rows,
                    dim <= cols,
                    rows == self@.rows,
                    cols == self@.cols,
                    self@.wf(),
                    forall|x: int, k: int|
                        0 <= x < dim && 0 <= k < dim && (x < r || (x == r && k < c)) ==> (if x
                            == k {
                            (#[trigger] self@.at(x, k)).is_one_spec()
                        } else {
                            self@.at(x, k).is_zero_spec()
                        }),
                decreases dim - c,
            {
                proof {
                    lemma_flat_index_in_range(r as int, c as int, rows as nat, cols as nat);
                }
                let cell = self.entry(r, c);
                let fits = if r == c {
                    cell.is_one_value()
                } else {
                    cell.is_zero_value()
                };
                if !fits {
                    proof {
                        assert(cell == self@.at(r as int, c as int));
                    }
                    return false;
                }
                c = c + 1;
            }
            r = r + 1;
        }
        true
    }

    /// The inverse of a square matrix, or nothing where the matrix is
    /// singular. The matrix extended by the identity has to fit in memory.
    pub fn inv(self) -> (r: Result<Option<Matrix<T>>, DimensionError>)
        requires
            self@.rows == self@.cols ==> 2 * self@.rows * self@.cols <= usize::MAX,
        ensures
            match r {
                Ok(Some(m)) => self@.rows == self@.cols && self@.inverse() == Some(m@) && m@.wf(),
                Ok(None) => self@.rows == self@.cols && self@.inverse() is None,
                Err(e) => self@.rows != self@.cols && e == DimensionError::NoSquare,
            },
    {
        if !self.is_square() {
            return Err(DimensionError::NoSquare);
        }
        let dim = self.rows();
        let _ = self.cols();
        proof {
            assert(2 * dim <= 2 * dim * dim) by (nonlinear_arith)
                requires
                    dim >= 1,
            ;
            assert(dim * (2 * dim) == 2 * dim * dim) by (nonlinear_arith);
        }
        let width = 2 * dim;
        let mut cells: Vec<T> = Vec::new();
        let mut r: usize = 0;
        while r < dim
            invariant
                r <= dim,
                dim >= 1,
                width == 2 * dim,
                dim * width <= usize::MAX,
                dim == self@.rows,
                dim == self@.cols,
                self@.wf(),
                cells@.len() == r * width,
                forall|k: int|
                    0 <= k < cells@.len() ==> #[trigger] cells@[k] == self@.augmented().at(
                        k / (width as int),
                        k % (width as int),
                    ),
            decreases dim - r,
        {
            let mut c: usize = 0;
            while c < width
                invariant
                    r < dim,
                    c <= width,
                    dim >= 1,
                    width == 2 * dim,
                    dim * width <= usize::MAX,
                    dim == self@.rows,
                    dim == self@.cols,
                    self@.wf(),
                    cells@.len() == r * width + c,
                    forall|k: int|
                        0 <= k < cells@.len() ==> #[trigger] cells@[k] == self@.augmented().at(
                            k / (width as int),
                            k % (width as int),
                        ),
                decreases width - c,
            {
                proof {
                    lemma_flat_index_in_range(r as int, c as int, dim as nat, width as nat);
                    lemma_flat_index_split(r as int, c as int, width as nat);
                    self@.lemma_augmented();
                }
                let cell = if c < dim {
                    proof {
                        lemma_flat_index_in_range(r as int, c as int, dim as nat, dim as nat);
                    }
                    self.entry(r, c)
                } else if c - dim == r {
                    T::one_value()
                } else {
                    T::zero_value()
                };
                cells.push(cell);
                c = c + 1;
            }
            proof {
                assert(r * width + width == (r + 1) * width) by (nonlinear_arith);
            }
            r = r + 1;
        }
        let augmented = Matrix::assemble(dim, width, cells);
        proof {
            self@.lemma_augmented();
            assert forall|x: int, y: int| augmented@.has(x, y) implies augmented@.at(x, y)
                == self@.augmented().at(x, y) by {
                lemma_flat_index_in_range(x, y, dim as nat, width as nat);
                lemma_flat_index_split(x, y, width as nat);
            }
            augmented@.lemma_equal(self@.augmented());
        }
        let reduced = augmented.rref();
        if !reduced.left_is_identity(dim) {
            return Ok(None);
        }
        let mut inverse: Vec<T> = Vec::new();
        let mut r: usize = 0;
        while r < dim
            invariant
                r <= dim,
                dim >= 1,
                width == 2 * dim,
                reduced@.wf(),
                reduced@.rows == dim,
                reduced@.cols == width,
                inverse@.len() == r * dim,
                forall|k: int|
                    0 <= k < inverse@.len() ==> #[trigger] inverse@[k] == reduced@.at(
                        k / (dim as int),
                        k % (dim as int) + dim,
                    ),
            decreases dim - r,
        {
            let mut c: usize = 0;
            while c < dim
                invariant
                    r < dim,
                    c <= dim,
                    dim >= 1,
                    width == 2 * dim,
                    reduced@.wf(),
                    reduced@.rows == dim,
                    reduced@.cols == width,
                    inverse@.len() == r * dim + c,
                    forall|k: int|
                        0 <= k < inverse@.len() ==> #[trigger] inverse@[k] == reduced@.at(
                            k / (dim as int),
                            k % (dim as int) + dim,
                        ),
                decreases dim - c,
            {
                proof {
                    lemma_flat_index_in_range(r as int, c + dim, dim as nat, width as nat);
                    lemma_flat_index_split(r as int, c as int, dim as nat);
                }
                inverse.push(reduced.entry(r, c + dim));
                c = c + 1;
            }
            proof {
                assert(r * dim + dim == (r + 1) * dim) by (nonlinear_arith);
            }
            r = r + 1;
        }
        let res = Matrix::assemble(dim, dim, inverse);
        proof {
            assert(res@.cells =~= reduced@.right_half().cells);
        }
        Ok(Some(res))
    }
}

} // verus!
