//! Element-wise arithmetic, the matrix product and scaling.
//!
//! The operators that can fail return the failure as a value: a mismatch of
//! shapes is `DimensionError::NoMatch`, and a division by zero is `None`.

use crate::err::DimensionError;
use crate::mat::grid::{lemma_flat_index_in_range, lemma_flat_index_split, Grid};
use crate::mat::matrix::Matrix;
use crate::num::{AddIdentity, Addition, Division, Multiplication, Negation, Subtraction};
use vstd::prelude::*;
use vstd::std_specs::ops::{AddSpecImpl, DivSpecImpl, MulSpecImpl, NegSpecImpl, SubSpecImpl};

verus! {

impl<T> Grid<T> {
    /// Whether two grids have the same row count and the same column count.
    pub open spec fn same_shape(self, other: Grid<T>) -> bool {
        self.rows == other.rows && self.cols == other.cols
    }

    /// This grid with `f` applied to every cell.
    pub open spec fn map_cells(self, f: spec_fn(T) -> T) -> Grid<T> {
        Grid {
            rows: self.rows,
            cols: self.cols,
            cells: Seq::new(self.cells.len(), |k: int| f(self.cells[k])),
        }
    }
}

impl<T: Addition> Grid<T> {
    /// The cell-by-cell sum of two grids of one shape.
    pub open spec fn sum(self, other: Grid<T>) -> Grid<T> {
        Grid {
            rows: self.rows,
            cols: self.cols,
            cells: Seq::new(self.cells.len(), |k: int| self.cells[k].plus_spec(other.cells[k])),
        }
    }
}

impl<T: Subtraction> Grid<T> {
    /// The cell-by-cell difference of two grids of one shape.
    pub open spec fn difference(self, other: Grid<T>) -> Grid<T> {
        Grid {
            rows: self.rows,
            cols: self.cols,
            cells: Seq::new(self.cells.len(), |k: int| self.cells[k].minus_spec(other.cells[k])),
        }
    }
}

impl<T: Negation> Grid<T> {
    /// Every cell negated.
    pub open spec fn negation(self) -> Grid<T> {
        self.map_cells(|x: T| x.negated_spec())
    }
}

impl<T: Multiplication> Grid<T> {
    /// Every cell multiplied by `scalar`.
    pub open spec fn scaled(self, scalar: T) -> Grid<T> {
        self.map_cells(|x: T| x.times_spec(scalar))
    }
}

impl<T: Division> Grid<T> {
    /// Every cell divided by `divisor`.
    pub open spec fn divided(self, divisor: T) -> Grid<T> {
        self.map_cells(|x: T| x.over_spec(divisor))
    }
}

impl<T: AddIdentity + Addition + Multiplication> Grid<T> {
    /// The sum over `k < n` of `self(i, k) * other(k, j)`, accumulated from
    /// zero in the order of `k`.
    pub open spec fn dot(self, other: Grid<T>, i: int, j: int, n: nat) -> T
        decreases n,
    {
        if n == 0 {
            T::zero_spec()
        } else {
            self.dot(other, i, j, (n - 1) as nat).plus_spec(
                self.at(i, n - 1).times_spec(other.at(n - 1, j)),
            )
        }
    }

    /// The matrix product: as many rows as `self`, as many columns as
    /// `other`, and at `(i, j)` the product of row `i` with column `j`.
    pub open spec fn product(self, other: Grid<T>) -> Grid<T> {
        Grid::build(self.rows, other.cols, |i: int, j: int| self.dot(other, i, j, self.cols))
    }
}

impl<T: Addition> Matrix<T> {
    /// Adds `rhs` to this matrix cell by cell.
    pub fn add_assign(&mut self, rhs: Matrix<T>)
        requires
            old(self)@.same_shape(rhs@),
        ensures
            final(self)@ == old(self)@.sum(rhs@),
            final(self)@.wf(),
    {
        let n = self.cell_count();
        let _ = rhs.cell_count();
        let ghost before = self@;
        let mut k: usize = 0;
        while k < n
            invariant
                k <= n,
                self@.rows == before.rows,
                self@.cols == before.cols,
                self@.cells.len() == n,
                before.cells.len() == n,
                rhs@.cells.len() == n,
                forall|x: int|
                    0 <= x < k ==> #[trigger] self@.cells[x] == before.cells[x].plus_spec(
                        rhs@.cells[x],
                    ),
                forall|x: int| k <= x < n ==> #[trigger] self@.cells[x] == before.cells[x],
            decreases n - k,
        {
            let a = self.flat(k);
            let b = rhs.flat(k);
            self.set_flat(k, a.plus(b));
            k = k + 1;
        }
        proof {
            assert(self@.cells =~= before.sum(rhs@).cells);
        }
    }
}

impl<T: Subtraction> Matrix<T> {
    /// Subtracts `rhs` from this matrix cell by cell.
    pub fn sub_assign(&mut self, rhs: Matrix<T>)
        requires
            old(self)@.same_shape(rhs@),
        ensures
            final(self)@ == old(self)@.difference(rhs@),
            final(self)@.wf(),
    {
        let n = self.cell_count();
        let _ = rhs.cell_count();
        let ghost before = self@;
        let mut k: usize = 0;
        while k < n
            invariant
                k <= n,
                self@.rows == before.rows,
                self@.cols == before.cols,
                self@.cells.len() == n,
                before.cells.len() == n,
                rhs@.cells.len() == n,
                forall|x: int|
                    0 <= x < k ==> #[trigger] self@.cells[x] == before.cells[x].minus_spec(
                        rhs@.cells[x],
                    ),
                forall|x: int| k <= x < n ==> #[trigger] self@.cells[x] == before.cells[x],
            decreases n - k,
        {
            let a = self.flat(k);
            let b = rhs.flat(k);
            self.set_flat(k, a.minus(b));
            k = k + 1;
        }
        proof {
            assert(self@.cells =~= before.difference(rhs@).cells);
        }
    }
}

impl<T: Multiplication> Matrix<T> {
    /// Multiplies every cell by `scalar`.
    pub fn mul_assign(&mut self, scalar: T)
        ensures
            final(self)@ == old(self)@.scaled(scalar),
            final(self)@.wf(),
    {
        let n = self.cell_count();
        let ghost before = self@;
        let mut k: usize = 0;
        while k < n
            invariant
                k <= n,
                self@.rows == before.rows,
                self@.cols == before.cols,
                self@.cells.len() == n,
                before.cells.len() == n,
                forall|x: int|
                    0 <= x < k ==> #[trigger] self@.cells[x] == before.cells[x].times_spec(scalar),
                forall|x: int| k <= x < n ==> #[trigger] self@.cells[x] == before.cells[x],
            decreases n - k,
        {
            let a = self.flat(k);
            self.set_flat(k, a.times(scalar));
            k = k + 1;
        }
        proof {
            assert(self@.cells =~= before.scaled(scalar).cells);
        }
    }
}

impl<T: Division> Matrix<T> {
    /// Divides every cell by `divisor`, which may not be zero.
    pub fn div_assign(&mut self, divisor: T)
        requires
            !divisor.is_zero_spec(),
        ensures
            final(self)@ == old(self)@.divided(divisor),
            final(self)@.wf(),
    {
        let n = self.cell_count();
        let ghost before = self@;
        let mut k: usize = 0;
        while k < n
            invariant
                k <= n,
                !divisor.is_zero_spec(),
                self@.rows == before.rows,
                self@.cols == before.cols,
                self@.cells.len() == n,
                before.cells.len() == n,
                forall|x: int|
                    0 <= x < k ==> #[trigger] self@.cells[x] == before.cells[x].over_spec(divisor),
                forall|x: int| k <= x < n ==> #[trigger] self@.cells[x] == before.cells[x],
            decreases n - k,
        {
            let a = self.flat(k);
            self.set_flat(k, a.over(divisor));
            k = k + 1;
        }
        proof {
            assert(self@.cells =~= before.divided(divisor).cells);
        }
    }
}

/// The contract of the operator stands on the method itself.
impl<T: Addition> AddSpecImpl for Matrix<T> {
    open spec fn obeys_add_spec() -> bool {
        false
    }

    open spec fn add_req(self, rhs: Matrix<T>) -> bool {
        true
    }

    open spec fn add_spec(self, rhs: Matrix<T>) -> Result<Matrix<T>, DimensionError> {
        arbitrary()
    }
}

impl<T: Addition> core::ops::Add for Matrix<T> {
    type Output = Result<Matrix<T>, DimensionError>;

    /// The cell-by-cell sum, where both operands have one shape.
    fn add(self, rhs: Matrix<T>) -> (r: Result<Matrix<T>, DimensionError>)
        ensures
            match r {
                Ok(m) => self@.same_shape(rhs@) && m@ == self@.sum(rhs@) && m@.wf(),
                Err(DimensionError::NoMatch(a, b, op)) => !self@.same_shape(rhs@) && a@ == (
                    self@.rows,
                    self@.cols,
                ) && b@ == (rhs@.rows, rhs@.cols) && op@ == "add"@,
                Err(_) => false,
            },
    {
        if self.rows() != rhs.rows() || self.cols() != rhs.cols() {
            Err(DimensionError::NoMatch(self.dims(), rhs.dims(), "add".to_owned()))
        } else {
            let mut result_matrix = self;
            result_matrix.add_assign(rhs);
            Ok(result_matrix)
        }
    }
}

/// The contract of the operator stands on the method itself.
impl<T: Subtraction> SubSpecImpl for Matrix<T> {
    open spec fn obeys_sub_spec() -> bool {
        false
    }

    open spec fn sub_req(self, rhs: Matrix<T>) -> bool {
        true
    }

    open spec fn sub_spec(self, rhs: Matrix<T>) -> Result<Matrix<T>, DimensionError> {
        arbitrary()
    }
}

impl<T: Subtraction> core::ops::Sub for Matrix<T> {
    type Output = Result<Matrix<T>, DimensionError>;

    /// The cell-by-cell difference, where both operands have one shape.
    fn sub(self, rhs: Matrix<T>) -> (r: Result<Matrix<T>, DimensionError>)
        ensures
            match r {
                Ok(m) => self@.same_shape(rhs@) && m@ == self@.difference(rhs@) && m@.wf(),
                Err(DimensionError::NoMatch(a, b, op)) => !self@.same_shape(rhs@) && a@ == (
                    self@.rows,
                    self@.cols,
                ) && b@ == (rhs@.rows, rhs@.cols) && op@ == "subtract"@,
                Err(_) => false,
            },
    {
        if self.rows() != rhs.rows() || self.cols() != rhs.cols() {
            Err(DimensionError::NoMatch(self.dims(), rhs.dims(), "subtract".to_owned()))
        } else {
            let mut result_matrix = self;
            result_matrix.sub_assign(rhs);
            Ok(result_matrix)
        }
    }
}

/// The contract of the operator stands on the method itself.
impl<T: Negation> NegSpecImpl for Matrix<T> {
    open spec fn obeys_neg_spec() -> bool {
        false
    }

    open spec fn neg_req(self) -> bool {
        true
    }

    open spec fn neg_spec(self) -> Matrix<T> {
        arbitrary()
    }
}

impl<T: Negation> core::ops::Neg for Matrix<T> {
    type Output = Matrix<T>;

    /// Every cell negated.
    fn neg(self) -> (r: Matrix<T>)
        ensures
            r@ == self@.negation(),
            r@.wf(),
    {
        let mut result_matrix = self;
        let n = result_matrix.cell_count();
        let ghost before = result_matrix@;
        let mut k: usize = 0;
        while k < n
            invariant
                k <= n,
                result_matrix@.rows == before.rows,
                result_matrix@.cols == before.cols,
                result_matrix@.cells.len() == n,
                before.cells.len() == n,
                before.wf(),
                forall|x: int|
                    0 <= x < k ==> #[trigger] result_matrix@.cells[x]
                        == before.cells[x].negated_spec(),
                forall|x: int| k <= x < n ==> #[trigger] result_matrix@.cells[x] == before.cells[x],
            decreases n - k,
        {
            let a = result_matrix.flat(k);
            result_matrix.set_flat(k, a.negated());
            k = k + 1;
        }
        proof {
            assert(result_matrix@.cells =~= before.negation().cells);
        }
        result_matrix
    }
}

/// The contract of the operator stands on the method itself.
impl<T: Multiplication> MulSpecImpl<T> for Matrix<T> {
    open spec fn obeys_mul_spec() -> bool {
        false
    }

    open spec fn mul_req(self, rhs: T) -> bool {
        true
    }

    open spec fn mul_spec(self, rhs: T) -> Matrix<T> {
        arbitrary()
    }
}

impl<T: Multiplication> core::ops::Mul<T> for Matrix<T> {
    type Output = Matrix<T>;

    /// Every cell multiplied by `scalar`.
    fn mul(self, scalar: T) -> (r: Matrix<T>)
        ensures
            r@ == self@.scaled(scalar),
            r@.wf(),
    {
        let mut result_matrix = self;
        result_matrix.mul_assign(scalar);
        result_matrix
    }
}

/// The contract of the operator stands on the method itself.
impl<T: Division> DivSpecImpl<T> for Matrix<T> {
    open spec fn obeys_div_spec() -> bool {
        false
    }

    open spec fn div_req(self, rhs: T) -> bool {
        true
    }

    open spec fn div_spec(self, rhs: T) -> Option<Matrix<T>> {
        arbitrary()
    }
}

impl<T: Division> core::ops::Div<T> for Matrix<T> {
    type Output = Option<Matrix<T>>;

    /// Every cell divided by `divisor`, or nothing where `divisor` is zero.
    fn div(self, divisor: T) -> (r: Option<Matrix<T>>)
        ensures
            match r {
                Some(m) => !divisor.is_zero_spec() && m@ == self@.divided(divisor) && m@.wf(),
                None => divisor.is_zero_spec(),
            },
    {
        if divisor.is_zero_value() {
            None
        } else {
            let mut result_matrix = self;
            result_matrix.div_assign(divisor);
            Some(result_matrix)
        }
    }
}

/// The contract of the operator stands on the method itself.
impl<T: AddIdentity + Addition + Multiplication> MulSpecImpl<Matrix<T>> for Matrix<T> {
    open spec fn obeys_mul_spec() -> bool {
        false
    }

    open spec fn mul_req(self, rhs: Matrix<T>) -> bool {
        self@.rows * rhs@.cols <= usize::MAX
    }

    open spec fn mul_spec(self, rhs: Matrix<T>) -> Result<Matrix<T>, DimensionError> {
        arbitrary()
    }
}

impl<T: AddIdentity + Addition + Multiplication> core::ops::Mul<Matrix<T>> for Matrix<T> {
    type Output = Result<Matrix<T>, DimensionError>;

    /// The matrix product, where `self` has as many columns as `rhs` has
    /// rows. The cells of the result have to fit in memory.
    fn mul(self, rhs: Matrix<T>) -> (r: Result<Matrix<T>, DimensionError>)
        ensures
            match r {
                Ok(m) => self@.cols == rhs@.rows && m@ == self@.product(rhs@) && m@.wf(),
                Err(DimensionError::NoMatch(a, b, op)) => self@.cols != rhs@.rows && a@ == (
                    self@.rows,
                    self@.cols,
                ) && b@ == (rhs@.rows, rhs@.cols) && op@ == "multiply"@,
                Err(_) => false,
            },
    {
        if self.cols() != rhs.rows() {
            Err(DimensionError::NoMatch(self.dims(), rhs.dims(), "multiply".to_owned()))
        } else {
            Ok(self.times_matrix(&rhs))
        }
    }
}

impl<T: AddIdentity + Addition + Multiplication> Matrix<T> {
    /// The matrix product with a matrix of as many rows as this one has
    /// columns.
    pub fn times_matrix(&self, rhs: &Matrix<T>) -> (r: Matrix<T>)
        requires
            self@.cols == rhs@.rows,
            self@.rows * rhs@.cols <= usize::MAX,
        ensures
            r@ == self@.product(rhs@),
            r@.wf(),
    {
        let rows = self.rows();
        let inner = self.cols();
        let cols = rhs.cols();
        let _ = rhs.rows();
        let mut cells: Vec<T> = Vec::new();
        let mut i: usize = 0;
        while i < rows
            invariant
                i <= rows,
                rows == self@.rows,
                inner == self@.cols,
                inner == rhs@.rows,
                cols == rhs@.cols,
                self@.wf(),
                rhs@.wf(),
                cells@.len() == i * cols,
                forall|x: int|
                    0 <= x < cells@.len() ==> #[trigger] cells@[x] == self@.dot(
                        rhs@,
                        x / (cols as int),
                        x % (cols as int),
                        inner as nat,
                    ),
            decreases rows - i,
        {
            let mut j: usize = 0;
            while j < cols
                invariant
                    i < rows,
                    j <= cols,
                    rows == self@.rows,
                    inner == self@.cols,
                    inner == rhs@.rows,
                    cols == rhs@.cols,
                    self@.wf(),
                    rhs@.wf(),
                    cells@.len() == i * cols + j,
                    forall|x: int|
                        0 <= x < cells@.len() ==> #[trigger] cells@[x] == self@.dot(
                            rhs@,
                            x / (cols as int),
                            x % (cols as int),
                            inner as nat,
                        ),
                decreases cols - j,
            {
                let mut sum = T::zero_value();
                let mut k: usize = 0;
                while k < inner
                    invariant
                        i < rows,
                        j < cols,
                        k <= inner,
                        rows == self@.rows,
                        inner == self@.cols,
                        inner == rhs@.rows,
                        cols == rhs@.cols,
                        self@.wf(),
                        rhs@.wf(),
                        sum == self@.dot(rhs@, i as int, j as int, k as nat),
                    decreases inner - k,
                {
                    proof {
                        lemma_flat_index_in_range(i as int, k as int, rows as nat, inner as nat);
                        lemma_flat_index_in_range(k as int, j as int, inner as nat, cols as nat);
                    }
                    sum = sum.plus(self.entry(i, k).times(rhs.entry(k, j)));
                    k = k + 1;
                }
                proof {
                    lemma_flat_index_split(i as int, j as int, cols as nat);
                }
                cells.push(sum);
                j = j + 1;
            }
            proof {
                assert(i * cols + cols == (i + 1) * cols) by (nonlinear_arith);
            }
            i = i + 1;
        }
        let res = Matrix::assemble(rows, cols, cells);
        proof {
            assert(res@.cells =~= self@.product(rhs@).cells);
        }
        res
    }
}

} // verus!
