//! LU decomposition with pivoting along the pivot row, and the determinant
//! computed from it.

use crate::err::DimensionError;
use crate::mat::grid::{lemma_flat_index_in_range, lemma_flat_index_split, Grid};
use crate::mat::matrix::Matrix;
use crate::num::{AddIdentity, IdentityLaws, MulIdentity, Negation, PivotLaws};
use vstd::prelude::*;

verus! {

impl<T: AddIdentity + MulIdentity> Grid<T> {
    /// The identity matrix with the columns `a` and `b` exchanged.
    pub open spec fn exchange(dim: nat, a: int, b: int) -> Grid<T> {
        Grid::build(
            dim,
            dim,
            |r: int, c: int|
                if r == exchanged(c, a, b) {
                    T::one_spec()
                } else {
                    T::zero_spec()
                },
        )
    }
}

/// The index that `k` goes to when `a` and `b` trade places.
pub open spec fn exchanged(k: int, a: int, b: int) -> int {
    if k == a {
        b
    } else if k == b {
        a
    } else {
        k
    }
}

/// The permutation record before any exchange: `0, 1, .., dim`. The last
/// slot counts the exchanges, starting from `dim`.
pub open spec fn initial_record(dim: nat) -> Seq<usize> {
    Seq::new(dim + 1, |k: int| k as usize)
}

/// The record after the columns `i` and `imax` are exchanged: the two slots
/// trade places and the counter in the last slot goes up by one.
pub open spec fn record_exchange(p: Seq<usize>, i: int, imax: int) -> Seq<usize> {
    let last = p.len() - 1;
    p.update(i, p[imax]).update(imax, p[i]).update(last, (p[last] + 1) as usize)
}

impl<T: PivotLaws> Grid<T> {
    /// The largest magnitude among the cells `(i, i), .., (i, k - 1)` of row
    /// `i`, and the first column where it stands. Before any cell is seen
    /// the largest magnitude is zero and the column is `i`.
    pub open spec fn pivot_scan(self, i: int, k: int) -> (T, int)
        decreases k - i,
    {
        if k <= i {
            (T::zero_spec(), i)
        } else {
            let (best, column) = self.pivot_scan(i, k - 1);
            let candidate = self.at(i, k - 1).magnitude_spec();
            if candidate.exceeds_spec(best) {
                (candidate, k - 1)
            } else {
                (best, column)
            }
        }
    }

    /// The grid after the rows below `i` are eliminated with row `i`: in
    /// column `i` they hold the multiplier, the cell divided by the pivot
    /// `(i, i)`, and right of it the cell less the multiplier times the cell
    /// of row `i` above it.
    pub open spec fn eliminated(self, i: int) -> Grid<T> {
        Grid::build(
            self.rows,
            self.cols,
            |r: int, c: int|
                if r > i && c == i {
                    self.multiplier(r, i)
                } else if r > i && c > i {
                    self.at(r, c).minus_spec(self.multiplier(r, i).times_spec(self.at(i, c)))
                } else {
                    self.at(r, c)
                },
        )
    }

    /// The cell `(r, i)` divided by the pivot `(i, i)`.
    pub open spec fn multiplier(self, r: int, i: int) -> T {
        self.at(r, i).over_spec(self.at(i, i))
    }

    /// The decomposition carried on from step `i` with the record `p`:
    /// nothing, where the largest magnitude in the rest of row `i` is
    /// negligible; else the pivot is brought to the diagonal by a product
    /// with an exchange matrix, the rows below are eliminated, and the next
    /// step follows.
    pub open spec fn lu_from(self, p: Seq<usize>, i: nat, dim: nat) -> Option<(Grid<T>, Seq<usize>)>
        decreases dim - i,
    {
        if i >= dim {
            Some((self, p))
        } else {
            let (best, column) = self.pivot_scan(i as int, dim as int);
            if best.is_negligible_spec() {
                None
            } else if column != i {
                self.product(Grid::exchange(dim, i as int, column)).eliminated(i as int).lu_from(
                    record_exchange(p, i as int, column),
                    i + 1,
                    dim,
                )
            } else {
                self.eliminated(i as int).lu_from(p, i + 1, dim)
            }
        }
    }

    /// The decomposition of a square grid: the factors in one grid, L below
    /// the diagonal and U on and above it, with the permutation record; or
    /// nothing where the grid is singular.
    pub open spec fn lu(self) -> Option<(Grid<T>, Seq<usize>)> {
        self.lu_from(initial_record(self.rows), 0, self.rows)
    }
}

impl<T: PivotLaws> Grid<T> {
    /// What `eliminated` puts at a position.
    pub proof fn lemma_eliminated(self, i: int)
        ensures
            self.eliminated(i).rows == self.rows,
            self.eliminated(i).cols == self.cols,
            self.eliminated(i).cells.len() == self.rows * self.cols,
            forall|r: int, c: int|
                self.has(r, c) ==> #[trigger] self.eliminated(i).at(r, c) == (if r > i && c == i {
                    self.multiplier(r, i)
                } else if r > i && c > i {
                    self.at(r, c).minus_spec(self.multiplier(r, i).times_spec(self.at(i, c)))
                } else {
                    self.at(r, c)
                }),
    {
        let g = self.eliminated(i);
        assert forall|r: int, c: int| self.has(r, c) implies #[trigger] g.at(r, c) == (if r > i
            && c == i {
            self.multiplier(r, i)
        } else if r > i && c > i {
            self.at(r, c).minus_spec(self.multiplier(r, i).times_spec(self.at(i, c)))
        } else {
            self.at(r, c)
        }) by {
            lemma_flat_index_in_range(r, c, self.rows, self.cols);
            lemma_flat_index_split(r, c, self.cols);
        }
    }
}

impl<T: IdentityLaws> Grid<T> {
    /// The product of a row with a column that holds one at `s` and zero
    /// everywhere else is the cell of the row at `s`.
    pub proof fn lemma_dot_unit(self, other: Grid<T>, i: int, j: int, n: nat, s: int)
        requires
            forall|k: int|
                0 <= k < n ==> #[trigger] other.at(k, j) == (if k == s {
                    T::one_spec()
                } else {
                    T::zero_spec()
                }),
        ensures
            self.dot(other, i, j, n) == (if 0 <= s < n {
                self.at(i, s)
            } else {
                T::zero_spec()
            }),
        decreases n,
    {
        if n > 0 {
            self.lemma_dot_unit(other, i, j, (n - 1) as nat, s);
            let before = self.dot(other, i, j, (n - 1) as nat);
            let cell = self.at(i, n - 1);
            T::law_times_zero(cell);
            T::law_times_one(cell);
            T::law_plus_zero(before);
            T::law_plus_zero(cell);
        }
    }

    /// The product with an exchange matrix exchanges two columns.
    pub proof fn lemma_product_exchange(self, a: int, b: int)
        requires
            self.wf(),
            self.rows == self.cols,
            0 <= a < self.cols,
            0 <= b < self.cols,
        ensures
            self.product(Grid::exchange(self.cols, a, b)).wf(),
            self.product(Grid::exchange(self.cols, a, b)).rows == self.rows,
            self.product(Grid::exchange(self.cols, a, b)).cols == self.cols,
            forall|r: int, c: int|
                self.has(r, c) ==> #[trigger] self.product(Grid::exchange(self.cols, a, b)).at(r, c)
                    == self.at(r, exchanged(c, a, b)),
    {
        let dim = self.cols;
        let t = Grid::<T>::exchange(dim, a, b);
        let f = |r: int, c: int|
            if r == exchanged(c, a, b) {
                T::one_spec()
            } else {
                T::zero_spec()
            };
        Grid::lemma_build(dim, dim, f);
        let g = |i: int, j: int| self.dot(t, i, j, self.cols);
        Grid::lemma_build(self.rows, dim, g);
        let prod = self.product(t);
        assert forall|r: int, c: int| self.has(r, c) implies #[trigger] prod.at(r, c) == self.at(
            r,
            exchanged(c, a, b),
        ) by {
            assert forall|k: int| 0 <= k < dim implies #[trigger] t.at(k, c) == (if k
                == exchanged(c, a, b) {
                T::one_spec()
            } else {
                T::zero_spec()
            }) by {
                assert(t.at(k, c) == f(k, c));
            }
            self.lemma_dot_unit(t, r, c, dim, exchanged(c, a, b));
            assert(prod.at(r, c) == g(r, c));
        }
    }
}

impl<T: PivotLaws> Matrix<T> {
    /// The largest magnitude in row `i` from the diagonal on, and the first
    /// column where it stands.
    fn find_pivot(&self, i: usize) -> (r: (T, usize))
        requires
            self@.rows == self@.cols,
            i < self@.rows,
        ensures
            (r.0, r.1 as int) == self@.pivot_scan(i as int, self@.rows as int),
            i <= r.1 < self@.rows,
            r.0 == T::zero_spec() || r.0 == self@.at(i as int, r.1 as int).magnitude_spec(),
    {
        let dim = self.rows();
        let mut max_a = T::zero_value();
        let mut imax = i;
        let mut k = i;
        while k < dim
            invariant
                i <= k <= dim,
                i < dim,
                dim == self@.rows,
                dim == self@.cols,
                self@.wf(),
                (max_a, imax as int) == self@.pivot_scan(i as int, k as int),
                i <= imax < dim,
                max_a == T::zero_spec() || max_a == self@.at(i as int, imax as int).magnitude_spec(),
            decreases dim - k,
        {
            proof {
                lemma_flat_index_in_range(i as int, k as int, dim as nat, dim as nat);
            }
            let candidate = self.entry(i, k).magnitude();
            if candidate.exceeds(max_a) {
                max_a = candidate;
                imax = k;
            }
            k = k + 1;
        }
        (max_a, imax)
    }

    /// The identity matrix with the columns `i` and `imax` exchanged.
    fn exchange_matrix(dim: usize, i: usize, imax: usize) -> (r: Matrix<T>)
        requires
            dim * dim <= usize::MAX,
            i < dim,
            imax < dim,
            i != imax,
        ensures
            r@ == Grid::<T>::exchange(dim as nat, i as int, imax as int),
            r@.wf(),
    {
        let mut t_ij = Matrix::<T>::identity_of(dim);
        let ghost id = t_ij@;
        proof {
            Grid::lemma_diagonal(dim as nat, T::zero_spec(), |k: int| T::one_spec());
            lemma_flat_index_in_range(i as int, i as int, dim as nat, dim as nat);
            lemma_flat_index_in_range(imax as int, imax as int, dim as nat, dim as nat);
            lemma_flat_index_in_range(i as int, imax as int, dim as nat, dim as nat);
            lemma_flat_index_in_range(imax as int, i as int, dim as nat, dim as nat);
        }
        *t_ij.entry_mut(i, i) = T::zero_value();
        let ghost g1 = t_ij@;
        *t_ij.entry_mut(imax, imax) = T::zero_value();
        let ghost g2 = t_ij@;
        *t_ij.entry_mut(i, imax) = T::one_value();
        let ghost g3 = t_ij@;
        *t_ij.entry_mut(imax, i) = T::one_value();
        proof {
            id.lemma_with(i as int, i as int, T::zero_spec());
            g1.lemma_with(imax as int, imax as int, T::zero_spec());
            g2.lemma_with(i as int, imax as int, T::one_spec());
            g3.lemma_with(imax as int, i as int, T::one_spec());
            let goal = Grid::<T>::exchange(dim as nat, i as int, imax as int);
            Grid::lemma_build(
                dim as nat,
                dim as nat,
                |r: int, c: int|
                    if r == exchanged(c, i as int, imax as int) {
                        T::one_spec()
                    } else {
                        T::zero_spec()
                    },
            );
            assert forall|r: int, c: int| t_ij@.has(r, c) implies t_ij@.at(r, c) == goal.at(
                r,
                c,
            ) by {
                assert(g1.has(r, c) && g2.has(r, c) && g3.has(r, c) && id.has(r, c));
            }
            t_ij@.lemma_equal(goal);
        }
        t_ij
    }

    /// Eliminates the rows below `i` with row `i`, whose pivot is not zero.
    fn eliminate(&mut self, i: usize)
        requires
            old(self)@.rows == old(self)@.cols,
            i < old(self)@.rows,
            !old(self)@.at(i as int, i as int).is_zero_spec(),
        ensures
            final(self)@ == old(self)@.eliminated(i as int),
            final(self)@.wf(),
    {
        let dim = self.rows();
        let ghost before = self@;
        let mut j = i + 1;
        while j < dim
            invariant
                i < j <= dim,
                dim == before.rows,
                dim == before.cols,
                before.wf(),
                !before.at(i as int, i as int).is_zero_spec(),
                self@.rows == dim,
                self@.cols == dim,
                self@.cells.len() == dim * dim,
                forall|r: int, c: int|
                    0 <= r < dim && 0 <= c < dim ==> #[trigger] self@.at(r, c) == (if i < r < j
                        && c == i {
                        before.multiplier(r, i as int)
                    } else if i < r < j && c > i {
                        before.at(r, c).minus_spec(
                            before.multiplier(r, i as int).times_spec(before.at(i as int, c)),
                        )
                    } else {
                        before.at(r, c)
                    }),
            decreases dim - j,
        {
            proof {
                lemma_flat_index_in_range(j as int, i as int, dim as nat, dim as nat);
                lemma_flat_index_in_range(i as int, i as int, dim as nat, dim as nat);
                assert(self@.at(i as int, i as int) == before.at(i as int, i as int));
                assert(self@.at(j as int, i as int) == before.at(j as int, i as int));
            }
            let ghost g0 = self@;
            let quotient = self.entry(j, i).over(self.entry(i, i));
            *self.entry_mut(j, i) = quotient;
            proof {
                g0.lemma_with(j as int, i as int, quotient);
            }
            let mut k = i + 1;
            while k < dim
                invariant
                    i < j < dim,
                    i < k <= dim,
                    dim == before.rows,
                    dim == before.cols,
                    before.wf(),
                    self@.rows == dim,
                    self@.cols == dim,
                    self@.cells.len() == dim * dim,
                    quotient == before.multiplier(j as int, i as int),
                    forall|r: int, c: int|
                        0 <= r < dim && 0 <= c < dim ==> #[trigger] self@.at(r, c) == (if (i < r
                            < j || (r == j && c < k)) && c == i {
                            before.multiplier(r, i as int)
                        } else if (i < r < j || (r == j && c < k)) && c > i {
                            before.at(r, c).minus_spec(
                                before.multiplier(r, i as int).times_spec(before.at(i as int, c)),
                            )
                        } else {
                            before.at(r, c)
                        }),
                decreases dim - k,
            {
                proof {
                    lemma_flat_index_in_range(j as int, k as int, dim as nat, dim as nat);
                    lemma_flat_index_in_range(j as int, i as int, dim as nat, dim as nat);
                    lemma_flat_index_in_range(i as int, k as int, dim as nat, dim as nat);
                    assert(self@.at(j as int, k as int) == before.at(j as int, k as int));
                    assert(self@.at(j as int, i as int) == quotient);
                    assert(self@.at(i as int, k as int) == before.at(i as int, k as int));
                }
                let ghost g1 = self@;
                let value = self.entry(j, k).minus(self.entry(j, i).times(self.entry(i, k)));
                *self.entry_mut(j, k) = value;
                proof {
                    g1.lemma_with(j as int, k as int, value);
                }
                k = k + 1;
            }
            j = j + 1;
        }
        proof {
            let goal = before.eliminated(i as int);
            before.lemma_eliminated(i as int);
            assert forall|r: int, c: int| self@.has(r, c) implies self@.at(r, c) == goal.at(
                r,
                c,
            ) by {}
            self@.lemma_equal(goal);
        }
    }
}

impl<T: PivotLaws> Matrix<T> {
    /// The LU decomposition of a square matrix: the factors in one matrix,
    /// L below the diagonal and U on and above it, with the permutation
    /// record, whose last slot is the size plus the number of exchanges; or
    /// nothing where the matrix is singular.
    pub fn lupdecompose(&self) -> (r: Result<Option<(Matrix<T>, Vec<usize>)>, DimensionError>)
        ensures
            match r {
                Ok(Some((m, p))) => {
                    &&& self@.rows == self@.cols
                    &&& self@.lu() == Some((m@, p@))
                    &&& m@.wf()
                    &&& m@.same_shape(self@)
                    &&& p@.len() == self@.rows + 1
                    &&& self@.rows <= p@[self@.rows as int] <= 2 * self@.rows
                },
                Ok(None) => self@.rows == self@.cols && self@.lu() is None,
                Err(e) => self@.rows != self@.cols && e == DimensionError::NoSquare,
            },
    {
        if !self.is_square() {
            return Err(DimensionError::NoSquare);
        }
        let mut a = self.duplicate();
        let dim = self.rows();
        let _ = self.cell_count();
        proof {
            assert(dim < usize::MAX) by (nonlinear_arith)
                requires
                    dim * dim <= usize::MAX,
                    usize::MAX >= 2,
            ;
        }
        let mut p: Vec<usize> = Vec::new();
        let mut k: usize = 0;
        while k <= dim
            invariant
                k <= dim + 1,
                dim < usize::MAX,
                p@.len() == k,
                forall|x: int| 0 <= x < k ==> p@[x] == x,
            decreases dim + 1 - k,
        {
            p.push(k);
            k = k + 1;
        }
        proof {
            assert(p@ =~= initial_record(dim as nat));
        }
        let mut i: usize = 0;
        while i < dim
            invariant
                i <= dim,
                dim >= 1,
                dim * dim <= usize::MAX,
                dim == self@.rows,
                dim == self@.cols,
                a@.wf(),
                a@.rows == dim,
                a@.cols == dim,
                p@.len() == dim + 1,
                dim <= p@[dim as int] <= dim + i,
                a@.lu_from(p@, i as nat, dim as nat) == self@.lu(),
            decreases dim - i,
        {
            let (max_a, imax) = a.find_pivot(i);
            if max_a.is_negligible() {
                return Ok(None);
            }
            proof {
                T::law_zero_negligible();
                T::law_pivot_nonzero(a@.at(i as int, imax as int));
            }
            if imax != i {
                let ghost record = p@;
                let held = p[i];
                let other = p[imax];
                p.set(i, other);
                p.set(imax, held);
                let t_ij = Matrix::<T>::exchange_matrix(dim, i, imax);
                proof {
                    a@.lemma_product_exchange(i as int, imax as int);
                    assert(2 * dim <= dim * dim) by (nonlinear_arith)
                        requires
                            dim >= 2,
                    ;
                }
                a = a.times_matrix(&t_ij);
                let count = p[dim];
                p.set(dim, count + 1);
                proof {
                    assert(p@ =~= record_exchange(record, i as int, imax as int));
                }
            }
            a.eliminate(i);
            i = i + 1;
        }
        Ok(Some((a, p)))
    }
}

impl<T: PivotLaws + Negation> Grid<T> {
    /// The product of the first `n` cells of the diagonal, multiplied up
    /// from the first in order. `n` is at least one.
    pub open spec fn diagonal_product(self, n: nat) -> T
        decreases n,
    {
        if n <= 1 {
            self.at(0, 0)
        } else {
            self.diagonal_product((n - 1) as nat).times_spec(self.at(n - 1, n - 1))
        }
    }

    /// The determinant of a square grid: zero where the grid is singular,
    /// else the product of the diagonal of its decomposition, negated where
    /// the number of exchanges is odd.
    pub open spec fn determinant(self) -> T {
        match self.lu() {
            None => T::zero_spec(),
            Some((m, p)) => if (p[self.rows as int] - self.rows) % 2 == 0 {
                m.diagonal_product(self.rows)
            } else {
                m.diagonal_product(self.rows).negated_spec()
            },
        }
    }
}

impl<T: PivotLaws + Negation> Matrix<T> {
    /// The determinant of a square matrix.
    pub fn det(&self) -> (r: Result<T, DimensionError>)
        ensures
            match r {
                Ok(d) => self@.rows == self@.cols && d == self@.determinant(),
                Err(e) => self@.rows != self@.cols && e == DimensionError::NoSquare,
            },
    {
        match self.lupdecompose() {
            Err(e) => Err(e),
            Ok(None) => Ok(T::zero_value()),
            Ok(Some((mat, p))) => {
                let dim = mat.rows();
                let _ = mat.cols();
                proof {
                    lemma_flat_index_in_range(0, 0, dim as nat, dim as nat);
                }
                let mut det = mat.entry(0, 0);
                let mut i: usize = 1;
                while i < dim
                    invariant
                        1 <= i <= dim,
                        mat@.wf(),
                        mat@.rows == dim,
                        mat@.cols == dim,
                        det == mat@.diagonal_product(i as nat),
                    decreases dim - i,
                {
                    proof {
                        lemma_flat_index_in_range(i as int, i as int, dim as nat, dim as nat);
                    }
                    det = det.times(mat.entry(i, i));
                    i = i + 1;
                }
                if (p[dim] - dim) % 2 == 0 {
                    Ok(det)
                } else {
                    Ok(det.negated())
                }
            },
        }
    }
}

} // verus!
