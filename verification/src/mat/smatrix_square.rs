//! Decomposition, determinant and inverse of the square matrix whose size
//! is part of its type. They are those of the dense matrix with the same
//! cells; up to size three the determinant is the closed formula.

use crate::mat::grid::{lemma_flat_index_in_range, lemma_flat_index_split, Grid};
use crate::mat::matrix::Matrix;
use crate::mat::smatrix::SMatrix;
use crate::num::{Addition, Division, MulIdentity, Multiplication, Negation, PivotLaws, Subtraction};
use vstd::prelude::*;

verus! {

impl<T: Addition + Subtraction + Multiplication> Grid<T> {
    /// The product of the three cells `(a, 0)`, `(b, 1)` and `(c, 2)`, in
    /// the order given by `first`, `second` and `third`.
    pub open spec fn triple(self, first: (int, int), second: (int, int), third: (int, int)) -> T {
        self.at(first.0, first.1).times_spec(self.at(second.0, second.1)).times_spec(
            self.at(third.0, third.1),
        )
    }

    /// The determinant of a grid of size one, two or three by its closed
    /// formula, the terms taken from left to right.
    pub open spec fn closed_determinant(self) -> T {
        if self.rows == 1 {
            self.at(0, 0)
        } else if self.rows == 2 {
            self.at(0, 0).times_spec(self.at(1, 1)).minus_spec(
                self.at(0, 1).times_spec(self.at(1, 0)),
            )
        } else {
            self.triple((0, 0), (1, 1), (2, 2)).plus_spec(
                self.triple((1, 0), (2, 1), (0, 2)),
            ).plus_spec(self.triple((2, 0), (0, 1), (1, 2))).minus_spec(
                self.triple((0, 2), (1, 1), (2, 0)),
            ).minus_spec(self.triple((0, 1), (1, 0), (2, 2))).minus_spec(
                self.triple((0, 0), (1, 2), (2, 1)),
            )
        }
    }
}

impl<T: Copy, const M: usize, const N: usize> SMatrix<T, M, N> {
    /// The dense matrix with the same shape and cells. Neither count may be
    /// zero, and the cells have to fit in memory.
    pub fn to_matrix(&self) -> (m: Matrix<T>)
        requires
            M > 0,
            N > 0,
            M * N <= usize::MAX,
        ensures
            m@ == self@,
            m@.wf(),
    {
        let mut cells: Vec<T> = Vec::new();
        proof {
            self.lemma_view();
        }
        let mut i: usize = 0;
        while i < M
            invariant
                i <= M,
                self@.rows == M,
                self@.cols == N,
                self@.cells.len() == M * N,
                cells@.len() == i * N,
                forall|k: int| 0 <= k < cells@.len() ==> cells@[k] == self@.cells[k],
            decreases M - i,
        {
            let mut j: usize = 0;
            while j < N
                invariant
                    i < M,
                    j <= N,
                    self@.rows == M,
                    self@.cols == N,
                    self@.cells.len() == M * N,
                    cells@.len() == i * N + j,
                    forall|k: int| 0 <= k < cells@.len() ==> cells@[k] == self@.cells[k],
                decreases N - j,
            {
                proof {
                    lemma_flat_index_in_range(i as int, j as int, M as nat, N as nat);
                }
                cells.push(self.get(i, j));
                j = j + 1;
            }
            proof {
                assert(i * N + N == (i + 1) * N) by (nonlinear_arith);
            }
            i = i + 1;
        }
        proof {
            assert(cells@ =~= self@.cells);
        }
        Matrix::assemble(M, N, cells)
    }

    /// The matrix of this type with the shape and cells of a dense matrix,
    /// or nothing where the dense matrix has another shape.
    pub fn from_matrix(mat: &Matrix<T>) -> (r: Option<SMatrix<T, M, N>>)
        ensures
            match r {
                Some(s) => mat@.rows == M && mat@.cols == N && s@ == mat@,
                None => !(mat@.rows == M && mat@.cols == N),
            },
    {
        if mat.rows() != M || mat.cols() != N {
            return None;
        }
        proof {
            lemma_flat_index_in_range(0, 0, M as nat, N as nat);
        }
        let mut res: SMatrix<T, M, N> = SMatrix::new(mat.entry(0, 0));
        proof {
            res.lemma_view();
        }
        let mut i: usize = 0;
        while i < M
            invariant
                i <= M,
                mat@.wf(),
                mat@.rows == M,
                mat@.cols == N,
                res@.rows == M,
                res@.cols == N,
                res@.cells.len() == M * N,
                forall|r: int, c: int|
                    0 <= r < i && 0 <= c < N ==> #[trigger] res@.at(r, c) == mat@.at(r, c),
            decreases M - i,
        {
            let mut j: usize = 0;
            while j < N
                invariant
                    i < M,
                    j <= N,
                    mat@.wf(),
                    mat@.rows == M,
                    mat@.cols == N,
                    res@.rows == M,
                    res@.cols == N,
                    res@.cells.len() == M * N,
                    forall|r: int, c: int|
                        0 <= r < M && 0 <= c < N && (r < i || (r == i && c < j))
                            ==> #[trigger] res@.at(r, c) == mat@.at(r, c),
                decreases N - j,
            {
                proof {
                    lemma_flat_index_in_range(i as int, j as int, M as nat, N as nat);
                }
                let ghost g0 = res@;
                let value = mat.entry(i, j);
                res.set(i, j, value);
                proof {
                    g0.lemma_with(i as int, j as int, value);
                }
                j = j + 1;
            }
            i = i + 1;
        }
        proof {
            res@.lemma_equal(mat@);
        }
        Some(res)
    }
}

impl<T: PivotLaws, const N: usize> SMatrix<T, N, N> {
    /// The LU decomposition, or nothing where the matrix is singular. The
    /// size may not be zero, and the cells have to fit in memory.
    pub fn lupdecompose(&self) -> (r: Option<(SMatrix<T, N, N>, Vec<usize>)>)
        requires
            N > 0,
            N * N <= usize::MAX,
        ensures
            match r {
                Some((m, p)) => self@.lu() == Some((m@, p@)) && p@.len() == N + 1 && N
                    <= p@[N as int] <= 2 * N,
                None => self@.lu() is None,
            },
    {
        proof {
            self.lemma_view();
        }
        match self.to_matrix().lupdecompose() {
            Ok(Some((lu, p))) => match SMatrix::from_matrix(&lu) {
                Some(m) => Some((m, p)),
                None => None,
            },
            _ => None,
        }
    }
}

impl<T: PivotLaws + Negation, const N: usize> SMatrix<T, N, N> {
    /// The determinant by the decomposition. The size may not be zero, and
    /// the cells have to fit in memory.
    pub fn det_approx(&self) -> (r: T)
        requires
            N > 0,
            N * N <= usize::MAX,
        ensures
            r == self@.determinant(),
    {
        proof {
            self.lemma_view();
        }
        match self.to_matrix().det() {
            Ok(d) => d,
            Err(_) => T::zero_value(),
        }
    }

    /// The determinant: by the closed formula up to size three, by the
    /// decomposition above. The size may not be zero, and the cells have to
    /// fit in memory.
    pub fn det(&self) -> (r: T)
        requires
            N > 0,
            N * N <= usize::MAX,
        ensures
            r == (if N < 4 {
                self@.closed_determinant()
            } else {
                self@.determinant()
            }),
    {
        proof {
            self.lemma_view();
        }
        if N == 1 {
            self.get(0, 0)
        } else if N == 2 {
            self.get(0, 0).times(self.get(1, 1)).minus(self.get(0, 1).times(self.get(1, 0)))
        } else if N == 3 {
            let a = self.get(0, 0).times(self.get(1, 1)).times(self.get(2, 2));
            let b = self.get(1, 0).times(self.get(2, 1)).times(self.get(0, 2));
            let c = self.get(2, 0).times(self.get(0, 1)).times(self.get(1, 2));
            let d = self.get(0, 2).times(self.get(1, 1)).times(self.get(2, 0));
            let e = self.get(0, 1).times(self.get(1, 0)).times(self.get(2, 2));
            let f = self.get(0, 0).times(self.get(1, 2)).times(self.get(2, 1));
            a.plus(b).plus(c).minus(d).minus(e).minus(f)
        } else {
            self.det_approx()
        }
    }
}

impl<T: MulIdentity + Subtraction + Multiplication + Division, const N: usize> SMatrix<T, N, N> {
    /// The inverse, or nothing where the matrix is singular. The size may
    /// not be zero, and the matrix extended by the identity has to fit in
    /// memory.
    pub fn inv(self) -> (r: Option<SMatrix<T, N, N>>)
        requires
            N > 0,
            2 * N * N <= usize::MAX,
        ensures
            match r {
                Some(m) => self@.inverse() == Some(m@),
                None => self@.inverse() is None,
            },
    {
        proof {
            self.lemma_view();
            assert(N * N <= 2 * N * N) by (nonlinear_arith);
        }
        match self.to_matrix().inv() {
            Ok(Some(inverse)) => {
                proof {
                    inverse@.lemma_right_half_shape(self@);
                }
                match SMatrix::from_matrix(&inverse) {
                    Some(m) => Some(m),
                    None => None,
                }
            },
            _ => None,
        }
    }
}

} // verus!
