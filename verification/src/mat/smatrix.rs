//! The matrix whose size is part of its type.
//!
//! Its shape can never mismatch, so its operators return their result
//! directly. Only the division by a scalar can still fail.

use crate::mat::grid::{lemma_flat_index_in_range, Grid};
use crate::num::{
    AddIdentity, Addition, Division, MulIdentity, Multiplication, Negation, Subtraction,
};
use vstd::prelude::*;
use vstd::std_specs::convert::FromSpecImpl;
use vstd::std_specs::ops::{AddSpecImpl, DivSpecImpl, MulSpecImpl, NegSpecImpl, SubSpecImpl};

verus! {

/// A dense matrix of `M` rows and `N` columns, stored as an array of rows.
#[derive(Debug, PartialEq, Copy, Clone)]
pub struct SMatrix<T, const M: usize, const N: usize> {
    data: [[T; N]; M],
}

impl<T, const M: usize, const N: usize> View for SMatrix<T, M, N> {
    type V = Grid<T>;

    closed spec fn view(&self) -> Grid<T> {
        Grid::build(M as nat, N as nat, |i: int, j: int| self.data[i][j])
    }
}

impl<T, const M: usize, const N: usize> SMatrix<T, M, N> {
    /// The rows as they are stored.
    pub closed spec fn rows(self) -> [[T; N]; M] {
        self.data
    }

    /// The model has the shape of the type and the cells of the rows.
    pub proof fn lemma_view(self)
        ensures
            self@.rows == M,
            self@.cols == N,
            self@.cells.len() == M * N,
            forall|i: int, j: int|
                0 <= i < M && 0 <= j < N ==> #[trigger] self@.at(i, j) == self.rows()[i][j],
    {
        Grid::lemma_build(M as nat, N as nat, |i: int, j: int| self.data[i][j]);
    }

    /// The number of rows.
    pub fn row_count(&self) -> (r: usize)
        ensures
            r == M,
            r == self@.rows,
    {
        M
    }

    /// The number of columns.
    pub fn col_count(&self) -> (r: usize)
        ensures
            r == N,
            r == self@.cols,
    {
        N
    }

    /// Whether there are as many rows as columns.
    pub fn is_square(&self) -> (b: bool)
        ensures
            b == (M == N),
    {
        M == N
    }

    /// The rows as an array of arrays.
    pub fn as_rows(&self) -> (r: &[[T; N]; M])
        ensures
            *r == self.rows(),
    {
        &self.data
    }
}

/// The contract of the conversion stands on the method itself.
impl<T, const M: usize, const N: usize> FromSpecImpl<[[T; N]; M]> for SMatrix<T, M, N> {
    open spec fn obeys_from_spec() -> bool {
        false
    }

    open spec fn from_spec(arr: [[T; N]; M]) -> SMatrix<T, M, N> {
        arbitrary()
    }
}

impl<T, const M: usize, const N: usize> From<[[T; N]; M]> for SMatrix<T, M, N> {
    /// The matrix over the given rows.
    fn from(arr: [[T; N]; M]) -> (r: SMatrix<T, M, N>)
        ensures
            r.rows() == arr,
    {
        SMatrix { data: arr }
    }
}

impl<T: Copy, const M: usize, const N: usize> SMatrix<T, M, N> {
    /// A matrix with `init` in every cell. Neither count may be zero.
    pub fn new(init: T) -> (r: SMatrix<T, M, N>)
        requires
            M > 0,
            N > 0,
        ensures
            r@ == Grid::filled(M as nat, N as nat, init),
            r@.wf(),
    {
        let r = SMatrix { data: [[init; N]; M] };
        proof {
            r.lemma_view();
            Grid::lemma_filled(M as nat, N as nat, init);
            r@.lemma_equal(Grid::filled(M as nat, N as nat, init));
        }
        r
    }

    /// The cell in row `i` and column `j`.
    pub fn get(&self, i: usize, j: usize) -> (r: T)
        requires
            i < M,
            j < N,
        ensures
            r == self@.at(i as int, j as int),
    {
        proof {
            self.lemma_view();
        }
        self.data[i][j]
    }

    /// Replaces the cell in row `i` and column `j`.
    pub fn set(&mut self, i: usize, j: usize, x: T)
        requires
            i < M,
            j < N,
        ensures
            final(self)@ == old(self)@.with(i as int, j as int, x),
    {
        let ghost before = *self;
        self.data[i][j] = x;
        proof {
            before.lemma_view();
            self.lemma_view();
            before@.lemma_with(i as int, j as int, x);
            self@.lemma_equal(before@.with(i as int, j as int, x));
        }
    }

    /// The matrix with rows and columns exchanged. Neither count may be
    /// zero.
    pub fn transpose(&self) -> (r: SMatrix<T, N, M>)
        requires
            M > 0,
            N > 0,
        ensures
            r@ == self@.transposed(),
    {
        let mut res: SMatrix<T, N, M> = SMatrix::new(self.get(0, 0));
        proof {
            self.lemma_view();
            res.lemma_view();
        }
        let mut i: usize = 0;
        while i < M
            invariant
                i <= M,
                res@.rows == N,
                res@.cols == M,
                res@.cells.len() == N * M,
                forall|r: int, c: int|
                    0 <= r < N && 0 <= c < i ==> #[trigger] res@.at(r, c) == self@.at(c, r),
            decreases M - i,
        {
            let mut j: usize = 0;
            while j < N
                invariant
                    i < M,
                    j <= N,
                    res@.rows == N,
                    res@.cols == M,
                    res@.cells.len() == N * M,
                    forall|r: int, c: int|
                        0 <= r < N && 0 <= c < M && (c < i || (c == i && r < j))
                            ==> #[trigger] res@.at(r, c) == self@.at(c, r),
                decreases N - j,
            {
                let ghost g0 = res@;
                res.set(j, i, self.get(i, j));
                proof {
                    g0.lemma_with(j as int, i as int, self@.at(i as int, j as int));
                }
                j = j + 1;
            }
            i = i + 1;
        }
        proof {
            self@.lemma_transposed();
            res@.lemma_equal(self@.transposed());
        }
        res
    }

    /// The matrix with `f` of each pair of cells, one of `self` and one of
    /// `rhs` at the same position.
    fn zip_cells(
        self,
        rhs: SMatrix<T, M, N>,
        Ghost(f): Ghost<spec_fn(T, T) -> T>,
        op: impl Fn(T, T) -> T,
    ) -> (r: SMatrix<T, M, N>)
        requires
            forall|a: T, b: T| op.requires((a, b)),
            forall|a: T, b: T, c: T| op.ensures((a, b), c) ==> c == f(a, b),
        ensures
            r@.rows == M,
            r@.cols == N,
            r@.cells.len() == M * N,
            forall|i: int, j: int|
                0 <= i < M && 0 <= j < N ==> #[trigger] r@.at(i, j) == f(
                    self@.at(i, j),
                    rhs@.at(i, j),
                ),
    {
        let mut res = self;
        proof {
            self.lemma_view();
            rhs.lemma_view();
        }
        let mut i: usize = 0;
        while i < M
            invariant
                i <= M,
                res@.rows == M,
                res@.cols == N,
                res@.cells.len() == M * N,
                forall|a: T, b: T| op.requires((a, b)),
                forall|a: T, b: T, c: T| op.ensures((a, b), c) ==> c == f(a, b),
                forall|r: int, c: int|
                    0 <= r < M && 0 <= c < N ==> #[trigger] res@.at(r, c) == (if r < i {
                        f(self@.at(r, c), rhs@.at(r, c))
                    } else {
                        self@.at(r, c)
                    }),
            decreases M - i,
        {
            let mut j: usize = 0;
            while j < N
                invariant
                    i < M,
                    j <= N,
                    res@.rows == M,
                    res@.cols == N,
                    res@.cells.len() == M * N,
                    forall|a: T, b: T| op.requires((a, b)),
                    forall|a: T, b: T, c: T| op.ensures((a, b), c) ==> c == f(a, b),
                    forall|r: int, c: int|
                        0 <= r < M && 0 <= c < N ==> #[trigger] res@.at(r, c) == (if r < i || (r
                            == i && c < j) {
                            f(self@.at(r, c), rhs@.at(r, c))
                        } else {
                            self@.at(r, c)
                        }),
                decreases N - j,
            {
                let ghost g0 = res@;
                let value = op(self.get(i, j), rhs.get(i, j));
                res.set(i, j, value);
                proof {
                    g0.lemma_with(i as int, j as int, value);
                }
                j = j + 1;
            }
            i = i + 1;
        }
        res
    }
}

impl<T: Copy, const M: usize, const N: usize> SMatrix<T, M, N> {
    /// The matrix with `f` of each cell.
    fn map_cells(self, Ghost(f): Ghost<spec_fn(T) -> T>, op: impl Fn(T) -> T) -> (r: SMatrix<
        T,
        M,
        N,
    >)
        requires
            forall|a: T| op.requires((a,)),
            forall|a: T, c: T| op.ensures((a,), c) ==> c == f(a),
        ensures
            r@ == self@.map_cells(f),
    {
        let mut res = self;
        proof {
            self.lemma_view();
        }
        let mut i: usize = 0;
        while i < M
            invariant
                i <= M,
                res@.rows == M,
                res@.cols == N,
                res@.cells.len() == M * N,
                forall|a: T| op.requires((a,)),
                forall|a: T, c: T| op.ensures((a,), c) ==> c == f(a),
                forall|r: int, c: int|
                    0 <= r < M && 0 <= c < N ==> #[trigger] res@.at(r, c) == (if r < i {
                        f(self@.at(r, c))
                    } else {
                        self@.at(r, c)
                    }),
            decreases M - i,
        {
            let mut j: usize = 0;
            while j < N
                invariant
                    i < M,
                    j <= N,
                    res@.rows == M,
                    res@.cols == N,
                    res@.cells.len() == M * N,
                    forall|a: T| op.requires((a,)),
                    forall|a: T, c: T| op.ensures((a,), c) ==> c == f(a),
                    forall|r: int, c: int|
                        0 <= r < M && 0 <= c < N ==> #[trigger] res@.at(r, c) == (if r < i || (r
                            == i && c < j) {
                            f(self@.at(r, c))
                        } else {
                            self@.at(r, c)
                        }),
                decreases N - j,
            {
                let ghost g0 = res@;
                let value = op(self.get(i, j));
                res.set(i, j, value);
                proof {
                    g0.lemma_with(i as int, j as int, value);
                }
                j = j + 1;
            }
            i = i + 1;
        }
        proof {
            let goal = self@.map_cells(f);
            assert forall|r: int, c: int| res@.has(r, c) implies res@.at(r, c) == goal.at(r, c) by {
                lemma_flat_index_in_range(r, c, M as nat, N as nat);
            }
            res@.lemma_equal(goal);
        }
        res
    }
}

impl<T: AddIdentity, const M: usize, const N: usize> SMatrix<T, M, N> {
    /// The matrix with the additive identity in every cell. Neither count
    /// may be zero.
    pub fn zero() -> (r: SMatrix<T, M, N>)
        requires
            M > 0,
            N > 0,
        ensures
            r@ == Grid::filled(M as nat, N as nat, T::zero_spec()),
            r@.wf(),
    {
        SMatrix::new(T::zero_value())
    }

    /// Whether every cell counts as zero.
    pub fn is_zero(&self) -> (b: bool)
        ensures
            b == (forall|i: int, j: int|
                0 <= i < M && 0 <= j < N ==> (#[trigger] self@.at(i, j)).is_zero_spec()),
    {
        let mut i: usize = 0;
        while i < M
            invariant
                i <= M,
                forall|r: int, c: int|
                    0 <= r < i && 0 <= c < N ==> (#[trigger] self@.at(r, c)).is_zero_spec(),
            decreases M - i,
        {
            let mut j: usize = 0;
            while j < N
                invariant
                    i < M,
                    j <= N,
                    forall|r: int, c: int|
                        0 <= r < M && 0 <= c < N && (r < i || (r == i && c < j)) ==> (
                        #[trigger] self@.at(r, c)).is_zero_spec(),
                decreases N - j,
            {
                let cell = self.get(i, j);
                if !cell.is_zero_value() {
                    return false;
                }
                j = j + 1;
            }
            i = i + 1;
        }
        true
    }
}

impl<T: AddIdentity + MulIdentity, const N: usize> SMatrix<T, N, N> {
    /// The identity matrix. The size may not be zero.
    pub fn one() -> (r: SMatrix<T, N, N>)
        requires
            N > 0,
        ensures
            r@ == Grid::<T>::identity(N as nat),
            r@.wf(),
    {
        let mut res: SMatrix<T, N, N> = SMatrix::new(T::zero_value());
        proof {
            Grid::lemma_filled(N as nat, N as nat, T::zero_spec());
        }
        let mut i: usize = 0;
        while i < N
            invariant
                i <= N,
                res@.rows == N,
                res@.cols == N,
                res@.cells.len() == N * N,
                forall|r: int, c: int|
                    0 <= r < N && 0 <= c < N ==> #[trigger] res@.at(r, c) == (if r == c && r < i {
                        T::one_spec()
                    } else {
                        T::zero_spec()
                    }),
            decreases N - i,
        {
            let ghost g0 = res@;
            res.set(i, i, T::one_value());
            proof {
                g0.lemma_with(i as int, i as int, T::one_spec());
            }
            i = i + 1;
        }
        proof {
            Grid::lemma_diagonal(N as nat, T::zero_spec(), |k: int| T::one_spec());
            res@.lemma_equal(Grid::<T>::identity(N as nat));
        }
        res
    }

    /// The square matrix with `entries` down the diagonal and the additive
    /// identity elsewhere. There have to be as many entries as rows.
    pub fn diag_with(entries: &[T]) -> (r: SMatrix<T, N, N>)
        requires
            N > 0,
            entries@.len() == N,
        ensures
            r@ == Grid::diagonal(N as nat, T::zero_spec(), |i: int| entries@[i]),
            r@.wf(),
    {
        let mut res: SMatrix<T, N, N> = SMatrix::one();
        proof {
            Grid::lemma_diagonal(N as nat, T::zero_spec(), |k: int| T::one_spec());
        }
        let mut i: usize = 0;
        while i < N
            invariant
                i <= N,
                entries@.len() == N,
                res@.rows == N,
                res@.cols == N,
                res@.cells.len() == N * N,
                forall|r: int, c: int|
                    0 <= r < N && 0 <= c < N ==> #[trigger] res@.at(r, c) == (if r == c {
                        if r < i {
                            entries@[r]
                        } else {
                            T::one_spec()
                        }
                    } else {
                        T::zero_spec()
                    }),
            decreases N - i,
        {
            let ghost g0 = res@;
            res.set(i, i, entries[i]);
            proof {
                g0.lemma_with(i as int, i as int, entries@[i as int]);
            }
            i = i + 1;
        }
        proof {
            let goal = Grid::diagonal(N as nat, T::zero_spec(), |k: int| entries@[k]);
            Grid::lemma_diagonal(N as nat, T::zero_spec(), |k: int| entries@[k]);
            res@.lemma_equal(goal);
        }
        res
    }
}

impl<T: AddIdentity + MulIdentity + Multiplication, const N: usize> SMatrix<T, N, N> {
    /// The identity matrix with every cell multiplied by `init`. The size
    /// may not be zero.
    pub fn diag(init: T) -> (r: SMatrix<T, N, N>)
        requires
            N > 0,
        ensures
            r@ == Grid::<T>::identity(N as nat).scaled(init),
    {
        SMatrix::<T, N, N>::one() * init
    }
}

/// The contract of the operator stands on the method itself.
impl<T: Addition, const M: usize, const N: usize> AddSpecImpl for SMatrix<T, M, N> {
    open spec fn obeys_add_spec() -> bool {
        false
    }

    open spec fn add_req(self, rhs: SMatrix<T, M, N>) -> bool {
        true
    }

    open spec fn add_spec(self, rhs: SMatrix<T, M, N>) -> SMatrix<T, M, N> {
        arbitrary()
    }
}

impl<T: Addition, const M: usize, const N: usize> core::ops::Add for SMatrix<T, M, N> {
    type Output = SMatrix<T, M, N>;

    /// The cell-by-cell sum.
    fn add(self, rhs: SMatrix<T, M, N>) -> (r: SMatrix<T, M, N>)
        ensures
            r@ == self@.sum(rhs@),
    {
        let op = |a: T, b: T| -> (c: T)
            ensures
                c == a.plus_spec(b),
            {
                a.plus(b)
            };
        let res = self.zip_cells(rhs, Ghost(|a: T, b: T| a.plus_spec(b)), op);
        proof {
            self.lemma_view();
            rhs.lemma_view();
            let goal = self@.sum(rhs@);
            assert forall|r: int, c: int| res@.has(r, c) implies res@.at(r, c) == goal.at(r, c) by {
                lemma_flat_index_in_range(r, c, M as nat, N as nat);
            }
            res@.lemma_equal(goal);
        }
        res
    }
}

/// The contract of the operator stands on the method itself.
impl<T: Subtraction, const M: usize, const N: usize> SubSpecImpl for SMatrix<T, M, N> {
    open spec fn obeys_sub_spec() -> bool {
        false
    }

    open spec fn sub_req(self, rhs: SMatrix<T, M, N>) -> bool {
        true
    }

    open spec fn sub_spec(self, rhs: SMatrix<T, M, N>) -> SMatrix<T, M, N> {
        arbitrary()
    }
}

impl<T: Subtraction, const M: usize, const N: usize> core::ops::Sub for SMatrix<T, M, N> {
    type Output = SMatrix<T, M, N>;

    /// The cell-by-cell difference.
    fn sub(self, rhs: SMatrix<T, M, N>) -> (r: SMatrix<T, M, N>)
        ensures
            r@ == self@.difference(rhs@),
    {
        let op = |a: T, b: T| -> (c: T)
            ensures
                c == a.minus_spec(b),
            {
                a.minus(b)
            };
        let res = self.zip_cells(rhs, Ghost(|a: T, b: T| a.minus_spec(b)), op);
        proof {
            self.lemma_view();
            rhs.lemma_view();
            let goal = self@.difference(rhs@);
            assert forall|r: int, c: int| res@.has(r, c) implies res@.at(r, c) == goal.at(r, c) by {
                lemma_flat_index_in_range(r, c, M as nat, N as nat);
            }
            res@.lemma_equal(goal);
        }
        res
    }
}

/// The contract of the operator stands on the method itself.
impl<T: Negation, const M: usize, const N: usize> NegSpecImpl for SMatrix<T, M, N> {
    open spec fn obeys_neg_spec() -> bool {
        false
    }

    open spec fn neg_req(self) -> bool {
        true
    }

    open spec fn neg_spec(self) -> SMatrix<T, M, N> {
        arbitrary()
    }
}

impl<T: Negation, const M: usize, const N: usize> core::ops::Neg for SMatrix<T, M, N> {
    type Output = SMatrix<T, M, N>;

    /// Every cell negated.
    fn neg(self) -> (r: SMatrix<T, M, N>)
        ensures
            r@ == self@.negation(),
    {
        let op = |a: T| -> (c: T)
            ensures
                c == a.negated_spec(),
            {
                a.negated()
            };
        self.map_cells(Ghost(|x: T| x.negated_spec()), op)
    }
}

/// The contract of the operator stands on the method itself.
impl<T: Multiplication, const M: usize, const N: usize> MulSpecImpl<T> for SMatrix<T, M, N> {
    open spec fn obeys_mul_spec() -> bool {
        false
    }

    open spec fn mul_req(self, rhs: T) -> bool {
        true
    }

    open spec fn mul_spec(self, rhs: T) -> SMatrix<T, M, N> {
        arbitrary()
    }
}

impl<T: Multiplication, const M: usize, const N: usize> core::ops::Mul<T> for SMatrix<T, M, N> {
    type Output = SMatrix<T, M, N>;

    /// Every cell multiplied by `scalar`.
    fn mul(self, scalar: T) -> (r: SMatrix<T, M, N>)
        ensures
            r@ == self@.scaled(scalar),
    {
        let op = |a: T| -> (c: T)
            ensures
                c == a.times_spec(scalar),
            {
                a.times(scalar)
            };
        self.map_cells(Ghost(|x: T| x.times_spec(scalar)), op)
    }
}

/// The contract of the operator stands on the method itself.
impl<T: Division, const M: usize, const N: usize> DivSpecImpl<T> for SMatrix<T, M, N> {
    open spec fn obeys_div_spec() -> bool {
        false
    }

    open spec fn div_req(self, rhs: T) -> bool {
        true
    }

    open spec fn div_spec(self, rhs: T) -> Option<SMatrix<T, M, N>> {
        arbitrary()
    }
}

impl<T: Division, const M: usize, const N: usize> core::ops::Div<T> for SMatrix<T, M, N> {
    type Output = Option<SMatrix<T, M, N>>;

    /// Every cell divided by `divisor`, or nothing where `divisor` is zero.
    fn div(self, divisor: T) -> (r: Option<SMatrix<T, M, N>>)
        ensures
            match r {
                Some(m) => !divisor.is_zero_spec() && m@ == self@.divided(divisor),
                None => divisor.is_zero_spec(),
            },
    {
        if divisor.is_zero_value() {
            None
        } else {
            let op = |a: T| -> (c: T)
                ensures
                    c == a.over_spec(divisor),
                {
                    a.over(divisor)
                };
            Some(self.map_cells(Ghost(|x: T| x.over_spec(divisor)), op))
        }
    }
}

impl<T: Addition, const M: usize, const N: usize> SMatrix<T, M, N> {
    /// Adds `rhs` to this matrix cell by cell.
    pub fn add_assign(&mut self, rhs: SMatrix<T, M, N>)
        ensures
            final(self)@ == old(self)@.sum(rhs@),
    {
        *self = *self + rhs;
    }
}

impl<T: Subtraction, const M: usize, const N: usize> SMatrix<T, M, N> {
    /// Subtracts `rhs` from this matrix cell by cell.
    pub fn sub_assign(&mut self, rhs: SMatrix<T, M, N>)
        ensures
            final(self)@ == old(self)@.difference(rhs@),
    {
        *self = *self - rhs;
    }
}

impl<T: Multiplication, const M: usize, const N: usize> SMatrix<T, M, N> {
    /// Multiplies every cell by `scalar`.
    pub fn mul_assign(&mut self, scalar: T)
        ensures
            final(self)@ == old(self)@.scaled(scalar),
    {
        *self = *self * scalar;
    }
}

impl<T: Division, const M: usize, const N: usize> SMatrix<T, M, N> {
    /// Divides every cell by `divisor`, which may not be zero.
    pub fn div_assign(&mut self, divisor: T)
        requires
            !divisor.is_zero_spec(),
        ensures
            final(self)@ == old(self)@.divided(divisor),
    {
        match *self / divisor {
            Some(m) => {
                *self = m;
            },
            None => {},
        }
    }
}

/// The contract of the operator stands on the method itself.
impl<
    T: AddIdentity + Addition + Multiplication,
    const L: usize,
    const M: usize,
    const N: usize,
> MulSpecImpl<SMatrix<T, M, N>> for SMatrix<T, L, M> {
    open spec fn obeys_mul_spec() -> bool {
        false
    }

    open spec fn mul_req(self, rhs: SMatrix<T, M, N>) -> bool {
        L > 0 && N > 0
    }

    open spec fn mul_spec(self, rhs: SMatrix<T, M, N>) -> SMatrix<T, L, N> {
        arbitrary()
    }
}

impl<
    T: AddIdentity + Addition + Multiplication,
    const L: usize,
    const M: usize,
    const N: usize,
> core::ops::Mul<SMatrix<T, M, N>> for SMatrix<T, L, M> {
    type Output = SMatrix<T, L, N>;

    /// The matrix product. Neither count of the result may be zero.
    fn mul(self, rhs: SMatrix<T, M, N>) -> (r: SMatrix<T, L, N>)
        ensures
            r@ == self@.product(rhs@),
    {
        let mut res: SMatrix<T, L, N> = SMatrix::new(T::zero_value());
        proof {
            self.lemma_view();
            rhs.lemma_view();
        }
        let mut i: usize = 0;
        while i < L
            invariant
                i <= L,
                self@.rows == L,
                self@.cols == M,
                rhs@.rows == M,
                rhs@.cols == N,
                res@.rows == L,
                res@.cols == N,
                res@.cells.len() == L * N,
                forall|r: int, c: int|
                    0 <= r < i && 0 <= c < N ==> #[trigger] res@.at(r, c) == self@.dot(
                        rhs@,
                        r,
                        c,
                        M as nat,
                    ),
            decreases L - i,
        {
            let mut j: usize = 0;
            while j < N
                invariant
                    i < L,
                    j <= N,
                    self@.rows == L,
                    self@.cols == M,
                    rhs@.rows == M,
                    rhs@.cols == N,
                    res@.rows == L,
                    res@.cols == N,
                    res@.cells.len() == L * N,
                    forall|r: int, c: int|
                        0 <= r < L && 0 <= c < N && (r < i || (r == i && c < j))
                            ==> #[trigger] res@.at(r, c) == self@.dot(rhs@, r, c, M as nat),
                decreases N - j,
            {
                let mut sum = T::zero_value();
                let mut k: usize = 0;
                while k < M
                    invariant
                        i < L,
                        j < N,
                        k <= M,
                        sum == self@.dot(rhs@, i as int, j as int, k as nat),
                    decreases M - k,
                {
                    sum = sum.plus(self.get(i, k).times(rhs.get(k, j)));
                    k = k + 1;
                }
                let ghost g0 = res@;
                res.set(i, j, sum);
                proof {
                    g0.lemma_with(i as int, j as int, sum);
                }
                j = j + 1;
            }
            i = i + 1;
        }
        proof {
            let goal = self@.product(rhs@);
            Grid::lemma_build(
                L as nat,
                N as nat,
                |r: int, c: int| self@.dot(rhs@, r, c, self@.cols),
            );
            res@.lemma_equal(goal);
        }
        res
    }
}

} // verus!
