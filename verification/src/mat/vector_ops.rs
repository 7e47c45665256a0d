//! Arithmetic on vectors, the dot product, and products of a vector with a
//! matrix.

use crate::err::DimensionError;
use crate::mat::grid::Grid;
use crate::mat::matrix::Matrix;
use crate::mat::vector::Vector;
use crate::num::{AddIdentity, Addition, Division, Multiplication, Negation, Subtraction};
use vstd::prelude::*;
use vstd::std_specs::ops::{AddSpecImpl, DivSpecImpl, MulSpecImpl, NegSpecImpl, SubSpecImpl};

verus! {

/// The sum over `k < n` of `a[k] * b[k]`, accumulated from zero in the order
/// of `k`.
pub open spec fn inner_product<T: AddIdentity + Addition + Multiplication>(
    a: Seq<T>,
    b: Seq<T>,
    n: nat,
) -> T
    decreases n,
{
    if n == 0 {
        T::zero_spec()
    } else {
        inner_product(a, b, (n - 1) as nat).plus_spec(a[n - 1].times_spec(b[n - 1]))
    }
}

impl<T: Addition> Vector<T> {
    /// Adds `rhs` to this vector entry by entry.
    pub fn add_assign(&mut self, rhs: Vector<T>)
        requires
            old(self)@.same_shape(rhs@),
        ensures
            final(self)@ == old(self)@.sum(rhs@),
            final(self)@.is_vector(),
    {
        let n = self.size();
        let _ = rhs.size();
        let ghost before = self@;
        let mut k: usize = 0;
        while k < n
            invariant
                k <= n,
                self@.rows == before.rows,
                self@.cols == before.cols,
                self@.cells.len() == n,
                before.cells.len() == n,
                rhs@.cells.len() == n,
                before.is_vector(),
                forall|x: int|
                    0 <= x < k ==> #[trigger] self@.cells[x] == before.cells[x].plus_spec(
                        rhs@.cells[x],
                    ),
                forall|x: int| k <= x < n ==> #[trigger] self@.cells[x] == before.cells[x],
            decreases n - k,
        {
            let a = self.get(k);
            let b = rhs.get(k);
            self.set(k, a.plus(b));
            k = k + 1;
        }
        proof {
            assert(self@.cells =~= before.sum(rhs@).cells);
        }
    }
}

impl<T: Subtraction> Vector<T> {
    /// Subtracts `rhs` from this vector entry by entry.
    pub fn sub_assign(&mut self, rhs: Vector<T>)
        requires
            old(self)@.same_shape(rhs@),
        ensures
            final(self)@ == old(self)@.difference(rhs@),
            final(self)@.is_vector(),
    {
        let n = self.size();
        let _ = rhs.size();
        let ghost before = self@;
        let mut k: usize = 0;
        while k < n
            invariant
                k <= n,
                self@.rows == before.rows,
                self@.cols == before.cols,
                self@.cells.len() == n,
                before.cells.len() == n,
                rhs@.cells.len() == n,
                before.is_vector(),
                forall|x: int|
                    0 <= x < k ==> #[trigger] self@.cells[x] == before.cells[x].minus_spec(
                        rhs@.cells[x],
                    ),
                forall|x: int| k <= x < n ==> #[trigger] self@.cells[x] == before.cells[x],
            decreases n - k,
        {
            let a = self.get(k);
            let b = rhs.get(k);
            self.set(k, a.minus(b));
            k = k + 1;
        }
        proof {
            assert(self@.cells =~= before.difference(rhs@).cells);
        }
    }
}

impl<T: Multiplication> Vector<T> {
    /// Multiplies every entry by `scalar`.
    pub fn mul_assign(&mut self, scalar: T)
        ensures
            final(self)@ == old(self)@.scaled(scalar),
            final(self)@.is_vector(),
    {
        let n = self.size();
        let ghost before = self@;
        let mut k: usize = 0;
        while k < n
            invariant
                k <= n,
                self@.rows == before.rows,
                self@.cols == before.cols,
                self@.cells.len() == n,
                before.cells.len() == n,
                before.is_vector(),
                forall|x: int|
                    0 <= x < k ==> #[trigger] self@.cells[x] == before.cells[x].times_spec(scalar),
                forall|x: int| k <= x < n ==> #[trigger] self@.cells[x] == before.cells[x],
            decreases n - k,
        {
            let a = self.get(k);
            self.set(k, a.times(scalar));
            k = k + 1;
        }
        proof {
            assert(self@.cells =~= before.scaled(scalar).cells);
        }
    }
}

impl<T: Division> Vector<T> {
    /// Divides every entry by `divisor`, which may not be zero.
    pub fn div_assign(&mut self, divisor: T)
        requires
            !divisor.is_zero_spec(),
        ensures
            final(self)@ == old(self)@.divided(divisor),
            final(self)@.is_vector(),
    {
        let n = self.size();
        let ghost before = self@;
        let mut k: usize = 0;
        while k < n
            invariant
                k <= n,
                !divisor.is_zero_spec(),
                self@.rows == before.rows,
                self@.cols == before.cols,
                self@.cells.len() == n,
                before.cells.len() == n,
                before.is_vector(),
                forall|x: int|
                    0 <= x < k ==> #[trigger] self@.cells[x] == before.cells[x].over_spec(divisor),
                forall|x: int| k <= x < n ==> #[trigger] self@.cells[x] == before.cells[x],
            decreases n - k,
        {
            let a = self.get(k);
            self.set(k, a.over(divisor));
            k = k + 1;
        }
        proof {
            assert(self@.cells =~= before.divided(divisor).cells);
        }
    }
}

/// The contract of the operator stands on the method itself.
impl<T: Addition> AddSpecImpl for Vector<T> {
    open spec fn obeys_add_spec() -> bool {
        false
    }

    open spec fn add_req(self, rhs: Vector<T>) -> bool {
        true
    }

    open spec fn add_spec(self, rhs: Vector<T>) -> Result<Vector<T>, DimensionError> {
        arbitrary()
    }
}

impl<T: Addition> core::ops::Add for Vector<T> {
    type Output = Result<Vector<T>, DimensionError>;

    /// The entry-by-entry sum, where both operands have one shape.
    fn add(self, rhs: Vector<T>) -> (r: Result<Vector<T>, DimensionError>)
        ensures
            match r {
                Ok(v) => self@.same_shape(rhs@) && v@ == self@.sum(rhs@) && v@.is_vector(),
                Err(DimensionError::NoMatch(a, b, op)) => !self@.same_shape(rhs@) && a@ == (
                    self@.rows,
                    self@.cols,
                ) && b@ == (rhs@.rows, rhs@.cols) && op@ == "add"@,
                Err(_) => false,
            },
    {
        let d = self.dims();
        let e = rhs.dims();
        if d.rows() != e.rows() || d.cols() != e.cols() {
            Err(DimensionError::NoMatch(d, e, "add".to_owned()))
        } else {
            let mut result_vector = self;
            result_vector.add_assign(rhs);
            Ok(result_vector)
        }
    }
}

/// The contract of the operator stands on the method itself.
impl<T: Subtraction> SubSpecImpl for Vector<T> {
    open spec fn obeys_sub_spec() -> bool {
        false
    }

    open spec fn sub_req(self, rhs: Vector<T>) -> bool {
        true
    }

    open spec fn sub_spec(self, rhs: Vector<T>) -> Result<Vector<T>, DimensionError> {
        arbitrary()
    }
}

impl<T: Subtraction> core::ops::Sub for Vector<T> {
    type Output = Result<Vector<T>, DimensionError>;

    /// The entry-by-entry difference, where both operands have one shape.
    fn sub(self, rhs: Vector<T>) -> (r: Result<Vector<T>, DimensionError>)
        ensures
            match r {
                Ok(v) => self@.same_shape(rhs@) && v@ == self@.difference(rhs@) && v@.is_vector(),
                Err(DimensionError::NoMatch(a, b, op)) => !self@.same_shape(rhs@) && a@ == (
                    self@.rows,
                    self@.cols,
                ) && b@ == (rhs@.rows, rhs@.cols) && op@ == "subtract"@,
                Err(_) => false,
            },
    {
        let d = self.dims();
        let e = rhs.dims();
        if d.rows() != e.rows() || d.cols() != e.cols() {
            Err(DimensionError::NoMatch(d, e, "subtract".to_owned()))
        } else {
            let mut result_vector = self;
            result_vector.sub_assign(rhs);
            Ok(result_vector)
        }
    }
}

/// The contract of the operator stands on the method itself.
impl<T: Negation> NegSpecImpl for Vector<T> {
    open spec fn obeys_neg_spec() -> bool {
        false
    }

    open spec fn neg_req(self) -> bool {
        true
    }

    open spec fn neg_spec(self) -> Vector<T> {
        arbitrary()
    }
}

impl<T: Negation> core::ops::Neg for Vector<T> {
    type Output = Vector<T>;

    /// Every entry negated.
    fn neg(self) -> (r: Vector<T>)
        ensures
            r@ == self@.negation(),
            r@.is_vector(),
    {
        let mut result_vector = self;
        let n = result_vector.size();
        let ghost before = result_vector@;
        let mut k: usize = 0;
        while k < n
            invariant
                k <= n,
                result_vector@.rows == before.rows,
                result_vector@.cols == before.cols,
                result_vector@.cells.len() == n,
                before.cells.len() == n,
                before.is_vector(),
                forall|x: int|
                    0 <= x < k ==> #[trigger] result_vector@.cells[x]
                        == before.cells[x].negated_spec(),
                forall|x: int| k <= x < n ==> #[trigger] result_vector@.cells[x] == before.cells[x],
            decreases n - k,
        {
            let a = result_vector.get(k);
            result_vector.set(k, a.negated());
            k = k + 1;
        }
        proof {
            assert(result_vector@.cells =~= before.negation().cells);
        }
        result_vector
    }
}

/// The contract of the operator stands on the method itself.
impl<T: Multiplication> MulSpecImpl<T> for Vector<T> {
    open spec fn obeys_mul_spec() -> bool {
        false
    }

    open spec fn mul_req(self, rhs: T) -> bool {
        true
    }

    open spec fn mul_spec(self, rhs: T) -> Vector<T> {
        arbitrary()
    }
}

impl<T: Multiplication> core::ops::Mul<T> for Vector<T> {
    type Output = Vector<T>;

    /// Every entry multiplied by `scalar`.
    fn mul(self, scalar: T) -> (r: Vector<T>)
        ensures
            r@ == self@.scaled(scalar),
            r@.is_vector(),
    {
        let mut result_vector = self;
        result_vector.mul_assign(scalar);
        result_vector
    }
}

/// The contract of the operator stands on the method itself.
impl<T: Division> DivSpecImpl<T> for Vector<T> {
    open spec fn obeys_div_spec() -> bool {
        false
    }

    open spec fn div_req(self, rhs: T) -> bool {
        true
    }

    open spec fn div_spec(self, rhs: T) -> Option<Vector<T>> {
        arbitrary()
    }
}

impl<T: Division> core::ops::Div<T> for Vector<T> {
    type Output = Option<Vector<T>>;

    /// Every entry divided by `divisor`, or nothing where `divisor` is zero.
    fn div(self, divisor: T) -> (r: Option<Vector<T>>)
        ensures
            match r {
                Some(v) => !divisor.is_zero_spec() && v@ == self@.divided(divisor)
                    && v@.is_vector(),
                None => divisor.is_zero_spec(),
            },
    {
        if divisor.is_zero_value() {
            None
        } else {
            let mut result_vector = self;
            result_vector.div_assign(divisor);
            Some(result_vector)
        }
    }
}

/// The contract of the operator stands on the method itself.
impl<T: AddIdentity + Addition + Multiplication> MulSpecImpl<Vector<T>> for Vector<T> {
    open spec fn obeys_mul_spec() -> bool {
        false
    }

    open spec fn mul_req(self, rhs: Vector<T>) -> bool {
        true
    }

    open spec fn mul_spec(self, rhs: Vector<T>) -> Result<T, DimensionError> {
        arbitrary()
    }
}

impl<T: AddIdentity + Addition + Multiplication> core::ops::Mul<Vector<T>> for Vector<T> {
    type Output = Result<T, DimensionError>;

    /// The dot product of two vectors of one length: a scalar.
    fn mul(self, rhs: Vector<T>) -> (r: Result<T, DimensionError>)
        ensures
            match r {
                Ok(x) => self@.cells.len() == rhs@.cells.len() && x == inner_product(
                    self@.cells,
                    rhs@.cells,
                    self@.cells.len(),
                ),
                Err(DimensionError::NoMatch(a, b, op)) => self@.cells.len() != rhs@.cells.len()
                    && a@ == (self@.rows, self@.cols) && b@ == (rhs@.rows, rhs@.cols) && op@
                    == "multiply"@,
                Err(_) => false,
            },
    {
        let n = self.size();
        if n != rhs.size() {
            Err(DimensionError::NoMatch(self.dims(), rhs.dims(), "multiply".to_owned()))
        } else {
            let mut sum = T::zero_value();
            let mut k: usize = 0;
            while k < n
                invariant
                    k <= n,
                    n == self@.cells.len(),
                    n == rhs@.cells.len(),
                    sum == inner_product(self@.cells, rhs@.cells, k as nat),
                decreases n - k,
            {
                sum = sum.plus(self.get(k).times(rhs.get(k)));
                k = k + 1;
            }
            Ok(sum)
        }
    }
}

/// The contract of the operator stands on the method itself.
impl<T: AddIdentity + Addition + Multiplication> MulSpecImpl<Matrix<T>> for Vector<T> {
    open spec fn obeys_mul_spec() -> bool {
        false
    }

    open spec fn mul_req(self, rhs: Matrix<T>) -> bool {
        self@.cols == rhs@.rows ==> self@.rows == 1 || rhs@.cols == 1
    }

    open spec fn mul_spec(self, rhs: Matrix<T>) -> Result<Vector<T>, DimensionError> {
        arbitrary()
    }
}

impl<T: AddIdentity + Addition + Multiplication> core::ops::Mul<Matrix<T>> for Vector<T> {
    type Output = Result<Vector<T>, DimensionError>;

    /// The matrix product of the vector, taken as the matrix of its shape,
    /// with a matrix. The product has to be a single row or a single
    /// column.
    fn mul(self, mat: Matrix<T>) -> (r: Result<Vector<T>, DimensionError>)
        ensures
            match r {
                Ok(v) => self@.cols == mat@.rows && v@ == self@.product(mat@) && v@.is_vector(),
                Err(DimensionError::NoMatch(a, b, op)) => self@.cols != mat@.rows && a@ == (
                    self@.rows,
                    self@.cols,
                ) && b@ == (mat@.rows, mat@.cols) && op@ == "multiply"@,
                Err(_) => false,
            },
    {
        let _ = self.size();
        let _ = mat.cell_count();
        let mat_v = self.into_matrix();
        if mat_v.cols() != mat.rows() {
            Err(DimensionError::NoMatch(mat_v.dims(), mat.dims(), "multiply".to_owned()))
        } else {
            proof {
                assert(mat_v@.rows * mat@.cols <= usize::MAX) by (nonlinear_arith)
                    requires
                        mat_v@.rows == 1 || mat@.cols == 1,
                        mat_v@.rows * mat_v@.cols <= usize::MAX,
                        mat@.rows * mat@.cols <= usize::MAX,
                        mat_v@.cols >= 1,
                        mat@.rows >= 1,
                ;
            }
            let res = mat_v.times_matrix(&mat);
            let rows = res.rows();
            let cols = res.cols();
            let _ = res.cell_count();
            Ok(Vector::assemble(rows, cols, res.into_cells()))
        }
    }
}

/// The contract of the operator stands on the method itself.
impl<T: AddIdentity + Addition + Multiplication> MulSpecImpl<Vector<T>> for Matrix<T> {
    open spec fn obeys_mul_spec() -> bool {
        false
    }

    open spec fn mul_req(self, rhs: Vector<T>) -> bool {
        self@.cols == rhs@.rows ==> self@.rows == 1 || rhs@.cols == 1
    }

    open spec fn mul_spec(self, rhs: Vector<T>) -> Result<Vector<T>, DimensionError> {
        arbitrary()
    }
}

impl<T: AddIdentity + Addition + Multiplication> core::ops::Mul<Vector<T>> for Matrix<T> {
    type Output = Result<Vector<T>, DimensionError>;

    /// The matrix product of a matrix with the vector, taken as the matrix
    /// of its shape. The product has to be a single row or a single column.
    fn mul(self, vec: Vector<T>) -> (r: Result<Vector<T>, DimensionError>)
        ensures
            match r {
                Ok(v) => self@.cols == vec@.rows && v@ == self@.product(vec@) && v@.is_vector(),
                Err(DimensionError::NoMatch(a, b, op)) => self@.cols != vec@.rows && a@ == (
                    self@.rows,
                    self@.cols,
                ) && b@ == (vec@.rows, vec@.cols) && op@ == "multiply"@,
                Err(_) => false,
            },
    {
        let _ = vec.size();
        let _ = self.cell_count();
        let mat_v = vec.into_matrix();
        if self.cols() != mat_v.rows() {
            Err(DimensionError::NoMatch(self.dims(), mat_v.dims(), "multiply".to_owned()))
        } else {
            proof {
                assert(self@.rows * mat_v@.cols <= usize::MAX) by (nonlinear_arith)
                    requires
                        self@.rows == 1 || mat_v@.cols == 1,
                        mat_v@.rows * mat_v@.cols <= usize::MAX,
                        self@.rows * self@.cols <= usize::MAX,
                        self@.cols >= 1,
                        mat_v@.rows >= 1,
                ;
            }
            let res = self.times_matrix(&mat_v);
            let rows = res.rows();
            let cols = res.cols();
            let _ = res.cell_count();
            Ok(Vector::assemble(rows, cols, res.into_cells()))
        }
    }
}

} // verus!
