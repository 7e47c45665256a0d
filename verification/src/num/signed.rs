//! The capabilities of the signed integers.
//!
//! Sums, differences, products and negations wrap around in two's
//! complement, so every operation is defined on every pair of values. The
//! quotient truncates toward zero, and the magnitude and quotient of the
//! least value wrap to the least value itself.

use crate::num::{
    AddIdentity, Addition, AdditionLaws, Division, IdentityLaws, Magnitude, MulIdentity,
    Multiplication, Negation, PivotLaws, Subtraction,
};
use vstd::prelude::*;

verus! {

/// The quotient of two integers, truncated toward zero.
pub open spec fn truncated_quotient(a: int, b: int) -> int {
    if a >= 0 {
        a / b
    } else {
        -((-a) / b)
    }
}

/// `num_traits::Zero::zero` of `i32` is the literal `0`.
pub assume_specification[ <i32 as num_traits::Zero>::zero ]() -> (r: i32)
    ensures
        r == 0,
;

/// `num_traits::Zero::is_zero` of `i32` compares with the literal `0`.
pub assume_specification[ <i32 as num_traits::Zero>::is_zero ](x: &i32) -> (b: bool)
    ensures
        b == (*x == 0),
;

/// `num_traits::One::one` of `i32` is the literal `1`.
pub assume_specification[ <i32 as num_traits::One>::one ]() -> (r: i32)
    ensures
        r == 1,
;

/// `num_traits::One::is_one` of `i32` compares with the literal `1`.
pub assume_specification[ <i32 as num_traits::One>::is_one ](x: &i32) -> (b: bool)
    ensures
        b == (*x == 1),
;

/// `num_traits::Signed::abs` of `i32` negates a negative value and returns
/// any other unchanged. The least value has no negation that fits, so it is
/// left out.
pub assume_specification[ <i32 as num_traits::Signed>::abs ](x: &i32) -> (r: i32)
    requires
        *x != i32::MIN,
    ensures
        r == (if *x < 0 { -*x } else { *x as int }),
;

impl AddIdentity for i32 {
    open spec fn zero_spec() -> i32 {
        0
    }

    open spec fn is_zero_spec(self) -> bool {
        self == 0
    }

    fn zero_value() -> i32 {
        <i32 as num_traits::Zero>::zero()
    }

    fn is_zero_value(self) -> bool {
        <i32 as num_traits::Zero>::is_zero(&self)
    }

    proof fn law_zero_is_zero() {
    }
}

impl MulIdentity for i32 {
    open spec fn one_spec() -> i32 {
        1
    }

    open spec fn is_one_spec(self) -> bool {
        self == 1
    }

    fn one_value() -> i32 {
        <i32 as num_traits::One>::one()
    }

    fn is_one_value(self) -> bool {
        <i32 as num_traits::One>::is_one(&self)
    }

    proof fn law_one_is_one() {
    }
}

impl Addition for i32 {
    open spec fn plus_spec(self, rhs: i32) -> i32 {
        vstd::wrapping::i32_specs::wrapping_add(self, rhs)
    }

    fn plus(self, rhs: i32) -> i32 {
        self.wrapping_add(rhs)
    }
}

impl Subtraction for i32 {
    open spec fn minus_spec(self, rhs: i32) -> i32 {
        vstd::wrapping::i32_specs::wrapping_sub(self, rhs)
    }

    fn minus(self, rhs: i32) -> i32 {
        self.wrapping_sub(rhs)
    }
}

impl Multiplication for i32 {
    open spec fn times_spec(self, rhs: i32) -> i32 {
        vstd::wrapping::i32_specs::wrapping_mul(self, rhs)
    }

    fn times(self, rhs: i32) -> i32 {
        self.wrapping_mul(rhs)
    }
}

impl Negation for i32 {
    open spec fn negated_spec(self) -> i32 {
        vstd::wrapping::i32_specs::wrapping_sub(0, self)
    }

    fn negated(self) -> i32 {
        let zero: i32 = 0;
        zero.wrapping_sub(self)
    }
}

impl Division for i32 {
    open spec fn over_spec(self, rhs: i32) -> i32 {
        if self == i32::MIN && rhs == -1 {
            i32::MIN
        } else {
            truncated_quotient(self as int, rhs as int) as i32
        }
    }

    fn over(self, rhs: i32) -> i32 {
        if self == i32::MIN && rhs == -1 {
            self
        } else {
            self / rhs
        }
    }
}

impl Magnitude for i32 {
    open spec fn magnitude_spec(self) -> i32 {
        if self < 0 && self != i32::MIN {
            (-self) as i32
        } else {
            self
        }
    }

    open spec fn exceeds_spec(self, other: i32) -> bool {
        self > other
    }

    open spec fn is_negligible_spec(self) -> bool {
        self == 0
    }

    fn magnitude(self) -> i32 {
        if self == i32::MIN {
            self
        } else {
            <i32 as num_traits::Signed>::abs(&self)
        }
    }

    fn exceeds(self, other: i32) -> bool {
        self > other
    }

    fn is_negligible(self) -> bool {
        <i32 as num_traits::Zero>::is_zero(&self)
    }
}

impl AdditionLaws for i32 {
    proof fn law_plus_commutative(a: i32, b: i32) {
    }

    proof fn law_plus_associative(a: i32, b: i32, c: i32) {
    }
}

impl IdentityLaws for i32 {
    proof fn law_plus_zero(a: i32) {
    }

    proof fn law_times_zero(a: i32) {
    }

    proof fn law_times_one(a: i32) {
    }
}

impl PivotLaws for i32 {
    proof fn law_zero_negligible() {
    }

    proof fn law_pivot_nonzero(a: i32) {
    }

    proof fn law_magnitude_zero() {
    }

    proof fn law_exceeds_asymmetric(a: i32, b: i32) {
    }

    proof fn law_one_dominates() {
    }

    proof fn law_neutral(a: i32) {
    }
}

/// `num_traits::Zero::zero` of `i64` is the literal `0`.
pub assume_specification[ <i64 as num_traits::Zero>::zero ]() -> (r: i64)
    ensures
        r == 0,
;

/// `num_traits::Zero::is_zero` of `i64` compares with the literal `0`.
pub assume_specification[ <i64 as num_traits::Zero>::is_zero ](x: &i64) -> (b: bool)
    ensures
        b == (*x == 0),
;

/// `num_traits::One::one` of `i64` is the literal `1`.
pub assume_specification[ <i64 as num_traits::One>::one ]() -> (r: i64)
    ensures
        r == 1,
;

/// `num_traits::One::is_one` of `i64` compares with the literal `1`.
pub assume_specification[ <i64 as num_traits::One>::is_one ](x: &i64) -> (b: bool)
    ensures
        b == (*x == 1),
;

/// `num_traits::Signed::abs` of `i64` negates a negative value and returns
/// any other unchanged. The least value has no negation that fits, so it is
/// left out.
pub assume_specification[ <i64 as num_traits::Signed>::abs ](x: &i64) -> (r: i64)
    requires
        *x != i64::MIN,
    ensures
        r == (if *x < 0 { -*x } else { *x as int }),
;

impl AddIdentity for i64 {
    open spec fn zero_spec() -> i64 {
        0
    }

    open spec fn is_zero_spec(self) -> bool {
        self == 0
    }

    fn zero_value() -> i64 {
        <i64 as num_traits::Zero>::zero()
    }

    fn is_zero_value(self) -> bool {
        <i64 as num_traits::Zero>::is_zero(&self)
    }

    proof fn law_zero_is_zero() {
    }
}

impl MulIdentity for i64 {
    open spec fn one_spec() -> i64 {
        1
    }

    open spec fn is_one_spec(self) -> bool {
        self == 1
    }

    fn one_value() -> i64 {
        <i64 as num_traits::One>::one()
    }

    fn is_one_value(self) -> bool {
        <i64 as num_traits::One>::is_one(&self)
    }

    proof fn law_one_is_one() {
    }
}

impl Addition for i64 {
    open spec fn plus_spec(self, rhs: i64) -> i64 {
        vstd::wrapping::i64_specs::wrapping_add(self, rhs)
    }

    fn plus(self, rhs: i64) -> i64 {
        self.wrapping_add(rhs)
    }
}

impl Subtraction for i64 {
    open spec fn minus_spec(self, rhs: i64) -> i64 {
        vstd::wrapping::i64_specs::wrapping_sub(self, rhs)
    }

    fn minus(self, rhs: i64) -> i64 {
        self.wrapping_sub(rhs)
    }
}

impl Multiplication for i64 {
    open spec fn times_spec(self, rhs: i64) -> i64 {
        vstd::wrapping::i64_specs::wrapping_mul(self, rhs)
    }

    fn times(self, rhs: i64) -> i64 {
        self.wrapping_mul(rhs)
    }
}

impl Negation for i64 {
    open spec fn negated_spec(self) -> i64 {
        vstd::wrapping::i64_specs::wrapping_sub(0, self)
    }

    fn negated(self) -> i64 {
        let zero: i64 = 0;
        zero.wrapping_sub(self)
    }
}

impl Division for i64 {
    open spec fn over_spec(self, rhs: i64) -> i64 {
        if self == i64::MIN && rhs == -1 {
            i64::MIN
        } else {
            truncated_quotient(self as int, rhs as int) as i64
        }
    }

    fn over(self, rhs: i64) -> i64 {
        if self == i64::MIN && rhs == -1 {
            self
        } else {
            self / rhs
        }
    }
}

impl Magnitude for i64 {
    open spec fn magnitude_spec(self) -> i64 {
        if self < 0 && self != i64::MIN {
            (-self) as i64
        } else {
            self
        }
    }

    open spec fn exceeds_spec(self, other: i64) -> bool {
        self > other
    }

    open spec fn is_negligible_spec(self) -> bool {
        self == 0
    }

    fn magnitude(self) -> i64 {
        if self == i64::MIN {
            self
        } else {
            <i64 as num_traits::Signed>::abs(&self)
        }
    }

    fn exceeds(self, other: i64) -> bool {
        self > other
    }

    fn is_negligible(self) -> bool {
        <i64 as num_traits::Zero>::is_zero(&self)
    }
}

impl AdditionLaws for i64 {
    proof fn law_plus_commutative(a: i64, b: i64) {
    }

    proof fn law_plus_associative(a: i64, b: i64, c: i64) {
    }
}

impl IdentityLaws for i64 {
    proof fn law_plus_zero(a: i64) {
    }

    proof fn law_times_zero(a: i64) {
    }

    proof fn law_times_one(a: i64) {
    }
}

impl PivotLaws for i64 {
    proof fn law_zero_negligible() {
    }

    proof fn law_pivot_nonzero(a: i64) {
    }

    proof fn law_magnitude_zero() {
    }

    proof fn law_exceeds_asymmetric(a: i64, b: i64) {
    }

    proof fn law_one_dominates() {
    }

    proof fn law_neutral(a: i64) {
    }
}

} // verus!
