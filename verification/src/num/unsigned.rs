//! The capabilities of the unsigned integers.
//!
//! Sums, differences and products wrap around, so every operation is defined
//! on every pair of values. There is no negation and no magnitude: an
//! unsigned matrix can be built, added and multiplied, not decomposed.

use crate::num::{
    AddIdentity, Addition, AdditionLaws, Division, IdentityLaws, MulIdentity, Multiplication,
    Subtraction,
};
use vstd::prelude::*;

verus! {

/// `num_traits::Zero::zero` of `u32` is the literal `0`.
pub assume_specification[ <u32 as num_traits::Zero>::zero ]() -> (r: u32)
    ensures
        r == 0,
;

/// `num_traits::Zero::is_zero` of `u32` compares with the literal `0`.
pub assume_specification[ <u32 as num_traits::Zero>::is_zero ](x: &u32) -> (b: bool)
    ensures
        b == (*x == 0),
;

/// `num_traits::One::one` of `u32` is the literal `1`.
pub assume_specification[ <u32 as num_traits::One>::one ]() -> (r: u32)
    ensures
        r == 1,
;

/// `num_traits::One::is_one` of `u32` compares with the literal `1`.
pub assume_specification[ <u32 as num_traits::One>::is_one ](x: &u32) -> (b: bool)
    ensures
        b == (*x == 1),
;

impl AddIdentity for u32 {
    open spec fn zero_spec() -> u32 {
        0
    }

    open spec fn is_zero_spec(self) -> bool {
        self == 0
    }

    fn zero_value() -> u32 {
        <u32 as num_traits::Zero>::zero()
    }

    fn is_zero_value(self) -> bool {
        <u32 as num_traits::Zero>::is_zero(&self)
    }

    proof fn law_zero_is_zero() {
    }
}

impl MulIdentity for u32 {
    open spec fn one_spec() -> u32 {
        1
    }

    open spec fn is_one_spec(self) -> bool {
        self == 1
    }

    fn one_value() -> u32 {
        <u32 as num_traits::One>::one()
    }

    fn is_one_value(self) -> bool {
        <u32 as num_traits::One>::is_one(&self)
    }

    proof fn law_one_is_one() {
    }
}

impl Addition for u32 {
    open spec fn plus_spec(self, rhs: u32) -> u32 {
        vstd::wrapping::u32_specs::wrapping_add(self, rhs)
    }

    fn plus(self, rhs: u32) -> u32 {
        self.wrapping_add(rhs)
    }
}

impl Subtraction for u32 {
    open spec fn minus_spec(self, rhs: u32) -> u32 {
        vstd::wrapping::u32_specs::wrapping_sub(self, rhs)
    }

    fn minus(self, rhs: u32) -> u32 {
        self.wrapping_sub(rhs)
    }
}

impl Multiplication for u32 {
    open spec fn times_spec(self, rhs: u32) -> u32 {
        vstd::wrapping::u32_specs::wrapping_mul(self, rhs)
    }

    fn times(self, rhs: u32) -> u32 {
        self.wrapping_mul(rhs)
    }
}

impl Division for u32 {
    open spec fn over_spec(self, rhs: u32) -> u32 {
        self / rhs
    }

    fn over(self, rhs: u32) -> u32 {
        self / rhs
    }
}

impl AdditionLaws for u32 {
    proof fn law_plus_commutative(a: u32, b: u32) {
    }

    proof fn law_plus_associative(a: u32, b: u32, c: u32) {
    }
}

impl IdentityLaws for u32 {
    proof fn law_plus_zero(a: u32) {
    }

    proof fn law_times_zero(a: u32) {
    }

    proof fn law_times_one(a: u32) {
    }
}

/// `num_traits::Zero::zero` of `u64` is the literal `0`.
pub assume_specification[ <u64 as num_traits::Zero>::zero ]() -> (r: u64)
    ensures
        r == 0,
;

/// `num_traits::Zero::is_zero` of `u64` compares with the literal `0`.
pub assume_specification[ <u64 as num_traits::Zero>::is_zero ](x: &u64) -> (b: bool)
    ensures
        b == (*x == 0),
;

/// `num_traits::One::one` of `u64` is the literal `1`.
pub assume_specification[ <u64 as num_traits::One>::one ]() -> (r: u64)
    ensures
        r == 1,
;

/// `num_traits::One::is_one` of `u64` compares with the literal `1`.
pub assume_specification[ <u64 as num_traits::One>::is_one ](x: &u64) -> (b: bool)
    ensures
        b == (*x == 1),
;

impl AddIdentity for u64 {
    open spec fn zero_spec() -> u64 {
        0
    }

    open spec fn is_zero_spec(self) -> bool {
        self == 0
    }

    fn zero_value() -> u64 {
        <u64 as num_traits::Zero>::zero()
    }

    fn is_zero_value(self) -> bool {
        <u64 as num_traits::Zero>::is_zero(&self)
    }

    proof fn law_zero_is_zero() {
    }
}

impl MulIdentity for u64 {
    open spec fn one_spec() -> u64 {
        1
    }

    open spec fn is_one_spec(self) -> bool {
        self == 1
    }

    fn one_value() -> u64 {
        <u64 as num_traits::One>::one()
    }

    fn is_one_value(self) -> bool {
        <u64 as num_traits::One>::is_one(&self)
    }

    proof fn law_one_is_one() {
    }
}

impl Addition for u64 {
    open spec fn plus_spec(self, rhs: u64) -> u64 {
        vstd::wrapping::u64_specs::wrapping_add(self, rhs)
    }

    fn plus(self, rhs: u64) -> u64 {
        self.wrapping_add(rhs)
    }
}

impl Subtraction for u64 {
    open spec fn minus_spec(self, rhs: u64) -> u64 {
        vstd::wrapping::u64_specs::wrapping_sub(self, rhs)
    }

    fn minus(self, rhs: u64) -> u64 {
        self.wrapping_sub(rhs)
    }
}

impl Multiplication for u64 {
    open spec fn times_spec(self, rhs: u64) -> u64 {
        vstd::wrapping::u64_specs::wrapping_mul(self, rhs)
    }

    fn times(self, rhs: u64) -> u64 {
        self.wrapping_mul(rhs)
    }
}

impl Division for u64 {
    open spec fn over_spec(self, rhs: u64) -> u64 {
        self / rhs
    }

    fn over(self, rhs: u64) -> u64 {
        self / rhs
    }
}

impl AdditionLaws for u64 {
    proof fn law_plus_commutative(a: u64, b: u64) {
    }

    proof fn law_plus_associative(a: u64, b: u64, c: u64) {
    }
}

impl IdentityLaws for u64 {
    proof fn law_plus_zero(a: u64) {
    }

    proof fn law_times_zero(a: u64) {
    }

    proof fn law_times_one(a: u64) {
    }
}

} // verus!
