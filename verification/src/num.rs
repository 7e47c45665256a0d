//! Numeric capabilities.
//!
//! Every operation of the library asks only for the capabilities it uses:
//! an additive identity, a multiplicative identity, the four arithmetic
//! operations, negation, and a magnitude with an ordering for pivoting.
//! Each capability pairs an executable method with the specification
//! function that the contracts of the library are written over.
//!
//! The algebraic identities that some proofs and some safety arguments rest
//! on are collected in separate law traits, so that a caller who only adds
//! two matrices is not asked to prove anything about division.

use vstd::prelude::*;

pub mod signed;
pub mod unsigned;

verus! {

/// A type with an additive identity.
pub trait AddIdentity: Copy {
    /// The additive identity.
    spec fn zero_spec() -> Self;

    /// Whether a value counts as the additive identity.
    spec fn is_zero_spec(self) -> bool;

    fn zero_value() -> (r: Self)
        ensures
            r == Self::zero_spec(),
    ;

    fn is_zero_value(self) -> (b: bool)
        ensures
            b == self.is_zero_spec(),
    ;

    /// The additive identity counts as zero.
    proof fn law_zero_is_zero()
        ensures
            Self::zero_spec().is_zero_spec(),
    ;
}

/// A type with a multiplicative identity.
pub trait MulIdentity: Copy {
    /// The multiplicative identity.
    spec fn one_spec() -> Self;

    /// Whether a value counts as the multiplicative identity.
    spec fn is_one_spec(self) -> bool;

    fn one_value() -> (r: Self)
        ensures
            r == Self::one_spec(),
    ;

    fn is_one_value(self) -> (b: bool)
        ensures
            b == self.is_one_spec(),
    ;

    /// The multiplicative identity counts as one.
    proof fn law_one_is_one()
        ensures
            Self::one_spec().is_one_spec(),
    ;
}

/// Addition, defined on every pair of values.
pub trait Addition: Copy {
    spec fn plus_spec(self, rhs: Self) -> Self;

    fn plus(self, rhs: Self) -> (r: Self)
        ensures
            r == self.plus_spec(rhs),
    ;
}

/// Subtraction, defined on every pair of values.
pub trait Subtraction: Copy {
    spec fn minus_spec(self, rhs: Self) -> Self;

    fn minus(self, rhs: Self) -> (r: Self)
        ensures
            r == self.minus_spec(rhs),
    ;
}

/// Multiplication, defined on every pair of values.
pub trait Multiplication: Copy {
    spec fn times_spec(self, rhs: Self) -> Self;

    fn times(self, rhs: Self) -> (r: Self)
        ensures
            r == self.times_spec(rhs),
    ;
}

/// Negation, defined on every value.
pub trait Negation: Copy {
    spec fn negated_spec(self) -> Self;

    fn negated(self) -> (r: Self)
        ensures
            r == self.negated_spec(),
    ;
}

/// Division by anything but zero.
pub trait Division: AddIdentity {
    spec fn over_spec(self, rhs: Self) -> Self;

    fn over(self, rhs: Self) -> (r: Self)
        requires
            !rhs.is_zero_spec(),
        ensures
            r == self.over_spec(rhs),
    ;
}

/// Absolute value and the strict order that pivot selection compares by.
pub trait Magnitude: Copy {
    /// The absolute value.
    spec fn magnitude_spec(self) -> Self;

    /// Strictly greater than.
    spec fn exceeds_spec(self, other: Self) -> bool;

    /// Whether a magnitude is too small to serve as a pivot: below one
    /// millionth. For an integer type that is zero alone.
    spec fn is_negligible_spec(self) -> bool;

    fn magnitude(self) -> (r: Self)
        ensures
            r == self.magnitude_spec(),
    ;

    fn exceeds(self, other: Self) -> (b: bool)
        ensures
            b == self.exceeds_spec(other),
    ;

    fn is_negligible(self) -> (b: bool)
        ensures
            b == self.is_negligible_spec(),
    ;
}

/// Addition that is commutative and associative: true of exact types, and of
/// fixed-width integers, whose sums wrap.
pub trait AdditionLaws: Addition {
    proof fn law_plus_commutative(a: Self, b: Self)
        ensures
            a.plus_spec(b) == b.plus_spec(a),
    ;

    proof fn law_plus_associative(a: Self, b: Self, c: Self)
        ensures
            a.plus_spec(b).plus_spec(c) == a.plus_spec(b.plus_spec(c)),
    ;
}

/// How the two identities behave under addition and multiplication.
pub trait IdentityLaws: AddIdentity + MulIdentity + Addition + Multiplication {
    proof fn law_plus_zero(a: Self)
        ensures
            a.plus_spec(Self::zero_spec()) == a,
            Self::zero_spec().plus_spec(a) == a,
    ;

    proof fn law_times_zero(a: Self)
        ensures
            a.times_spec(Self::zero_spec()) == Self::zero_spec(),
            Self::zero_spec().times_spec(a) == Self::zero_spec(),
    ;

    proof fn law_times_one(a: Self)
        ensures
            a.times_spec(Self::one_spec()) == a,
            Self::one_spec().times_spec(a) == a,
    ;
}

/// What pivot selection and elimination rely on.
pub trait PivotLaws: IdentityLaws + Subtraction + Division + Magnitude {
    /// Zero is too small to be a pivot.
    proof fn law_zero_negligible()
        ensures
            Self::zero_spec().is_negligible_spec(),
    ;

    /// A value whose magnitude can serve as a pivot is not zero, so it can
    /// be divided by.
    proof fn law_pivot_nonzero(a: Self)
        requires
            !a.magnitude_spec().is_negligible_spec(),
        ensures
            !a.is_zero_spec(),
    ;

    /// Zero is its own magnitude.
    proof fn law_magnitude_zero()
        ensures
            Self::zero_spec().magnitude_spec() == Self::zero_spec(),
    ;

    /// Nothing exceeds itself, and no two values exceed each other.
    proof fn law_exceeds_asymmetric(a: Self, b: Self)
        ensures
            !(a.exceeds_spec(b) && b.exceeds_spec(a)),
    ;

    /// One is its own magnitude, exceeds zero and can serve as a pivot.
    proof fn law_one_dominates()
        ensures
            Self::one_spec().magnitude_spec() == Self::one_spec(),
            Self::one_spec().exceeds_spec(Self::zero_spec()),
            !Self::one_spec().is_negligible_spec(),
    ;

    /// Dividing by one and subtracting zero change nothing.
    proof fn law_neutral(a: Self)
        ensures
            a.over_spec(Self::one_spec()) == a,
            a.minus_spec(Self::zero_spec()) == a,
    ;
}

} // verus!
