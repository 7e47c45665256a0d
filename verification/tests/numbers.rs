use libmat::num::{
    AddIdentity, Addition, Division, Magnitude, MulIdentity, Multiplication, Negation,
    Subtraction,
};

#[test]
fn identities_of_the_integers() {
    assert_eq!(<i32 as AddIdentity>::zero_value(), 0);
    assert_eq!(<i64 as AddIdentity>::zero_value(), 0);
    assert_eq!(<u32 as AddIdentity>::zero_value(), 0);
    assert_eq!(<u64 as AddIdentity>::zero_value(), 0);
    assert_eq!(<i32 as MulIdentity>::one_value(), 1);
    assert_eq!(<i64 as MulIdentity>::one_value(), 1);
    assert_eq!(<u32 as MulIdentity>::one_value(), 1);
    assert_eq!(<u64 as MulIdentity>::one_value(), 1);
}

#[test]
fn tests_for_the_identities() {
    assert!(0_i32.is_zero_value() && !1_i32.is_zero_value() && !(-1_i32).is_zero_value());
    assert!(0_i64.is_zero_value() && !7_i64.is_zero_value());
    assert!(0_u32.is_zero_value() && !1_u32.is_zero_value());
    assert!(0_u64.is_zero_value() && !u64::MAX.is_zero_value());
    assert!(1_i32.is_one_value() && !0_i32.is_one_value() && !(-1_i32).is_one_value());
    assert!(1_i64.is_one_value() && !2_i64.is_one_value());
    assert!(1_u32.is_one_value() && !0_u32.is_one_value());
    assert!(1_u64.is_one_value() && !3_u64.is_one_value());
}

#[test]
fn magnitude_of_signed_integers() {
    assert_eq!((-5_i32).magnitude(), 5);
    assert_eq!(5_i32.magnitude(), 5);
    assert_eq!(0_i32.magnitude(), 0);
    assert_eq!(i32::MIN.magnitude(), i32::MIN);
    assert_eq!((i32::MIN + 1).magnitude(), i32::MAX);
    assert_eq!((-5_i64).magnitude(), 5);
    assert_eq!(i64::MIN.magnitude(), i64::MIN);
    assert!(3_i32.exceeds(2) && !2_i32.exceeds(2) && !(-3_i32).exceeds(2));
    assert!(3_i64.exceeds(-4) && !(-4_i64).exceeds(3));
    assert!(0_i32.is_negligible() && !1_i32.is_negligible() && !(-1_i32).is_negligible());
    assert!(0_i64.is_negligible() && !1_i64.is_negligible());
}

#[test]
fn integer_arithmetic_wraps() {
    assert_eq!(2_i32.plus(3), 5);
    assert_eq!(i32::MAX.plus(1), i32::MIN);
    assert_eq!(i32::MIN.minus(1), i32::MAX);
    assert_eq!(7_i32.minus(9), -2);
    assert_eq!(6_i32.times(-7), -42);
    assert_eq!(i32::MAX.times(2), -2);
    assert_eq!(5_i32.negated(), -5);
    assert_eq!(i32::MIN.negated(), i32::MIN);
    assert_eq!(i64::MAX.plus(1), i64::MIN);
    assert_eq!(i64::MIN.negated(), i64::MIN);
    assert_eq!(0_u32.minus(1), u32::MAX);
    assert_eq!(u32::MAX.plus(2), 1);
    assert_eq!(u32::MAX.times(2), u32::MAX - 1);
    assert_eq!(u64::MAX.plus(1), 0);
    assert_eq!(3_u64.times(4), 12);
}

#[test]
fn integer_division_truncates() {
    assert_eq!(7_i32.over(2), 3);
    assert_eq!((-7_i32).over(2), -3);
    assert_eq!(7_i32.over(-2), -3);
    assert_eq!((-7_i32).over(-2), 3);
    assert_eq!(i32::MIN.over(-1), i32::MIN);
    assert_eq!((-9_i64).over(4), -2);
    assert_eq!(i64::MIN.over(-1), i64::MIN);
    assert_eq!(7_u32.over(2), 3);
    assert_eq!(9_u64.over(10), 0);
}
