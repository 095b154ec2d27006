//! The element algebra that the dual-number core and the array arithmetic are
//! generic over.
//!
//! A [`Scalar`] packages the arithmetic of one number type together with spec
//! functions that name the result of each operation, so that code built on top
//! of it can state exactly which combination of scalar operations it computes.
//! The crate ships an implementation for `usize` with wrapping semantics;
//! callers bring their own element types (floating-point ones among them) by
//! implementing the executable methods.

use vstd::prelude::*;

verus! {

/// One number type together with names for the results of its operations.
///
/// The spec functions carry no meaning of their own: every statement made over
/// them holds whatever the implementing type computes. Implementations whose
/// operations can fail on some input (division, say) must settle on a total
/// convention instead of panicking.
pub trait Scalar: Sized + Copy {
    /// What `add` returns.
    spec fn s_add(self, o: Self) -> Self;

    /// What `sub` returns.
    spec fn s_sub(self, o: Self) -> Self;

    /// What `mul` returns.
    spec fn s_mul(self, o: Self) -> Self;

    /// What `div` returns.
    spec fn s_div(self, o: Self) -> Self;

    /// What `rem` returns.
    spec fn s_rem(self, o: Self) -> Self;

    /// What `neg` returns.
    spec fn s_neg(self) -> Self;

    /// The additive identity value.
    spec fn s_zero() -> Self;

    /// The multiplicative identity value.
    spec fn s_one() -> Self;

    /// What `eq_val` returns.
    spec fn s_eq(self, o: Self) -> bool;

    /// What `lt_val` returns.
    spec fn s_lt(self, o: Self) -> bool;

    /// What `is_nan` returns.
    spec fn s_nan(self) -> bool;

    /// What `is_infinite` returns.
    spec fn s_infinite(self) -> bool;

    /// What `is_finite` returns.
    spec fn s_finite(self) -> bool;

    /// What `is_normal` returns.
    spec fn s_normal(self) -> bool;

    /// The sum of two scalars.
    fn add(self, o: Self) -> (r: Self)
        ensures
            r == self.s_add(o),
    ;

    /// The difference of two scalars.
    fn sub(self, o: Self) -> (r: Self)
        ensures
            r == self.s_sub(o),
    ;

    /// The product of two scalars.
    fn mul(self, o: Self) -> (r: Self)
        ensures
            r == self.s_mul(o),
    ;

    /// The quotient of two scalars.
    fn div(self, o: Self) -> (r: Self)
        ensures
            r == self.s_div(o),
    ;

    /// The remainder of two scalars.
    fn rem(self, o: Self) -> (r: Self)
        ensures
            r == self.s_rem(o),
    ;

    /// The additive inverse.
    fn neg(self) -> (r: Self)
        ensures
            r == self.s_neg(),
    ;

    /// The additive identity.
    fn zero() -> (r: Self)
        ensures
            r == Self::s_zero(),
    ;

    /// The multiplicative identity.
    fn one() -> (r: Self)
        ensures
            r == Self::s_one(),
    ;

    /// Whether the two scalars compare equal.
    fn eq_val(self, o: Self) -> (r: bool)
        ensures
            r == self.s_eq(o),
    ;

    /// Whether `self` orders strictly below `o`.
    fn lt_val(self, o: Self) -> (r: bool)
        ensures
            r == self.s_lt(o),
    ;

    /// Whether the scalar is not a number.
    fn is_nan(self) -> (r: bool)
        ensures
            r == self.s_nan(),
    ;

    /// Whether the scalar is infinite.
    fn is_infinite(self) -> (r: bool)
        ensures
            r == self.s_infinite(),
    ;

    /// Whether the scalar is finite.
    fn is_finite(self) -> (r: bool)
        ensures
            r == self.s_finite(),
    ;

    /// Whether the scalar is normal (finite, not zero, not subnormal).
    fn is_normal(self) -> (r: bool)
        ensures
            r == self.s_normal(),
    ;
}

/// `usize` with wrapping arithmetic; division and remainder by zero yield zero.
impl Scalar for usize {
    open spec fn s_add(self, o: usize) -> usize {
        vstd::wrapping::usize_specs::wrapping_add(self, o)
    }

    open spec fn s_sub(self, o: usize) -> usize {
        vstd::wrapping::usize_specs::wrapping_sub(self, o)
    }

    open spec fn s_mul(self, o: usize) -> usize {
        vstd::wrapping::usize_specs::wrapping_mul(self, o)
    }

    open spec fn s_div(self, o: usize) -> usize {
        if o == 0 {
            0
        } else {
            (self as int / o as int) as usize
        }
    }

    open spec fn s_rem(self, o: usize) -> usize {
        if o == 0 {
            0
        } else {
            (self as int % o as int) as usize
        }
    }

    open spec fn s_neg(self) -> usize {
        vstd::wrapping::usize_specs::wrapping_sub(0, self)
    }

    open spec fn s_zero() -> usize {
        0
    }

    open spec fn s_one() -> usize {
        1
    }

    open spec fn s_eq(self, o: usize) -> bool {
        self == o
    }

    open spec fn s_lt(self, o: usize) -> bool {
        self < o
    }

    open spec fn s_nan(self) -> bool {
        false
    }

    open spec fn s_infinite(self) -> bool {
        false
    }

    open spec fn s_finite(self) -> bool {
        true
    }

    open spec fn s_normal(self) -> bool {
        self != 0
    }

    fn add(self, o: usize) -> usize {
        self.wrapping_add(o)
    }

    fn sub(self, o: usize) -> usize {
        self.wrapping_sub(o)
    }

    fn mul(self, o: usize) -> usize {
        self.wrapping_mul(o)
    }

    fn div(self, o: usize) -> usize {
        if o == 0 {
            0
        } else {
            self / o
        }
    }

    fn rem(self, o: usize) -> usize {
        if o == 0 {
            0
        } else {
            self % o
        }
    }

    fn neg(self) -> usize {
        0usize.wrapping_sub(self)
    }

    fn zero() -> usize {
        0
    }

    fn one() -> usize {
        1
    }

    fn eq_val(self, o: usize) -> bool {
        self == o
    }

    fn lt_val(self, o: usize) -> bool {
        self < o
    }

    fn is_nan(self) -> bool {
        false
    }

    fn is_infinite(self) -> bool {
        false
    }

    fn is_finite(self) -> bool {
        true
    }

    fn is_normal(self) -> bool {
        self != 0
    }
}

} // verus!
